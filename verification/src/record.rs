//! Record fragments and the run-length decompression of their payload.

use vstd::prelude::*;

use crate::error::Error;
use crate::util::{copy_range, le16, le32, read_i32_at, read_u16_at, signed32};

verus! {

/// The logical bytes encoded by a run-length-compressed stream.
///
/// The stream is a sequence of signed control bytes: `0` stops the
/// decoding; a positive `n` is followed by `n` verbatim bytes; a
/// negative `n` is followed by one byte that is repeated `|n|` times.
/// A stream that ends in the middle of a run stops at the end of the
/// input without error.
pub open spec fn rle_decoded(s: Seq<u8>) -> Seq<u8>
    decreases s.len(),
{
    if s.len() == 0 {
        Seq::empty()
    } else {
        let c = s[0];
        if c == 0 {
            Seq::empty()
        } else if c < 0x80 {
            let n = if c <= s.len() - 1 {
                c as int
            } else {
                s.len() - 1
            };
            s.subrange(1, 1 + n) + rle_decoded(s.skip(1 + n))
        } else {
            if s.len() == 1 {
                Seq::empty()
            } else {
                Seq::new((0x100 - c) as nat, |i: int| s[1]) + rle_decoded(s.skip(2))
            }
        }
    }
}

/// `enc` is a complete run-length encoding of `plain`: every run is
/// fully present, the runs cover `plain` exactly, and the stream ends
/// at the end of the input or with a `0` control byte.
pub open spec fn is_rle_encoding(enc: Seq<u8>, plain: Seq<u8>) -> bool
    decreases enc.len(),
{
    if enc.len() == 0 {
        plain.len() == 0
    } else {
        let c = enc[0];
        if c == 0 {
            plain.len() == 0
        } else if c < 0x80 {
            let n = c as int;
            &&& enc.len() >= 1 + n
            &&& plain.len() >= n
            &&& plain.take(n) == enc.subrange(1, 1 + n)
            &&& is_rle_encoding(enc.skip(1 + n), plain.skip(n))
        } else {
            let k = 0x100 - c;
            &&& enc.len() >= 2
            &&& plain.len() >= k
            &&& plain.take(k) == Seq::new(k as nat, |i: int| enc[1])
            &&& is_rle_encoding(enc.skip(2), plain.skip(k))
        }
    }
}

/// Round trip: decompressing any complete run-length encoding of a
/// byte sequence reproduces that sequence exactly.
pub proof fn lemma_rle_round_trip(enc: Seq<u8>, plain: Seq<u8>)
    requires
        is_rle_encoding(enc, plain),
    ensures
        rle_decoded(enc) == plain,
    decreases enc.len(),
{
    if enc.len() == 0 || enc[0] == 0 {
        assert(rle_decoded(enc) =~= plain);
    } else if enc[0] < 0x80 {
        let n = enc[0] as int;
        lemma_rle_round_trip(enc.skip(1 + n), plain.skip(n));
        assert(rle_decoded(enc) =~= plain);
    } else {
        let k = 0x100 - enc[0];
        lemma_rle_round_trip(enc.skip(2), plain.skip(k));
        assert(rle_decoded(enc) =~= plain);
    }
}

/// Decodes the run-length-compressed record payload.
pub fn rle_decode(data: &Vec<u8>) -> (result: Vec<u8>)
    ensures
        result@ == rle_decoded(data@),
{
    let len = data.len();
    let mut result: Vec<u8> = Vec::new();
    let mut i: usize = 0;
    proof {
        assert(data@.skip(0) =~= data@);
        assert(result@ + rle_decoded(data@.skip(0)) =~= rle_decoded(data@));
    }
    loop
        invariant
            0 <= i <= len,
            len == data@.len(),
            rle_decoded(data@) == result@ + rle_decoded(data@.skip(i as int)),
        ensures
            result@ == rle_decoded(data@),
        decreases len - i,
    {
        if i >= len {
            proof {
                assert(data@.skip(len as int) =~= Seq::<u8>::empty());
                assert(result@ =~= result@ + rle_decoded(data@.skip(len as int)));
            }
            break;
        }
        let ghost rest = data@.skip(i as int);
        proof {
            assert(rest[0] == data@[i as int]);
        }
        let c = data[i];
        if c == 0 {
            proof {
                assert(result@ =~= result@ + rle_decoded(rest));
            }
            break;
        } else if c < 0x80 {
            let n = if (c as usize) <= len - 1 - i {
                c as usize
            } else {
                len - 1 - i
            };
            let ghost prev = result@;
            let mut j: usize = 0;
            while j < n
                invariant
                    0 <= j <= n,
                    i + 1 + n <= len == data@.len(),
                    result@ == prev + data@.subrange(i + 1, i + 1 + j),
                decreases n - j,
            {
                result.push(data[i + 1 + j]);
                proof {
                    assert(result@ =~= prev + data@.subrange(i + 1, i + 1 + j + 1));
                }
                j = j + 1;
            }
            proof {
                assert(rest.subrange(1, 1 + n) =~= data@.subrange(i + 1, i + 1 + n));
                assert(rest.skip(1 + n) =~= data@.skip(i + 1 + n));
                assert(result@ + rle_decoded(data@.skip(i + 1 + n)) =~= prev + rle_decoded(rest));
            }
            i = i + 1 + n;
        } else {
            if i + 1 >= len {
                proof {
                    assert(rest.len() == 1);
                    assert(result@ =~= result@ + rle_decoded(rest));
                }
                i = len;
                break;
            }
            let k: usize = 0x100 - (c as usize);
            let b = data[i + 1];
            let ghost prev = result@;
            let mut j: usize = 0;
            while j < k
                invariant
                    0 <= j <= k,
                    i + 2 <= len == data@.len(),
                    b == data@[i + 1],
                    result@ == prev + Seq::new(j as nat, |t: int| b),
                decreases k - j,
            {
                result.push(b);
                proof {
                    assert(result@ =~= prev + Seq::new((j + 1) as nat, |t: int| b));
                }
                j = j + 1;
            }
            proof {
                assert(Seq::new(k as nat, |t: int| b) =~= Seq::new((0x100 - rest[0]) as nat, |t: int| rest[1]));
                assert(rest.skip(2) =~= data@.skip(i + 2));
                assert(result@ + rle_decoded(data@.skip(i + 2)) =~= prev + rle_decoded(rest));
            }
            i = i + 2;
        }
    }
    result
}

/// Whether a slot's byte range can be decoded as a record fragment:
/// it must hold the 13-byte fragment prefix and stay within the
/// supported fragment capacity.
pub open spec fn record_size_ok(b: Seq<u8>) -> bool {
    13 <= b.len() <= 1024
}

/// `r` holds exactly the fields of the record fragment laid out in `b`.
pub open spec fn is_record_of(r: RecordHeader, b: Seq<u8>) -> bool {
    &&& r.transaction as int == signed32(le32(b[0], b[1], b[2], b[3]))
    &&& r.b_page as int == signed32(le32(b[4], b[5], b[6], b[7]))
    &&& r.b_line as int == le16(b[8], b[9])
    &&& r.flags as int == le16(b[10], b[11])
    &&& r.format == b[12]
    &&& r.data@ == b.skip(13)
}

/// Header of an unfragmented record.
#[derive(Debug, Clone)]
pub struct RecordHeader {
    /// The id of the transaction that created this record.
    pub transaction: i32,
    /// The record's back pointer page.
    pub b_page: i32,
    /// The record's back line pointer.
    pub b_line: u16,
    /// Record flags.
    pub flags: u16,
    /// The record format version.
    pub format: u8,
    /// The run-length-compressed payload.
    pub data: Vec<u8>,
}

impl RecordHeader {
    /// Decodes one record fragment from the bytes of its slot:
    /// a 13-byte prefix (transaction, back pointer page and line,
    /// flags, format) followed by the compressed payload.
    pub fn from_bytes(bytes: Vec<u8>) -> (r: Result<RecordHeader, Error>)
        ensures
            r is Ok <==> record_size_ok(bytes@),
            r matches Ok(rec) ==> is_record_of(rec, bytes@),
            bytes@.len() > 1024 ==> (r matches Err(e) && e matches Error::Overflow {
                limit,
                value,
                ..
            } && limit == 1024 && value == bytes@.len()),
            bytes@.len() < 13 ==> (r matches Err(e) && e is Other),
    {
        if bytes.len() > 1024 {
            return Err(
                Error::Overflow {
                    limit: 1024,
                    value: bytes.len(),
                    msg: "supported data on header".to_string(),
                },
            );
        }
        if bytes.len() < 13 {
            return Err(Error::Other("record fragment shorter than its prefix".to_string()));
        }
        let data = copy_range(&bytes, 13, bytes.len());
        Ok(
            RecordHeader {
                transaction: read_i32_at(&bytes, 0),
                b_page: read_i32_at(&bytes, 4),
                b_line: read_u16_at(&bytes, 8),
                flags: read_u16_at(&bytes, 10),
                format: bytes[12],
                data,
            },
        )
    }

    /// Decompresses the payload into the record's logical bytes.
    pub fn read(&self) -> (r: Result<Vec<u8>, Error>)
        ensures
            r is Ok,
            r matches Ok(d) ==> d@ == rle_decoded(self.data@),
    {
        Ok(rle_decode(&self.data))
    }
}

} // verus!
