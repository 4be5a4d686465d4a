//! Byte-level helpers: little-endian field readers, range copying,
//! the whitespace trimming applied to catalog text fields, and the
//! decimal rendering used by diagnostic messages.

use vstd::prelude::*;
use vstd::string::StringExecFns;

verus! {

/// `needle` occurs in `hay` as a contiguous run of characters.
pub open spec fn contains_chars(hay: Seq<char>, needle: Seq<char>) -> bool {
    exists|k: int|
        0 <= k && k + needle.len() <= hay.len() && #[trigger] hay.subrange(k, k + needle.len())
            == needle
}

/// The decimal digit `d` as a character.
pub open spec fn digit_char(d: int) -> char
    recommends
        0 <= d <= 9,
{
    if d == 0 {
        '0'
    } else if d == 1 {
        '1'
    } else if d == 2 {
        '2'
    } else if d == 3 {
        '3'
    } else if d == 4 {
        '4'
    } else if d == 5 {
        '5'
    } else if d == 6 {
        '6'
    } else if d == 7 {
        '7'
    } else if d == 8 {
        '8'
    } else {
        '9'
    }
}

/// The decimal digits of a non-negative number, most significant
/// first.
pub open spec fn dec_digits(n: int) -> Seq<char>
    recommends
        n >= 0,
    decreases n,
{
    if n < 10 {
        seq![digit_char(n)]
    } else {
        dec_digits(n / 10) + seq![digit_char(n % 10)]
    }
}

/// The decimal rendering of a number, with a leading minus sign when
/// it is negative.
pub open spec fn dec_chars(n: int) -> Seq<char> {
    if n < 0 {
        seq!['-'] + dec_digits(-n)
    } else {
        dec_digits(n)
    }
}

/// Renders a non-negative number in decimal.
fn digits_string(n: u32) -> (r: String)
    ensures
        r@ == dec_digits(n as int),
    decreases n,
{
    let d: u32 = n % 10;
    let ds: &str = if d == 0 {
        "0"
    } else if d == 1 {
        "1"
    } else if d == 2 {
        "2"
    } else if d == 3 {
        "3"
    } else if d == 4 {
        "4"
    } else if d == 5 {
        "5"
    } else if d == 6 {
        "6"
    } else if d == 7 {
        "7"
    } else if d == 8 {
        "8"
    } else {
        "9"
    };
    proof {
        reveal_strlit("0");
        reveal_strlit("1");
        reveal_strlit("2");
        reveal_strlit("3");
        reveal_strlit("4");
        reveal_strlit("5");
        reveal_strlit("6");
        reveal_strlit("7");
        reveal_strlit("8");
        reveal_strlit("9");
        assert(ds@ =~= seq![digit_char(d as int)]);
    }
    if n < 10 {
        ds.to_owned()
    } else {
        proof {
            assert(n / 10 < n) by (nonlinear_arith)
                requires
                    n >= 10,
            ;
        }
        let rest = digits_string(n / 10);
        rest.concat(ds)
    }
}

/// Renders a signed number in decimal.
pub fn decimal_string(n: i16) -> (r: String)
    ensures
        r@ == dec_chars(n as int),
{
    if n < 0 {
        let mag: u32 = (-(n as i32)) as u32;
        proof {
            reveal_strlit("-");
            assert("-"@ =~= seq!['-']);
        }
        let r = "-".to_owned().concat(digits_string(mag).as_str());
        proof {
            assert(r@ =~= dec_chars(n as int));
        }
        r
    } else {
        digits_string(n as u32)
    }
}

/// The unsigned value of two little-endian bytes.
pub open spec fn le16(b0: u8, b1: u8) -> int {
    b0 + 256 * b1
}

/// The unsigned value of four little-endian bytes.
pub open spec fn le32(b0: u8, b1: u8, b2: u8, b3: u8) -> int {
    b0 + 0x100 * b1 + 0x1_0000 * b2 + 0x100_0000 * b3
}

/// Reinterprets an unsigned 16-bit value as two's-complement signed.
pub open spec fn signed16(v: int) -> int {
    if v >= 0x8000 {
        v - 0x1_0000
    } else {
        v
    }
}

/// Reinterprets an unsigned 32-bit value as two's-complement signed.
pub open spec fn signed32(v: int) -> int {
    if v >= 0x8000_0000 {
        v - 0x1_0000_0000
    } else {
        v
    }
}

/// Reads an unsigned 16-bit little-endian field at `off`.
pub fn read_u16_at(bytes: &Vec<u8>, off: usize) -> (r: u16)
    requires
        off + 2 <= bytes.len(),
    ensures
        r as int == le16(bytes@[off as int], bytes@[off + 1]),
{
    bytes[off] as u16 + (bytes[off + 1] as u16) * 256
}

/// Reads an unsigned 32-bit little-endian field at `off`.
pub fn read_u32_at(bytes: &Vec<u8>, off: usize) -> (r: u32)
    requires
        off + 4 <= bytes.len(),
    ensures
        r as int == le32(
            bytes@[off as int],
            bytes@[off + 1],
            bytes@[off + 2],
            bytes@[off + 3],
        ),
{
    bytes[off] as u32 + (bytes[off + 1] as u32) * 0x100 + (bytes[off + 2] as u32) * 0x1_0000
        + (bytes[off + 3] as u32) * 0x100_0000
}

/// Relies on byteorder's `LittleEndian::read_i16`: the first two bytes
/// of the slice as a little-endian two's-complement 16-bit integer
/// (it panics on a shorter slice).
#[verifier::external_body]
pub fn read_i16_at(bytes: &Vec<u8>, off: usize) -> (r: i16)
    requires
        off + 2 <= bytes.len(),
    ensures
        r as int == signed16(le16(bytes@[off as int], bytes@[off + 1])),
{
    <byteorder::LittleEndian as byteorder::ByteOrder>::read_i16(&bytes[off..off + 2])
}

/// Relies on byteorder's `LittleEndian::read_i32`: the first four bytes
/// of the slice as a little-endian two's-complement 32-bit integer
/// (it panics on a shorter slice).
#[verifier::external_body]
pub fn read_i32_at(bytes: &Vec<u8>, off: usize) -> (r: i32)
    requires
        off + 4 <= bytes.len(),
    ensures
        r as int == signed32(
            le32(bytes@[off as int], bytes@[off + 1], bytes@[off + 2], bytes@[off + 3]),
        ),
{
    <byteorder::LittleEndian as byteorder::ByteOrder>::read_i32(&bytes[off..off + 4])
}

/// Copies `bytes[from..to]` into a fresh vector.
pub fn copy_range(bytes: &Vec<u8>, from: usize, to: usize) -> (r: Vec<u8>)
    requires
        from <= to <= bytes.len(),
    ensures
        r@ == bytes@.subrange(from as int, to as int),
{
    let mut out: Vec<u8> = Vec::new();
    let mut i: usize = from;
    while i < to
        invariant
            from <= i <= to <= bytes@.len(),
            out@ == bytes@.subrange(from as int, i as int),
        decreases to - i,
    {
        out.push(bytes[i]);
        proof {
            assert(out@ =~= bytes@.subrange(from as int, i + 1));
        }
        i = i + 1;
    }
    out
}

/// ASCII whitespace, the bytes that trimming removes.
pub open spec fn is_ws(b: u8) -> bool {
    b == 0x20 || b == 0x09 || b == 0x0a || b == 0x0b || b == 0x0c || b == 0x0d
}

/// `s` without its leading whitespace bytes.
pub open spec fn trim_left(s: Seq<u8>) -> Seq<u8>
    decreases s.len(),
{
    if s.len() > 0 && is_ws(s[0]) {
        trim_left(s.drop_first())
    } else {
        s
    }
}

/// `s` without its trailing whitespace bytes.
pub open spec fn trim_right(s: Seq<u8>) -> Seq<u8>
    decreases s.len(),
{
    if s.len() > 0 && is_ws(s.last()) {
        trim_right(s.drop_last())
    } else {
        s
    }
}

/// `s` without leading and trailing whitespace bytes.
pub open spec fn trimmed(s: Seq<u8>) -> Seq<u8> {
    trim_right(trim_left(s))
}

/// Copies `bytes[from..to]` with leading and trailing ASCII
/// whitespace removed.
pub fn trim_range(bytes: &Vec<u8>, from: usize, to: usize) -> (r: Vec<u8>)
    requires
        from <= to <= bytes.len(),
    ensures
        r@ == trimmed(bytes@.subrange(from as int, to as int)),
{
    let ghost s = bytes@.subrange(from as int, to as int);
    let mut lo: usize = from;
    loop
        invariant
            from <= lo <= to <= bytes@.len(),
            trim_left(s) == trim_left(bytes@.subrange(lo as int, to as int)),
        ensures
            from <= lo <= to,
            trim_left(s) == bytes@.subrange(lo as int, to as int),
        decreases to - lo,
    {
        proof {
            if lo < to {
                assert(bytes@.subrange(lo as int, to as int)[0] == bytes@[lo as int]);
                assert(bytes@.subrange(lo as int, to as int).drop_first() =~= bytes@.subrange(
                    lo + 1,
                    to as int,
                ));
            }
        }
        if lo >= to || !(bytes[lo] == 0x20 || bytes[lo] == 0x09 || bytes[lo] == 0x0a || bytes[lo]
            == 0x0b || bytes[lo] == 0x0c || bytes[lo] == 0x0d) {
            break;
        }
        lo = lo + 1;
    }
    let mut hi: usize = to;
    loop
        invariant
            from <= lo <= hi <= to <= bytes@.len(),
            trim_left(s) == bytes@.subrange(lo as int, to as int),
            trim_right(trim_left(s)) == trim_right(bytes@.subrange(lo as int, hi as int)),
        ensures
            lo <= hi <= to,
            trim_right(trim_left(s)) == bytes@.subrange(lo as int, hi as int),
        decreases hi - lo,
    {
        proof {
            if hi > lo {
                assert(bytes@.subrange(lo as int, hi as int).last() == bytes@[hi - 1]);
                assert(bytes@.subrange(lo as int, hi as int).drop_last() =~= bytes@.subrange(
                    lo as int,
                    hi - 1,
                ));
            }
        }
        if hi <= lo || !(bytes[hi - 1] == 0x20 || bytes[hi - 1] == 0x09 || bytes[hi - 1] == 0x0a
            || bytes[hi - 1] == 0x0b || bytes[hi - 1] == 0x0c || bytes[hi - 1] == 0x0d) {
            break;
        }
        hi = hi - 1;
    }
    copy_range(bytes, lo, hi)
}

/// Whether two byte vectors hold the same bytes.
pub fn bytes_eq(a: &Vec<u8>, b: &Vec<u8>) -> (r: bool)
    ensures
        r == (a@ == b@),
{
    if a.len() != b.len() {
        proof {
            assert(a@ != b@);
        }
        return false;
    }
    let mut i: usize = 0;
    while i < a.len()
        invariant
            0 <= i <= a@.len(),
            a@.len() == b@.len(),
            forall|j: int| 0 <= j < i ==> a@[j] == b@[j],
        decreases a@.len() - i,
    {
        if a[i] != b[i] {
            proof {
                assert(a@ != b@);
            }
            return false;
        }
        i = i + 1;
    }
    proof {
        assert(a@ =~= b@);
    }
    true
}

/// Whether the vector holds the byte `needle`.
pub fn contains_byte(bytes: &Vec<u8>, needle: u8) -> (r: bool)
    ensures
        r == bytes@.contains(needle),
{
    let mut i: usize = 0;
    while i < bytes.len()
        invariant
            0 <= i <= bytes@.len(),
            forall|j: int| 0 <= j < i ==> bytes@[j] != needle,
        decreases bytes@.len() - i,
    {
        if bytes[i] == needle {
            return true;
        }
        i = i + 1;
    }
    false
}

} // verus!
