//! Telling text files from binary ones, and decoding text files.
use vstd::prelude::*;
use vstd::utf8::{valid_utf8, decode_utf8};

verus! {

/// What the bytes of a file look like.
#[derive(Debug, Clone, Copy, PartialEq, Eq, Structural)]
pub enum FileType {
    Utf8Like,
    Utf16 { little_endian: bool },
    Binary,
}

/// How many leading bytes `classify_file` inspects.
pub const TEST_WINDOW: usize = 8192;

/// A control byte other than `\n`, `\r` and `\t`.
pub open spec fn is_control(b: u8) -> bool {
    b < 0x20 && b != 10 && b != 13 && b != 9
}

pub open spec fn control_count(w: Seq<u8>) -> nat
    decreases w.len(),
{
    if w.len() == 0 {
        0
    } else {
        control_count(w.drop_last()) + if is_control(w.last()) {
            1nat
        } else {
            0nat
        }
    }
}

/// The first `TEST_WINDOW` bytes (or all of them).
pub open spec fn test_window(b: Seq<u8>) -> Seq<u8> {
    if b.len() <= TEST_WINDOW {
        b
    } else {
        b.take(TEST_WINDOW as int)
    }
}

/// Empty data is text; a UTF-16 byte-order mark makes UTF-16 text; a NUL
/// byte in the window, or control bytes making up more than one percent of
/// it, make binary data; anything else is UTF-8-like text.
pub open spec fn spec_classify(b: Seq<u8>) -> FileType {
    if b.len() == 0 {
        FileType::Utf8Like
    } else if b.len() >= 2 && b[0] == 0xFF && b[1] == 0xFE {
        FileType::Utf16 { little_endian: true }
    } else if b.len() >= 2 && b[0] == 0xFE && b[1] == 0xFF {
        FileType::Utf16 { little_endian: false }
    } else if test_window(b).contains(0u8) {
        FileType::Binary
    } else if control_count(test_window(b)) * 100 > test_window(b).len() {
        FileType::Binary
    } else {
        FileType::Utf8Like
    }
}

/// Whether the data in question appears to be binary data (eg .png, .mp4,
/// .mp3) or text data (.txt, .java etc).  This is not a bulletproof test, it
/// can be wrong on very unusual binary files.
pub fn classify_file(bytes: &[u8]) -> (r: FileType)
    ensures
        r == spec_classify(bytes@),
{
    let n = bytes.len();
    if n == 0 {
        return FileType::Utf8Like;
    }
    if n >= 2 && bytes[0] == 0xFF && bytes[1] == 0xFE {
        return FileType::Utf16 { little_endian: true };
    }
    if n >= 2 && bytes[0] == 0xFE && bytes[1] == 0xFF {
        return FileType::Utf16 { little_endian: false };
    }
    let w: usize = if n <= TEST_WINDOW {
        n
    } else {
        TEST_WINDOW
    };
    let ghost window = test_window(bytes@);
    assert(window =~= bytes@.take(w as int));
    let mut control: usize = 0;
    let mut i: usize = 0;
    while i < w
        invariant
            i <= w <= TEST_WINDOW,
            w <= n == bytes@.len(),
            window == bytes@.take(w as int),
            window == test_window(bytes@),
            n > 0,
            !(n >= 2 && bytes@[0] == 0xFF && bytes@[1] == 0xFE),
            !(n >= 2 && bytes@[0] == 0xFE && bytes@[1] == 0xFF),
            forall|j: int| 0 <= j < i ==> bytes@[j] != 0u8,
            control as nat == control_count(window.take(i as int)),
            control <= i,
        decreases w - i,
    {
        let b = bytes[i];
        if b == 0 {
            assert(window[i as int] == 0u8);
            assert(window.contains(0u8));
            return FileType::Binary;
        }
        assert(window.take(i + 1).drop_last() =~= window.take(i as int));
        if b < 0x20 && b != 10 && b != 13 && b != 9 {
            control = control + 1;
        }
        i = i + 1;
    }
    assert(window.take(w as int) =~= window);
    assert(!window.contains(0u8)) by {
        if window.contains(0u8) {
            let j = choose|j: int| 0 <= j < window.len() && window[j] == 0u8;
            assert(bytes@[j] == 0u8);
        }
    }
    if control * 100 > w {
        FileType::Binary
    } else {
        FileType::Utf8Like
    }
}

/// The UTF-16 code units of `bytes`, read in pairs.
pub open spec fn utf16_units(bytes: Seq<u8>, little_endian: bool) -> Seq<u16> {
    Seq::new(
        bytes.len() / 2,
        |i: int|
            if little_endian {
                (bytes[2 * i] + 256 * bytes[2 * i + 1]) as u16
            } else {
                (256 * bytes[2 * i] + bytes[2 * i + 1]) as u16
            },
    )
}

/// UTF-16 decoding in which each unpaired surrogate becomes U+FFFD.
pub open spec fn utf16_lossy(u: Seq<u16>) -> Seq<char>
    decreases u.len(),
{
    if u.len() == 0 {
        Seq::empty()
    } else if u[0] < 0xD800 || u[0] > 0xDFFF {
        seq![u[0] as char] + utf16_lossy(u.skip(1))
    } else if u[0] <= 0xDBFF && u.len() >= 2 && 0xDC00 <= u[1] <= 0xDFFF {
        seq![(0x10000 + (u[0] - 0xD800) * 0x400 + (u[1] - 0xDC00)) as char] + utf16_lossy(
            u.skip(2),
        )
    } else {
        seq!['\u{FFFD}'] + utf16_lossy(u.skip(1))
    }
}

/// `String::from_utf16_lossy`: decodes `units` as UTF-16, replacing each
/// unpaired surrogate with U+FFFD.
#[verifier::external_body]
fn string_from_utf16_lossy(units: &[u16]) -> (r: String)
    ensures
        r@ == utf16_lossy(units@),
{
    String::from_utf16_lossy(units)
}

/// What `String::from_utf8_lossy` makes of `bytes`.
pub uninterp spec fn utf8_lossy(bytes: Seq<u8>) -> Seq<char>;

/// `String::from_utf8_lossy`: decodes `bytes` as UTF-8, replacing invalid
/// sequences with U+FFFD.  The contract names the result; of valid UTF-8 it
/// states that the decoding is exact.
#[verifier::external_body]
pub(crate) fn string_from_utf8_lossy(bytes: &[u8]) -> (r: String)
    ensures
        r@ == utf8_lossy(bytes@),
        valid_utf8(bytes@) ==> r@ == decode_utf8(bytes@),
{
    String::from_utf8_lossy(bytes).into_owned()
}

/// Decodes UTF-16 text whose first two bytes are a byte-order mark; the mark
/// is dropped, a trailing odd byte is ignored.
pub fn decode_utf16(bytes: &[u8], little_endian: bool) -> (r: String)
    requires
        bytes@.len() >= 2,
    ensures
        r@ == utf16_lossy(utf16_units(bytes@.skip(2), little_endian)),
{
    let n = bytes.len();
    let count = (n - 2) / 2;
    let ghost rest = bytes@.skip(2);
    let mut units: Vec<u16> = Vec::new();
    let mut i: usize = 0;
    while i < count
        invariant
            i <= count,
            count == (n - 2) / 2,
            n == bytes@.len(),
            rest == bytes@.skip(2),
            units@ == utf16_units(rest, little_endian).take(i as int),
        decreases count - i,
    {
        let a = bytes[2 + 2 * i];
        let b = bytes[3 + 2 * i];
        let unit: u16 = if little_endian {
            (a as u16) + 256 * (b as u16)
        } else {
            256 * (a as u16) + (b as u16)
        };
        proof {
            assert(rest[2 * i] == a && rest[2 * i + 1] == b);
            assert(utf16_units(rest, little_endian)[i as int] == unit);
            assert(units@.push(unit) =~= utf16_units(rest, little_endian).take(i + 1));
        }
        units.push(unit);
        i = i + 1;
    }
    assert(units@ =~= utf16_units(rest, little_endian));
    string_from_utf16_lossy(units.as_slice())
}

/// The UTF-16 code units of `s`: one per character below U+10000, else a
/// surrogate pair.
pub open spec fn utf16_encode(s: Seq<char>) -> Seq<u16>
    decreases s.len(),
{
    if s.len() == 0 {
        Seq::empty()
    } else {
        let c = s[0] as int;
        let head = if c < 0x10000 {
            seq![c as u16]
        } else {
            seq![(0xD800 + (c - 0x10000) / 0x400) as u16, (0xDC00 + (c - 0x10000) % 0x400) as u16]
        };
        head + utf16_encode(s.skip(1))
    }
}

/// The bytes of code units `u`, two per unit, low byte first when
/// `little_endian`.
pub open spec fn utf16_bytes(u: Seq<u16>, little_endian: bool) -> Seq<u8>
    decreases u.len(),
{
    if u.len() == 0 {
        Seq::empty()
    } else {
        let lo = (u[0] % 256) as u8;
        let hi = (u[0] / 256) as u8;
        (if little_endian {
            seq![lo, hi]
        } else {
            seq![hi, lo]
        }) + utf16_bytes(u.skip(1), little_endian)
    }
}

proof fn lemma_utf16_bytes(u: Seq<u16>, little_endian: bool)
    ensures
        utf16_bytes(u, little_endian).len() == 2 * u.len(),
        forall|i: int|
            #![trigger u[i]]
            0 <= i < u.len() ==> {
                let b = utf16_bytes(u, little_endian);
                &&& little_endian ==> b[2 * i] == (u[i] % 256) as u8 && b[2 * i + 1] == (u[i] / 256) as u8
                &&& !little_endian ==> b[2 * i] == (u[i] / 256) as u8 && b[2 * i + 1] == (u[i] % 256) as u8
            },
    decreases u.len(),
{
    if u.len() > 0 {
        let rest = u.skip(1);
        lemma_utf16_bytes(rest, little_endian);
        let b = utf16_bytes(u, little_endian);
        let rb = utf16_bytes(rest, little_endian);
        assert forall|i: int| 1 <= i < u.len() implies #[trigger] u[i] == rest[i - 1] by {}
        assert forall|i: int| #![trigger u[i]] 1 <= i < u.len() implies b[2 * i] == rb[2 * (i - 1)]
            && b[2 * i + 1] == rb[2 * (i - 1) + 1] by {}
    }
}

/// Code units laid out as bytes read back as the same units.
proof fn lemma_utf16_units_of_bytes(u: Seq<u16>, little_endian: bool)
    ensures
        utf16_units(utf16_bytes(u, little_endian), little_endian) == u,
{
    lemma_utf16_bytes(u, little_endian);
    let b = utf16_bytes(u, little_endian);
    let v = utf16_units(b, little_endian);
    assert forall|i: int| 0 <= i < u.len() implies v[i] == u[i] by {
        let x = u[i];
        assert(x % 256 + 256 * (x / 256) == x);
        if little_endian {
            assert(b[2 * i] == (x % 256) as u8 && b[2 * i + 1] == (x / 256) as u8);
        } else {
            assert(b[2 * i] == (x / 256) as u8 && b[2 * i + 1] == (x % 256) as u8);
        }
    }
    assert(v =~= u);
}

/// Decoding the code units of a text gives the text back.
proof fn lemma_utf16_decode_encode(s: Seq<char>)
    ensures
        utf16_lossy(utf16_encode(s)) == s,
    decreases s.len(),
{
    if s.len() > 0 {
        let c = s[0] as int;
        let rest = utf16_encode(s.skip(1));
        let u = utf16_encode(s);
        lemma_utf16_decode_encode(s.skip(1));
        let cu = s[0] as u32;
        vstd::utf8::char_is_scalar(s[0]);
        vstd::utf8::char_u32_cast(s[0], cu);
        assert(cu as int == c);
        if c < 0x10000 {
            assert(u[0] == c as u16);
            assert(u.skip(1) =~= rest);
            assert((c as u16) as int == cu as int);
            assert((c as u16) as char == s[0]);
        } else {
            let q = (c - 0x10000) / 0x400;
            let r = (c - 0x10000) % 0x400;
            assert(c <= 0x10FFFF);
            assert(0 <= q <= 0x3FF);
            assert(0 <= r < 0x400);
            assert(u[0] == (0xD800 + q) as u16);
            assert(u[1] == (0xDC00 + r) as u16);
            assert(u.skip(2) =~= rest);
            assert(0x10000 + q * 0x400 + r == c);
            assert((c as u32) as char == s[0]);
        }
        assert(seq![s[0]] + s.skip(1) =~= s);
    }
}

/// Text encoded as UTF-16 in either byte order after any two-byte mark
/// decodes back to the same text, without the mark.
pub proof fn lemma_utf16_round_trip(mark: Seq<u8>, s: Seq<char>, little_endian: bool)
    requires
        mark.len() == 2,
    ensures
        utf16_lossy(
            utf16_units((mark + utf16_bytes(utf16_encode(s), little_endian)).skip(2), little_endian),
        ) == s,
{
    let b = utf16_bytes(utf16_encode(s), little_endian);
    assert((mark + b).skip(2) =~= b);
    lemma_utf16_units_of_bytes(utf16_encode(s), little_endian);
    lemma_utf16_decode_encode(s);
}

} // verus!
