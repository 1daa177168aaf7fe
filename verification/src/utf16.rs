//! UTF-16 text, as window titles, image paths and the clipboard hold it.
use vstd::prelude::*;

verus! {

/// The first unit of a surrogate pair.
pub open spec fn is_high_surrogate(unit: u16) -> bool {
    0xD800 <= unit <= 0xDBFF
}

/// The second unit of a surrogate pair.
pub open spec fn is_low_surrogate(unit: u16) -> bool {
    0xDC00 <= unit <= 0xDFFF
}

/// The code point that a surrogate pair stands for.
pub open spec fn pair_code(high: u16, low: u16) -> int {
    0x10000 + (high - 0xD800) * 0x400 + (low - 0xDC00)
}

/// What stands in for a surrogate without its partner.
pub open spec fn replacement() -> char {
    '\u{FFFD}'
}

/// The text that `units` hold, with U+FFFD for each unpaired surrogate.
pub open spec fn decode_lossy(units: Seq<u16>) -> Seq<char>
    decreases units.len(),
{
    if units.len() == 0 {
        Seq::empty()
    } else if is_high_surrogate(units[0]) && units.len() > 1 && is_low_surrogate(units[1]) {
        seq![pair_code(units[0], units[1]) as char] + decode_lossy(units.skip(2))
    } else if is_high_surrogate(units[0]) || is_low_surrogate(units[0]) {
        seq![replacement()] + decode_lossy(units.skip(1))
    } else {
        seq![units[0] as char] + decode_lossy(units.skip(1))
    }
}

/// The one or two units that hold `c`.
pub open spec fn encode_char(c: char) -> Seq<u16> {
    if (c as int) < 0x10000 {
        seq![c as u16]
    } else {
        seq![
            (0xD800 + (c as int - 0x10000) / 0x400) as u16,
            (0xDC00 + (c as int - 0x10000) % 0x400) as u16,
        ]
    }
}

/// The units that hold `text`.
pub open spec fn encode(text: Seq<char>) -> Seq<u16>
    decreases text.len(),
{
    if text.len() == 0 {
        Seq::empty()
    } else {
        encode_char(text[0]) + encode(text.skip(1))
    }
}

/// The units before the first zero, or all of them where there is none.
pub open spec fn before_zero(units: Seq<u16>) -> Seq<u16>
    decreases units.len(),
{
    if units.len() == 0 || units[0] == 0 {
        Seq::empty()
    } else {
        seq![units[0]] + before_zero(units.skip(1))
    }
}

/// The characters before the first NUL, or all of them where there is none.
pub open spec fn before_nul(text: Seq<char>) -> Seq<char>
    decreases text.len(),
{
    if text.len() == 0 || text[0] == '\0' {
        Seq::empty()
    } else {
        seq![text[0]] + before_nul(text.skip(1))
    }
}

/// A character is its code point, which is no surrogate and at most `0x10FFFF`.
pub(crate) proof fn lemma_char_code(c: char)
    ensures
        c as u32 == c as int,
        (c as int) as char == c,
        0 <= (c as int) < 0xD800 || 0xE000 <= (c as int) <= 0x10FFFF,
{
}

/// Decodes UTF-16, putting U+FFFD for each unpaired surrogate.
pub fn decode_utf16_lossy(units: &[u16]) -> (text: String)
    ensures
        text@ == decode_lossy(units@),
{
    let mut text = String::new();
    let mut i: usize = 0;
    assert(units@.skip(0) == units@);
    while i < units.len()
        invariant
            i <= units@.len(),
            text@ + decode_lossy(units@.skip(i as int)) == decode_lossy(units@),
        decreases units@.len() - i,
    {
        let ghost rest = units@.skip(i as int);
        let ghost done = text@;
        let unit: u16 = units[i];
        let mut width: usize = 1;
        let mut code: u32 = unit as u32;
        if 0xD800 <= unit && unit <= 0xDBFF && i + 1 < units.len() && 0xDC00 <= units[i + 1]
            && units[i + 1] <= 0xDFFF {
            let low: u16 = units[i + 1];
            code = 0x10000 + (unit as u32 - 0xD800) * 0x400 + (low as u32 - 0xDC00);
            width = 2;
        } else if 0xD800 <= unit && unit <= 0xDFFF {
            code = 0xFFFD;
        }
        match char::from_u32(code) {
            Some(c) => {
                text.push(c);
                proof {
                    assert(rest.skip(width as int) == units@.skip(i + width));
                    assert(rest[0] == unit);
                    lemma_char_code(c);
                    assert(decode_lossy(rest) == seq![c] + decode_lossy(rest.skip(width as int)));
                    assert(text@ + decode_lossy(units@.skip(i + width)) == done + decode_lossy(rest));
                }
            },
            None => {
                assert(false);
            },
        }
        i = i + width;
    }
    assert(units@.skip(i as int).len() == 0);
    assert(text@ + Seq::<char>::empty() == text@);
    text
}

/// Encodes text as UTF-16.
pub fn encode_utf16(text: &str) -> (units: Vec<u16>)
    ensures
        units@ == encode(text@),
{
    let mut units: Vec<u16> = Vec::new();
    assert(text@.skip(0) == text@);
    for c in iter: text.chars()
        invariant
            iter.seq() == text@,
            units@ + encode(text@.skip(iter.index() as int)) == encode(text@),
    {
        let ghost rest = text@.skip(iter.index() as int);
        let ghost done = units@;
        let code: u32 = c as u32;
        proof {
            lemma_char_code(c);
        }
        if code < 0x10000 {
            units.push(code as u16);
        } else {
            let high: u32 = 0xD800 + (code - 0x10000) / 0x400;
            let low: u32 = 0xDC00 + (code - 0x10000) % 0x400;
            units.push(high as u16);
            units.push(low as u16);
        }
        proof {
            assert(rest.skip(1) == text@.skip(iter.index() + 1));
            assert(units@ == done + encode_char(c));
            assert(encode(rest) == encode_char(c) + encode(rest.skip(1)));
            assert(units@ + encode(rest.skip(1)) == done + encode(rest));
        }
    }
    assert(text@.skip(text@.len() as int).len() == 0);
    assert(units@ + Seq::<u16>::empty() == units@);
    units
}

/// Decoding peels the units of one encoded character off as that character.
proof fn lemma_decode_char(c: char, rest: Seq<u16>)
    ensures
        decode_lossy(encode_char(c) + rest) == seq![c] + decode_lossy(rest),
{
    lemma_char_code(c);
    let units = encode_char(c) + rest;
    if (c as int) < 0x10000 {
        assert(units.skip(1) == rest);
    } else {
        let offset = c as int - 0x10000;
        assert(0 <= offset < 0x100000);
        assert(units[0] == 0xD800 + offset / 0x400);
        assert(units[1] == 0xDC00 + offset % 0x400);
        assert(pair_code(units[0], units[1]) == c as int);
        assert(units.skip(2) == rest);
    }
}

/// Text that is encoded and decoded again comes back unchanged.
pub proof fn law_encode_then_decode(text: Seq<char>)
    ensures
        decode_lossy(encode(text)) == text,
    decreases text.len(),
{
    if text.len() > 0 {
        lemma_decode_char(text[0], encode(text.skip(1)));
        law_encode_then_decode(text.skip(1));
        assert(seq![text[0]] + text.skip(1) == text);
    } else {
        assert(encode(text) == Seq::<u16>::empty());
    }
}

/// Decoding yields some text exactly where there is a unit to decode.
pub proof fn law_decode_empty(units: Seq<u16>)
    ensures
        (decode_lossy(units).len() == 0) == (units.len() == 0),
{
}

/// Where there is a zero, the units before it are those up to the first.
pub(crate) proof fn lemma_before_zero(units: Seq<u16>)
    requires
        units.contains(0),
    ensures
        before_zero(units).len() < units.len(),
        before_zero(units) == units.take(before_zero(units).len() as int),
        units[before_zero(units).len() as int] == 0,
        !before_zero(units).contains(0),
    decreases units.len(),
{
    if units[0] != 0 {
        let k = choose|k: int| 0 <= k < units.len() && units[k] == 0;
        let rest = units.skip(1);
        assert(rest[k - 1] == 0);
        lemma_before_zero(rest);
        let n = before_zero(rest).len() as int;
        assert(rest[n] == units[n + 1]);
        assert(before_zero(units) == units.take(n + 1));
        assert forall|j: int| 0 <= j < n + 1 implies before_zero(units)[j] != 0 by {
            if j > 0 {
                assert(before_zero(units)[j] == before_zero(rest)[j - 1]);
            }
        }
    } else {
        assert(before_zero(units) == units.take(0));
    }
}

/// Encoded text with a zero behind it, read up to the first zero, is the text before its
/// first NUL: all of the text where it holds none.
pub proof fn law_terminated_text(text: Seq<char>, tail: Seq<u16>)
    ensures
        decode_lossy(before_zero(encode(text) + seq![0u16] + tail)) == before_nul(text),
        !text.contains('\0') ==> before_nul(text) == text,
    decreases text.len(),
{
    let units = encode(text) + seq![0u16] + tail;
    if text.len() == 0 {
        assert(units[0] == 0);
        assert(before_nul(text) == text);
    } else {
        let c = text[0];
        let rest = text.skip(1);
        let later = encode(rest) + seq![0u16] + tail;
        lemma_char_code(c);
        law_terminated_text(rest, tail);
        assert(units == encode_char(c) + later);
        if c == '\0' {
            assert(units[0] == 0);
            assert(text.contains('\0'));
        } else {
            if (c as int) < 0x10000 {
                assert(units.skip(1) == later);
                assert(before_zero(units) == encode_char(c) + before_zero(later));
            } else {
                assert(units.skip(1).skip(1) == later);
                assert(units[0] != 0 && units[1] != 0);
                assert(units.skip(1)[0] == units[1]);
                assert(before_zero(units.skip(1)) == seq![units[1]] + before_zero(later));
                assert(before_zero(units) == encode_char(c) + before_zero(later));
            }
            lemma_decode_char(c, before_zero(later));
            if !text.contains('\0') {
                assert(!rest.contains('\0')) by {
                    if rest.contains('\0') {
                        let k = choose|k: int| 0 <= k < rest.len() && rest[k] == '\0';
                        assert(text[k + 1] == '\0');
                    }
                }
                assert(seq![c] + rest == text);
            }
        }
    }
}

/// A character of the basic plane is the one unit equal to its code point; any other is a high
/// and a low surrogate that stand for its code point together.
pub proof fn law_units_of_a_character(c: char)
    ensures
        (c as int) < 0x10000 ==> encode_char(c).len() == 1 && encode_char(c)[0] == c as int,
        (c as int) >= 0x10000 ==> {
            let units = encode_char(c);
            &&& units.len() == 2
            &&& 0xD800 <= units[0] < 0xDC00
            &&& 0xDC00 <= units[1] < 0xE000
            &&& 0x10000 + (units[0] - 0xD800) * 0x400 + (units[1] - 0xDC00) == c as int
        },
{
    lemma_char_code(c);
    if (c as int) >= 0x10000 {
        let offset = c as int - 0x10000;
        assert(0 <= offset < 0x100000);
        assert(encode_char(c)[0] == 0xD800 + offset / 0x400);
        assert(encode_char(c)[1] == 0xDC00 + offset % 0x400);
    }
}

/// A text is encoded character by character.
pub proof fn law_encode_joins(a: Seq<char>, b: Seq<char>, c: char)
    ensures
        encode(a + b) == encode(a) + encode(b),
        encode(seq![c]) == encode_char(c),
        encode(Seq::empty()).len() == 0,
    decreases a.len(),
{
    assert(seq![c].skip(1) == Seq::<char>::empty());
    assert(encode(seq![c]) == encode_char(c) + encode(Seq::empty()));
    assert(encode_char(c) + Seq::<u16>::empty() == encode_char(c));
    if a.len() == 0 {
        assert(a + b == b);
        assert(encode(a) + encode(b) == encode(b));
    } else {
        law_encode_joins(a.skip(1), b, c);
        assert((a + b).skip(1) == a.skip(1) + b);
        assert(encode(a + b) == encode(a) + encode(b));
    }
}

/// What the first units of a text decode to: a unit that is no surrogate to the character with
/// that code point, a high surrogate before a low one to the character that they stand for
/// together, and a surrogate without its partner to U+FFFD; the rest is decoded by itself.
pub proof fn law_decode_peels(unit: u16, rest: Seq<u16>)
    ensures
        decode_lossy(Seq::empty()).len() == 0,
        ({
            let text = decode_lossy(seq![unit] + rest);
            let paired = 0xD800 <= unit < 0xDC00 && rest.len() > 0 && 0xDC00 <= rest[0] < 0xE000;
            &&& text.len() > 0
            &&& paired ==> text[0] as int == 0x10000 + (unit - 0xD800) * 0x400 + (rest[0] - 0xDC00)
                && text.skip(1) == decode_lossy(rest.skip(1))
            &&& !paired ==> text.skip(1) == decode_lossy(rest)
            &&& !paired && 0xD800 <= unit < 0xE000 ==> text[0] as int == 0xFFFD
            &&& !(0xD800 <= unit < 0xE000) ==> text[0] as int == unit
        }),
{
    let units = seq![unit] + rest;
    let text = decode_lossy(units);
    assert(units.skip(1) == rest);
    if is_high_surrogate(unit) && rest.len() > 0 && is_low_surrogate(rest[0]) {
        assert(units[1] == rest[0]);
        assert(units.skip(2) == rest.skip(1));
        assert(text.skip(1) == decode_lossy(rest.skip(1)));
    } else {
        assert(text.skip(1) == decode_lossy(rest));
    }
}

/// Units without surrogates are characters one for one.
pub proof fn law_decode_basic_plane(units: Seq<u16>)
    requires
        forall|i: int| 0 <= i < units.len() ==> !(0xD800 <= #[trigger] units[i] < 0xE000),
    ensures
        decode_lossy(units).len() == units.len(),
        forall|i: int|
            0 <= i < units.len() ==> (#[trigger] decode_lossy(units)[i]) as int == units[i],
    decreases units.len(),
{
    if units.len() > 0 {
        let rest = units.skip(1);
        law_decode_basic_plane(rest);
        law_decode_peels(units[0], rest);
        assert(seq![units[0]] + rest == units);
        assert forall|i: int| 0 <= i < units.len() implies (#[trigger] decode_lossy(
            units,
        )[i]) as int == units[i] by {
            if i > 0 {
                assert(decode_lossy(units)[i] == decode_lossy(units).skip(1)[i - 1]);
                assert(rest[i - 1] == units[i]);
            }
        }
    }
}

/// What stands before the first zero of some units holds no zero, is how they begin, and is all
/// of them or followed by a zero.
pub proof fn law_before_zero(units: Seq<u16>)
    ensures
        !before_zero(units).contains(0),
        before_zero(units).len() <= units.len(),
        before_zero(units) == units.take(before_zero(units).len() as int),
        before_zero(units).len() == units.len() || units[before_zero(units).len() as int] == 0,
    decreases units.len(),
{
    if units.len() > 0 && units[0] != 0 {
        let rest = units.skip(1);
        law_before_zero(rest);
        let n = before_zero(rest).len() as int;
        assert(before_zero(units) == units.take(n + 1));
        assert forall|j: int| 0 <= j < n + 1 implies before_zero(units)[j] != 0 by {
            if j > 0 {
                assert(before_zero(units)[j] == before_zero(rest)[j - 1]);
            }
        }
    } else {
        assert(before_zero(units) == units.take(0));
    }
}

} // verus!
