//! UTF-16 text for the system: with a closing zero, in a fixed buffer, and back.

use crate::text::{chars_of, maybe};
use vstd::prelude::*;

verus! {

/// The character with the given number, as `char::from_u32` documents: every
/// number up to 0x10FFFF but the surrogates has one.
pub assume_specification[ char::from_u32 ](n: u32) -> (c: Option<char>)
    ensures
        match c {
            Some(c) => c as u32 == n && n <= 0x10FFFF && !(0xD800 <= n <= 0xDFFF),
            None => n > 0x10FFFF || 0xD800 <= n <= 0xDFFF,
        },
;

/// True for the first half of a pair.
pub open spec fn is_high(unit: u16) -> bool {
    0xD800 <= unit <= 0xDBFF
}

/// True for the second half of a pair.
pub open spec fn is_low(unit: u16) -> bool {
    0xDC00 <= unit <= 0xDFFF
}

/// The UTF-16 units of a character: itself, or a pair.
pub open spec fn units_of(c: char) -> Seq<u16> {
    let n = c as u32;
    if n < 0x10000 {
        seq![n as u16]
    } else {
        seq![
            (0xD800 + (n - 0x10000) / 0x400) as u16,
            (0xDC00 + (n - 0x10000) % 0x400) as u16,
        ]
    }
}

/// The UTF-16 units of a text.
pub open spec fn utf16(s: Seq<char>) -> Seq<u16>
    decreases s.len(),
{
    if s.len() == 0 {
        Seq::empty()
    } else {
        utf16(s.drop_last()) + units_of(s.last())
    }
}

/// The UTF-16 units of a text.
pub fn encode(text: &str) -> (units: Vec<u16>)
    ensures
        units@ == utf16(text@),
{
    let chars = chars_of(text);
    let mut units: Vec<u16> = Vec::new();
    let mut i: usize = 0;
    while i < chars.len()
        invariant
            i <= chars.len(),
            units@ == utf16(chars@.take(i as int)),
        decreases chars.len() - i,
    {
        let n: u32 = chars[i] as u32;
        assert(chars@.take(i + 1).drop_last() == chars@.take(i as int));
        let ghost done = units@;
        if n < 0x10000 {
            units.push(n as u16);
        } else {
            let m: u32 = n - 0x10000;
            units.push((0xD800 + m / 0x400) as u16);
            units.push((0xDC00 + m % 0x400) as u16);
        }
        assert(units@ == done + units_of(chars@[i as int]));
        i += 1;
    }
    assert(chars@.take(i as int) == chars@);
    units
}

/// The UTF-16 units of a text with a closing zero.
pub fn to_wide(s: &str) -> (units: Vec<u16>)
    ensures
        units@ == utf16(s@).push(0),
{
    let mut units = encode(s);
    units.push(0);
    units
}

/// How many of `units` go into a buffer of `size` units: all but the last one
/// of the buffer, and no half pair at the end.
pub open spec fn kept_units(units: Seq<u16>, size: int) -> int {
    let n = if units.len() < size - 1 {
        units.len() as int
    } else {
        size - 1
    };
    if n > 0 && is_high(units[n - 1]) {
        n - 1
    } else {
        n
    }
}

/// Writes a text and a closing zero into a fixed buffer. A text that is too
/// long is cut, never inside a pair; what lies behind the zero stays.
pub fn copy_utf16(dst: &mut Vec<u16>, text: &str)
    requires
        old(dst)@.len() > 0,
    ensures
        final(dst)@.len() == old(dst)@.len(),
        final(dst)@ == utf16(text@).take(kept_units(utf16(text@), old(dst)@.len() as int)).push(0)
            + old(dst)@.skip(kept_units(utf16(text@), old(dst)@.len() as int) + 1),
{
    let units = encode(text);
    let size = dst.len();
    let ghost before = dst@;
    let mut n: usize = if units.len() < size - 1 {
        units.len()
    } else {
        size - 1
    };
    if n > 0 && 0xD800 <= units[n - 1] && units[n - 1] <= 0xDBFF {
        n -= 1;
    }
    let mut i: usize = 0;
    while i < n
        invariant
            i <= n < size == dst.len(),
            n <= units.len(),
            before.len() == size,
            dst@ == units@.take(i as int) + before.skip(i as int),
        decreases n - i,
    {
        dst.set(i, units[i]);
        i += 1;
        assert(dst@ == units@.take(i as int) + before.skip(i as int));
    }
    dst.set(n, 0);
    assert(dst@ == units@.take(n as int).push(0) + before.skip(n + 1));
}

proof fn lemma_cut_between_characters(s: Seq<char>, k: int)
    requires
        0 <= k <= utf16(s).len(),
        k > 0 ==> !is_high(utf16(s)[k - 1]),
    ensures
        exists|n: int| 0 <= n <= s.len() && #[trigger] utf16(s.take(n)) == utf16(s).take(k),
    decreases s.len(),
{
    if s.len() == 0 {
        assert(s.take(0) == s);
        assert(utf16(s.take(0)) == utf16(s).take(k));
    } else {
        let shorter = utf16(s.drop_last());
        if k == utf16(s).len() {
            assert(s.take(s.len() as int) == s);
            assert(utf16(s).take(k) == utf16(s));
        } else {
            lemma_units(s.last());
            if k == shorter.len() + 1 {
                assert(utf16(s)[k - 1] == units_of(s.last())[0]);
                assert(false);
            }
            assert(k <= shorter.len());
            if k > 0 {
                assert(utf16(s)[k - 1] == shorter[k - 1]);
            }
            lemma_cut_between_characters(s.drop_last(), k);
            let n = choose|n: int|
                0 <= n <= s.drop_last().len() && #[trigger] utf16(s.drop_last().take(n))
                    == shorter.take(k);
            assert(s.drop_last().take(n) == s.take(n));
            assert(shorter.take(k) == utf16(s).take(k));
        }
    }
}

proof fn lemma_units(c: char)
    ensures
        1 <= units_of(c).len() <= 2,
        units_of(c).len() == 2 ==> is_high(units_of(c)[0]) && !is_high(units_of(c)[1]),
        units_of(c).len() == 1 ==> !is_high(units_of(c)[0]),
{
}

/// A text that is cut for a fixed buffer loses whole characters: what is kept is
/// the beginning of the text.
pub proof fn law_cut_text_keeps_whole_characters(text: Seq<char>, size: int)
    requires
        size > 0,
    ensures
        exists|n: int|
            0 <= n <= text.len() && #[trigger] utf16(text.take(n)) == utf16(text).take(
                kept_units(utf16(text), size),
            ),
        kept_units(utf16(text), size) < size,
{
    let units = utf16(text);
    let k = kept_units(units, size);
    let n = if units.len() < size - 1 {
        units.len() as int
    } else {
        size - 1
    };
    if n > 0 && is_high(units[n - 1]) && n > 1 {
        lemma_no_two_highs(text, n - 1);
    }
    lemma_cut_between_characters(text, k);
}

proof fn lemma_no_two_highs(s: Seq<char>, i: int)
    requires
        0 < i < utf16(s).len(),
        is_high(utf16(s)[i]),
    ensures
        !is_high(utf16(s)[i - 1]),
    decreases s.len(),
{
    if s.len() > 0 {
        let shorter = utf16(s.drop_last());
        lemma_units(s.last());
        if i < shorter.len() {
            assert(utf16(s)[i] == shorter[i] && utf16(s)[i - 1] == shorter[i - 1]);
            lemma_no_two_highs(s.drop_last(), i);
        } else {
            assert(utf16(s)[i] == units_of(s.last())[i - shorter.len()]);
            if i == shorter.len() {
                lemma_last_unit(s.drop_last());
                assert(utf16(s)[i - 1] == shorter[i - 1]);
            }
        }
    }
}

proof fn lemma_last_unit(s: Seq<char>)
    requires
        utf16(s).len() > 0,
    ensures
        !is_high(utf16(s).last()),
{
    lemma_units(s.last());
    assert(utf16(s).last() == units_of(s.last()).last());
}

/// The units before the first zero.
pub open spec fn before_zero(units: Seq<u16>) -> Seq<u16>
    decreases units.len(),
{
    if units.len() == 0 || units[0] == 0 {
        Seq::empty()
    } else {
        seq![units[0]] + before_zero(units.drop_first())
    }
}

/// The text of UTF-16 units, with U+FFFD for every half pair that stands alone.
pub open spec fn decoded(units: Seq<u16>) -> Seq<char>
    decreases units.len(),
{
    if units.len() == 0 {
        Seq::empty()
    } else if is_high(units[0]) && units.len() > 1 && is_low(units[1]) {
        seq![(0x10000 + (units[0] - 0xD800) * 0x400 + (units[1] - 0xDC00)) as char] + decoded(
            units.skip(2),
        )
    } else if is_high(units[0]) || is_low(units[0]) {
        seq!['\u{FFFD}'] + decoded(units.drop_first())
    } else {
        seq![units[0] as char] + decoded(units.drop_first())
    }
}

fn char_or_replacement(n: u32) -> (c: char)
    ensures
        n <= 0x10FFFF && !(0xD800 <= n <= 0xDFFF) ==> c as u32 == n,
        n > 0x10FFFF || 0xD800 <= n <= 0xDFFF ==> c == '\u{FFFD}',
{
    match char::from_u32(n) {
        Some(c) => c,
        None => '\u{FFFD}',
    }
}

/// The text of UTF-16 units, with U+FFFD for every half pair that stands alone.
pub fn decode(units: &[u16]) -> (text: String)
    ensures
        text@ == decoded(units@),
{
    let mut text = String::new();
    let mut i: usize = 0;
    assert(units@.skip(0) == units@);
    while i < units.len()
        invariant
            i <= units.len(),
            text@ + decoded(units@.skip(i as int)) == decoded(units@),
        decreases units.len() - i,
    {
        let u: u16 = units[i];
        let ghost rest = units@.skip(i as int);
        let ghost done = text@;
        if 0xD800 <= u && u <= 0xDBFF && i + 1 < units.len() && 0xDC00 <= units[i + 1] && units[i
            + 1] <= 0xDFFF {
            let n: u32 = 0x10000 + (u as u32 - 0xD800) * 0x400 + (units[i + 1] as u32 - 0xDC00);
            text.push(char_or_replacement(n));
            i += 2;
            assert(rest.skip(2) == units@.skip(i as int));
        } else {
            text.push(char_or_replacement(u as u32));
            i += 1;
            assert(rest.drop_first() == units@.skip(i as int));
        }
        assert(text@ + decoded(units@.skip(i as int)) == done + decoded(rest));
    }
    assert(units@.skip(i as int).len() == 0);
    assert(text@ + decoded(units@.skip(i as int)) == text@);
    text
}

/// What is put on the clipboard for a text: its UTF-16 units with a closing
/// zero, and the number of bytes they take.
pub fn clipboard_write(text: &str) -> (data: (Vec<u16>, usize))
    requires
        2 * (utf16(text@).len() + 1) <= usize::MAX,
    ensures
        data.0@ == utf16(text@).push(0),
        data.1 == 2 * data.0@.len(),
{
    let units = to_wide(text);
    let bytes = units.len() * 2;
    (units, bytes)
}

/// The text that some units on the clipboard stand for: everything before the
/// closing zero. There is none where the clipboard cannot be opened or holds no
/// text.
pub open spec fn clipboard_text(units: Option<Seq<u16>>) -> Option<Seq<char>> {
    match units {
        Some(units) => Some(decoded(before_zero(units))),
        None => None,
    }
}

/// The text that lies on the clipboard.
pub fn clipboard_read(units: Option<&[u16]>) -> (text: Option<String>)
    ensures
        maybe(text) == clipboard_text(
            match units {
                Some(units) => Some(units@),
                None => None,
            },
        ),
{
    let units = match units {
        Some(units) => units,
        None => {
            return None;
        },
    };
    let mut head: Vec<u16> = Vec::new();
    let mut i: usize = 0;
    assert(units@.skip(0) == units@);
    while i < units.len() && units[i] != 0
        invariant
            i <= units.len(),
            head@ + before_zero(units@.skip(i as int)) == before_zero(units@),
        decreases units.len() - i,
    {
        let ghost rest = units@.skip(i as int);
        let ghost done = head@;
        head.push(units[i]);
        i += 1;
        assert(rest.drop_first() == units@.skip(i as int));
        assert(head@ + before_zero(units@.skip(i as int)) == done + before_zero(rest));
    }
    assert(head@ == before_zero(units@));
    Some(decode(&head))
}

/// Text without a zero character comes off the clipboard as it went on, and
/// nothing comes off a clipboard without text.
pub proof fn law_clipboard_keeps_text(s: Seq<char>)
    requires
        forall|i: int| 0 <= i < s.len() ==> s[i] != '\0',
    ensures
        clipboard_text(Some(utf16(s).push(0))) == Some(s),
        clipboard_text(None) is None,
{
    lemma_no_zero_unit(s);
    lemma_before_zero(utf16(s));
    lemma_decode_encode(s);
}

proof fn lemma_utf16_first(c: char, t: Seq<char>)
    ensures
        utf16(seq![c] + t) == units_of(c) + utf16(t),
    decreases t.len(),
{
    let s = seq![c] + t;
    if t.len() == 0 {
        assert(s.drop_last() == Seq::<char>::empty());
        assert(utf16(s.drop_last()) == Seq::<u16>::empty());
        assert(utf16(s) == units_of(c) + utf16(t));
    } else {
        assert(s.drop_last() == seq![c] + t.drop_last());
        lemma_utf16_first(c, t.drop_last());
        assert(utf16(s) == units_of(c) + utf16(t));
    }
}

proof fn lemma_decode_first(c: char, rest: Seq<u16>)
    ensures
        decoded(units_of(c) + rest) == seq![c] + decoded(rest),
{
    let n = c as u32;
    let units = units_of(c) + rest;
    if n < 0x10000 {
        assert(units.drop_first() == rest);
        assert(units[0] == n);
        assert(decoded(units) == seq![units[0] as char] + decoded(rest));
        assert(units[0] as char == c);
    } else {
        assert(units.skip(2) == rest);
        assert(is_high(units[0]) && is_low(units[1]));
        assert((0x10000 + (units[0] - 0xD800) * 0x400 + (units[1] - 0xDC00)) == n);
    }
}

proof fn lemma_decode_encode(s: Seq<char>)
    ensures
        decoded(utf16(s)) == s,
    decreases s.len(),
{
    if s.len() > 0 {
        let t = s.drop_first();
        assert(s == seq![s[0]] + t);
        lemma_utf16_first(s[0], t);
        lemma_decode_first(s[0], utf16(t));
        lemma_decode_encode(t);
    }
}

proof fn lemma_no_zero_in_char(c: char)
    requires
        c != '\0',
    ensures
        forall|i: int| 0 <= i < units_of(c).len() ==> units_of(c)[i] != 0,
{
}

proof fn lemma_no_zero_unit(s: Seq<char>)
    requires
        forall|i: int| 0 <= i < s.len() ==> s[i] != '\0',
    ensures
        forall|i: int| 0 <= i < utf16(s).len() ==> utf16(s)[i] != 0,
    decreases s.len(),
{
    if s.len() > 0 {
        let head = utf16(s.drop_last());
        let tail = units_of(s.last());
        lemma_no_zero_unit(s.drop_last());
        assert(s.last() != '\0');
        lemma_no_zero_in_char(s.last());
        assert forall|i: int| 0 <= i < utf16(s).len() implies utf16(s)[i] != 0 by {
            if i < head.len() {
                assert(utf16(s)[i] == head[i]);
            } else {
                assert(utf16(s)[i] == tail[i - head.len()]);
            }
        }
    }
}

proof fn lemma_before_zero(units: Seq<u16>)
    requires
        forall|i: int| 0 <= i < units.len() ==> units[i] != 0,
    ensures
        before_zero(units.push(0)) == units,
    decreases units.len(),
{
    if units.len() > 0 {
        assert(units.push(0).drop_first() == units.drop_first().push(0));
        lemma_before_zero(units.drop_first());
        assert(seq![units[0]] + units.drop_first() == units);
    }
}

proof fn lemma_utf16_appends(a: Seq<char>, b: Seq<char>)
    ensures
        utf16(a + b) == utf16(a) + utf16(b),
    decreases b.len(),
{
    if b.len() == 0 {
        assert(a + b == a);
        assert(utf16(a) + utf16(b) == utf16(a));
    } else {
        lemma_utf16_appends(a, b.drop_last());
        assert((a + b).drop_last() == a + b.drop_last());
        assert((a + b).last() == b.last());
        assert(utf16(a) + utf16(b.drop_last()) + units_of(b.last()) == utf16(a) + utf16(b));
    }
}

/// A text is written character by character: one below U+10000 as one unit with
/// its number, any other as two units, of which the first counts the steps of
/// 0x400 above 0x10000 from 0xD800 on and the second the rest from 0xDC00 on.
pub proof fn law_text_is_written_in_units(a: Seq<char>, c: char, b: Seq<char>)
    ensures
        utf16(a + b) == utf16(a) + utf16(b),
        utf16(Seq::empty()) == Seq::<u16>::empty(),
        (c as int) < 0x10000 ==> utf16(seq![c]) == seq![c as u16],
        c as int >= 0x10000 ==> {
            let units = utf16(seq![c]);
            &&& units.len() == 2
            &&& 0xD800 <= units[0] < 0xDC00
            &&& 0xDC00 <= units[1] < 0xE000
            &&& c as int == 0x10000 + 0x400 * (units[0] - 0xD800) + (units[1] - 0xDC00)
        },
{
    lemma_utf16_appends(a, b);
    lemma_utf16_first(c, Seq::empty());
    assert(seq![c] + Seq::<char>::empty() == seq![c]);
    assert(units_of(c) + utf16(Seq::<char>::empty()) == units_of(c));
}

/// The units of a text read back as the text.
pub proof fn law_units_read_back(s: Seq<char>)
    ensures
        decoded(utf16(s)) == s,
{
    lemma_decode_encode(s);
}

proof fn lemma_decode_prefix(a: Seq<char>, rest: Seq<u16>)
    ensures
        decoded(utf16(a) + rest) == a + decoded(rest),
    decreases a.len(),
{
    if a.len() == 0 {
        assert(utf16(a) + rest == rest);
        assert(a + decoded(rest) == decoded(rest));
    } else {
        let t = a.drop_first();
        assert(a == seq![a[0]] + t);
        lemma_utf16_first(a[0], t);
        lemma_decode_first(a[0], utf16(t) + rest);
        assert(units_of(a[0]) + utf16(t) + rest == units_of(a[0]) + (utf16(t) + rest));
        lemma_decode_prefix(t, rest);
        assert(seq![a[0]] + (t + decoded(rest)) == a + decoded(rest));
    }
}

/// Half a pair that stands alone reads as U+FFFD, and the text round it as it is.
pub proof fn law_lone_halves_are_replaced(a: Seq<char>, unit: u16, b: Seq<char>)
    requires
        0xD800 <= unit <= 0xDFFF,
    ensures
        decoded(utf16(a).push(unit) + utf16(b)) == a.push('\u{FFFD}') + b,
{
    let rest = seq![unit] + utf16(b);
    assert(utf16(a).push(unit) + utf16(b) == utf16(a) + rest);
    lemma_decode_prefix(a, rest);
    assert(rest.drop_first() == utf16(b));
    if b.len() > 0 {
        assert(b == seq![b[0]] + b.drop_first());
        lemma_utf16_first(b[0], b.drop_first());
        lemma_units(b[0]);
        assert(rest[1] == units_of(b[0])[0]);
    }
    lemma_decode_encode(b);
    assert(decoded(rest) == seq!['\u{FFFD}'] + b);
    assert(a + (seq!['\u{FFFD}'] + b) == a.push('\u{FFFD}') + b);
}

/// What lies on the clipboard is read up to the first zero, or whole where there
/// is none.
pub proof fn law_clipboard_text_ends_at_the_first_zero(s: Seq<char>, rest: Seq<u16>)
    requires
        forall|i: int| 0 <= i < s.len() ==> s[i] != '\0',
    ensures
        clipboard_text(Some(utf16(s).push(0) + rest)) == Some(s),
        clipboard_text(Some(utf16(s))) == Some(s),
{
    lemma_no_zero_unit(s);
    lemma_up_to_zero(utf16(s), rest);
    lemma_decode_encode(s);
}

proof fn lemma_up_to_zero(units: Seq<u16>, rest: Seq<u16>)
    requires
        forall|i: int| 0 <= i < units.len() ==> units[i] != 0,
    ensures
        before_zero(units.push(0) + rest) == units,
        before_zero(units) == units,
    decreases units.len(),
{
    if units.len() > 0 {
        assert((units.push(0) + rest).drop_first() == units.drop_first().push(0) + rest);
        lemma_up_to_zero(units.drop_first(), rest);
        assert(seq![units[0]] + units.drop_first() == units);
    }
}

/// A text that fits a buffer together with its closing zero goes in whole. A
/// longer one fills the buffer up to the place of the zero; one unit less where
/// the last would be the first half of a pair.
pub proof fn law_buffers_are_filled(text: Seq<char>, size: int)
    requires
        size > 0,
    ensures
        utf16(text).len() < size ==> kept_units(utf16(text), size) == utf16(text).len(),
        utf16(text).len() >= size && size > 1 && 0xD800 <= utf16(text)[size - 2] <= 0xDBFF
            ==> kept_units(utf16(text), size) == size - 2,
        utf16(text).len() >= size && size > 1 && !(0xD800 <= utf16(text)[size - 2] <= 0xDBFF)
            ==> kept_units(utf16(text), size) == size - 1,
        size == 1 ==> kept_units(utf16(text), size) == 0,
{
    if 0 < utf16(text).len() {
        lemma_last_unit(text);
    }
}

} // verus!
