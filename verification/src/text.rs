//! Text as sequences of characters: searching, trimming, splitting, replacing
//! and decimal numbers.

use vstd::prelude::*;
use vstd::string::*;

verus! {

/// Appends one character, as `String::push` documents.
pub assume_specification[ String::push ](text: &mut String, c: char)
    ensures
        final(text)@ == old(text)@.push(c),
;

// ---------------------------------------------------------------------------
// Characters and conversions
// ---------------------------------------------------------------------------

/// The characters with the Unicode property White_Space.
pub open spec fn is_space(c: char) -> bool {
    let n = c as u32;
    ||| 0x09 <= n <= 0x0D
    ||| n == 0x20
    ||| n == 0x85
    ||| n == 0xA0
    ||| n == 0x1680
    ||| 0x2000 <= n <= 0x200A
    ||| n == 0x2028
    ||| n == 0x2029
    ||| n == 0x202F
    ||| n == 0x205F
    ||| n == 0x3000
}

/// True for a character with the Unicode property White_Space.
pub fn is_whitespace(c: char) -> (r: bool)
    ensures
        r == is_space(c),
{
    let n: u32 = c as u32;
    (0x09 <= n && n <= 0x0D) || n == 0x20 || n == 0x85 || n == 0xA0 || n == 0x1680 || (0x2000 <= n
        && n <= 0x200A) || n == 0x2028 || n == 0x2029 || n == 0x202F || n == 0x205F || n == 0x3000
}

/// `c` with `A` to `Z` turned into `a` to `z`.
pub open spec fn ascii_lower(c: char) -> char {
    if 'A' <= c <= 'Z' {
        (c as u32 + 32) as char
    } else {
        c
    }
}

/// Every character of `s` with `A` to `Z` turned into `a` to `z`.
pub open spec fn ascii_lowered(s: Seq<char>) -> Seq<char> {
    s.map_values(|c: char| ascii_lower(c))
}

/// `c` with `A` to `Z` turned into `a` to `z`.
pub fn to_ascii_lower(c: char) -> (r: char)
    ensures
        r == ascii_lower(c),
{
    if 'A' <= c && c <= 'Z' {
        let n: u8 = c as u8;
        (n + 32) as char
    } else {
        c
    }
}

/// The characters of a text.
pub fn chars_of(text: &str) -> (chars: Vec<char>)
    ensures
        chars@ == text@,
{
    let mut chars: Vec<char> = Vec::new();
    for c in it: text.chars()
        invariant
            it.seq() == text@,
            chars@ == text@.take(it.index() as int),
    {
        chars.push(c);
    }
    chars
}

/// The text made of the characters from `start` up to, not including, `end`.
pub fn string_range(chars: &[char], start: usize, end: usize) -> (text: String)
    requires
        start <= end <= chars.len(),
    ensures
        text@ == chars@.subrange(start as int, end as int),
{
    let mut text = String::new();
    let mut i: usize = start;
    while i < end
        invariant
            start <= i <= end <= chars.len(),
            text@ == chars@.subrange(start as int, i as int),
        decreases end - i,
    {
        text.push(chars[i]);
        i += 1;
    }
    text
}

/// The two texts one after the other.
pub fn concat2(a: &str, b: &str) -> (text: String)
    ensures
        text@ == a@ + b@,
{
    let mut text = a.to_owned();
    text.append(b);
    text
}

/// The three texts one after the other.
pub fn concat3(a: &str, b: &str, c: &str) -> (text: String)
    ensures
        text@ == a@ + b@ + c@,
{
    let mut text = a.to_owned();
    text.append(b);
    text.append(c);
    text
}

// ---------------------------------------------------------------------------
// Comparing and searching
// ---------------------------------------------------------------------------

/// True when `pattern` stands in `s` at `at`.
pub open spec fn occurs_at(s: Seq<char>, pattern: Seq<char>, at: int) -> bool {
    0 <= at && at + pattern.len() <= s.len() && s.subrange(at, at + pattern.len()) == pattern
}

/// True when `pattern` stands in `chars` at `at`.
pub fn matches_at(chars: &[char], pattern: &[char], at: usize) -> (r: bool)
    ensures
        r == occurs_at(chars@, pattern@, at as int),
{
    if at > chars.len() || pattern.len() > chars.len() - at {
        return false;
    }
    let mut i: usize = 0;
    while i < pattern.len()
        invariant
            at + pattern.len() <= chars.len(),
            i <= pattern.len(),
            forall|j: int| 0 <= j < i ==> chars@[at + j] == pattern@[j],
        decreases pattern.len() - i,
    {
        if chars[at + i] != pattern[i] {
            assert(chars@.subrange(at as int, at + pattern.len())[i as int] != pattern@[i as int]);
            return false;
        }
        i += 1;
    }
    assert(chars@.subrange(at as int, at + pattern.len()) == pattern@);
    true
}

/// True when the two texts are the same.
pub fn same_text(a: &str, b: &str) -> (r: bool)
    ensures
        r == (a@ == b@),
{
    let left = chars_of(a);
    let right = chars_of(b);
    let r = left.len() == right.len() && matches_at(&left, &right, 0);
    assert(a@.subrange(0, a@.len() as int) == a@);
    r
}

/// True when `text` begins with `prefix`.
pub fn starts_with(text: &str, prefix: &str) -> (r: bool)
    ensures
        r == prefix@.is_prefix_of(text@),
{
    let chars = chars_of(text);
    let pattern = chars_of(prefix);
    matches_at(&chars, &pattern, 0)
}

/// True when `text` ends with `suffix`.
pub fn ends_with(text: &str, suffix: &str) -> (r: bool)
    ensures
        r == suffix@.is_suffix_of(text@),
{
    let chars = chars_of(text);
    let pattern = chars_of(suffix);
    if pattern.len() > chars.len() {
        return false;
    }
    matches_at(&chars, &pattern, chars.len() - pattern.len())
}

/// True when `text` is `prefix` followed by what is returned.
pub fn strip_prefix(text: &str, prefix: &str) -> (rest: Option<String>)
    ensures
        rest is Some <==> prefix@.is_prefix_of(text@),
        rest matches Some(r) ==> r@ == text@.skip(prefix@.len() as int),
{
    let chars = chars_of(text);
    let pattern = chars_of(prefix);
    if matches_at(&chars, &pattern, 0) {
        Some(string_range(&chars, pattern.len(), chars.len()))
    } else {
        None
    }
}

/// The place of the last `c` in `s`, or -1.
pub open spec fn last_place(s: Seq<char>, c: char) -> int
    decreases s.len(),
{
    if s.len() == 0 {
        -1
    } else if s.last() == c {
        s.len() - 1
    } else {
        last_place(s.drop_last(), c)
    }
}

/// What [`last_place`] finds: the last `c`, or that there is none.
pub proof fn lemma_last_place(s: Seq<char>, c: char)
    ensures
        -1 <= last_place(s, c) < s.len(),
        last_place(s, c) >= 0 ==> s[last_place(s, c)] == c,
        forall|j: int| last_place(s, c) < j < s.len() ==> s[j] != c,
    decreases s.len(),
{
    if s.len() > 0 && s.last() != c {
        lemma_last_place(s.drop_last(), c);
        assert forall|j: int| last_place(s, c) < j < s.len() implies s[j] != c by {
            if j < s.len() - 1 {
                assert(s.drop_last()[j] != c);
            }
        }
    }
}

/// The place of the last `c`, if there is one.
pub fn rfind(chars: &[char], c: char) -> (place: Option<usize>)
    ensures
        match place {
            Some(i) => i < chars.len() && last_place(chars@, c) == i,
            None => last_place(chars@, c) == -1,
        },
{
    let mut i: usize = chars.len();
    assert(chars@.take(i as int) == chars@);
    while i > 0
        invariant
            i <= chars.len(),
            last_place(chars@.take(i as int), c) == last_place(chars@, c),
        decreases i,
    {
        assert(chars@.take(i as int).drop_last() == chars@.take(i - 1));
        if chars[i - 1] == c {
            return Some(i - 1);
        }
        i -= 1;
    }
    None
}

/// The place of the first `c` at or after `from`, or `s.len()`.
pub open spec fn first_place(s: Seq<char>, c: char, from: int) -> int
    decreases s.len() - from,
{
    if from < 0 || from >= s.len() {
        s.len() as int
    } else if s[from] == c {
        from
    } else {
        first_place(s, c, from + 1)
    }
}

/// The place of the first `c` at or after `from`, or the length.
pub fn find_from(chars: &[char], c: char, from: usize) -> (place: usize)
    requires
        from <= chars.len(),
    ensures
        place == first_place(chars@, c, from as int),
        from <= place <= chars.len(),
        place < chars.len() ==> chars@[place as int] == c,
        forall|j: int| from <= j < place ==> chars@[j] != c,
{
    let mut i: usize = from;
    while i < chars.len()
        invariant
            from <= i <= chars.len(),
            first_place(chars@, c, from as int) == first_place(chars@, c, i as int),
            forall|j: int| from <= j < i ==> chars@[j] != c,
        decreases chars.len() - i,
    {
        if chars[i] == c {
            return i;
        }
        i += 1;
    }
    i
}

// ---------------------------------------------------------------------------
// Trimming
// ---------------------------------------------------------------------------

/// `s` without the white space at its start.
pub open spec fn trimmed_start(s: Seq<char>) -> Seq<char>
    decreases s.len(),
{
    if s.len() > 0 && is_space(s[0]) {
        trimmed_start(s.drop_first())
    } else {
        s
    }
}

/// `s` without the white space at its end.
pub open spec fn trimmed_end(s: Seq<char>) -> Seq<char>
    decreases s.len(),
{
    if s.len() > 0 && is_space(s.last()) {
        trimmed_end(s.drop_last())
    } else {
        s
    }
}

/// `s` without the white space at its two ends.
pub open spec fn trimmed(s: Seq<char>) -> Seq<char> {
    trimmed_end(trimmed_start(s))
}

/// The text without the white space at its two ends.
pub fn trim(text: &str) -> (r: String)
    ensures
        r@ == trimmed(text@),
{
    let chars = chars_of(text);
    let mut start: usize = 0;
    assert(chars@.skip(0) == chars@);
    while start < chars.len() && is_whitespace(chars[start])
        invariant
            start <= chars.len(),
            chars@ == text@,
            trimmed_start(text@) == trimmed_start(chars@.skip(start as int)),
        decreases chars.len() - start,
    {
        assert(chars@.skip(start as int).drop_first() == chars@.skip(start + 1));
        start += 1;
    }
    let ghost rest = chars@.skip(start as int);
    assert(trimmed_start(text@) == rest);
    let mut end: usize = chars.len();
    assert(chars@.subrange(start as int, end as int) == rest);
    while end > start && is_whitespace(chars[end - 1])
        invariant
            start <= end <= chars.len(),
            trimmed_end(rest) == trimmed_end(chars@.subrange(start as int, end as int)),
        decreases end,
    {
        assert(chars@.subrange(start as int, end as int).drop_last() == chars@.subrange(
            start as int,
            end - 1,
        ));
        end -= 1;
    }
    string_range(&chars, start, end)
}

/// `s` without every `c` at its start.
pub open spec fn without_leading(s: Seq<char>, c: char) -> Seq<char>
    decreases s.len(),
{
    if s.len() > 0 && s[0] == c {
        without_leading(s.drop_first(), c)
    } else {
        s
    }
}

/// The text without every `c` at its start.
pub fn trim_start_char(text: &str, c: char) -> (r: String)
    ensures
        r@ == without_leading(text@, c),
{
    let chars = chars_of(text);
    let mut start: usize = 0;
    assert(chars@.skip(0) == chars@);
    while start < chars.len() && chars[start] == c
        invariant
            start <= chars.len(),
            without_leading(text@, c) == without_leading(chars@.skip(start as int), c),
        decreases chars.len() - start,
    {
        assert(chars@.skip(start as int).drop_first() == chars@.skip(start + 1));
        start += 1;
    }
    assert(chars@.subrange(start as int, chars.len() as int) == chars@.skip(start as int));
    string_range(&chars, start, chars.len())
}

// ---------------------------------------------------------------------------
// Splitting and replacing
// ---------------------------------------------------------------------------

/// The pieces of `s` between the separators `c`; never empty.
pub open spec fn pieces(s: Seq<char>, c: char) -> Seq<Seq<char>>
    decreases s.len(),
{
    if s.len() == 0 {
        seq![Seq::<char>::empty()]
    } else {
        let before = pieces(s.drop_last(), c);
        if s.last() == c {
            before.push(Seq::<char>::empty())
        } else {
            before.drop_last().push(before.last().push(s.last()))
        }
    }
}

/// There is always at least one piece.
pub proof fn lemma_pieces_nonempty(s: Seq<char>, c: char)
    ensures
        pieces(s, c).len() >= 1,
    decreases s.len(),
{
    if s.len() > 0 {
        lemma_pieces_nonempty(s.drop_last(), c);
    }
}

/// The characters of a text that may be missing.
pub open spec fn maybe(text: Option<String>) -> Option<Seq<char>> {
    match text {
        Some(t) => Some(t@),
        None => None,
    }
}

/// The views of a list of texts.
pub open spec fn views(list: Seq<String>) -> Seq<Seq<char>> {
    list.map_values(|t: String| t@)
}

/// The pieces of a text between the separators `c`.
pub fn split(text: &str, c: char) -> (list: Vec<String>)
    ensures
        views(list@) == pieces(text@, c),
{
    let chars = chars_of(text);
    let mut list: Vec<String> = Vec::new();
    let mut piece = String::new();
    let mut i: usize = 0;
    assert(views(list@).push(piece@) == pieces(chars@.take(0), c));
    while i < chars.len()
        invariant
            i <= chars.len(),
            views(list@).push(piece@) == pieces(chars@.take(i as int), c),
        decreases chars.len() - i,
    {
        let ghost before = pieces(chars@.take(i as int), c);
        assert(chars@.take(i + 1).drop_last() == chars@.take(i as int));
        assert(before.last() == piece@);
        assert(before.drop_last() == views(list@));
        if chars[i] == c {
            let ghost old_list = list@;
            list.push(piece);
            assert(views(list@) == views(old_list).push(piece@));
            piece = String::new();
        } else {
            piece.push(chars[i]);
        }
        i += 1;
        assert(views(list@).push(piece@) == pieces(chars@.take(i as int), c));
    }
    assert(chars@.take(i as int) == chars@);
    let ghost old_list = list@;
    list.push(piece);
    assert(views(list@) == views(old_list).push(piece@));
    list
}

/// `s` with each `from` replaced by `to`, from left to right without overlap.
pub open spec fn replaced(s: Seq<char>, from: Seq<char>, to: Seq<char>) -> Seq<char>
    decreases s.len(),
{
    if from.len() == 0 || s.len() == 0 {
        s
    } else if from.is_prefix_of(s) {
        to + replaced(s.skip(from.len() as int), from, to)
    } else {
        seq![s[0]] + replaced(s.drop_first(), from, to)
    }
}

/// The text with each `from` replaced by `to`, from left to right.
pub fn replace(text: &str, from: &str, to: &str) -> (r: String)
    requires
        from@.len() > 0,
    ensures
        r@ == replaced(text@, from@, to@),
{
    let chars = chars_of(text);
    let pattern = chars_of(from);
    let mut r = String::new();
    let mut i: usize = 0;
    assert(chars@.skip(0) == text@);
    while i < chars.len()
        invariant
            i <= chars.len(),
            pattern@ == from@,
            from@.len() > 0,
            r@ + replaced(chars@.skip(i as int), from@, to@) == replaced(text@, from@, to@),
        decreases chars.len() - i,
    {
        let ghost rest = chars@.skip(i as int);
        let ghost done = r@;
        if matches_at(&chars, &pattern, i) {
            assert(rest.subrange(0, from@.len() as int) == chars@.subrange(
                i as int,
                i + from@.len(),
            ));
            assert(from@.is_prefix_of(rest));
            r.append(to);
            i += pattern.len();
            assert(rest.skip(from@.len() as int) == chars@.skip(i as int));
            assert(r@ + replaced(chars@.skip(i as int), from@, to@) == done + replaced(
                rest,
                from@,
                to@,
            ));
        } else {
            assert(!from@.is_prefix_of(rest)) by {
                if from@.is_prefix_of(rest) {
                    assert(chars@.subrange(i as int, i + from@.len()) == rest.subrange(
                        0,
                        from@.len() as int,
                    ));
                }
            }
            r.push(chars[i]);
            i += 1;
            assert(rest.drop_first() == chars@.skip(i as int));
            assert(r@ + replaced(chars@.skip(i as int), from@, to@) == done + replaced(
                rest,
                from@,
                to@,
            ));
        }
    }
    assert(chars@.skip(i as int).len() == 0);
    assert(r@ == replaced(text@, from@, to@));
    r
}

// ---------------------------------------------------------------------------
// Decimal numbers
// ---------------------------------------------------------------------------

/// True for `0` to `9`.
pub open spec fn is_digit(c: char) -> bool {
    '0' <= c <= '9'
}

/// The number that a row of decimal digits denotes.
pub open spec fn digits_value(s: Seq<char>) -> int
    decreases s.len(),
{
    if s.len() == 0 {
        0
    } else {
        digits_value(s.drop_last()) * 10 + (s.last() as int - '0' as int)
    }
}

/// True when `s` holds digits alone.
pub open spec fn all_digits(s: Seq<char>) -> bool {
    forall|i: int| 0 <= i < s.len() ==> is_digit(#[trigger] s[i])
}

/// `s` without one leading `+`.
pub open spec fn unsigned_part(s: Seq<char>) -> Seq<char> {
    if s.len() > 0 && s[0] == '+' {
        s.drop_first()
    } else {
        s
    }
}

/// What an unsigned number up to `max` reads as: an optional `+`, then one or
/// more digits and nothing else.
pub open spec fn number_of(s: Seq<char>, max: int) -> Option<int> {
    let digits = unsigned_part(s);
    if digits.len() > 0 && all_digits(digits) && digits_value(digits) <= max {
        Some(digits_value(digits))
    } else {
        None
    }
}

/// A longer row of digits denotes no smaller number.
proof fn lemma_digits_grow(s: Seq<char>, n: int)
    requires
        0 <= n <= s.len(),
        all_digits(s),
    ensures
        0 <= digits_value(s.take(n)) <= digits_value(s),
    decreases s.len(),
{
    if s.len() == 0 {
        assert(s.take(n) == s);
    } else if n == s.len() {
        assert(s.take(n) == s);
        lemma_digits_grow(s.drop_last(), s.len() - 1);
        assert(s.drop_last().take(s.len() - 1) == s.drop_last());
    } else {
        lemma_digits_grow(s.drop_last(), n);
        assert(s.drop_last().take(n) == s.take(n));
    }
}

/// Reads an unsigned number up to `max`.
pub fn parse_number(text: &str, max: u64) -> (n: Option<u64>)
    ensures
        match n {
            Some(v) => number_of(text@, max as int) == Some(v as int),
            None => number_of(text@, max as int) is None,
        },
{
    let chars = chars_of(text);
    let start: usize = if chars.len() > 0 && chars[0] == '+' {
        1
    } else {
        0
    };
    let ghost digits = chars@.skip(start as int);
    assert(digits == unsigned_part(text@));
    if start == chars.len() {
        return None;
    }
    let mut value: u64 = 0;
    let mut i: usize = start;
    while i < chars.len()
        invariant
            start <= i <= chars.len(),
            digits == chars@.skip(start as int),
            digits.len() > 0,
            digits == unsigned_part(text@),
            value == digits_value(digits.take(i - start)),
            value <= max,
            forall|j: int| 0 <= j < i - start ==> is_digit(#[trigger] digits[j]),
        decreases chars.len() - i,
    {
        let c = chars[i];
        let ghost k = i - start;
        assert(digits[k] == c);
        if !('0' <= c && c <= '9') {
            assert(!is_digit(digits[k]));
            return None;
        }
        let d: u64 = (c as u32 - '0' as u32) as u64;
        assert(digits.take(k + 1).drop_last() == digits.take(k));
        assert(digits_value(digits.take(k + 1)) == value * 10 + d);
        if value > max / 10 || d > max - value * 10 {
            proof {
                if all_digits(digits) {
                    lemma_digits_grow(digits, k + 1);
                }
            }
            return None;
        }
        value = value * 10 + d;
        i += 1;
    }
    assert(digits.take(i - start) == digits);
    Some(value)
}

/// Reads a number that fits 16 bits.
pub fn parse_u16(text: &str) -> (n: Option<u16>)
    ensures
        match n {
            Some(v) => number_of(text@, u16::MAX as int) == Some(v as int),
            None => number_of(text@, u16::MAX as int) is None,
        },
{
    match parse_number(text, 0xFFFF) {
        Some(v) => Some(v as u16),
        None => None,
    }
}

/// Reads a number that fits 32 bits.
pub fn parse_u32(text: &str) -> (n: Option<u32>)
    ensures
        match n {
            Some(v) => number_of(text@, u32::MAX as int) == Some(v as int),
            None => number_of(text@, u32::MAX as int) is None,
        },
{
    match parse_number(text, 0xFFFF_FFFF) {
        Some(v) => Some(v as u32),
        None => None,
    }
}

/// The digit of a number below ten.
pub open spec fn digit_char(d: int) -> char {
    ('0' as u32 + d) as char
}

/// The decimal digits of a number, without leading zeros.
pub open spec fn decimal(n: int) -> Seq<char>
    decreases n,
{
    if n < 10 {
        seq![digit_char(n)]
    } else {
        decimal(n / 10).push(digit_char(n % 10))
    }
}

/// The decimal digits of a number.
pub fn to_decimal(n: u64) -> (text: String)
    ensures
        text@ == decimal(n as int),
    decreases n,
{
    let d: u8 = (n % 10) as u8;
    let c: char = (48 + d) as char;
    if n < 10 {
        let mut text = String::new();
        text.push(c);
        assert(text@ == decimal(n as int));
        text
    } else {
        let mut text = to_decimal(n / 10);
        text.push(c);
        text
    }
}

/// A written number reads back as itself.
pub proof fn law_decimal_reads_back(n: int, max: int)
    requires
        0 <= n <= max,
    ensures
        number_of(decimal(n), max) == Some(n),
{
    lemma_decimal(n);
}

/// The digits of a written number, and what they denote.
pub proof fn lemma_decimal(n: int)
    requires
        0 <= n,
    ensures
        decimal(n).len() > 0,
        all_digits(decimal(n)),
        decimal(n)[0] != '+',
        digits_value(decimal(n)) == n,
    decreases n,
{
    if n < 10 {
        assert(decimal(n).drop_last() == Seq::<char>::empty());
        assert(digits_value(decimal(n).drop_last()) == 0);
    } else {
        lemma_decimal(n / 10);
        assert(decimal(n).drop_last() == decimal(n / 10));
    }
}

/// The white space that is taken off: tab, line feed, line tabulation, form feed,
/// carriage return, space, next line, no-break space, and the wide spaces and
/// line ends of Unicode.
pub proof fn law_white_space(c: char)
    ensures
        is_space(c) <==> seq![
            '\t',
            '\n',
            '\u{B}',
            '\u{C}',
            '\r',
            ' ',
            '\u{85}',
            '\u{A0}',
            '\u{1680}',
            '\u{2028}',
            '\u{2029}',
            '\u{202F}',
            '\u{205F}',
            '\u{3000}',
        ].contains(c) || '\u{2000}' <= c <= '\u{200A}',
{
    let all = seq![
        '\t',
        '\n',
        '\u{B}',
        '\u{C}',
        '\r',
        ' ',
        '\u{85}',
        '\u{A0}',
        '\u{1680}',
        '\u{2028}',
        '\u{2029}',
        '\u{202F}',
        '\u{205F}',
        '\u{3000}',
    ];
    assert(all[0] == '\t' && all[1] == '\n' && all[2] == '\u{B}' && all[3] == '\u{C}');
    assert(all[4] == '\r' && all[5] == ' ' && all[6] == '\u{85}' && all[7] == '\u{A0}');
    assert(all[8] == '\u{1680}' && all[9] == '\u{2028}' && all[10] == '\u{2029}');
    assert(all[11] == '\u{202F}' && all[12] == '\u{205F}' && all[13] == '\u{3000}');
}

/// True when every character is white space.
pub open spec fn all_space(s: Seq<char>) -> bool {
    forall|i: int| 0 <= i < s.len() ==> is_space(#[trigger] s[i])
}

/// True for a text with no white space at its ends.
pub open spec fn no_space_around(s: Seq<char>) -> bool {
    s.len() > 0 ==> !is_space(s[0]) && !is_space(s[s.len() - 1])
}

/// Trimming takes the white space at the two ends away, and nothing else.
pub proof fn law_trimming_takes_the_ends_alone(before: Seq<char>, s: Seq<char>, behind: Seq<char>)
    requires
        all_space(before),
        all_space(behind),
        no_space_around(s),
    ensures
        trimmed(before + s + behind) == s,
{
    lemma_trimmed_start(before, s + behind);
    assert(before + s + behind == before + (s + behind));
    if s.len() > 0 {
        assert((s + behind)[0] == s[0]);
        assert(trimmed_start(s + behind) == s + behind);
        lemma_trimmed_end(s, behind);
    } else {
        assert(s + behind == behind);
        lemma_trimmed_start(behind, Seq::empty());
        assert(behind + Seq::<char>::empty() == behind);
        assert(trimmed_start(Seq::<char>::empty()) == Seq::<char>::empty());
        assert(trimmed_end(Seq::<char>::empty()) == Seq::<char>::empty());
        assert(s == Seq::<char>::empty());
    }
}

proof fn lemma_trimmed_start(before: Seq<char>, s: Seq<char>)
    requires
        all_space(before),
    ensures
        trimmed_start(before + s) == trimmed_start(s),
    decreases before.len(),
{
    if before.len() == 0 {
        assert(before + s == s);
    } else {
        assert(is_space(before[0]));
        let rest = before.drop_first();
        assert forall|i: int| 0 <= i < rest.len() implies is_space(#[trigger] rest[i]) by {
            assert(is_space(before[i + 1]));
        }
        assert((before + s).drop_first() == rest + s);
        lemma_trimmed_start(rest, s);
    }
}

proof fn lemma_trimmed_end(s: Seq<char>, behind: Seq<char>)
    requires
        all_space(behind),
        s.len() > 0,
        !is_space(s[s.len() - 1]),
    ensures
        trimmed_end(s + behind) == s,
    decreases behind.len(),
{
    if behind.len() == 0 {
        assert(s + behind == s);
    } else {
        assert(is_space(behind[behind.len() - 1]));
        let rest = behind.drop_last();
        assert forall|i: int| 0 <= i < rest.len() implies is_space(#[trigger] rest[i]) by {
            assert(is_space(behind[i]));
        }
        assert((s + behind).drop_last() == s + rest);
        lemma_trimmed_end(s, rest);
    }
}

/// However often a character stands at the start of a text, all of it goes, and
/// the rest is kept.
pub proof fn law_leading_characters_go(c: char, n: nat, rest: Seq<char>)
    requires
        rest.len() > 0 ==> rest[0] != c,
    ensures
        without_leading(Seq::new(n, |i: int| c) + rest, c) == rest,
    decreases n,
{
    let head = Seq::new(n, |i: int| c);
    if n == 0 {
        assert(head + rest == rest);
    } else {
        let fewer = (n - 1) as nat;
        assert((head + rest).drop_first() == Seq::new(fewer, |i: int| c) + rest);
        law_leading_characters_go(c, fewer, rest);
    }
}

/// A text is split at each separator and nowhere else: what stands between two of
/// them is one piece, and the pieces of two texts with a separator between them
/// are those of the first and then those of the second.
pub proof fn law_texts_split_at_separators(a: Seq<char>, c: char, b: Seq<char>)
    ensures
        !a.contains(c) ==> pieces(a, c) == seq![a],
        pieces(a.push(c) + b, c) == pieces(a, c) + pieces(b, c),
    decreases b.len(), a.len(),
{
    if !a.contains(c) {
        lemma_one_piece(a, c);
    }
    lemma_pieces_nonempty(b, c);
    lemma_pieces_nonempty(a, c);
    if b.len() == 0 {
        assert(a.push(c) + b == a.push(c));
        assert(a.push(c).drop_last() == a);
        assert(pieces(b, c) == seq![Seq::<char>::empty()]);
        assert(pieces(a, c).push(Seq::<char>::empty()) == pieces(a, c) + pieces(b, c));
    } else {
        law_texts_split_at_separators(a, c, b.drop_last());
        lemma_pieces_nonempty(b.drop_last(), c);
        let whole = a.push(c) + b;
        assert(whole.drop_last() == a.push(c) + b.drop_last());
        assert(whole.last() == b.last());
        let front = pieces(a, c);
        let back = pieces(b.drop_last(), c);
        if b.last() == c {
            assert((front + back).push(Seq::<char>::empty()) == front + back.push(
                Seq::<char>::empty(),
            ));
        } else {
            assert((front + back).last() == back.last());
            assert((front + back).drop_last() == front + back.drop_last());
            let grown = back.last().push(b.last());
            assert((front + back.drop_last()).push(grown) == front + back.drop_last().push(grown));
        }
    }
}

proof fn lemma_one_piece(a: Seq<char>, c: char)
    requires
        !a.contains(c),
    ensures
        pieces(a, c) == seq![a],
    decreases a.len(),
{
    if a.len() == 0 {
        assert(a == Seq::<char>::empty());
    } else {
        let shorter = a.drop_last();
        assert(!shorter.contains(c)) by {
            if shorter.contains(c) {
                let i = choose|i: int| 0 <= i < shorter.len() && shorter[i] == c;
                assert(a[i] == c);
            }
        }
        lemma_one_piece(shorter, c);
        assert(a[a.len() - 1] != c);
        assert(shorter.push(a.last()) == a);
        assert(seq![shorter].drop_last().push(a) == seq![a]);
    }
}

/// True when `part` stands in `s` before place `end`.
pub open spec fn stands_before(s: Seq<char>, part: Seq<char>, end: int) -> bool {
    exists|i: int| 0 <= i < end && part.is_prefix_of(#[trigger] s.skip(i))
}

/// The first occurrence of a pattern is replaced, what stands before it is kept,
/// and the rest is replaced in the same way. A text without the pattern is kept.
pub proof fn law_occurrences_are_replaced(
    a: Seq<char>,
    from: Seq<char>,
    b: Seq<char>,
    to: Seq<char>,
)
    requires
        from.len() > 0,
    ensures
        !stands_before(a + from + b, from, a.len() as int) ==> replaced(a + from + b, from, to) == a
            + to + replaced(b, from, to),
        !stands_before(a, from, a.len() as int) ==> replaced(a, from, to) == a,
{
    if !stands_before(a + from + b, from, a.len() as int) {
        lemma_replace_first(a, from, b, to);
    }
    if !stands_before(a, from, a.len() as int) {
        lemma_replace_none(a, from, to);
    }
}

proof fn lemma_replace_first(a: Seq<char>, from: Seq<char>, b: Seq<char>, to: Seq<char>)
    requires
        from.len() > 0,
        !stands_before(a + from + b, from, a.len() as int),
    ensures
        replaced(a + from + b, from, to) == a + to + replaced(b, from, to),
    decreases a.len(),
{
    let s = a + from + b;
    if a.len() == 0 {
        assert(s.take(from.len() as int) == from);
        assert(from.is_prefix_of(s));
        assert(s.skip(from.len() as int) == b);
        assert(a + to == to);
    } else {
        assert(s.skip(0) == s);
        assert(!from.is_prefix_of(s.skip(0)));
        let rest = a.drop_first();
        assert(s.drop_first() == rest + from + b);
        assert(!stands_before(rest + from + b, from, rest.len() as int)) by {
            assert forall|i: int| 0 <= i < rest.len() implies !from.is_prefix_of(
                #[trigger] (rest + from + b).skip(i),
            ) by {
                assert((rest + from + b).skip(i) == s.skip(i + 1));
            }
        }
        lemma_replace_first(rest, from, b, to);
        assert(seq![s[0]] + (rest + to + replaced(b, from, to)) == a + to + replaced(b, from, to));
    }
}

proof fn lemma_replace_none(a: Seq<char>, from: Seq<char>, to: Seq<char>)
    requires
        from.len() > 0,
        !stands_before(a, from, a.len() as int),
    ensures
        replaced(a, from, to) == a,
    decreases a.len(),
{
    if a.len() > 0 {
        assert(a.skip(0) == a);
        assert(!from.is_prefix_of(a.skip(0)));
        let rest = a.drop_first();
        assert(!stands_before(rest, from, rest.len() as int)) by {
            assert forall|i: int| 0 <= i < rest.len() implies !from.is_prefix_of(
                #[trigger] rest.skip(i),
            ) by {
                assert(rest.skip(i) == a.skip(i + 1));
            }
        }
        lemma_replace_none(rest, from, to);
        assert(seq![a[0]] + rest == a);
    }
}

/// Numbers are written in decimal: a number below ten as its digit, and any other
/// as what it is without its last digit, followed by that digit.
pub proof fn law_numbers_are_written_in_decimal(n: int, d: int)
    requires
        0 <= d <= 9,
    ensures
        decimal(d) == seq![(48 + d) as char],
        n > 0 ==> decimal(10 * n + d) == decimal(n).push((48 + d) as char),
{
    if n > 0 {
        assert((10 * n + d) / 10 == n && (10 * n + d) % 10 == d);
    }
}

/// Numbers are read in decimal, up to the limit: a digit reads as what it says,
/// and one more digit behind a number makes ten times as much and that digit.
/// One `+` may stand before it. Anything else is no number.
pub proof fn law_numbers_are_read_in_decimal(s: Seq<char>, d: int, max: int)
    requires
        0 <= d <= 9,
    ensures
        number_of(seq![(48 + d) as char], max) == (if d <= max {
            Some(d)
        } else {
            None
        }),
        number_of(s, max) matches Some(n) ==> number_of(s.push((48 + d) as char), max) == (if 10 * n
            + d <= max {
            Some(10 * n + d)
        } else {
            None
        }),
        s.len() > 0 && s[0] != '+' ==> number_of(seq!['+'] + s, max) == number_of(s, max),
        number_of(s, max) is Some ==> s.len() > 0 && s[s.len() - 1] != '+' && forall|i: int|
            0 <= i < s.len() ==> '0' <= #[trigger] s[i] <= '9' || (i == 0 && s[i] == '+'),
{
    let digit = (48 + d) as char;
    let one = seq![digit];
    assert(one.drop_last() == Seq::<char>::empty());
    assert(digits_value(one.drop_last()) == 0);
    assert(unsigned_part(one) == one);
    assert(all_digits(one));
    assert(digits_value(one) == d);
    if number_of(s, max) is Some {
        let digits = unsigned_part(s);
        let more = s.push(digit);
        assert(unsigned_part(more) == digits.push(digit));
        assert(digits.push(digit).drop_last() == digits);
        assert forall|i: int| 0 <= i < digits.push(digit).len() implies is_digit(
            #[trigger] digits.push(digit)[i],
        ) by {
            if i < digits.len() {
                assert(is_digit(digits[i]));
            }
        }
        assert(digits_value(digits.push(digit)) == 10 * digits_value(digits) + d);
        assert forall|i: int| 0 <= i < s.len() implies '0' <= #[trigger] s[i] <= '9' || (i == 0
            && s[i] == '+') by {
            if s[0] == '+' {
                if i > 0 {
                    assert(digits[i - 1] == s[i]);
                    assert(is_digit(digits[i - 1]));
                }
            } else {
                assert(is_digit(digits[i]));
            }
        }
        assert(is_digit(digits[digits.len() - 1]));
        assert(digits[digits.len() - 1] == s[s.len() - 1]);
    }
    if s.len() > 0 && s[0] != '+' {
        assert((seq!['+'] + s).drop_first() == s);
    }
}

/// Of the letters `A` to `Z` the small ones are taken, which follow 32 places
/// later; any other character is kept.
pub proof fn law_small_letters(s: Seq<char>)
    ensures
        ascii_lowered(s).len() == s.len(),
        forall|i: int|
            0 <= i < s.len() ==> (if 65 <= (#[trigger] s[i]) as int <= 90 {
                ascii_lowered(s)[i] as int == s[i] as int + 32
            } else {
                ascii_lowered(s)[i] == s[i]
            }),
{
}

/// The last `c` of a text is the one with no other behind it, and the first the
/// one with no other before it.
pub proof fn law_first_and_last_separator(before: Seq<char>, c: char, behind: Seq<char>)
    ensures
        !behind.contains(c) ==> last_place(before.push(c) + behind, c) == before.len(),
        !behind.contains(c) ==> last_place(behind, c) == -1,
        !before.contains(c) ==> first_place(before.push(c) + behind, c, 0) == before.len(),
        !before.contains(c) ==> first_place(before, c, 0) == before.len(),
{
    let whole = before.push(c) + behind;
    lemma_last_place(whole, c);
    lemma_last_place(behind, c);
    if !behind.contains(c) {
        let p = last_place(whole, c);
        assert(whole[before.len() as int] == c);
        if p > before.len() {
            assert(behind[p - before.len() - 1] == c);
        }
    }
    if !before.contains(c) {
        lemma_first_place(whole, c, 0, before.len() as int);
        lemma_first_place(before, c, 0, before.len() as int);
    }
}

proof fn lemma_first_place(s: Seq<char>, c: char, from: int, place: int)
    requires
        0 <= from <= place <= s.len(),
        place < s.len() ==> s[place] == c,
        forall|i: int| from <= i < place ==> s[i] != c,
    ensures
        first_place(s, c, from) == place,
    decreases place - from,
{
    if from < place {
        lemma_first_place(s, c, from + 1, place);
    }
}

/// Every character that is no white space is still there after trimming.
pub proof fn law_trimming_keeps_the_rest(s: Seq<char>, i: int)
    requires
        0 <= i < s.len(),
        !is_space(s[i]),
    ensures
        trimmed(s).contains(s[i]),
{
    lemma_start_keeps(s, i);
    let rest = trimmed_start(s);
    let k = choose|k: int| 0 <= k < rest.len() && rest[k] == s[i];
    lemma_end_keeps(rest, k);
}

proof fn lemma_start_keeps(s: Seq<char>, i: int)
    requires
        0 <= i < s.len(),
        !is_space(s[i]),
    ensures
        trimmed_start(s).contains(s[i]),
    decreases s.len(),
{
    if is_space(s[0]) {
        assert(s.drop_first()[i - 1] == s[i]);
        lemma_start_keeps(s.drop_first(), i - 1);
    } else {
        assert(trimmed_start(s)[i] == s[i]);
    }
}

proof fn lemma_end_keeps(s: Seq<char>, i: int)
    requires
        0 <= i < s.len(),
        !is_space(s[i]),
    ensures
        trimmed_end(s).contains(s[i]),
    decreases s.len(),
{
    if is_space(s.last()) {
        assert(s.drop_last()[i] == s[i]);
        lemma_end_keeps(s.drop_last(), i);
    } else {
        assert(trimmed_end(s)[i] == s[i]);
    }
}

} // verus!
