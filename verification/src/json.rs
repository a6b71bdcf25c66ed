//! JSON values: reading the members of a parsed value, and making the values
//! that the host writes. A value is spoken of by its compact text.

use crate::text::{decimal, law_decimal_reads_back, maybe};
use vstd::prelude::*;
use vstd::string::*;

verus! {

/// `serde_json::Value`: one parsed or built JSON value.
#[verifier::external_type_specification]
#[verifier::external_body]
pub struct ExJsonValue(serde_json::Value);

/// The compact text of a value, which tells one value from every other.
pub uninterp spec fn value_text(value: serde_json::Value) -> Seq<char>;

/// What `serde_json::from_str` makes of a text: the compact text of the value,
/// or the message of the error.
pub uninterp spec fn json_parsed(text: Seq<char>) -> Result<Seq<char>, Seq<char>>;

/// What `serde_json::Value::get` finds under a key: the compact texts of a value
/// and of its member.
pub uninterp spec fn json_member(text: Seq<char>, key: Seq<char>) -> Option<Seq<char>>;

/// What `serde_json::Value::as_array` finds: the compact texts of a value and of
/// its items.
pub uninterp spec fn json_items(text: Seq<char>) -> Option<Seq<Seq<char>>>;

/// The compact texts of some values.
pub open spec fn value_texts(values: Seq<serde_json::Value>) -> Seq<Seq<char>> {
    values.map_values(|value: serde_json::Value| value_text(value))
}

/// A hexadecimal digit in lower case.
pub open spec fn hex_digit(n: int) -> char {
    if n < 10 {
        (n + 48) as char
    } else {
        (n + 87) as char
    }
}

/// What stands for a character inside a JSON string.
pub open spec fn json_escaped_char(c: char) -> Seq<char> {
    if c == '"' {
        seq!['\\', '"']
    } else if c == '\\' {
        seq!['\\', '\\']
    } else if c == '\x08' {
        seq!['\\', 'b']
    } else if c == '\x0C' {
        seq!['\\', 'f']
    } else if c == '\n' {
        seq!['\\', 'n']
    } else if c == '\r' {
        seq!['\\', 'r']
    } else if c == '\t' {
        seq!['\\', 't']
    } else if (c as u32) < 0x20 {
        seq!['\\', 'u', '0', '0', hex_digit(c as int / 16), hex_digit(c as int % 16)]
    } else {
        seq![c]
    }
}

/// `s` with every character written as it stands inside a JSON string.
pub open spec fn json_escaped(s: Seq<char>) -> Seq<char>
    decreases s.len(),
{
    if s.len() == 0 {
        Seq::empty()
    } else {
        json_escaped(s.drop_last()) + json_escaped_char(s.last())
    }
}

/// The text of a JSON string.
pub open spec fn quoted(s: Seq<char>) -> Seq<char> {
    seq!['"'] + json_escaped(s) + seq!['"']
}

/// The text of a JSON switch.
pub open spec fn bool_text(b: bool) -> Seq<char> {
    if b {
        "true"@
    } else {
        "false"@
    }
}

/// Texts with commas between them.
pub open spec fn with_commas(texts: Seq<Seq<char>>) -> Seq<char>
    decreases texts.len(),
{
    if texts.len() == 0 {
        Seq::empty()
    } else if texts.len() == 1 {
        texts[0]
    } else {
        with_commas(texts.drop_last()) + seq![','] + texts.last()
    }
}

/// The text of a JSON array.
pub open spec fn list_text(items: Seq<Seq<char>>) -> Seq<char> {
    seq!['['] + with_commas(items) + seq![']']
}

/// The texts of the members of an object: key, colon, value.
pub open spec fn pair_texts(members: Seq<(Seq<char>, Seq<char>)>) -> Seq<Seq<char>> {
    members.map_values(|m: (Seq<char>, Seq<char>)| quoted(m.0) + seq![':'] + m.1)
}

/// The text of a JSON object.
pub open spec fn object_text(members: Seq<(Seq<char>, Seq<char>)>) -> Seq<char> {
    seq!['{'] + with_commas(pair_texts(members)) + seq!['}']
}

/// True when `a` comes before `b` in the order of their characters: they agree
/// up to some place, and there `a` ends or has the smaller character.
pub open spec fn text_before(a: Seq<char>, b: Seq<char>) -> bool {
    exists|k: int|
        {
            &&& 0 <= k <= a.len()
            &&& k < b.len()
            &&& #[trigger] a.take(k) == b.take(k)
            &&& k == a.len() || (a[k] as u32) < (b[k] as u32)
        }
}

/// True when keys come in order, each once.
pub open spec fn ascending(members: Seq<(Seq<char>, Seq<char>)>) -> bool {
    forall|i: int|
        0 <= i < members.len() - 1 ==> text_before(#[trigger] members[i].0, members[i + 1].0)
}

/// The keys of some members, and the texts of their values.
pub open spec fn member_texts(members: Seq<(String, serde_json::Value)>) -> Seq<
    (Seq<char>, Seq<char>),
> {
    members.map_values(|m: (String, serde_json::Value)| (m.0@, value_text(m.1)))
}

/// The value under a key, where a member has it.
pub open spec fn member_under(members: Seq<(Seq<char>, Seq<char>)>, key: Seq<char>) -> Option<
    Seq<char>,
>
    decreases members.len(),
{
    if members.len() == 0 {
        None
    } else if members.last().0 == key {
        Some(members.last().1)
    } else {
        member_under(members.drop_last(), key)
    }
}

/// True for the text of null, a switch, a natural number of 64 bits or a string.
pub open spec fn scalar_text(text: Seq<char>) -> bool {
    ||| text == "null"@
    ||| exists|b: bool| text == #[trigger] bool_text(b)
    ||| exists|n: u64| text == #[trigger] decimal(n as int)
    ||| exists|s: Seq<char>| text == #[trigger] quoted(s)
}

/// True for a text made of scalars by lists and by objects with ascending keys, at
/// most `depth` of them in each other.
pub open spec fn simple_text(text: Seq<char>, depth: nat) -> bool
    decreases depth,
{
    ||| scalar_text(text)
    ||| depth > 0 && exists|items: Seq<Seq<char>>| #[trigger]
        list_text(items) == text && forall|i: int|
            0 <= i < items.len() ==> simple_text(#[trigger] items[i], (depth - 1) as nat)
    ||| depth > 0 && exists|members: Seq<(Seq<char>, Seq<char>)>| #[trigger]
        object_text(members) == text && ascending(members) && forall|i: int|
            0 <= i < members.len() ==> simple_text((#[trigger] members[i]).1, (depth - 1) as nat)
}

/// `serde_json::from_str`: a text is read as one JSON value, or refused with a
/// message.
#[verifier::external_body]
pub(crate) fn parse_json(text: &str) -> (r: Result<serde_json::Value, String>)
    ensures
        match r {
            Ok(value) => json_parsed(text@) == Ok::<Seq<char>, Seq<char>>(value_text(value)),
            Err(message) => json_parsed(text@) == Err::<Seq<char>, Seq<char>>(message@),
        },
{
    serde_json::from_str(text).map_err(|e: serde_json::Error| e.to_string())
}

/// `serde_json::Value::get` with a key: the member of an object under it. There
/// is none in an object without the key and in a value of another kind.
#[verifier::external_body]
pub(crate) fn json_get<'a>(value: &'a serde_json::Value, key: &str) -> (r: Option<
    &'a serde_json::Value,
>)
    ensures
        match r {
            Some(member) => json_member(value_text(*value), key@) == Some(value_text(*member)),
            None => json_member(value_text(*value), key@) is None,
        },
{
    value.get(key)
}

/// `serde_json::Value::as_str`: the characters of a string, and nothing for a
/// value of another kind.
#[verifier::external_body]
pub(crate) fn json_str(value: &serde_json::Value) -> (r: Option<String>)
    ensures
        match r {
            Some(s) => value_text(*value) == quoted(s@),
            None => forall|s: Seq<char>| value_text(*value) != #[trigger] quoted(s),
        },
{
    value.as_str().map(|s: &str| s.to_owned())
}

/// `serde_json::Value::as_u64`: a natural number of 64 bits, and nothing for a
/// larger, negative or fractional number and for a value of another kind.
#[verifier::external_body]
pub(crate) fn json_u64(value: &serde_json::Value) -> (r: Option<u64>)
    ensures
        match r {
            Some(n) => value_text(*value) == decimal(n as int),
            None => forall|n: u64| value_text(*value) != #[trigger] decimal(n as int),
        },
{
    value.as_u64()
}

/// `serde_json::Value::as_bool`: a switch, and nothing for a value of another
/// kind.
#[verifier::external_body]
pub(crate) fn json_bool(value: &serde_json::Value) -> (r: Option<bool>)
    ensures
        match r {
            Some(b) => value_text(*value) == bool_text(b),
            None => forall|b: bool| value_text(*value) != #[trigger] bool_text(b),
        },
{
    value.as_bool()
}

/// `serde_json::Value::as_array`: the items of an array in order, and nothing
/// for a value of another kind.
#[verifier::external_body]
pub(crate) fn json_array(value: &serde_json::Value) -> (r: Option<&Vec<serde_json::Value>>)
    ensures
        match r {
            Some(items) => json_items(value_text(*value)) == Some(value_texts(items@)),
            None => json_items(value_text(*value)) is None,
        },
{
    value.as_array()
}

/// `Display` of `serde_json::Value`: the compact text. Where it is a simple one, no
/// deeper than the parser goes, `serde_json::from_str` reads it back as the same
/// value. Of other texts that is not claimed: a fraction may be read back as its
/// neighbour, and a text of more than 127 levels is refused.
#[verifier::external_body]
pub(crate) fn json_text(value: &serde_json::Value) -> (text: String)
    ensures
        text@ == value_text(*value),
        simple_text(text@, 100) ==> json_parsed(text@) == Ok::<Seq<char>, Seq<char>>(text@),
{
    value.to_string()
}

/// `serde_json::Value::Null`.
#[verifier::external_body]
pub(crate) fn null_value() -> (value: serde_json::Value)
    ensures
        value_text(value) == "null"@,
{
    serde_json::Value::Null
}

/// `serde_json::Value::Bool`.
#[verifier::external_body]
pub(crate) fn bool_value(b: bool) -> (value: serde_json::Value)
    ensures
        value_text(value) == bool_text(b),
{
    serde_json::Value::Bool(b)
}

/// `serde_json::Value::from` on a natural number, whose text is its decimal
/// digits.
#[verifier::external_body]
pub(crate) fn number_value(n: u64) -> (value: serde_json::Value)
    ensures
        value_text(value) == decimal(n as int),
{
    serde_json::Value::from(n)
}

/// `serde_json::Value::String`, whose text is the characters in quotation
/// marks: the mark itself, the backslash and the control characters are
/// escaped, all others stand as they are.
#[verifier::external_body]
pub(crate) fn string_value(s: &str) -> (value: serde_json::Value)
    ensures
        value_text(value) == quoted(s@),
{
    serde_json::Value::String(s.to_owned())
}

/// `serde_json::Value::Array`, whose text is the items in order.
#[verifier::external_body]
pub(crate) fn list_value(items: Vec<serde_json::Value>) -> (value: serde_json::Value)
    ensures
        value_text(value) == list_text(value_texts(items@)),
{
    serde_json::Value::Array(items)
}

/// `serde_json::Map::from_iter` and `serde_json::Value::Object`: the map is
/// ordered by its keys, so members that come in that order keep it. Under each key
/// `serde_json::Value::get` finds its member, and nothing under another.
#[verifier::external_body]
pub(crate) fn object_value(members: Vec<(String, serde_json::Value)>) -> (value:
    serde_json::Value)
    requires
        ascending(member_texts(members@)),
    ensures
        value_text(value) == object_text(member_texts(members@)),
        forall|key: Seq<char>| #[trigger]
            json_member(value_text(value), key) == member_under(member_texts(members@), key),
{
    serde_json::Value::Object(members.into_iter().collect())
}

/// `serde_json::Value::clone`: the same value again.
#[verifier::external_body]
pub(crate) fn copy_value(value: &serde_json::Value) -> (copy: serde_json::Value)
    ensures
        value_text(copy) == value_text(*value),
{
    value.clone()
}

/// The member `key` of a value as a string, where it is one.
pub open spec fn string_member(text: Seq<char>, key: Seq<char>) -> Option<Seq<char>> {
    match json_member(text, key) {
        Some(m) => string_of_text(m),
        None => None,
    }
}

/// The characters of the string with the given text.
pub open spec fn string_of_text(text: Seq<char>) -> Option<Seq<char>> {
    if exists|s: Seq<char>| text == #[trigger] quoted(s) {
        Some(choose|s: Seq<char>| text == #[trigger] quoted(s))
    } else {
        None
    }
}

/// The member `key` of a value as a number, where it is a natural one.
pub open spec fn number_member(text: Seq<char>, key: Seq<char>) -> Option<u64> {
    match json_member(text, key) {
        Some(m) => if exists|n: u64| m == #[trigger] decimal(n as int) {
            Some(choose|n: u64| m == #[trigger] decimal(n as int))
        } else {
            None
        },
        None => None,
    }
}

/// The member `key` of a value as a switch, where it is one.
pub open spec fn bool_member(text: Seq<char>, key: Seq<char>) -> Option<bool> {
    match json_member(text, key) {
        Some(m) => if m == "true"@ {
            Some(true)
        } else if m == "false"@ {
            Some(false)
        } else {
            None
        },
        None => None,
    }
}

proof fn lemma_escaped_first(c: char, t: Seq<char>)
    ensures
        json_escaped(seq![c] + t) == json_escaped_char(c) + json_escaped(t),
    decreases t.len(),
{
    let s = seq![c] + t;
    if t.len() == 0 {
        assert(s.drop_last() == Seq::<char>::empty());
        assert(json_escaped(s.drop_last()) == Seq::<char>::empty());
        assert(json_escaped(s) == json_escaped_char(c) + json_escaped(t));
    } else {
        assert(s.drop_last() == seq![c] + t.drop_last());
        lemma_escaped_first(c, t.drop_last());
        assert(json_escaped(s) == json_escaped_char(c) + json_escaped(t));
    }
}

proof fn lemma_hex_digits(a: char, b: char)
    requires
        (a as u32) < 0x20,
        (b as u32) < 0x20,
        hex_digit(a as int / 16) == hex_digit(b as int / 16),
        hex_digit(a as int % 16) == hex_digit(b as int % 16),
    ensures
        a == b,
{
    assert(a as int / 16 == b as int / 16);
    assert(a as int % 16 == b as int % 16);
    assert(a as u32 == b as u32);
}

proof fn lemma_escape_is_prefix_free(a: char, x: Seq<char>, b: char, y: Seq<char>)
    requires
        json_escaped_char(a) + x == json_escaped_char(b) + y,
    ensures
        a == b,
        x == y,
{
    let left = json_escaped_char(a) + x;
    let right = json_escaped_char(b) + y;
    assert(left[0] == json_escaped_char(a)[0]);
    assert(right[0] == json_escaped_char(b)[0]);
    if json_escaped_char(a).len() > 1 {
        assert(left[1] == json_escaped_char(a)[1]);
        assert(json_escaped_char(b).len() > 1);
        assert(right[1] == json_escaped_char(b)[1]);
        assert(json_escaped_char(a).len() == json_escaped_char(b).len());
        if json_escaped_char(a).len() == 6 {
            assert(left[4] == json_escaped_char(a)[4] && left[5] == json_escaped_char(a)[5]);
            assert(right[4] == json_escaped_char(b)[4] && right[5] == json_escaped_char(b)[5]);
            lemma_hex_digits(a, b);
        }
    }
    assert(a == b);
    assert(left.skip(json_escaped_char(a).len() as int) == x);
    assert(right.skip(json_escaped_char(b).len() as int) == y);
}

proof fn lemma_escaped_is_injective(a: Seq<char>, b: Seq<char>)
    requires
        json_escaped(a) == json_escaped(b),
    ensures
        a == b,
    decreases a.len(),
{
    if a.len() > 0 {
        assert(a == seq![a[0]] + a.drop_first());
        lemma_escaped_first(a[0], a.drop_first());
    }
    if b.len() > 0 {
        assert(b == seq![b[0]] + b.drop_first());
        lemma_escaped_first(b[0], b.drop_first());
    }
    if a.len() > 0 && b.len() > 0 {
        lemma_escape_is_prefix_free(
            a[0],
            json_escaped(a.drop_first()),
            b[0],
            json_escaped(b.drop_first()),
        );
        lemma_escaped_is_injective(a.drop_first(), b.drop_first());
    }
}

/// Two strings with the same JSON text are the same string: what is written as
/// JSON can be read in one way only.
pub proof fn law_quoted_text_is_unambiguous(a: Seq<char>, b: Seq<char>)
    requires
        quoted(a) == quoted(b),
    ensures
        a == b,
{
    let left = quoted(a);
    let right = quoted(b);
    assert(left.subrange(1, left.len() - 1) == json_escaped(a));
    assert(right.subrange(1, right.len() - 1) == json_escaped(b));
    lemma_escaped_is_injective(a, b);
}

/// The text of a JSON string holds no control character and no quotation mark
/// that is not escaped, so it stands on one line of a script.
pub proof fn law_quoted_text_is_one_line(s: Seq<char>)
    ensures
        forall|i: int| 0 <= i < quoted(s).len() ==> (#[trigger] quoted(s)[i]) as u32 >= 0x20,
{
    lemma_escaped_is_printable(s);
}

proof fn lemma_escaped_char_is_printable(c: char)
    ensures
        forall|i: int|
            0 <= i < json_escaped_char(c).len() ==> (#[trigger] json_escaped_char(c)[i]) as u32
                >= 0x20,
{
}

proof fn lemma_escaped_is_printable(s: Seq<char>)
    ensures
        forall|i: int|
            0 <= i < json_escaped(s).len() ==> (#[trigger] json_escaped(s)[i]) as u32 >= 0x20,
    decreases s.len(),
{
    if s.len() > 0 {
        let head = json_escaped(s.drop_last());
        let tail = json_escaped_char(s.last());
        lemma_escaped_is_printable(s.drop_last());
        lemma_escaped_char_is_printable(s.last());
        assert forall|i: int| 0 <= i < json_escaped(s).len() implies (#[trigger] json_escaped(
            s,
        )[i]) as u32 >= 0x20 by {
            if i < head.len() {
                assert(json_escaped(s)[i] == head[i]);
            } else {
                assert(json_escaped(s)[i] == tail[i - head.len()]);
            }
        }
    }
}

/// The member `key` of a value as a string, where it is one.
pub(crate) fn string_at(value: &serde_json::Value, key: &str) -> (r: Option<String>)
    ensures
        maybe(r) == string_member(value_text(*value), key@),
{
    match json_get(value, key) {
        Some(member) => {
            let r = json_str(member);
            proof {
                lemma_string_of_text(r, value_text(*member));
            }
            r
        },
        None => None,
    }
}

pub(crate) proof fn lemma_string_of_text(r: Option<String>, text: Seq<char>)
    requires
        match r {
            Some(s) => text == quoted(s@),
            None => forall|s: Seq<char>| text != #[trigger] quoted(s),
        },
    ensures
        maybe(r) == string_of_text(text),
{
    if r is Some {
        let s = r->Some_0@;
        assert(text == quoted(s));
        let t = choose|t: Seq<char>| text == #[trigger] quoted(t);
        law_quoted_text_is_unambiguous(s, t);
    }
}

/// The text of a string stands for that string.
pub(crate) proof fn lemma_quoted_text(s: Seq<char>)
    ensures
        string_of_text(quoted(s)) == Some(s),
{
    let t = choose|t: Seq<char>| quoted(s) == #[trigger] quoted(t);
    law_quoted_text_is_unambiguous(s, t);
}

/// The text of a number stands for that number.
pub(crate) proof fn lemma_number_of_text(n: u64)
    ensures
        exists|m: u64| decimal(n as int) == #[trigger] decimal(m as int),
        (choose|m: u64| decimal(n as int) == #[trigger] decimal(m as int)) == n,
{
    let m = choose|m: u64| decimal(n as int) == #[trigger] decimal(m as int);
    assert(decimal(n as int) == decimal(m as int));
    law_decimal_reads_back(n as int, u64::MAX as int);
    law_decimal_reads_back(m as int, u64::MAX as int);
}

/// The texts of the two switches differ.
pub(crate) proof fn lemma_bool_texts()
    ensures
        "true"@ != "false"@,
        bool_text(true) == "true"@,
        bool_text(false) == "false"@,
{
    reveal_strlit("true");
    reveal_strlit("false");
    assert("true"@.len() != "false"@.len());
}

/// The member `key` of a value as a number, where it is a natural one.
pub(crate) fn number_at(value: &serde_json::Value, key: &str) -> (r: Option<u64>)
    ensures
        r == number_member(value_text(*value), key@),
{
    match json_get(value, key) {
        Some(member) => {
            let r = json_u64(member);
            proof {
                let text = value_text(*member);
                if r is Some {
                    let n = r->Some_0;
                    assert(text == decimal(n as int));
                    let m = choose|m: u64| text == #[trigger] decimal(m as int);
                    law_decimal_reads_back(n as int, u64::MAX as int);
                    law_decimal_reads_back(m as int, u64::MAX as int);
                }
            }
            r
        },
        None => None,
    }
}

/// The member `key` of a value as a switch, where it is one.
pub(crate) fn bool_at(value: &serde_json::Value, key: &str) -> (r: Option<bool>)
    ensures
        r == bool_member(value_text(*value), key@),
{
    match json_get(value, key) {
        Some(member) => {
            let r = json_bool(member);
            proof {
                reveal_strlit("true");
                reveal_strlit("false");
                assert("true"@.len() != "false"@.len());
                let text = value_text(*member);
                assert(bool_text(true) == "true"@);
                assert(bool_text(false) == "false"@);
            }
            r
        },
        None => None,
    }
}

/// A member is read as what it is: a string as its characters, a natural number as
/// that number, and a switch as its state; and nothing is read where there is no
/// member.
pub proof fn law_members_read_as_what_they_are(
    text: Seq<char>,
    key: Seq<char>,
    s: Seq<char>,
    n: u64,
    b: bool,
)
    ensures
        json_member(text, key) == Some(quoted(s)) ==> string_member(text, key) == Some(s),
        json_member(text, key) == Some(decimal(n as int)) ==> number_member(text, key) == Some(n),
        json_member(text, key) == Some(bool_text(b)) ==> bool_member(text, key) == Some(b),
        json_member(text, key) is None ==> string_member(text, key) is None && number_member(
            text,
            key,
        ) is None && bool_member(text, key) is None,
        string_member(text, key) matches Some(found) ==> json_member(text, key) == Some(
            quoted(found),
        ),
        number_member(text, key) matches Some(found) ==> json_member(text, key) == Some(
            decimal(found as int),
        ),
        bool_member(text, key) matches Some(found) ==> json_member(text, key) == Some(
            bool_text(found),
        ),
        bool_text(true) == "true"@,
        bool_text(false) == "false"@,
{
    lemma_quoted_text(s);
    lemma_number_of_text(n);
    lemma_bool_texts();
}

proof fn lemma_escaped_appends(a: Seq<char>, b: Seq<char>)
    ensures
        json_escaped(a + b) == json_escaped(a) + json_escaped(b),
    decreases b.len(),
{
    if b.len() == 0 {
        assert(a + b == a);
        assert(json_escaped(a) + json_escaped(b) == json_escaped(a));
    } else {
        lemma_escaped_appends(a, b.drop_last());
        assert((a + b).drop_last() == a + b.drop_last());
        assert((a + b).last() == b.last());
        assert(json_escaped(a) + json_escaped(b.drop_last()) + json_escaped_char(b.last())
            == json_escaped(a) + json_escaped(b));
    }
}

/// A string without quotation marks, backslashes and control characters is written
/// as it is, between two quotation marks.
pub proof fn law_plain_text_is_quoted_as_it_is(s: Seq<char>)
    requires
        forall|i: int|
            0 <= i < s.len() ==> #[trigger] s[i] != '"' && s[i] != '\\' && s[i] as u32 >= 0x20,
    ensures
        quoted(s) == seq!['"'] + s + seq!['"'],
{
    lemma_plain(s);
}

proof fn lemma_plain(s: Seq<char>)
    requires
        forall|i: int|
            0 <= i < s.len() ==> #[trigger] s[i] != '"' && s[i] != '\\' && s[i] as u32 >= 0x20,
    ensures
        json_escaped(s) == s,
    decreases s.len(),
{
    if s.len() > 0 {
        lemma_plain(s.drop_last());
        assert(s.last() == s[s.len() - 1]);
        assert(s.drop_last() + seq![s.last()] == s);
    }
}

/// Strings are written character by character; the quotation mark, the backslash
/// and the control characters by their escapes.
pub proof fn law_text_is_quoted_by_character(a: Seq<char>, b: Seq<char>)
    ensures
        quoted(a + b) == quoted(a).drop_last() + quoted(b).drop_first(),
        quoted(seq!['"']) == seq!['"', '\\', '"', '"'],
        quoted(seq!['\\']) == seq!['"', '\\', '\\', '"'],
        quoted(seq!['\n']) == seq!['"', '\\', 'n', '"'],
        quoted(seq!['\r']) == seq!['"', '\\', 'r', '"'],
        quoted(seq!['\t']) == seq!['"', '\\', 't', '"'],
{
    lemma_escaped_appends(a, b);
    assert(quoted(a + b) =~= quoted(a).drop_last() + quoted(b).drop_first());
    lemma_one_quoted('"');
    lemma_one_quoted('\\');
    lemma_one_quoted('\n');
    lemma_one_quoted('\r');
    lemma_one_quoted('\t');
}

proof fn lemma_one_quoted(c: char)
    ensures
        quoted(seq![c]) == seq!['"'] + json_escaped_char(c) + seq!['"'],
{
    lemma_escaped_first(c, Seq::empty());
    assert(seq![c] + Seq::<char>::empty() == seq![c]);
    assert(json_escaped_char(c) + json_escaped(Seq::<char>::empty()) == json_escaped_char(c));
}

} // verus!
