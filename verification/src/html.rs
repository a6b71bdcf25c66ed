//! The bridge in served pages, and text in pages that the host makes itself.

use crate::text::{
    ascii_lower, ascii_lowered, chars_of, concat2, find_from, first_place, string_range,
    to_ascii_lower,
};
use vstd::prelude::*;
use vstd::string::*;

verus! {

/// True for a character that ends the name of a tag.
pub open spec fn ends_tag_name(c: char) -> bool {
    c == '>' || c == '/' || c == ' ' || c == '\t' || c == '\n' || c == '\r' || c == '\x0C'
}

/// True when an opening `<head>` tag stands at `i`, in any letter case. A
/// longer name, such as `<header>`, is another tag.
pub open spec fn head_tag_at(s: Seq<char>, i: int) -> bool {
    &&& 0 <= i
    &&& i + 5 < s.len()
    &&& s[i] == '<'
    &&& ascii_lower(s[i + 1]) == 'h'
    &&& ascii_lower(s[i + 2]) == 'e'
    &&& ascii_lower(s[i + 3]) == 'a'
    &&& ascii_lower(s[i + 4]) == 'd'
    &&& ends_tag_name(s[i + 5])
}

/// The place of the first opening `<head>` tag at or after `from`, or the
/// length.
pub open spec fn head_place(s: Seq<char>, from: int) -> int
    decreases s.len() - from,
{
    if from < 0 || from >= s.len() {
        s.len() as int
    } else if head_tag_at(s, from) {
        from
    } else {
        head_place(s, from + 1)
    }
}

/// Where a snippet goes: right behind the first opening `<head>` tag, or at
/// the very start where there is none.
pub open spec fn injection_point(html: Seq<char>) -> int {
    let head = head_place(html, 0);
    let end = first_place(html, '>', head);
    if head < html.len() && end < html.len() {
        end + 1
    } else {
        0
    }
}

/// `html` with `snippet` put in at the injection point.
pub open spec fn injected(html: Seq<char>, snippet: Seq<char>) -> Seq<char> {
    html.take(injection_point(html)) + snippet + html.skip(injection_point(html))
}

fn tag_name_ends(c: char) -> (r: bool)
    ensures
        r == ends_tag_name(c),
{
    c == '>' || c == '/' || c == ' ' || c == '\t' || c == '\n' || c == '\r' || c == '\x0C'
}

fn find_head(chars: &[char]) -> (place: usize)
    ensures
        place == head_place(chars@, 0),
        place <= chars.len(),
{
    let mut i: usize = 0;
    while i < chars.len()
        invariant
            i <= chars.len(),
            head_place(chars@, 0) == head_place(chars@, i as int),
        decreases chars.len() - i,
    {
        if chars.len() - i > 5 && chars[i] == '<' && to_ascii_lower(chars[i + 1]) == 'h'
            && to_ascii_lower(chars[i + 2]) == 'e' && to_ascii_lower(chars[i + 3]) == 'a'
            && to_ascii_lower(chars[i + 4]) == 'd' && tag_name_ends(chars[i + 5]) {
            return i;
        }
        i += 1;
    }
    i
}

/// Inserts `snippet` right after the opening `<head>` tag, or at the very start
/// of a page without one. Served pages get the bridge in this way before any
/// of their own scripts run.
pub fn inject_after_head(html: &str, snippet: &str) -> (page: String)
    ensures
        page@ == injected(html@, snippet@),
{
    let chars = chars_of(html);
    let head = find_head(&chars);
    let end = find_from(&chars, '>', head);
    if end < chars.len() {
        let mut page = string_range(&chars, 0, end + 1);
        page.append(snippet);
        let rest = string_range(&chars, end + 1, chars.len());
        page.append(rest.as_str());
        assert(chars@.subrange(0, end + 1) == html@.take(end + 1));
        assert(chars@.subrange(end + 1, chars.len() as int) == html@.skip(end + 1));
        page
    } else {
        assert(html@.take(0) + snippet@ + html@.skip(0) == snippet@ + html@);
        concat2(snippet, html)
    }
}

/// The injection point lies at the start or right behind a `>`, and nothing of
/// the page is lost: what stands before and behind the snippet is the page.
pub proof fn law_injection_keeps_the_page(html: Seq<char>, snippet: Seq<char>)
    ensures
        0 <= injection_point(html) <= html.len(),
        injection_point(html) > 0 ==> html[injection_point(html) - 1] == '>',
        injected(html, snippet).len() == html.len() + snippet.len(),
        injected(html, snippet).take(injection_point(html)) + injected(html, snippet).skip(
            injection_point(html) + snippet.len(),
        ) == html,
        injected(html, snippet).subrange(
            injection_point(html),
            injection_point(html) + snippet.len(),
        ) == snippet,
{
    lemma_head_place(html, 0);
    let head = head_place(html, 0);
    lemma_first_place(html, '>', head);
    let k = injection_point(html);
    let page = injected(html, snippet);
    assert(page.take(k) == html.take(k));
    assert(page.skip(k + snippet.len()) == html.skip(k));
    assert(html.take(k) + html.skip(k) == html);
    assert(page.subrange(k, k + snippet.len()) == snippet);
}

/// The snippet goes behind the first `<head>` tag of a page that has one and
/// closes it, with no other `>` in between.
pub proof fn law_snippet_follows_the_head_tag(html: Seq<char>, at: int, end: int)
    requires
        head_tag_at(html, at),
        forall|i: int| 0 <= i < at ==> !head_tag_at(html, i),
        at < end < html.len(),
        html[end] == '>',
        forall|i: int| at <= i < end ==> html[i] != '>',
    ensures
        injection_point(html) == end + 1,
{
    lemma_head_is(html, 0, at);
    lemma_first_is(html, '>', at, end);
}

proof fn lemma_head_is(s: Seq<char>, from: int, at: int)
    requires
        0 <= from <= at,
        head_tag_at(s, at),
        forall|i: int| from <= i < at ==> !head_tag_at(s, i),
    ensures
        head_place(s, from) == at,
    decreases at - from,
{
    if from < at {
        lemma_head_is(s, from + 1, at);
    }
}

proof fn lemma_first_is(s: Seq<char>, c: char, from: int, end: int)
    requires
        0 <= from <= end < s.len(),
        s[end] == c,
        forall|i: int| from <= i < end ==> s[i] != c,
    ensures
        first_place(s, c, from) == end,
    decreases end - from,
{
    if from < end {
        lemma_first_is(s, c, from + 1, end);
    }
}

proof fn lemma_head_place(s: Seq<char>, from: int)
    requires
        0 <= from <= s.len(),
    ensures
        from <= head_place(s, from) <= s.len(),
    decreases s.len() - from,
{
    if from < s.len() && !head_tag_at(s, from) {
        lemma_head_place(s, from + 1);
    }
}

proof fn lemma_first_place(s: Seq<char>, c: char, from: int)
    requires
        0 <= from <= s.len(),
    ensures
        from <= first_place(s, c, from) <= s.len(),
        first_place(s, c, from) < s.len() ==> s[first_place(s, c, from)] == c,
    decreases s.len() - from,
{
    if from < s.len() && s[from] != c {
        lemma_first_place(s, c, from + 1);
    }
}

/// What stands for a character in the text of a page.
pub open spec fn escaped_char(c: char) -> Seq<char> {
    if c == '&' {
        "&amp;"@
    } else if c == '<' {
        "&lt;"@
    } else if c == '>' {
        "&gt;"@
    } else if c == '"' {
        "&quot;"@
    } else if c == '\'' {
        "&#39;"@
    } else {
        seq![c]
    }
}

/// `s` with every character that means something in a page written out.
pub open spec fn escaped(s: Seq<char>) -> Seq<char>
    decreases s.len(),
{
    if s.len() == 0 {
        Seq::empty()
    } else {
        escaped(s.drop_last()) + escaped_char(s.last())
    }
}

/// The text as it can stand in a page.
pub fn escape_html(text: &str) -> (r: String)
    ensures
        r@ == escaped(text@),
{
    let chars = chars_of(text);
    let mut r = String::new();
    let mut i: usize = 0;
    while i < chars.len()
        invariant
            i <= chars.len(),
            r@ == escaped(chars@.take(i as int)),
        decreases chars.len() - i,
    {
        let c = chars[i];
        assert(chars@.take(i + 1).drop_last() == chars@.take(i as int));
        let ghost done = r@;
        if c == '&' {
            r.append("&amp;");
        } else if c == '<' {
            r.append("&lt;");
        } else if c == '>' {
            r.append("&gt;");
        } else if c == '"' {
            r.append("&quot;");
        } else if c == '\'' {
            r.append("&#39;");
        } else {
            r.push(c);
            assert(r@ == done + seq![c]);
        }
        i += 1;
    }
    assert(chars@.take(i as int) == chars@);
    r
}

/// Escaped text opens no tag and ends no attribute.
pub proof fn law_escaped_text_is_inert(s: Seq<char>)
    ensures
        forall|i: int|
            0 <= i < escaped(s).len() ==> {
                let c = #[trigger] escaped(s)[i];
                c != '<' && c != '>' && c != '"' && c != '\''
            },
    decreases s.len(),
{
    if s.len() > 0 {
        law_escaped_text_is_inert(s.drop_last());
        reveal_strlit("&amp;");
        reveal_strlit("&lt;");
        reveal_strlit("&gt;");
        reveal_strlit("&quot;");
        reveal_strlit("&#39;");
        let head = escaped(s.drop_last());
        let tail = escaped_char(s.last());
        assert forall|i: int| 0 <= i < escaped(s).len() implies {
            let c = #[trigger] escaped(s)[i];
            c != '<' && c != '>' && c != '"' && c != '\''
        } by {
            if i < head.len() {
                assert(escaped(s)[i] == head[i]);
            } else {
                assert(escaped(s)[i] == tail[i - head.len()]);
            }
        }
    }
}

/// True where `<head` stands at place `i` of a page in any letter case and its
/// name ends there.
pub open spec fn opens_head(html: Seq<char>, i: int) -> bool {
    &&& 0 <= i <= html.len() - 6
    &&& ascii_lowered(html.subrange(i, i + 5)) == "<head"@
    &&& seq!['>', '/', ' ', '\t', '\n', '\r', '\x0C'].contains(html[i + 5])
}

proof fn lemma_opens_head(html: Seq<char>, i: int)
    ensures
        opens_head(html, i) <==> head_tag_at(html, i),
{
    reveal_strlit("<head");
    if 0 <= i <= html.len() - 6 {
        let ends = seq!['>', '/', ' ', '\t', '\n', '\r', '\x0C'];
        assert(ends[0] == '>' && ends[1] == '/' && ends[2] == ' ' && ends[3] == '\t' && ends[4]
            == '\n' && ends[5] == '\r' && ends[6] == '\x0C');
        let name = ascii_lowered(html.subrange(i, i + 5));
        assert(name.len() == 5);
        assert(name[0] == ascii_lower(html[i]) && name[1] == ascii_lower(html[i + 1]) && name[2]
            == ascii_lower(html[i + 2]) && name[3] == ascii_lower(html[i + 3]) && name[4]
            == ascii_lower(html[i + 4]));
        if head_tag_at(html, i) {
            assert(name =~= "<head"@);
        }
    }
}

/// A snippet goes into a page right behind the `>` that closes its first `<head>`
/// tag, and all of the page stands round it. Into a page without such a tag, or
/// in which no `>` follows it, the snippet goes at the very start.
pub proof fn law_snippet_stands_behind_the_head_tag(
    before: Seq<char>,
    tag: Seq<char>,
    behind: Seq<char>,
    snippet: Seq<char>,
)
    requires
        forall|i: int| 0 <= i < before.len() ==> !#[trigger] opens_head(before + tag + behind, i),
        !tag.drop_last().contains('>'),
    ensures
        tag.len() > 0 && tag.last() == '>' && opens_head(
            before + tag + behind,
            before.len() as int,
        ) ==> injected(before + tag + behind, snippet) == before + tag + snippet + behind,
        tag.len() == 0 && behind.len() == 0 ==> injected(before, snippet) == snippet + before,
        behind.len() == 0 && opens_head(before + tag, before.len() as int) && !tag.contains('>')
            ==> injected(before + tag, snippet) == snippet + before + tag,
{
    let html = before + tag + behind;
    let at = before.len() as int;
    assert forall|i: int| 0 <= i < before.len() implies !head_tag_at(html, i) by {
        lemma_opens_head(html, i);
        assert(!opens_head(html, i));
    }
    lemma_opens_head(html, at);
    if behind.len() == 0 {
        assert(html == before + tag);
    }
    if tag.len() > 0 && tag.last() == '>' && opens_head(html, at) {
        let end = at + tag.len() - 1;
        assert(html[end] == '>');
        assert forall|i: int| at <= i < end implies html[i] != '>' by {
            assert(html[i] == tag.drop_last()[i - at]);
        }
        assert(html[at] == '<');
        law_snippet_follows_the_head_tag(html, at, end);
        assert(html.take(end + 1) == before + tag);
        assert(html.skip(end + 1) == behind);
    }
    if tag.len() == 0 && behind.len() == 0 {
        assert(html == before);
        lemma_no_head(html, 0);
        assert(html.take(0) + snippet + html.skip(0) == snippet + before);
    }
    if behind.len() == 0 && opens_head(html, at) && !tag.contains('>') {
        lemma_head_is(html, 0, at);
        lemma_first_place(html, '>', at);
        let end = first_place(html, '>', at);
        if end < html.len() {
            assert(tag[end - at] == '>');
        }
        assert(html.take(0) + snippet + html.skip(0) == snippet + before + tag);
    }
}

proof fn lemma_no_head(s: Seq<char>, from: int)
    requires
        0 <= from <= s.len(),
        forall|i: int| from <= i < s.len() ==> !head_tag_at(s, i),
    ensures
        head_place(s, from) == s.len(),
    decreases s.len() - from,
{
    if from < s.len() {
        lemma_no_head(s, from + 1);
    }
}

/// Text is escaped character by character: the five that mean something in a page
/// by their names, and any other as itself.
pub proof fn law_text_is_escaped_by_character(a: Seq<char>, c: char, b: Seq<char>)
    ensures
        escaped(a + b) == escaped(a) + escaped(b),
        escaped(Seq::empty()) == Seq::<char>::empty(),
        escaped(seq!['&']) == "&amp;"@,
        escaped(seq!['<']) == "&lt;"@,
        escaped(seq!['>']) == "&gt;"@,
        escaped(seq!['"']) == "&quot;"@,
        escaped(seq!['\'']) == "&#39;"@,
        c != '&' && c != '<' && c != '>' && c != '"' && c != '\'' ==> escaped(seq![c]) == seq![c],
    decreases b.len(),
{
    lemma_one_escaped('&');
    lemma_one_escaped('<');
    lemma_one_escaped('>');
    lemma_one_escaped('"');
    lemma_one_escaped('\'');
    lemma_one_escaped(c);
    if b.len() == 0 {
        assert(a + b == a);
        assert(escaped(a) + escaped(b) == escaped(a));
    } else {
        law_text_is_escaped_by_character(a, c, b.drop_last());
        assert((a + b).drop_last() == a + b.drop_last());
        assert((a + b).last() == b.last());
        assert(escaped(a) + escaped(b.drop_last()) + escaped_char(b.last()) == escaped(a)
            + escaped(b));
    }
}

proof fn lemma_one_escaped(c: char)
    ensures
        escaped(seq![c]) == escaped_char(c),
{
    assert(seq![c].drop_last() == Seq::<char>::empty());
    assert(escaped(seq![c].drop_last()) == Seq::<char>::empty());
    assert(seq![c].last() == c);
    assert(escaped(seq![c]) == Seq::<char>::empty() + escaped_char(c));
}

} // verus!
