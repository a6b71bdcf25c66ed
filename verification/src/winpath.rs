//! Windows paths, read into their prefix, root and parts.
//!
//! A path is kept as what it denotes component by component: two texts that
//! name the same components, such as `C:/a/b` and `C:\a\.\b`, are the same
//! path.

use crate::text::{
    chars_of, concat2, concat3, law_texts_split_at_separators, pieces, same_text, split,
    string_range, views,
};
use vstd::prelude::*;
use vstd::string::*;

verus! {

// ---------------------------------------------------------------------------
// The model
// ---------------------------------------------------------------------------

/// What stands before the root of a path.
#[derive(Clone, Copy, PartialEq, Eq, Structural, Debug)]
pub enum PrefixKind {
    /// `\\?\name`
    Verbatim,
    /// `\\?\UNC\server\share`
    VerbatimUnc,
    /// `\\?\C:`
    VerbatimDisk,
    /// `\\.\device`
    DeviceNs,
    /// `\\server\share`
    Unc,
    /// `C:`
    Disk,
}

/// A prefix with its names: a drive letter in upper case, a device, or a
/// server and a share.
#[derive(Debug)]
pub struct PathPrefix {
    pub kind: PrefixKind,
    pub first: String,
    pub second: String,
}

/// A prefix as plain sequences.
#[verifier::ext_equal]
pub struct PrefixView {
    pub kind: PrefixKind,
    pub first: Seq<char>,
    pub second: Seq<char>,
}

impl View for PathPrefix {
    type V = PrefixView;

    open spec fn view(&self) -> PrefixView {
        PrefixView { kind: self.kind, first: self.first@, second: self.second@ }
    }
}

/// A path: its prefix, whether a root follows it, and its parts. A part is a
/// name, `.` or `..`.
#[derive(Debug)]
pub struct WinPath {
    pub prefix: Option<PathPrefix>,
    pub rooted: bool,
    pub parts: Vec<String>,
}

/// A path as plain sequences.
#[verifier::ext_equal]
pub struct PathView {
    pub prefix: Option<PrefixView>,
    pub rooted: bool,
    pub parts: Seq<Seq<char>>,
}

/// The view of an optional prefix.
pub open spec fn prefix_view(prefix: Option<PathPrefix>) -> Option<PrefixView> {
    match prefix {
        Some(p) => Some(p@),
        None => None,
    }
}

impl View for WinPath {
    type V = PathView;

    open spec fn view(&self) -> PathView {
        PathView {
            prefix: prefix_view(self.prefix),
            rooted: self.rooted,
            parts: views(self.parts@),
        }
    }
}

/// The view of an optional path.
pub open spec fn path_view(path: Option<WinPath>) -> Option<PathView> {
    match path {
        Some(p) => Some(p@),
        None => None,
    }
}

/// One component of a path.
#[verifier::ext_equal]
pub enum PathComponent {
    Prefix(PrefixView),
    Root,
    Part(Seq<char>),
}

impl PathView {
    /// The components in order: prefix, root, parts.
    pub open spec fn components(self) -> Seq<PathComponent> {
        let prefix = match self.prefix {
            Some(p) => seq![PathComponent::Prefix(p)],
            None => Seq::<PathComponent>::empty(),
        };
        let root = if self.rooted {
            seq![PathComponent::Root]
        } else {
            Seq::<PathComponent>::empty()
        };
        prefix + root + self.parts.map_values(|p: Seq<char>| PathComponent::Part(p))
    }

    /// True when the components of `root` are the first ones of this path.
    pub open spec fn starts_with(self, root: PathView) -> bool {
        root.components().is_prefix_of(self.components())
    }

    /// True when the path has one of the `\\?\` prefixes.
    pub open spec fn is_verbatim(self) -> bool {
        self.prefix matches Some(p) && verbatim_kind(p.kind)
    }

    /// True when the path names a place on its own: a prefix and a root. Only
    /// a drive can stand without a root.
    pub open spec fn is_absolute(self) -> bool {
        self.prefix matches Some(p) && (self.rooted || p.kind != PrefixKind::Disk)
    }

    /// True when the path has no component.
    pub open spec fn is_empty(self) -> bool {
        self.prefix is None && !self.rooted && self.parts.len() == 0
    }
}

/// True for the prefixes that begin with `\\?\`.
pub open spec fn verbatim_kind(kind: PrefixKind) -> bool {
    kind == PrefixKind::Verbatim || kind == PrefixKind::VerbatimUnc || kind
        == PrefixKind::VerbatimDisk
}

/// True for the two separators.
pub open spec fn is_sep(c: char) -> bool {
    c == '\\' || c == '/'
}

/// `c` in upper case, for `a` to `z`.
pub open spec fn ascii_upper(c: char) -> char {
    if 'a' <= c <= 'z' {
        (c as u32 - 32) as char
    } else {
        c
    }
}

/// True for a drive letter.
pub open spec fn is_letter(c: char) -> bool {
    'a' <= c <= 'z' || 'A' <= c <= 'Z'
}

/// The place of the first separator at or after `from`, or the length. After a
/// `\\?\` prefix only `\` separates.
pub open spec fn sep_place(s: Seq<char>, from: int, verbatim: bool) -> int
    decreases s.len() - from,
{
    if from < 0 || from >= s.len() {
        s.len() as int
    } else if s[from] == '\\' || (s[from] == '/' && !verbatim) {
        from
    } else {
        sep_place(s, from + 1, verbatim)
    }
}

/// The name that begins at `from` and ends before the next separator.
pub open spec fn name_at(s: Seq<char>, from: int, verbatim: bool) -> Seq<char> {
    if 0 <= from <= s.len() {
        s.subrange(from, sep_place(s, from, verbatim))
    } else {
        Seq::empty()
    }
}

/// The name after the one that begins at `from`.
pub open spec fn next_name(s: Seq<char>, from: int, verbatim: bool) -> Seq<char> {
    name_at(s, sep_place(s, from, verbatim) + 1, verbatim)
}

/// True when a drive letter and a colon stand at `at`.
pub open spec fn drive_at(s: Seq<char>, at: int) -> bool {
    at + 2 <= s.len() && is_letter(s[at]) && s[at + 1] == ':'
}

/// True when `UNC` in any letter case and a separator stand at `at`.
pub open spec fn unc_at(s: Seq<char>, at: int) -> bool {
    &&& at + 4 <= s.len()
    &&& ascii_upper(s[at]) == 'U'
    &&& ascii_upper(s[at + 1]) == 'N'
    &&& ascii_upper(s[at + 2]) == 'C'
    &&& is_sep(s[at + 3])
}

/// A prefix with one name.
pub open spec fn prefix_of(kind: PrefixKind, first: Seq<char>) -> PrefixView {
    PrefixView { kind, first, second: Seq::empty() }
}

/// The prefix of a path text, with the number of characters it takes.
pub open spec fn parse_prefix(s: Seq<char>) -> Option<(PrefixView, nat)> {
    if s.len() >= 2 && is_sep(s[0]) && is_sep(s[1]) {
        if s.len() >= 4 && s[0] == '\\' && s[1] == '\\' && s[2] == '?' && s[3] == '\\' {
            if unc_at(s, 4) {
                let server = name_at(s, 8, true);
                let share = next_name(s, 8, true);
                let length = 8 + server.len() + (if share.len() > 0 {
                    1 + share.len()
                } else {
                    0nat
                });
                Some((PrefixView { kind: PrefixKind::VerbatimUnc, first: server, second: share }, length))
            } else if drive_at(s, 4) && (s.len() == 6 || is_sep(s[6])) {
                Some((prefix_of(PrefixKind::VerbatimDisk, seq![ascii_upper(s[4])]), 6nat))
            } else {
                let name = name_at(s, 4, true);
                Some((prefix_of(PrefixKind::Verbatim, name), 4 + name.len()))
            }
        } else if s.len() >= 4 && s[2] == '.' && is_sep(s[3]) {
            let name = name_at(s, 4, false);
            Some((prefix_of(PrefixKind::DeviceNs, name), 4 + name.len()))
        } else {
            let server = name_at(s, 2, false);
            let share = next_name(s, 2, false);
            if server.len() > 0 && share.len() > 0 {
                Some(
                    (
                        PrefixView { kind: PrefixKind::Unc, first: server, second: share },
                        2 + server.len() + 1 + share.len(),
                    ),
                )
            } else {
                None
            }
        }
    } else if drive_at(s, 0) {
        Some((prefix_of(PrefixKind::Disk, seq![ascii_upper(s[0])]), 2nat))
    } else {
        None
    }
}

/// `s` with every separator written as `\`.
pub open spec fn unified(s: Seq<char>, verbatim: bool) -> Seq<char> {
    s.map_values(
        |c: char|
            if c == '/' && !verbatim {
                '\\'
            } else {
                c
            },
    )
}

/// True for a piece of text that is a part of a path. Outside `\\?\` paths a
/// `.` says nothing.
pub open spec fn is_part(piece: Seq<char>, verbatim: bool) -> bool {
    piece.len() > 0 && (verbatim || piece != "."@)
}

/// The parts in the text behind prefix and root.
pub open spec fn body_parts(body: Seq<char>, verbatim: bool) -> Seq<Seq<char>> {
    pieces(unified(body, verbatim), '\\').filter(|p: Seq<char>| is_part(p, verbatim))
}

/// The path that a text denotes.
pub open spec fn parse_path(s: Seq<char>) -> PathView {
    let (prefix, length) = match parse_prefix(s) {
        Some((p, n)) => (Some(p), n),
        None => (None, 0nat),
    };
    let verbatim = prefix matches Some(p) && verbatim_kind(p.kind);
    let rest = s.skip(length as int);
    let separated = rest.len() > 0 && is_sep(rest[0]);
    let body = if separated {
        rest.skip(1)
    } else {
        rest
    };
    let implied = prefix matches Some(p) && (p.kind == PrefixKind::Unc || p.kind
        == PrefixKind::DeviceNs);
    let parts = body_parts(body, verbatim);
    let dotted = prefix is None && !separated && name_at(body, 0, false) == "."@;
    PathView {
        prefix,
        rooted: separated || implied,
        parts: if dotted {
            seq!["."@] + parts
        } else {
            parts
        },
    }
}

/// The path that `b` names when it is read from `a`. A path with a prefix
/// stands alone; a rooted one keeps the prefix of `a`. Below a `\\?\` path `.`
/// and `..` are worked out at once.
pub open spec fn joined(a: PathView, b: PathView) -> PathView {
    if b.prefix is Some {
        b
    } else if a.is_verbatim() && !b.is_empty() {
        let parts = folded_parts(if b.rooted { Seq::empty() } else { a.parts }, b.parts);
        PathView { prefix: a.prefix, rooted: a.rooted || b.rooted || parts.len() > 0, parts }
    } else if b.rooted {
        PathView { prefix: a.prefix, rooted: true, parts: b.parts }
    } else if a.is_empty() {
        b
    } else {
        let tail = if b.parts.len() > 0 && b.parts[0] == "."@ {
            b.parts.drop_first()
        } else {
            b.parts
        };
        PathView { prefix: a.prefix, rooted: a.rooted, parts: a.parts + tail }
    }
}

/// True for a part that is a name.
pub open spec fn is_name(part: Seq<char>) -> bool {
    part != "."@ && part != ".."@
}

/// `base` followed by `parts`, where `.` is passed over and `..` takes the name
/// before it away.
pub open spec fn folded_parts(base: Seq<Seq<char>>, parts: Seq<Seq<char>>) -> Seq<Seq<char>>
    decreases parts.len(),
{
    if parts.len() == 0 {
        base
    } else {
        let before = folded_parts(base, parts.drop_last());
        let part = parts.last();
        if part == "."@ {
            before
        } else if part == ".."@ {
            if before.len() > 0 && is_name(before.last()) {
                before.drop_last()
            } else {
                before
            }
        } else {
            before.push(part)
        }
    }
}

/// The path above, or the path itself where nothing stands below its root.
pub open spec fn parent_path(p: PathView) -> PathView {
    if p.parts.len() > 0 {
        PathView { prefix: p.prefix, rooted: p.rooted, parts: p.parts.drop_last() }
    } else {
        p
    }
}

/// `start` with `parts` entered one after the other: `.` stays, `..` goes up,
/// and a name is joined.
pub open spec fn entered(start: PathView, parts: Seq<Seq<char>>) -> PathView
    decreases parts.len(),
{
    if parts.len() == 0 {
        start
    } else {
        let before = entered(start, parts.drop_last());
        let part = parts.last();
        if part == "."@ {
            before
        } else if part == ".."@ {
            parent_path(before)
        } else {
            joined(before, parse_path(part))
        }
    }
}

/// The path without `.` and `..`, worked out on its parts alone.
pub open spec fn normalized(p: PathView) -> PathView {
    entered(PathView { prefix: p.prefix, rooted: p.rooted, parts: Seq::empty() }, p.parts)
}

/// The path with a `\\?\` drive or share written as the plain one.
pub open spec fn plain(p: PathView) -> PathView {
    match p.prefix {
        Some(q) => if q.kind == PrefixKind::VerbatimDisk {
            PathView {
                prefix: Some(PrefixView { kind: PrefixKind::Disk, first: q.first, second: q.second }),
                rooted: p.rooted,
                parts: p.parts,
            }
        } else if q.kind == PrefixKind::VerbatimUnc {
            PathView {
                prefix: Some(PrefixView { kind: PrefixKind::Unc, first: q.first, second: q.second }),
                rooted: true,
                parts: p.parts,
            }
        } else {
            p
        },
        None => p,
    }
}

// ---------------------------------------------------------------------------
// Reading
// ---------------------------------------------------------------------------

fn separator(c: char) -> (r: bool)
    ensures
        r == is_sep(c),
{
    c == '\\' || c == '/'
}

fn letter(c: char) -> (r: bool)
    ensures
        r == is_letter(c),
{
    ('a' <= c && c <= 'z') || ('A' <= c && c <= 'Z')
}

fn to_ascii_upper(c: char) -> (r: char)
    ensures
        r == ascii_upper(c),
{
    if 'a' <= c && c <= 'z' {
        let n: u8 = c as u8;
        (n - 32) as char
    } else {
        c
    }
}

fn find_sep(chars: &[char], from: usize, verbatim: bool) -> (place: usize)
    requires
        from <= chars.len(),
    ensures
        place == sep_place(chars@, from as int, verbatim),
        from <= place <= chars.len(),
{
    let mut i: usize = from;
    while i < chars.len()
        invariant
            from <= i <= chars.len(),
            sep_place(chars@, from as int, verbatim) == sep_place(chars@, i as int, verbatim),
        decreases chars.len() - i,
    {
        if chars[i] == '\\' || (chars[i] == '/' && !verbatim) {
            return i;
        }
        i += 1;
    }
    i
}

fn read_name(chars: &[char], from: usize, verbatim: bool) -> (r: (String, usize))
    requires
        from <= chars.len(),
    ensures
        r.0@ == name_at(chars@, from as int, verbatim),
        r.1 == sep_place(chars@, from as int, verbatim),
        from <= r.1 <= chars.len(),
        r.0@.len() == r.1 - from,
{
    let end = find_sep(chars, from, verbatim);
    (string_range(chars, from, end), end)
}

fn read_next_name(chars: &[char], end: usize, verbatim: bool) -> (name: String)
    requires
        end <= chars.len(),
    ensures
        name@ == name_at(chars@, end + 1, verbatim),
        end + name@.len() + (if name@.len() > 0 { 1int } else { 0 }) <= chars.len(),
{
    if end < chars.len() {
        let (name, stop) = read_name(chars, end + 1, verbatim);
        name
    } else {
        String::new()
    }
}

fn drive_text(c: char) -> (text: String)
    ensures
        text@ == seq![ascii_upper(c)],
{
    let mut text = String::new();
    text.push(to_ascii_upper(c));
    assert(text@ == seq![ascii_upper(c)]);
    text
}

fn read_prefix(chars: &[char]) -> (r: Option<(PathPrefix, usize)>)
    ensures
        match r {
            Some((p, n)) => parse_prefix(chars@) == Some((p@, n as nat)) && n <= chars.len(),
            None => parse_prefix(chars@) is None,
        },
{
    let len = chars.len();
    if len >= 2 && separator(chars[0]) && separator(chars[1]) {
        if len >= 4 && chars[0] == '\\' && chars[1] == '\\' && chars[2] == '?' && chars[3] == '\\' {
            if len >= 8 && to_ascii_upper(chars[4]) == 'U' && to_ascii_upper(chars[5]) == 'N'
                && to_ascii_upper(chars[6]) == 'C' && separator(chars[7]) {
                let (server, end) = read_name(chars, 8, true);
                let share = read_next_name(chars, end, true);
                let share_len = chars_of(share.as_str()).len();
                let length = if share_len > 0 {
                    end + 1 + share_len
                } else {
                    end
                };
                Some((PathPrefix { kind: PrefixKind::VerbatimUnc, first: server, second: share }, length))
            } else if len >= 6 && letter(chars[4]) && chars[5] == ':' && (len == 6 || separator(
                chars[6],
            )) {
                Some(
                    (
                        PathPrefix {
                            kind: PrefixKind::VerbatimDisk,
                            first: drive_text(chars[4]),
                            second: String::new(),
                        },
                        6,
                    ),
                )
            } else {
                let (name, end) = read_name(chars, 4, true);
                Some(
                    (
                        PathPrefix { kind: PrefixKind::Verbatim, first: name, second: String::new() },
                        end,
                    ),
                )
            }
        } else if len >= 4 && chars[2] == '.' && separator(chars[3]) {
            let (name, end) = read_name(chars, 4, false);
            Some(
                (PathPrefix { kind: PrefixKind::DeviceNs, first: name, second: String::new() }, end),
            )
        } else {
            let (server, end) = read_name(chars, 2, false);
            let share = read_next_name(chars, end, false);
            let share_len = chars_of(share.as_str()).len();
            if end > 2 && share_len > 0 {
                let length = end + 1 + share_len;
                Some((PathPrefix { kind: PrefixKind::Unc, first: server, second: share }, length))
            } else {
                None
            }
        }
    } else if len >= 2 && letter(chars[0]) && chars[1] == ':' {
        Some(
            (
                PathPrefix {
                    kind: PrefixKind::Disk,
                    first: drive_text(chars[0]),
                    second: String::new(),
                },
                2,
            ),
        )
    } else {
        None
    }
}

fn is_verbatim_kind(kind: PrefixKind) -> (r: bool)
    ensures
        r == verbatim_kind(kind),
{
    match kind {
        PrefixKind::Verbatim | PrefixKind::VerbatimUnc | PrefixKind::VerbatimDisk => true,
        _ => false,
    }
}

fn read_parts(body: &[char], verbatim: bool) -> (parts: Vec<String>)
    ensures
        views(parts@) == body_parts(body@, verbatim),
{
    let mut text = String::new();
    let mut i: usize = 0;
    while i < body.len()
        invariant
            i <= body.len(),
            text@ == unified(body@, verbatim).take(i as int),
        decreases body.len() - i,
    {
        let c = if body[i] == '/' && !verbatim {
            '\\'
        } else {
            body[i]
        };
        text.push(c);
        i += 1;
    }
    assert(text@ == unified(body@, verbatim));
    let list = split(text.as_str(), '\\');
    let ghost all = pieces(unified(body@, verbatim), '\\');
    let ghost keep = |p: Seq<char>| is_part(p, verbatim);
    let mut parts: Vec<String> = Vec::new();
    let mut k: usize = 0;
    assert(all.take(0).filter(keep) == Seq::<Seq<char>>::empty()) by {
        reveal(Seq::filter);
    }
    while k < list.len()
        invariant
            k <= list.len(),
            views(list@) == all,
            keep == (|p: Seq<char>| is_part(p, verbatim)),
            views(parts@) == all.take(k as int).filter(keep),
        decreases list.len() - k,
    {
        let ghost done = parts@;
        proof {
            assert(all.take(k + 1).drop_last() == all.take(k as int));
            assert(all[k as int] == list@[k as int]@);
            reveal(Seq::filter);
        }
        if !list[k].as_str().is_empty() && (verbatim || !same_text(list[k].as_str(), ".")) {
            parts.push(list[k].clone());
            assert(views(parts@) == views(done).push(all[k as int]));
        }
        k += 1;
    }
    assert(all.take(list.len() as int) == all);
    parts
}

impl WinPath {
    /// The path that a text denotes.
    pub fn parse(text: &str) -> (path: WinPath)
        ensures
            path@ == parse_path(text@),
    {
        let chars = chars_of(text);
        let (prefix, length) = match read_prefix(&chars) {
            Some((p, n)) => (Some(p), n),
            None => (None, 0usize),
        };
        let (verbatim, implied) = match &prefix {
            Some(p) => (
                is_verbatim_kind(p.kind),
                p.kind == PrefixKind::Unc || p.kind == PrefixKind::DeviceNs,
            ),
            None => (false, false),
        };
        let separated = length < chars.len() && separator(chars[length]);
        let start = if separated {
            length + 1
        } else {
            length
        };
        let mut body: Vec<char> = Vec::new();
        let mut i: usize = start;
        while i < chars.len()
            invariant
                start <= i <= chars.len(),
                body@ == chars@.subrange(start as int, i as int),
            decreases chars.len() - i,
        {
            body.push(chars[i]);
            i += 1;
        }
        let ghost rest = chars@.skip(length as int);
        assert(body@ == (if separated {
            rest.skip(1)
        } else {
            rest
        }));
        let mut parts = read_parts(&body, verbatim);
        if prefix.is_none() && !separated {
            let (name, end) = read_name(&body, 0, false);
            if same_text(name.as_str(), ".") {
                let ghost found = parts@;
                let mut dotted: Vec<String> = Vec::new();
                dotted.push(".".to_owned());
                dotted.append(&mut parts);
                assert(views(dotted@) == seq!["."@] + views(found));
                parts = dotted;
            }
        }
        WinPath { prefix, rooted: separated || implied, parts }
    }
}

// ---------------------------------------------------------------------------
// Joining, normalizing and comparing
// ---------------------------------------------------------------------------

fn clone_parts(parts: &Vec<String>) -> (copy: Vec<String>)
    ensures
        views(copy@) == views(parts@),
{
    let mut copy: Vec<String> = Vec::new();
    let mut i: usize = 0;
    while i < parts.len()
        invariant
            i <= parts.len(),
            views(copy@) == views(parts@).take(i as int),
        decreases parts.len() - i,
    {
        let ghost done = copy@;
        copy.push(parts[i].clone());
        assert(views(copy@) == views(done).push(parts@[i as int]@));
        i += 1;
    }
    assert(views(parts@).take(i as int) == views(parts@));
    copy
}

fn clone_prefix(prefix: &Option<PathPrefix>) -> (copy: Option<PathPrefix>)
    ensures
        prefix_view(copy) == prefix_view(*prefix),
{
    match prefix {
        Some(p) => Some(
            PathPrefix { kind: p.kind, first: p.first.clone(), second: p.second.clone() },
        ),
        None => None,
    }
}

fn same_prefix(a: &PathPrefix, b: &PathPrefix) -> (r: bool)
    ensures
        r == (a@ == b@),
{
    a.kind == b.kind && a.first == b.first && a.second == b.second
}

fn fold_parts(base: Vec<String>, parts: &Vec<String>) -> (r: Vec<String>)
    ensures
        views(r@) == folded_parts(views(base@), views(parts@)),
{
    let ghost start = views(base@);
    let ghost all = views(parts@);
    let mut r = base;
    let mut i: usize = 0;
    assert(folded_parts(start, all.take(0)) == start);
    while i < parts.len()
        invariant
            i <= parts.len(),
            all == views(parts@),
            views(r@) == folded_parts(start, all.take(i as int)),
        decreases parts.len() - i,
    {
        let ghost before = r@;
        assert(all.take(i + 1).drop_last() == all.take(i as int));
        assert(all.take(i + 1).last() == parts@[i as int]@);
        let part = parts[i].as_str();
        if same_text(part, ".") {
        } else if same_text(part, "..") {
            if r.len() > 0 {
                let last = r[r.len() - 1].as_str();
                assert(views(before).last() == last@);
                if !same_text(last, ".") && !same_text(last, "..") {
                    let gone = r.pop();
                    assert(views(r@) == views(before).drop_last());
                }
            }
        } else {
            r.push(parts[i].clone());
            assert(views(r@) == views(before).push(parts@[i as int]@));
        }
        i += 1;
    }
    assert(all.take(i as int) == all);
    r
}

impl WinPath {
    /// A path equal to this one.
    pub fn copy(&self) -> (r: WinPath)
        ensures
            r@ == self@,
    {
        WinPath {
            prefix: clone_prefix(&self.prefix),
            rooted: self.rooted,
            parts: clone_parts(&self.parts),
        }
    }

    /// True when the path names a place on its own.
    pub fn is_absolute(&self) -> (r: bool)
        ensures
            r == self@.is_absolute(),
    {
        match &self.prefix {
            Some(p) => self.rooted || p.kind != PrefixKind::Disk,
            None => false,
        }
    }

    /// The path that `other` names when it is read from this one.
    pub fn join(&self, other: &WinPath) -> (r: WinPath)
        ensures
            r@ == joined(self@, other@),
    {
        if other.prefix.is_some() {
            return other.copy();
        }
        let verbatim = match &self.prefix {
            Some(p) => is_verbatim_kind(p.kind),
            None => false,
        };
        let empty = !other.rooted && other.parts.len() == 0;
        if verbatim && !empty {
            let base = if other.rooted {
                Vec::new()
            } else {
                clone_parts(&self.parts)
            };
            assert(other.rooted ==> views(base@) == Seq::<Seq<char>>::empty());
            let parts = fold_parts(base, &other.parts);
            let rooted = self.rooted || other.rooted || parts.len() > 0;
            return WinPath { prefix: clone_prefix(&self.prefix), rooted, parts };
        }
        if other.rooted {
            return WinPath {
                prefix: clone_prefix(&self.prefix),
                rooted: true,
                parts: clone_parts(&other.parts),
            };
        }
        if self.prefix.is_none() && !self.rooted && self.parts.len() == 0 {
            return other.copy();
        }
        let mut parts = clone_parts(&self.parts);
        let first: usize = if other.parts.len() > 0 && same_text(other.parts[0].as_str(), ".") {
            1
        } else {
            0
        };
        let ghost tail = views(other.parts@).skip(first as int);
        let mut i: usize = first;
        while i < other.parts.len()
            invariant
                first <= i <= other.parts.len(),
                tail == views(other.parts@).skip(first as int),
                views(parts@) == views(self.parts@) + tail.take(i - first),
            decreases other.parts.len() - i,
        {
            let ghost done = parts@;
            parts.push(other.parts[i].clone());
            assert(views(parts@) == views(done).push(other.parts@[i as int]@));
            assert(tail.take(i - first + 1) == tail.take(i - first).push(tail[i - first]));
            i += 1;
        }
        assert(tail.take(i - first) == tail);
        assert(views(other.parts@).skip(0) == views(other.parts@));
        assert(first == 1 ==> tail == views(other.parts@).drop_first());
        WinPath { prefix: clone_prefix(&self.prefix), rooted: self.rooted, parts }
    }

    /// The path with a `\\?\` drive or share written as the plain one.
    pub fn to_plain(&self) -> (r: WinPath)
        ensures
            r@ == plain(self@),
    {
        let mut r = self.copy();
        match &self.prefix {
            Some(p) => {
                if p.kind == PrefixKind::VerbatimDisk {
                    r.prefix = Some(
                        PathPrefix {
                            kind: PrefixKind::Disk,
                            first: p.first.clone(),
                            second: p.second.clone(),
                        },
                    );
                } else if p.kind == PrefixKind::VerbatimUnc {
                    r.prefix = Some(
                        PathPrefix {
                            kind: PrefixKind::Unc,
                            first: p.first.clone(),
                            second: p.second.clone(),
                        },
                    );
                    r.rooted = true;
                }
            },
            None => {},
        }
        r
    }

    /// True when the components of `root` are the first ones of this path.
    pub fn starts_with(&self, root: &WinPath) -> (r: bool)
        ensures
            r == self@.starts_with(root@),
    {
        proof {
            lemma_starts_with(self@, root@);
        }
        let prefixed = match (&root.prefix, &self.prefix) {
            (Some(a), Some(b)) => same_prefix(a, b),
            (None, None) => true,
            (Some(a), None) => false,
            (None, Some(b)) => {
                return !root.rooted && root.parts.len() == 0;
            },
        };
        if !prefixed {
            return false;
        }
        if root.rooted != self.rooted {
            return !root.rooted && root.parts.len() == 0;
        }
        if root.parts.len() > self.parts.len() {
            return false;
        }
        let mut i: usize = 0;
        while i < root.parts.len()
            invariant
                i <= root.parts.len() <= self.parts.len(),
                self@.starts_with(root@) == views(root.parts@).is_prefix_of(views(self.parts@)),
                forall|j: int| 0 <= j < i ==> views(root.parts@)[j] == views(self.parts@)[j],
            decreases root.parts.len() - i,
        {
            if root.parts[i] != self.parts[i] {
                assert(views(root.parts@)[i as int] != views(self.parts@)[i as int]);
                return false;
            }
            i += 1;
        }
        assert(views(root.parts@) == views(self.parts@).take(root.parts.len() as int));
        true
    }
}

/// How the components of two paths compare, side by side.
pub proof fn lemma_starts_with(p: PathView, root: PathView)
    ensures
        p.starts_with(root) == (if root.prefix is None && p.prefix is Some {
            !root.rooted && root.parts.len() == 0
        } else if root.prefix != p.prefix {
            false
        } else if root.rooted != p.rooted {
            !root.rooted && root.parts.len() == 0
        } else {
            root.parts.is_prefix_of(p.parts)
        }),
{
    let a = root.components();
    let b = p.components();
    let ra = root.parts.map_values(|x: Seq<char>| PathComponent::Part(x));
    let rb = p.parts.map_values(|x: Seq<char>| PathComponent::Part(x));
    let na: int = (if root.prefix is Some { 1int } else { 0 });
    let nb: int = (if p.prefix is Some { 1int } else { 0 });
    let ka: int = na + (if root.rooted { 1int } else { 0 });
    let kb: int = nb + (if p.rooted { 1int } else { 0 });
    assert(a.len() == ka + root.parts.len());
    assert(b.len() == kb + p.parts.len());
    assert(forall|i: int| 0 <= i < root.parts.len() ==> a[ka + i] == PathComponent::Part(#[trigger] root.parts[i]));
    assert(forall|i: int| 0 <= i < p.parts.len() ==> b[kb + i] == PathComponent::Part(#[trigger] p.parts[i]));
    if a.is_prefix_of(b) {
        assert(forall|i: int| 0 <= i < a.len() ==> a[i] == b[i]);
        if a.len() > 0 {
            assert(a[0] == b[0]);
        }
        if ka == kb && na == nb {
            assert forall|i: int| 0 <= i < root.parts.len() implies root.parts[i] == p.parts[i] by {
                assert(a[ka + i] == b[kb + i]);
            }
            assert(root.parts == p.parts.take(root.parts.len() as int));
        }
        if na == 1 && ka + root.parts.len() > 1 && nb == 1 {
            assert(a[1] == b[1]);
        }
    } else {
        if root.prefix == p.prefix && root.rooted == p.rooted && root.parts.is_prefix_of(p.parts) {
            assert(forall|i: int| 0 <= i < root.parts.len() ==> root.parts[i] == p.parts[i]);
            assert(a == b.take(a.len() as int));
        }
        if root.prefix is None && !root.rooted && root.parts.len() == 0 {
            assert(a == b.take(0));
        }
        if root.prefix == p.prefix && !root.rooted && root.parts.len() == 0 {
            assert(a == b.take(a.len() as int));
        }
    }
}

impl WinPath {
    /// The path with one part entered: `.` stays, `..` goes up, and a name is
    /// joined.
    pub(crate) fn enter(self, part: &str) -> (r: WinPath)
        ensures
            r@ == (if part@ == "."@ {
                self@
            } else if part@ == ".."@ {
                parent_path(self@)
            } else {
                joined(self@, parse_path(part@))
            }),
    {
        if same_text(part, ".") {
            self
        } else if same_text(part, "..") {
            let mut above = self;
            above.parts.pop();
            assert(above@ == parent_path(self@));
            above
        } else {
            self.join(&WinPath::parse(part))
        }
    }
}

/// The path without `.` and `..`, worked out on its parts alone.
pub fn lexical_normalize(p: &WinPath) -> (r: WinPath)
    ensures
        r@ == normalized(p@),
{
    let mut out = WinPath {
        prefix: clone_prefix(&p.prefix),
        rooted: p.rooted,
        parts: Vec::new(),
    };
    let ghost start = out@;
    let ghost all = p@.parts;
    assert(start.parts == Seq::<Seq<char>>::empty());
    let mut i: usize = 0;
    while i < p.parts.len()
        invariant
            i <= p.parts.len(),
            all == views(p.parts@),
            out@ == entered(start, all.take(i as int)),
        decreases p.parts.len() - i,
    {
        assert(all.take(i + 1).drop_last() == all.take(i as int));
        assert(all.take(i + 1).last() == p.parts@[i as int]@);
        out = out.enter(p.parts[i].as_str());
        i += 1;
    }
    assert(all.take(i as int) == all);
    out
}

impl PartialEq for WinPath {
    fn eq(&self, other: &Self) -> (r: bool) {
        let prefixed = match (&self.prefix, &other.prefix) {
            (Some(a), Some(b)) => same_prefix(a, b),
            (None, None) => true,
            _ => false,
        };
        if !prefixed || self.rooted != other.rooted || self.parts.len() != other.parts.len() {
            return false;
        }
        let mut i: usize = 0;
        while i < self.parts.len()
            invariant
                i <= self.parts.len() == other.parts.len(),
                forall|j: int| 0 <= j < i ==> views(self.parts@)[j] == views(other.parts@)[j],
            decreases self.parts.len() - i,
        {
            if self.parts[i] != other.parts[i] {
                assert(views(self.parts@)[i as int] != views(other.parts@)[i as int]);
                return false;
            }
            i += 1;
        }
        assert(views(self.parts@) == views(other.parts@));
        true
    }
}

impl vstd::std_specs::cmp::PartialEqSpecImpl for WinPath {
    open spec fn obeys_eq_spec() -> bool {
        true
    }

    open spec fn eq_spec(&self, other: &Self) -> bool {
        self@ == other@
    }
}

// ---------------------------------------------------------------------------
// Writing
// ---------------------------------------------------------------------------

/// The text of a prefix.
pub open spec fn prefix_text(p: PrefixView) -> Seq<char> {
    match p.kind {
        PrefixKind::Disk => p.first + ":"@,
        PrefixKind::VerbatimDisk => r"\\?\"@ + p.first + ":"@,
        PrefixKind::Unc => r"\\"@ + p.first + (r"\"@ + p.second),
        PrefixKind::VerbatimUnc => if p.second.len() > 0 {
            r"\\?\UNC\"@ + p.first + (r"\"@ + p.second)
        } else {
            r"\\?\UNC\"@ + p.first
        },
        PrefixKind::Verbatim => r"\\?\"@ + p.first,
        PrefixKind::DeviceNs => r"\\.\"@ + p.first,
    }
}

/// The parts with `\` between them.
pub open spec fn parts_text(parts: Seq<Seq<char>>) -> Seq<char>
    decreases parts.len(),
{
    if parts.len() == 0 {
        Seq::empty()
    } else if parts.len() == 1 {
        parts[0]
    } else {
        parts_text(parts.drop_last()) + r"\"@ + parts.last()
    }
}

/// True when a root has to be written: a share or a device has one anyway.
pub open spec fn root_shown(p: PathView) -> bool {
    p.rooted && (p.parts.len() > 0 || !(p.prefix matches Some(q) && (q.kind == PrefixKind::Unc
        || q.kind == PrefixKind::DeviceNs)))
}

/// The text of a path, with `\` as the separator.
pub open spec fn rendered(p: PathView) -> Seq<char> {
    let prefix = match p.prefix {
        Some(q) => prefix_text(q),
        None => Seq::<char>::empty(),
    };
    let root = if root_shown(p) {
        r"\"@
    } else {
        Seq::<char>::empty()
    };
    prefix + root + parts_text(p.parts)
}

fn write_prefix(p: &PathPrefix) -> (text: String)
    ensures
        text@ == prefix_text(p@),
{
    let first = p.first.as_str();
    match p.kind {
        PrefixKind::Disk => concat2(first, ":"),
        PrefixKind::VerbatimDisk => concat3(r"\\?\", first, ":"),
        PrefixKind::Unc => concat3(r"\\", first, concat2(r"\", p.second.as_str()).as_str()),
        PrefixKind::VerbatimUnc => {
            if !p.second.as_str().is_empty() {
                concat3(r"\\?\UNC\", first, concat2(r"\", p.second.as_str()).as_str())
            } else {
                concat2(r"\\?\UNC\", first)
            }
        },
        PrefixKind::Verbatim => concat2(r"\\?\", first),
        PrefixKind::DeviceNs => concat2(r"\\.\", first),
    }
}

impl WinPath {
    /// The text of the path, with `\` as the separator.
    pub fn to_text(&self) -> (text: String)
        ensures
            text@ == rendered(self@),
    {
        let mut text = match &self.prefix {
            Some(p) => write_prefix(p),
            None => String::new(),
        };
        let implied = match &self.prefix {
            Some(p) => p.kind == PrefixKind::Unc || p.kind == PrefixKind::DeviceNs,
            None => false,
        };
        if self.rooted && (self.parts.len() > 0 || !implied) {
            text.append(r"\");
        }
        let ghost head = text@;
        let ghost all = self@.parts;
        let mut i: usize = 0;
        assert(parts_text(all.take(0)) == Seq::<char>::empty());
        while i < self.parts.len()
            invariant
                i <= self.parts.len(),
                all == views(self.parts@),
                text@ == head + parts_text(all.take(i as int)),
            decreases self.parts.len() - i,
        {
            assert(all.take(i + 1).drop_last() == all.take(i as int));
            assert(all.take(i + 1).last() == self.parts@[i as int]@);
            if i > 0 {
                text.append(r"\");
            }
            text.append(self.parts[i].as_str());
            i += 1;
            assert(text@ == head + parts_text(all.take(i as int)));
        }
        assert(all.take(i as int) == all);
        text
    }
}

/// True for a name without a separator, other than `.`.
pub open spec fn clean_name(name: Seq<char>) -> bool {
    name.len() > 0 && name != "."@ && forall|i: int| 0 <= i < name.len() ==> !is_sep(#[trigger] name[i])
}

/// True for a path below the root of a drive whose parts hold no separator.
pub open spec fn on_drive(p: PathView) -> bool {
    &&& p.prefix matches Some(q) && q.kind == PrefixKind::Disk && q.second.len() == 0
        && q.first.len() == 1 && 'A' <= q.first[0] <= 'Z'
    &&& p.rooted
    &&& forall|i: int| 0 <= i < p.parts.len() ==> clean_name(#[trigger] p.parts[i])
}

proof fn lemma_pieces_behind(a: Seq<char>, b: Seq<char>)
    requires
        forall|i: int| 0 <= i < b.len() ==> b[i] != '\\',
    ensures
        pieces((a + r"\"@) + b, '\\') == pieces(a, '\\').push(b),
    decreases b.len(),
{
    reveal_strlit(r"\");
    let head = a + r"\"@;
    if b.len() == 0 {
        assert(head + b == head);
        assert(head.drop_last() == a);
        assert(head.last() == '\\');
        assert(b == Seq::<char>::empty());
    } else {
        lemma_pieces_behind(a, b.drop_last());
        assert((head + b).drop_last() == head + b.drop_last());
        assert((head + b).last() == b.last());
        let before = pieces(a, '\\').push(b.drop_last());
        assert(before.drop_last() == pieces(a, '\\'));
        assert(b.drop_last().push(b.last()) == b);
    }
}

/// A name without a separator is one piece.
pub proof fn lemma_pieces_of_name(b: Seq<char>)
    requires
        forall|i: int| 0 <= i < b.len() ==> b[i] != '\\',
    ensures
        pieces(b, '\\') == seq![b],
    decreases b.len(),
{
    if b.len() == 0 {
        assert(b == Seq::<char>::empty());
    } else {
        lemma_pieces_of_name(b.drop_last());
        assert(b.drop_last().push(b.last()) == b);
        assert(pieces(b, '\\') == seq![b]);
    }
}

proof fn lemma_pieces_of_parts(parts: Seq<Seq<char>>)
    requires
        parts.len() > 0,
        forall|i: int| 0 <= i < parts.len() ==> clean_name(#[trigger] parts[i]),
    ensures
        pieces(parts_text(parts), '\\') == parts,
        forall|i: int| 0 <= i < parts_text(parts).len() ==> #[trigger] parts_text(parts)[i] != '/',
    decreases parts.len(),
{
    reveal_strlit(r"\");
    assert(clean_name(parts.last()));
    if parts.len() == 1 {
        lemma_pieces_of_name(parts[0]);
        assert(parts == seq![parts[0]]);
    } else {
        assert forall|i: int| 0 <= i < parts.drop_last().len() implies clean_name(
            #[trigger] parts.drop_last()[i],
        ) by {
            assert(clean_name(parts[i]));
        }
        lemma_pieces_of_parts(parts.drop_last());
        lemma_pieces_behind(parts_text(parts.drop_last()), parts.last());
        assert(parts.drop_last().push(parts.last()) == parts);
    }
}

/// A filter that keeps every item keeps the list.
pub proof fn lemma_filter_all(s: Seq<Seq<char>>, keep: spec_fn(Seq<char>) -> bool)
    requires
        forall|i: int| 0 <= i < s.len() ==> keep(#[trigger] s[i]),
    ensures
        s.filter(keep) == s,
    decreases s.len(),
{
    reveal(Seq::filter);
    if s.len() > 0 {
        lemma_filter_all(s.drop_last(), keep);
        assert(keep(s[s.len() - 1]));
        assert(s.drop_last().push(s.last()) == s);
    }
}

/// True for a name that names nothing but itself: no separator, no drive, and
/// not `.` or `..`.
pub open spec fn plain_name(name: Seq<char>) -> bool {
    clean_name(name) && name != ".."@ && !drive_at(name, 0)
}

/// True when every part is a plain name.
pub open spec fn plain_names(parts: Seq<Seq<char>>) -> bool {
    forall|i: int| 0 <= i < parts.len() ==> plain_name(#[trigger] parts[i])
}

/// True for a plain name, `.` and `..`.
pub open spec fn plain_step(part: Seq<char>) -> bool {
    plain_name(part) || part == "."@ || part == ".."@
}

/// True when every part is a plain name, `.` or `..`.
pub open spec fn plain_steps(parts: Seq<Seq<char>>) -> bool {
    forall|i: int| 0 <= i < parts.len() ==> plain_step(#[trigger] parts[i])
}

proof fn lemma_no_separator(s: Seq<char>, from: int)
    requires
        0 <= from <= s.len(),
        forall|i: int| 0 <= i < s.len() ==> !is_sep(#[trigger] s[i]),
    ensures
        sep_place(s, from, false) == s.len(),
    decreases s.len() - from,
{
    if from < s.len() {
        assert(!is_sep(s[from]));
        lemma_no_separator(s, from + 1);
    }
}

/// A plain name denotes itself.
pub(crate) proof fn lemma_plain_name(name: Seq<char>)
    requires
        plain_name(name),
    ensures
        parse_path(name) == (PathView { prefix: None, rooted: false, parts: seq![name] }),
{
    assert(!is_sep(name[0]));
    assert(parse_prefix(name) is None);
    assert(name.skip(0) == name);
    lemma_no_separator(name, 0);
    assert(name.subrange(0, name.len() as int) == name);
    assert forall|i: int| 0 <= i < name.len() implies unified(name, false)[i] == name[i] by {
        assert(!is_sep(name[i]));
    }
    assert(unified(name, false) == name);
    assert forall|i: int| 0 <= i < name.len() implies name[i] != '\\' by {
        assert(!is_sep(name[i]));
    }
    lemma_pieces_of_name(name);
    let keep = |p: Seq<char>| is_part(p, false);
    lemma_filter_all(seq![name], keep);
}

/// Joining a plain name adds it.
pub(crate) proof fn lemma_join_name(path: PathView, name: Seq<char>)
    requires
        path.is_verbatim() ==> path.rooted,
        plain_name(name),
    ensures
        joined(path, parse_path(name)) == (PathView {
            prefix: path.prefix,
            rooted: path.rooted,
            parts: path.parts.push(name),
        }),
{
    lemma_plain_name(name);
    reveal_with_fuel(folded_parts, 2);
    assert(seq![name].drop_last() == Seq::<Seq<char>>::empty());
    assert(folded_parts(path.parts, seq![name]) == path.parts.push(name));
    assert(path.parts + seq![name] == path.parts.push(name));
    assert(seq![name] == Seq::<Seq<char>>::empty().push(name));
    if path.is_empty() {
        assert(path.parts.push(name) == seq![name]);
    }
}

/// Entering plain steps leaves plain names.
pub(crate) proof fn lemma_enter_plain(start: PathView, steps: Seq<Seq<char>>)
    requires
        start.is_verbatim() ==> start.rooted,
        plain_names(start.parts),
        plain_steps(steps),
    ensures
        entered(start, steps).prefix == start.prefix,
        entered(start, steps).rooted == start.rooted,
        plain_names(entered(start, steps).parts),
    decreases steps.len(),
{
    if steps.len() > 0 {
        let shorter = steps.drop_last();
        assert forall|i: int| 0 <= i < shorter.len() implies plain_step(#[trigger] shorter[i]) by {
            assert(plain_step(steps[i]));
        }
        lemma_enter_plain(start, shorter);
        assert(plain_step(steps[steps.len() - 1]));
        let before = entered(start, shorter);
        let now = entered(start, steps);
        if is_name(steps.last()) {
            lemma_join_name(before, steps.last());
        }
        assert forall|i: int| 0 <= i < now.parts.len() implies plain_name(
            #[trigger] now.parts[i],
        ) by {
            if i < before.parts.len() {
                assert(plain_name(before.parts[i]));
            }
        }
    }
}

/// Entering plain names adds them.
pub(crate) proof fn lemma_enter_names(start: PathView, names: Seq<Seq<char>>)
    requires
        start.is_verbatim() ==> start.rooted,
        plain_names(names),
    ensures
        entered(start, names) == (PathView {
            prefix: start.prefix,
            rooted: start.rooted,
            parts: start.parts + names,
        }),
    decreases names.len(),
{
    if names.len() == 0 {
        assert(start.parts + names == start.parts);
    } else {
        let shorter = names.drop_last();
        assert forall|i: int| 0 <= i < shorter.len() implies plain_name(#[trigger] shorter[i]) by {
            assert(plain_name(names[i]));
        }
        lemma_enter_names(start, shorter);
        assert(plain_name(names[names.len() - 1]));
        lemma_join_name(entered(start, shorter), names.last());
        assert((start.parts + shorter).push(names.last()) == start.parts + names);
    }
}

proof fn lemma_name_stops(s: Seq<char>, from: int)
    requires
        0 <= from <= s.len(),
    ensures
        from <= sep_place(s, from, true) <= s.len(),
        sep_place(s, from, true) < s.len() ==> s[sep_place(s, from, true)] == '\\',
    decreases s.len() - from,
{
    if from < s.len() && s[from] != '\\' {
        lemma_name_stops(s, from + 1);
    }
}

/// In every text the parts behind a `\\?\` prefix follow a root.
pub proof fn law_verbatim_paths_have_a_root(s: Seq<char>)
    ensures
        parse_path(s).is_verbatim() && parse_path(s).parts.len() > 0 ==> parse_path(s).rooted,
{
    if parse_path(s).is_verbatim() {
        let (prefix, length) = parse_prefix(s)->Some_0;
        if prefix.kind == PrefixKind::VerbatimUnc {
            lemma_name_stops(s, 8);
            let end = sep_place(s, 8, true);
            if end < s.len() {
                lemma_name_stops(s, end + 1);
            }
        } else if prefix.kind == PrefixKind::Verbatim {
            lemma_name_stops(s, 4);
        }
        let rest = s.skip(length as int);
        if rest.len() == 0 {
            let keep = |x: Seq<char>| is_part(x, true);
            assert(unified(rest, true) == Seq::<char>::empty());
            reveal_with_fuel(Seq::<_>::filter, 2);
            let only = seq![Seq::<char>::empty()];
            assert(only.drop_last() == Seq::<Seq<char>>::empty());
            assert(only.filter(keep) == Seq::<Seq<char>>::empty());
        } else {
            assert(is_sep(rest[0]));
        }
    }
}

/// True for a part that can stand in a text: not empty, and without separators,
/// though behind a `\\?\` prefix `/` is none.
spec fn is_piece(part: Seq<char>, verbatim: bool) -> bool {
    part.len() > 0 && forall|i: int|
        0 <= i < part.len() ==> #[trigger] part[i] != '\\' && (verbatim || part[i] != '/')
}

proof fn lemma_pieces_hold_no_separator(s: Seq<char>, verbatim: bool)
    requires
        !verbatim ==> forall|i: int| 0 <= i < s.len() ==> #[trigger] s[i] != '/',
    ensures
        pieces(s, '\\').len() > 0,
        forall|i: int|
            0 <= i < pieces(s, '\\').len() ==> (#[trigger] pieces(s, '\\')[i]).len() > 0
                ==> is_piece(pieces(s, '\\')[i], verbatim),
    decreases s.len(),
{
    if s.len() > 0 {
        let before = pieces(s.drop_last(), '\\');
        let now = pieces(s, '\\');
        assert forall|i: int| !verbatim && 0 <= i < s.drop_last().len() implies #[trigger] s.drop_last()[i]
            != '/' by {
            assert(s[i] != '/');
        }
        lemma_pieces_hold_no_separator(s.drop_last(), verbatim);
        assert forall|i: int| 0 <= i < now.len() && (#[trigger] now[i]).len() > 0 implies is_piece(
            now[i],
            verbatim,
        ) by {
            if i < before.len() - 1 {
                assert(now[i] == before[i]);
            } else if s.last() == '\\' {
                assert(i == before.len() - 1);
                assert(now[i] == before[i]);
            } else {
                let last = before[before.len() - 1];
                assert(now[i] == last.push(s.last()));
                assert(!verbatim ==> s[s.len() - 1] != '/');
                assert forall|k: int| 0 <= k < now[i].len() implies #[trigger] now[i][k] != '\\' && (
                verbatim || now[i][k] != '/') by {
                    if k < last.len() {
                        assert(is_piece(last, verbatim));
                        assert(last[k] != '\\');
                    }
                }
            }
        }
    }
}

proof fn lemma_filtered_pieces(list: Seq<Seq<char>>, verbatim: bool)
    requires
        forall|i: int|
            0 <= i < list.len() ==> (#[trigger] list[i]).len() > 0 ==> is_piece(list[i], verbatim),
    ensures
        ({
            let kept = list.filter(|p: Seq<char>| is_part(p, verbatim));
            forall|i: int|
                0 <= i < kept.len() ==> is_piece(#[trigger] kept[i], verbatim) && (verbatim || kept[i]
                    != "."@)
        }),
    decreases list.len(),
{
    reveal(Seq::filter);
    if list.len() > 0 {
        let shorter = list.drop_last();
        assert forall|i: int| 0 <= i < shorter.len() && (#[trigger] shorter[i]).len() > 0 implies is_piece(
            shorter[i],
            verbatim,
        ) by {
            assert(list[i].len() > 0);
        }
        lemma_filtered_pieces(shorter, verbatim);
        let last = list[list.len() - 1];
        assert(last.len() > 0 ==> is_piece(last, verbatim));
        let keep = |p: Seq<char>| is_part(p, verbatim);
        let before = shorter.filter(keep);
        let kept = list.filter(keep);
        assert forall|i: int| 0 <= i < kept.len() implies is_piece(#[trigger] kept[i], verbatim) && (
        verbatim || kept[i] != "."@) by {
            if i < before.len() {
                assert(kept[i] == before[i]);
            } else {
                assert(kept[i] == last);
                assert(keep(last));
            }
        }
    }
}

/// The parts in a text are pieces, and outside `\\?\` paths none is `.`.
proof fn lemma_body_parts(body: Seq<char>, verbatim: bool)
    ensures
        forall|i: int|
            0 <= i < body_parts(body, verbatim).len() ==> is_piece(
                #[trigger] body_parts(body, verbatim)[i],
                verbatim,
            ) && (verbatim || body_parts(body, verbatim)[i] != "."@),
{
    let text = unified(body, verbatim);
    assert(!verbatim ==> forall|i: int| 0 <= i < text.len() ==> #[trigger] text[i] != '/');
    lemma_pieces_hold_no_separator(text, verbatim);
    lemma_filtered_pieces(pieces(text, '\\'), verbatim);
}

/// The parts of the path that a text denotes are pieces.
proof fn lemma_parsed_parts(s: Seq<char>)
    ensures
        forall|i: int|
            0 <= i < parse_path(s).parts.len() ==> is_piece(
                #[trigger] parse_path(s).parts[i],
                parse_path(s).is_verbatim(),
            ),
{
    reveal_strlit(".");
    let (prefix, length) = match parse_prefix(s) {
        Some((p, n)) => (Some(p), n),
        None => (None, 0nat),
    };
    let verbatim = prefix matches Some(p) && verbatim_kind(p.kind);
    let rest = s.skip(length as int);
    let body = if rest.len() > 0 && is_sep(rest[0]) {
        rest.skip(1)
    } else {
        rest
    };
    lemma_body_parts(body, verbatim);
    let parts = body_parts(body, verbatim);
    let p = parse_path(s);
    assert(p.is_verbatim() == verbatim);
    assert(is_piece("."@, verbatim));
    assert forall|i: int| 0 <= i < p.parts.len() implies is_piece(#[trigger] p.parts[i], verbatim) by {
        if p.parts != parts {
            if i > 0 {
                assert(p.parts[i] == parts[i - 1]);
            }
        }
    }
}

/// What a part of a path denotes on its own: a path without a `\\?\` prefix,
/// whose parts are clean but for a leading `.`. A name without separators has no
/// root and no leading `.`.
proof fn lemma_part_alone(part: Seq<char>, verbatim: bool)
    requires
        is_piece(part, verbatim),
    ensures
        !parse_path(part).is_verbatim(),
        forall|i: int|
            0 <= i < parse_path(part).parts.len() ==> clean_name(
                #[trigger] parse_path(part).parts[i],
            ) || (i == 0 && parse_path(part).parts[i] == "."@ && parse_path(part).prefix is None
                && !parse_path(part).rooted && (verbatim || part == "."@)),
        !verbatim ==> !parse_path(part).rooted,
        !verbatim && is_name(part) && parse_path(part).prefix is None ==> plain_name(part),
{
    assert(part[0] != '\\');
    let y = parse_path(part);
    let (prefix, length) = match parse_prefix(part) {
        Some((p, n)) => (Some(p), n),
        None => (None, 0nat),
    };
    let rest = part.skip(length as int);
    let separated = rest.len() > 0 && is_sep(rest[0]);
    let body = if separated {
        rest.skip(1)
    } else {
        rest
    };
    lemma_body_parts(body, false);
    let parts = body_parts(body, false);
    assert forall|i: int| 0 <= i < parts.len() implies clean_name(#[trigger] parts[i]) by {
        assert(is_piece(parts[i], false));
        assert forall|k: int| 0 <= k < parts[i].len() implies !is_sep(#[trigger] parts[i][k]) by {
            assert(parts[i][k] != '\\');
        }
    }
    if !verbatim {
        assert forall|k: int| 0 <= k < part.len() implies !is_sep(#[trigger] part[k]) by {
            assert(part[k] != '\\');
        }
        if prefix is Some {
            assert(length == 2);
            if rest.len() > 0 {
                assert(rest[0] == part[2]);
                assert(!is_sep(part[2]));
            }
        } else {
            assert(rest == part);
            assert(!is_sep(part[0]));
            lemma_no_separator(part, 0);
            assert(name_at(part, 0, false) == part);
        }
    }
    assert forall|i: int| 0 <= i < y.parts.len() implies clean_name(#[trigger] y.parts[i]) || (i
        == 0 && y.parts[i] == "."@ && y.prefix is None && !y.rooted && (verbatim || part == "."@)) by {
        if y.parts != parts && i > 0 {
            assert(y.parts[i] == parts[i - 1]);
        }
    }
}

/// True when every part is a clean name.
spec fn clean_names(parts: Seq<Seq<char>>) -> bool {
    forall|i: int| 0 <= i < parts.len() ==> clean_name(#[trigger] parts[i])
}

/// True when no part is `.` or `..`.
pub open spec fn dotless(parts: Seq<Seq<char>>) -> bool {
    forall|i: int| 0 <= i < parts.len() ==> is_name(#[trigger] parts[i])
}

proof fn lemma_folded_clean(base: Seq<Seq<char>>, parts: Seq<Seq<char>>)
    requires
        clean_names(base),
        forall|i: int|
            0 <= i < parts.len() ==> clean_name(#[trigger] parts[i]) || parts[i] == "."@,
    ensures
        clean_names(folded_parts(base, parts)),
        dotless(base) ==> dotless(folded_parts(base, parts)),
    decreases parts.len(),
{
    if parts.len() > 0 {
        let shorter = parts.drop_last();
        assert forall|i: int| 0 <= i < shorter.len() implies clean_name(#[trigger] shorter[i])
            || shorter[i] == "."@ by {
            assert(clean_name(parts[i]) || parts[i] == "."@);
        }
        lemma_folded_clean(base, shorter);
        let before = folded_parts(base, shorter);
        let now = folded_parts(base, parts);
        assert(clean_name(parts[parts.len() - 1]) || parts[parts.len() - 1] == "."@);
        assert forall|i: int| 0 <= i < now.len() implies clean_name(#[trigger] now[i]) by {
            if i < before.len() {
                assert(clean_name(before[i]));
            }
        }
        if dotless(base) {
            assert forall|i: int| 0 <= i < now.len() implies is_name(#[trigger] now[i]) by {
                if i < before.len() {
                    assert(is_name(before[i]));
                }
            }
        }
    }
}

/// True for a part that reads as a path with a prefix of its own, such as a name
/// that begins with a drive.
pub open spec fn brings_prefix(part: Seq<char>) -> bool {
    is_name(part) && parse_path(part).prefix is Some
}

/// True when no part brings a prefix.
pub open spec fn brings_none(parts: Seq<Seq<char>>) -> bool {
    forall|i: int| 0 <= i < parts.len() ==> !brings_prefix(#[trigger] parts[i])
}

/// What entering one part does to a path whose parts are clean.
proof fn lemma_enter_one(path: PathView, part: Seq<char>, verbatim: bool)
    requires
        is_piece(part, verbatim),
        is_name(part),
        clean_names(path.parts),
        verbatim ==> path.prefix is Some,
        path.is_verbatim() ==> verbatim && path.rooted,
    ensures
        ({
            let next = joined(path, parse_path(part));
            &&& clean_names(next.parts)
            &&& next.is_verbatim() ==> path.is_verbatim() && next.rooted
            &&& path.prefix is Some ==> next.prefix is Some
            &&& !verbatim && next.rooted ==> path.rooted
            &&& brings_prefix(part) ==> next.prefix is Some && !next.is_verbatim() && (!verbatim
                ==> !next.rooted)
            &&& !brings_prefix(part) ==> next.prefix == path.prefix
            &&& !brings_prefix(part) && (verbatim ==> path.is_verbatim()) ==> next.rooted
                == path.rooted && (dotless(path.parts) ==> dotless(next.parts))
            &&& !verbatim && !brings_prefix(part) && plain_names(path.parts) ==> plain_names(
                next.parts,
            )
        }),
{
    let y = parse_path(part);
    let next = joined(path, y);
    lemma_part_alone(part, verbatim);
    if y.prefix is Some {
        assert(clean_names(y.parts));
    } else if path.is_verbatim() && !y.is_empty() {
        let base = if y.rooted {
            Seq::<Seq<char>>::empty()
        } else {
            path.parts
        };
        lemma_folded_clean(base, y.parts);
    } else if !verbatim {
        lemma_join_name(path, part);
        assert(next.parts == path.parts.push(part));
        assert forall|i: int| 0 <= i < next.parts.len() implies clean_name(#[trigger] next.parts[i]) by {
            if i < path.parts.len() {
                assert(clean_name(path.parts[i]));
            }
        }
        if dotless(path.parts) {
            assert forall|i: int| 0 <= i < next.parts.len() implies is_name(#[trigger] next.parts[i]) by {
                if i < path.parts.len() {
                    assert(is_name(path.parts[i]));
                }
            }
        }
        if plain_names(path.parts) {
            assert forall|i: int| 0 <= i < next.parts.len() implies plain_name(
                #[trigger] next.parts[i],
            ) by {
                if i < path.parts.len() {
                    assert(plain_name(path.parts[i]));
                }
            }
        }
    } else if y.rooted {
        assert(clean_names(y.parts));
    } else {
        let tail = if y.parts.len() > 0 && y.parts[0] == "."@ {
            y.parts.drop_first()
        } else {
            y.parts
        };
        assert(next.parts == path.parts + tail);
        assert forall|i: int| 0 <= i < next.parts.len() implies clean_name(#[trigger] next.parts[i]) by {
            if i < path.parts.len() {
                assert(clean_name(path.parts[i]));
            } else {
                let k = i - path.parts.len();
                if y.parts.len() > 0 && y.parts[0] == "."@ {
                    assert(tail[k] == y.parts[k + 1]);
                } else {
                    assert(tail[k] == y.parts[k]);
                }
            }
        }
        if path.is_verbatim() {
            assert(tail.len() == 0);
            assert(next.parts == path.parts);
        }
    }
}

/// What entering parts one after the other does to a path whose parts are clean.
proof fn lemma_enter_all(start: PathView, steps: Seq<Seq<char>>)
    requires
        forall|i: int|
            0 <= i < steps.len() ==> is_piece(#[trigger] steps[i], start.is_verbatim()),
        start.parts.len() == 0,
        start.is_verbatim() ==> start.rooted,
    ensures
        ({
            let end = entered(start, steps);
            &&& clean_names(end.parts)
            &&& end.is_verbatim() ==> start.is_verbatim() && end.rooted
            &&& start.prefix is Some ==> end.prefix is Some
            &&& !start.is_verbatim() && end.rooted ==> start.rooted
            &&& !brings_none(steps) ==> end.prefix is Some && !end.is_verbatim() && (
            !start.is_verbatim() ==> !end.rooted)
            &&& brings_none(steps) ==> end.prefix == start.prefix && end.rooted == start.rooted
                && dotless(end.parts) && (!start.is_verbatim() ==> plain_names(end.parts))
        }),
    decreases steps.len(),
{
    if steps.len() > 0 {
        let verbatim = start.is_verbatim();
        let shorter = steps.drop_last();
        assert forall|i: int| 0 <= i < shorter.len() implies is_piece(#[trigger] shorter[i], verbatim) by {
            assert(is_piece(steps[i], verbatim));
        }
        lemma_enter_all(start, shorter);
        let part = steps[steps.len() - 1];
        assert(is_piece(part, verbatim));
        let before = entered(start, shorter);
        let end = entered(start, steps);
        if is_name(part) {
            lemma_enter_one(before, part, verbatim);
        } else {
            assert(end.parts == before.parts || end.parts == before.parts.drop_last());
            assert(forall|i: int| 0 <= i < end.parts.len() ==> end.parts[i] == before.parts[i]);
            assert forall|i: int| 0 <= i < end.parts.len() implies clean_name(#[trigger] end.parts[i]) by {
                assert(clean_name(before.parts[i]));
            }
            if dotless(before.parts) {
                assert forall|i: int| 0 <= i < end.parts.len() implies is_name(#[trigger] end.parts[i]) by {
                    assert(is_name(before.parts[i]));
                }
            }
            if plain_names(before.parts) {
                assert forall|i: int| 0 <= i < end.parts.len() implies plain_name(
                    #[trigger] end.parts[i],
                ) by {
                    assert(plain_name(before.parts[i]));
                }
            }
        }
        if brings_none(steps) {
            assert forall|i: int| 0 <= i < shorter.len() implies !brings_prefix(#[trigger] shorter[i]) by {
                assert(!brings_prefix(steps[i]));
            }
            assert(!brings_prefix(steps[steps.len() - 1]));
        } else if brings_none(shorter) {
            assert(brings_prefix(part)) by {
                if !brings_prefix(part) {
                    assert forall|i: int| 0 <= i < steps.len() implies !brings_prefix(#[trigger] steps[i]) by {
                        if i < shorter.len() {
                            assert(!brings_prefix(shorter[i]));
                        }
                    }
                }
            }
        }
    }
}

/// True for a path on a drive without a root, such as `C:a`.
pub open spec fn drive_relative(p: PathView) -> bool {
    p.prefix matches Some(q) && q.kind == PrefixKind::Disk && !p.rooted
}

/// Normalizing the path of any text leaves no `.`, and gives no root to a path
/// without one. What comes out stays as it is when it is normalized again, where
/// it holds names that stand for themselves.
///
/// Where no part brings a prefix of its own, which shows in the prefix and the
/// root that come out, they are those of the path, and no `..` is left. Such a path
/// without `.` and `..` is kept, and a `\\?\` path with it where no name holds a
/// `/` or begins with a drive.
pub proof fn law_normalized_paths_are_clean(s: Seq<char>)
    ensures
        ({
            let p = parse_path(s);
            let n = normalized(p);
            &&& forall|i: int| 0 <= i < n.parts.len() ==> clean_name(#[trigger] n.parts[i])
            &&& n.rooted ==> p.rooted
            &&& plain_names(n.parts) ==> normalized(n) == n
            &&& brings_none(p.parts) ==> n.prefix == p.prefix && n.rooted == p.rooted && dotless(
                n.parts,
            )
            &&& brings_none(p.parts) && !p.is_verbatim() ==> plain_names(n.parts)
            &&& !drive_relative(p) ==> (brings_none(p.parts) <==> n.prefix == p.prefix && n.rooted
                == p.rooted)
            &&& dotless(p.parts) && brings_none(p.parts) && (p.is_verbatim() ==> plain_names(
                p.parts,
            )) ==> n == p
        }),
{
    let p = parse_path(s);
    let n = normalized(p);
    let start = PathView { prefix: p.prefix, rooted: p.rooted, parts: Seq::empty() };
    law_verbatim_paths_have_a_root(s);
    lemma_parsed_parts(s);
    if p.parts.len() == 0 {
        assert(p.parts == Seq::<Seq<char>>::empty());
        assert(n == p);
    } else {
        assert(start.is_verbatim() == p.is_verbatim());
        lemma_enter_all(start, p.parts);
        if plain_names(n.parts) {
            let again = PathView { prefix: n.prefix, rooted: n.rooted, parts: Seq::empty() };
            lemma_enter_names(again, n.parts);
            assert(again.parts + n.parts == n.parts);
        }
        if dotless(p.parts) && brings_none(p.parts) && (p.is_verbatim() ==> plain_names(p.parts)) {
            assert forall|i: int| 0 <= i < p.parts.len() implies plain_name(#[trigger] p.parts[i]) by {
                assert(is_name(p.parts[i]) && !brings_prefix(p.parts[i]));
                assert(is_piece(p.parts[i], p.is_verbatim()));
                lemma_part_alone(p.parts[i], p.is_verbatim());
            }
            lemma_enter_names(start, p.parts);
            assert(start.parts + p.parts == p.parts);
        }
    }
}

/// The text of a path on a drive denotes that same path.
pub proof fn law_path_text_reads_back(p: PathView)
    requires
        on_drive(p),
    ensures
        parse_path(rendered(p)) == p,
{
    reveal_strlit(r"\");
    reveal_strlit(":");
    let q = p.prefix->0;
    let body = parts_text(p.parts);
    let s = rendered(p);
    assert(s == (q.first + ":"@) + r"\"@ + body);
    assert(s[0] == q.first[0] && s[1] == ':' && s[2] == '\\');
    assert(parse_prefix(s) == Some((prefix_of(PrefixKind::Disk, seq![ascii_upper(s[0])]), 2nat)));
    assert(seq![ascii_upper(s[0])] == q.first);
    assert(q.second == Seq::<char>::empty());
    let rest = s.skip(2);
    assert(rest[0] == '\\');
    assert(rest.skip(1) == body);
    let keep = |x: Seq<char>| is_part(x, false);
    if p.parts.len() == 0 {
        assert(unified(body, false) == Seq::<char>::empty());
        reveal_with_fuel(Seq::<_>::filter, 2);
        let only = seq![Seq::<char>::empty()];
        assert(only.drop_last() == Seq::<Seq<char>>::empty());
        assert(only.filter(keep) == Seq::<Seq<char>>::empty());
        assert(body_parts(body, false) == p.parts);
    } else {
        lemma_pieces_of_parts(p.parts);
        assert(unified(body, false) == body);
        assert forall|i: int| 0 <= i < p.parts.len() implies keep(#[trigger] p.parts[i]) by {
            assert(clean_name(p.parts[i]));
        }
        lemma_filter_all(p.parts, keep);
    }
}

/// The text of the path of `name` in the directory `dir`. A separator goes
/// between them, unless the directory ends in one, is a bare drive or is empty.
pub open spec fn child_text(dir: Seq<char>, name: Seq<char>) -> Seq<char> {
    if dir.len() == 0 || is_sep(dir.last()) || (dir.len() == 2 && drive_at(dir, 0)) {
        dir + name
    } else {
        dir + seq!['\\'] + name
    }
}

/// The text of the path of `name` in the directory `dir`.
pub fn join_text(dir: &str, name: &str) -> (r: String)
    ensures
        r@ == child_text(dir@, name@),
{
    let chars = chars_of(dir);
    let n = chars.len();
    let closed = n == 0 || chars[n - 1] == '\\' || chars[n - 1] == '/' || (n == 2 && (('a'
        <= chars[0] && chars[0] <= 'z') || ('A' <= chars[0] && chars[0] <= 'Z')) && chars[1] == ':');
    if closed {
        concat2(dir, name)
    } else {
        proof {
            reveal_strlit("\\");
            assert("\\"@ == seq!['\\']);
        }
        concat3(dir, "\\", name)
    }
}

/// The parts in a text stand between its separators, of which a `\\?\` path knows
/// one alone. Nothing stands between two that follow each other; and outside `\\?\`
/// paths a `.` is no part.
pub proof fn law_parts_stand_between_separators(
    a: Seq<char>,
    sep: char,
    b: Seq<char>,
    name: Seq<char>,
)
    ensures
        sep == '\\' || sep == '/' ==> body_parts(a.push(sep) + b, false) == body_parts(a, false)
            + body_parts(b, false),
        body_parts(a.push('\\') + b, true) == body_parts(a, true) + body_parts(b, true),
        name.len() > 0 && !name.contains('\\') ==> body_parts(name, true) == seq![name],
        name.len() > 0 && !name.contains('\\') && !name.contains('/') && name != "."@ ==> body_parts(
            name,
            false,
        ) == seq![name],
        body_parts("."@, false).len() == 0,
        body_parts(Seq::empty(), true).len() == 0,
        body_parts(Seq::empty(), false).len() == 0,
{
    if sep == '\\' || sep == '/' {
        lemma_split_parts(a, sep, b, false);
    }
    lemma_split_parts(a, '\\', b, true);
    reveal_strlit(".");
    assert("."@ =~= seq!['.']);
    lemma_one_part(name, true);
    lemma_one_part(name, false);
    lemma_one_part("."@, false);
    lemma_one_part(Seq::empty(), true);
    lemma_one_part(Seq::empty(), false);
}

proof fn lemma_split_parts(a: Seq<char>, sep: char, b: Seq<char>, verbatim: bool)
    requires
        sep == '\\' || (sep == '/' && !verbatim),
    ensures
        body_parts(a.push(sep) + b, verbatim) == body_parts(a, verbatim) + body_parts(b, verbatim),
{
    let keep = |p: Seq<char>| is_part(p, verbatim);
    let first = unified(a, verbatim);
    let second = unified(b, verbatim);
    assert(unified(a.push(sep) + b, verbatim) =~= first.push('\\') + second);
    law_texts_split_at_separators(first, '\\', second);
    Seq::filter_distributes_over_add(pieces(first, '\\'), pieces(second, '\\'), keep);
}

proof fn lemma_one_part(name: Seq<char>, verbatim: bool)
    ensures
        !name.contains('\\') && (verbatim || !name.contains('/')) ==> body_parts(name, verbatim)
            == (if is_part(name, verbatim) {
            seq![name]
        } else {
            Seq::empty()
        }),
{
    if !name.contains('\\') && (verbatim || !name.contains('/')) {
        assert forall|i: int| 0 <= i < name.len() implies unified(name, verbatim)[i] == name[i] by {
            assert(name[i] != '\\');
            if !verbatim {
                assert(name[i] != '/');
            }
        }
        assert(unified(name, verbatim) =~= name);
        lemma_pieces_of_name(name);
        let keep = |p: Seq<char>| is_part(p, verbatim);
        reveal_with_fuel(Seq::<_>::filter, 2);
        assert(seq![name].drop_last() =~= Seq::<Seq<char>>::empty());
        assert(seq![name].last() == name);
        assert(seq![name].filter(keep) =~= if is_part(name, verbatim) {
            seq![name]
        } else {
            Seq::empty()
        });
    }
}

proof fn lemma_sep_at(s: Seq<char>, from: int, place: int, verbatim: bool)
    requires
        0 <= from <= place <= s.len(),
        forall|i: int| from <= i < place ==> s[i] != '\\' && (s[i] != '/' || verbatim),
        place < s.len() ==> s[place] == '\\' || (s[place] == '/' && !verbatim),
    ensures
        sep_place(s, from, verbatim) == place,
    decreases place - from,
{
    if from < place {
        lemma_sep_at(s, from + 1, place, verbatim);
    }
}

/// A path on a drive: the letter, in upper case, a colon, the root where a separator
/// follows, and the parts behind it.
pub proof fn law_drives_are_read(letter: char, sep: char, body: Seq<char>)
    requires
        'a' <= letter <= 'z' || 'A' <= letter <= 'Z',
        sep == '\\' || sep == '/',
    ensures
        ({
            let upper = if 'a' <= letter <= 'z' {
                (letter as u32 - 32) as char
            } else {
                letter
            };
            let drive = PrefixView {
                kind: PrefixKind::Disk,
                first: seq![upper],
                second: Seq::empty(),
            };
            &&& parse_path(seq![letter, ':', sep] + body) == (PathView {
                prefix: Some(drive),
                rooted: true,
                parts: body_parts(body, false),
            })
            &&& body.len() == 0 || (body[0] != '\\' && body[0] != '/') ==> parse_path(
                seq![letter, ':'] + body,
            ) == (PathView {
                prefix: Some(drive),
                rooted: false,
                parts: body_parts(body, false),
            })
        }),
{
    let s = seq![letter, ':', sep] + body;
    assert(s[0] == letter && s[1] == ':' && s[2] == sep);
    assert(s.skip(2)[0] == sep);
    assert(s.skip(2).skip(1) =~= body);
    let t = seq![letter, ':'] + body;
    assert(t[0] == letter && t[1] == ':');
    assert(t.skip(2) =~= body);
}

/// A path without a prefix: it has a root where it begins with one separator. A `.` at
/// the start of a path without a root is kept, and no other is.
pub proof fn law_paths_without_a_prefix_are_read(sep: char, body: Seq<char>, first: Seq<char>)
    requires
        sep == '\\' || sep == '/',
        body.len() > 0 ==> body[0] != '\\' && body[0] != '/',
        first.len() > 0,
        !first.contains('\\'),
        !first.contains('/'),
    ensures
        parse_path(seq![sep] + body) == (PathView {
            prefix: None,
            rooted: true,
            parts: body_parts(body, false),
        }),
        first != "."@ && (first.len() < 2 || first[1] != ':') ==> parse_path(
            first.push(sep) + body,
        ) == (PathView {
            prefix: None,
            rooted: false,
            parts: seq![first] + body_parts(body, false),
        }) && parse_path(first) == (PathView { prefix: None, rooted: false, parts: seq![first] }),
        parse_path("."@.push(sep) + body) == (PathView {
            prefix: None,
            rooted: false,
            parts: seq!["."@] + body_parts(body, false),
        }),
        parse_path("."@) == (PathView { prefix: None, rooted: false, parts: seq!["."@] }),
        parse_path(Seq::empty()) == (PathView {
            prefix: None,
            rooted: false,
            parts: Seq::empty(),
        }),
{
    reveal_strlit(".");
    assert("."@ =~= seq!['.']);
    let s = seq![sep] + body;
    assert(s[0] == sep);
    if body.len() > 0 {
        assert(s[1] == body[0]);
    }
    assert(s.skip(0) =~= s);
    assert(s.skip(1) =~= body);
    assert(parse_prefix(s) is None);
    assert(parse_path(s) == (PathView {
        prefix: None,
        rooted: true,
        parts: body_parts(body, false),
    }));
    if first != "."@ && (first.len() < 2 || first[1] != ':') {
        lemma_relative(first, sep, body);
    }
    lemma_relative("."@, sep, body);
    law_parts_stand_between_separators(Seq::empty(), sep, Seq::empty(), Seq::empty());
    let none = Seq::<char>::empty();
    assert(none.skip(0) =~= none);
    assert(name_at(none, 0, false) =~= none);
    assert(parse_path(none).parts =~= Seq::<Seq<char>>::empty());
}

proof fn lemma_relative(first: Seq<char>, sep: char, body: Seq<char>)
    requires
        sep == '\\' || sep == '/',
        first.len() > 0,
        !first.contains('\\'),
        !first.contains('/'),
        first.len() < 2 || first[1] != ':',
    ensures
        parse_path(first.push(sep) + body) == (PathView {
            prefix: None,
            rooted: false,
            parts: seq![first] + body_parts(body, false),
        }),
        parse_path(first) == (PathView { prefix: None, rooted: false, parts: seq![first] }),
{
    reveal_strlit(".");
    let s = first.push(sep) + body;
    assert(first[0] != '\\' && first[0] != '/');
    assert(s[0] == first[0]);
    assert(s.len() >= 2 ==> s[1] != ':') by {
        if first.len() >= 2 {
            assert(s[1] == first[1]);
        } else {
            assert(s[1] == sep);
        }
    }
    assert(parse_prefix(s) is None);
    assert(parse_prefix(first) is None);
    assert(s.skip(0) =~= s);
    assert(first.skip(0) =~= first);
    assert forall|i: int| 0 <= i < first.len() implies s[i] != '\\' && s[i] != '/' by {
        assert(s[i] == first[i]);
    }
    assert(s[first.len() as int] == sep);
    lemma_sep_at(s, 0, first.len() as int, false);
    lemma_sep_at(first, 0, first.len() as int, false);
    assert(name_at(s, 0, false) =~= first);
    assert(name_at(first, 0, false) =~= first);
    law_parts_stand_between_separators(first, sep, body, first);
    law_parts_stand_between_separators(first, sep, body, "."@);
    if first == "."@ {
        assert(body_parts(first, false) + body_parts(body, false) =~= body_parts(body, false));
        assert(seq!["."@] + body_parts(first, false) =~= seq!["."@]);
    }
}

/// A path on a share: two separators, the server, the share, and the parts behind
/// them. Its root is always there.
pub proof fn law_shares_are_read(
    server: Seq<char>,
    sep: char,
    share: Seq<char>,
    body: Seq<char>,
)
    requires
        sep == '\\' || sep == '/',
        server.len() > 0,
        !server.contains('\\'),
        !server.contains('/'),
        server != "?"@,
        server != "."@,
        share.len() > 0,
        !share.contains('\\'),
        !share.contains('/'),
    ensures
        ({
            let prefix = PrefixView { kind: PrefixKind::Unc, first: server, second: share };
            let text = seq![sep, sep] + server + seq![sep] + share;
            &&& parse_path(text + seq![sep] + body) == (PathView {
                prefix: Some(prefix),
                rooted: true,
                parts: body_parts(body, false),
            })
            &&& parse_path(text) == (PathView {
                prefix: Some(prefix),
                rooted: true,
                parts: Seq::empty(),
            })
        }),
{
    let text = seq![sep, sep] + server + seq![sep] + share;
    lemma_share(server, sep, share, text + seq![sep] + body);
    lemma_share(server, sep, share, text);
    let s = text + seq![sep] + body;
    let n = text.len() as int;
    assert(s.skip(n)[0] == sep);
    assert(s.skip(n).skip(1) =~= body);
    assert(text.skip(n) =~= Seq::<char>::empty());
    law_parts_stand_between_separators(Seq::empty(), sep, Seq::empty(), Seq::empty());
    assert(parse_path(text).parts =~= Seq::<Seq<char>>::empty());
}

proof fn lemma_share(server: Seq<char>, sep: char, share: Seq<char>, s: Seq<char>)
    requires
        sep == '\\' || sep == '/',
        server.len() > 0,
        !server.contains('\\'),
        !server.contains('/'),
        server != "?"@,
        server != "."@,
        share.len() > 0,
        !share.contains('\\'),
        !share.contains('/'),
        (seq![sep, sep] + server + seq![sep] + share).is_prefix_of(s),
        s.len() > 3 + server.len() + share.len() ==> s[3 + (server.len() + share.len()) as int] == sep,
    ensures
        parse_prefix(s) == Some(
            (
                PrefixView { kind: PrefixKind::Unc, first: server, second: share },
                (3 + server.len() + share.len()) as nat,
            ),
        ),
{
    reveal_strlit("?");
    reveal_strlit(".");
    let text = seq![sep, sep] + server + seq![sep] + share;
    let mid = 2 + server.len() as int;
    let end = mid + 1 + share.len();
    assert forall|i: int| 0 <= i < text.len() implies s[i] == text[i] by {}
    assert(text[0] == sep && text[1] == sep && text[mid] == sep);
    assert forall|i: int| 2 <= i < mid implies s[i] != '\\' && s[i] != '/' by {
        assert(text[i] == server[i - 2]);
    }
    assert forall|i: int| mid + 1 <= i < end implies s[i] != '\\' && s[i] != '/' by {
        assert(text[i] == share[i - mid - 1]);
    }
    lemma_sep_at(s, 2, mid, false);
    lemma_sep_at(s, mid + 1, end, false);
    assert(name_at(s, 2, false) =~= server) by {
        assert forall|i: int| 2 <= i < mid implies s[i] == server[i - 2] by {
            assert(text[i] == server[i - 2]);
        }
    }
    assert(name_at(s, mid + 1, false) =~= share) by {
        assert forall|i: int| mid + 1 <= i < end implies s[i] == share[i - mid - 1] by {
            assert(text[i] == share[i - mid - 1]);
        }
    }
    if server.len() == 1 {
        assert(server[0] != '?') by {
            if server[0] == '?' {
                assert(server =~= "?"@);
            }
        }
        assert(server[0] != '.') by {
            if server[0] == '.' {
                assert(server =~= "."@);
            }
        }
        assert(s[2] == text[2] && text[2] == server[0]);
    } else {
        assert(s[3] == text[3] && text[3] == server[1]);
        assert(server[1] != '\\' && server[1] != '/');
    }
}

/// A path with a `\\?\` prefix on a drive, on a share, or anywhere else; and a path of
/// a device. What stands behind the prefix is split at `\` alone, but for a device.
pub proof fn law_verbatim_paths_are_read(
    letter: char,
    unc: Seq<char>,
    name: Seq<char>,
    share: Seq<char>,
    body: Seq<char>,
)
    requires
        'a' <= letter <= 'z' || 'A' <= letter <= 'Z',
        unc == seq!['U', 'N', 'C'] || unc == seq!['u', 'n', 'c'],
        name.len() > 0,
        !name.contains('\\'),
        !name.contains('/'),
        name.len() != 2 || name[1] != ':',
        name.len() != 3 || name[0] == '.',
        share.len() > 0,
        !share.contains('\\'),
    ensures
        parse_path(seq!['\\', '\\', '?', '\\', letter, ':', '\\'] + body) == (PathView {
            prefix: Some(
                PrefixView {
                    kind: PrefixKind::VerbatimDisk,
                    first: seq![
                        if 'a' <= letter <= 'z' {
                            (letter as u32 - 32) as char
                        } else {
                            letter
                        },
                    ],
                    second: Seq::empty(),
                },
            ),
            rooted: true,
            parts: body_parts(body, true),
        }),
        parse_path(
            seq!['\\', '\\', '?', '\\'] + unc + seq!['\\'] + name + seq!['\\'] + share + seq!['\\']
                + body,
        ) == (PathView {
            prefix: Some(
                PrefixView { kind: PrefixKind::VerbatimUnc, first: name, second: share },
            ),
            rooted: true,
            parts: body_parts(body, true),
        }),
        parse_path(seq!['\\', '\\', '?', '\\'] + name + seq!['\\'] + body) == (PathView {
            prefix: Some(
                PrefixView { kind: PrefixKind::Verbatim, first: name, second: Seq::empty() },
            ),
            rooted: true,
            parts: body_parts(body, true),
        }),
        parse_path(seq!['\\', '\\', '.', '\\'] + name + seq!['\\'] + body) == (PathView {
            prefix: Some(
                PrefixView { kind: PrefixKind::DeviceNs, first: name, second: Seq::empty() },
            ),
            rooted: true,
            parts: body_parts(body, false),
        }),
{
    lemma_verbatim_drive(letter, body);
    lemma_verbatim_share(unc, name, share, body);
    lemma_verbatim_name(name, body);
    lemma_device(name, body);
}

proof fn lemma_verbatim_drive(letter: char, body: Seq<char>)
    requires
        'a' <= letter <= 'z' || 'A' <= letter <= 'Z',
    ensures
        parse_path(seq!['\\', '\\', '?', '\\', letter, ':', '\\'] + body) == (PathView {
            prefix: Some(
                PrefixView {
                    kind: PrefixKind::VerbatimDisk,
                    first: seq![
                        if 'a' <= letter <= 'z' {
                            (letter as u32 - 32) as char
                        } else {
                            letter
                        },
                    ],
                    second: Seq::empty(),
                },
            ),
            rooted: true,
            parts: body_parts(body, true),
        }),
{
    let s = seq!['\\', '\\', '?', '\\', letter, ':', '\\'] + body;
    assert(s[0] == '\\' && s[1] == '\\' && s[2] == '?' && s[3] == '\\' && s[4] == letter && s[5]
        == ':' && s[6] == '\\');
    assert(ascii_upper(s[5]) != 'N');
    assert(!unc_at(s, 4));
    assert(s.skip(6)[0] == '\\');
    assert(s.skip(6).skip(1) =~= body);
}

proof fn lemma_verbatim_share(unc: Seq<char>, name: Seq<char>, share: Seq<char>, body: Seq<char>)
    requires
        unc == seq!['U', 'N', 'C'] || unc == seq!['u', 'n', 'c'],
        !name.contains('\\'),
        share.len() > 0,
        !share.contains('\\'),
    ensures
        parse_path(
            seq!['\\', '\\', '?', '\\'] + unc + seq!['\\'] + name + seq!['\\'] + share + seq!['\\']
                + body,
        ) == (PathView {
            prefix: Some(
                PrefixView { kind: PrefixKind::VerbatimUnc, first: name, second: share },
            ),
            rooted: true,
            parts: body_parts(body, true),
        }),
{
    let start = seq!['\\', '\\', '?', '\\'] + unc + seq!['\\'];
    let s = start + name + seq!['\\'] + share + seq!['\\'] + body;
    let mid = 8 + name.len() as int;
    let end = mid + 1 + share.len();
    assert(s[0] == '\\' && s[1] == '\\' && s[2] == '?' && s[3] == '\\' && s[4] == unc[0] && s[5]
        == unc[1] && s[6] == unc[2] && s[7] == '\\');
    assert(unc_at(s, 4));
    assert(s[mid] == '\\' && s[end] == '\\');
    assert forall|i: int| 8 <= i < mid implies s[i] != '\\' by {
        assert(s[i] == name[i - 8]);
    }
    assert forall|i: int| mid + 1 <= i < end implies s[i] != '\\' by {
        assert(s[i] == share[i - mid - 1]);
    }
    lemma_sep_at(s, 8, mid, true);
    lemma_sep_at(s, mid + 1, end, true);
    assert(s.subrange(8, mid) =~= name);
    assert(s.subrange(mid + 1, end) =~= share);
    assert(s.skip(end)[0] == '\\');
    assert(s.skip(end).skip(1) =~= body);
}

/// Two separators and one name are no share: the path has a root and no prefix.
pub proof fn law_servers_without_a_share(server: Seq<char>, sep: char)
    requires
        sep == '\\' || sep == '/',
        !server.contains('\\'),
        !server.contains('/'),
    ensures
        parse_path(seq![sep, sep] + server).prefix is None,
        parse_path(seq![sep, sep] + server).rooted,
        server.len() > 0 && server != "."@ ==> parse_path(seq![sep, sep] + server).parts == seq![
            server,
        ],
{
    let s = seq![sep, sep] + server;
    assert(s[0] == sep && s[1] == sep);
    let n = s.len() as int;
    assert forall|i: int| 2 <= i < n implies s[i] != '\\' && s[i] != '/' by {
        assert(s[i] == server[i - 2]);
    }
    lemma_sep_at(s, 2, n, false);
    assert(next_name(s, 2, false) =~= Seq::<char>::empty());
    if s.len() >= 4 {
        assert(s[3] == server[1]);
        assert(!is_sep(s[3]));
    }
    assert(parse_prefix(s) is None);
    assert(s.skip(0) =~= s);
    assert(s.skip(1) =~= seq![sep] + server);
    assert(seq![sep] + server =~= Seq::<char>::empty().push(sep) + server);
    law_parts_stand_between_separators(Seq::empty(), sep, server, server);
    assert(body_parts(Seq::empty(), false) + body_parts(server, false) =~= body_parts(
        server,
        false,
    ));
}

proof fn lemma_verbatim_name(name: Seq<char>, body: Seq<char>)
    requires
        !name.contains('\\'),
        name.len() > 0,
        !name.contains('/'),
        name.len() != 2 || name[1] != ':',
        name.len() != 3 || name[0] == '.',
    ensures
        parse_path(seq!['\\', '\\', '?', '\\'] + name + seq!['\\'] + body) == (PathView {
            prefix: Some(
                PrefixView { kind: PrefixKind::Verbatim, first: name, second: Seq::empty() },
            ),
            rooted: true,
            parts: body_parts(body, true),
        }),
{
    let s = seq!['\\', '\\', '?', '\\'] + name + seq!['\\'] + body;
    let end = 4 + name.len() as int;
    assert(s[0] == '\\' && s[1] == '\\' && s[2] == '?' && s[3] == '\\' && s[end] == '\\');
    assert forall|i: int| 4 <= i < end implies s[i] == name[i - 4] && s[i] != '\\' && s[i] != '/' by {
        assert(s[i] == name[i - 4]);
    }
    assert(!unc_at(s, 4)) by {
        if name.len() == 1 {
            assert(s[5] == '\\');
        } else if name.len() == 2 {
            assert(s[6] == '\\');
        } else if name.len() == 3 {
            assert(s[4] == '.');
        } else {
            assert(!is_sep(s[7]));
        }
    }
    assert(!(drive_at(s, 4) && (s.len() == 6 || is_sep(s[6])))) by {
        if name.len() == 1 {
            assert(s[5] == '\\');
        } else if name.len() == 2 {
            assert(s[5] == name[1]);
        } else {
            assert(!is_sep(s[6]));
        }
    }
    lemma_sep_at(s, 4, end, true);
    assert(s.subrange(4, end) =~= name);
    assert(s.skip(end)[0] == '\\');
    assert(s.skip(end).skip(1) =~= body);
}

proof fn lemma_device(name: Seq<char>, body: Seq<char>)
    requires
        !name.contains('\\'),
        !name.contains('/'),
    ensures
        parse_path(seq!['\\', '\\', '.', '\\'] + name + seq!['\\'] + body) == (PathView {
            prefix: Some(
                PrefixView { kind: PrefixKind::DeviceNs, first: name, second: Seq::empty() },
            ),
            rooted: true,
            parts: body_parts(body, false),
        }),
{
    let s = seq!['\\', '\\', '.', '\\'] + name + seq!['\\'] + body;
    let end = 4 + name.len() as int;
    assert(s[0] == '\\' && s[1] == '\\' && s[2] == '.' && s[3] == '\\' && s[end] == '\\');
    assert forall|i: int| 4 <= i < end implies s[i] != '\\' && s[i] != '/' by {
        assert(s[i] == name[i - 4]);
    }
    lemma_sep_at(s, 4, end, false);
    assert(s.subrange(4, end) =~= name);
    assert(s.skip(end)[0] == '\\');
    assert(s.skip(end).skip(1) =~= body);
}

/// A path that is read from another: one with a prefix stands alone, one with a root
/// keeps the prefix of the other alone, and any other goes on behind its parts. A
/// leading `.` says nothing there.
pub proof fn law_paths_are_joined(a: PathView, b: PathView)
    ensures
        b.prefix is Some ==> joined(a, b) == b,
        b.prefix is None && b.rooted && !a.is_verbatim() ==> joined(a, b) == (PathView {
            prefix: a.prefix,
            rooted: true,
            parts: b.parts,
        }),
        b.prefix is None && !b.rooted && !a.is_verbatim() && !a.is_empty() && (b.parts.len() == 0
            || b.parts[0] != "."@) ==> joined(a, b) == (PathView {
            prefix: a.prefix,
            rooted: a.rooted,
            parts: a.parts + b.parts,
        }),
        b.prefix is None && !b.rooted && !a.is_verbatim() && !a.is_empty() && b.parts.len() > 0
            && b.parts[0] == "."@ ==> joined(a, b) == (PathView {
            prefix: a.prefix,
            rooted: a.rooted,
            parts: a.parts + b.parts.skip(1),
        }),
        a.is_empty() && b.prefix is None && !b.rooted ==> joined(a, b) == b,
        b.is_empty() ==> joined(a, b) == a,
        a.is_verbatim() && a.rooted && b.prefix is None && !b.rooted ==> joined(a, b).prefix
            == a.prefix && joined(a, b).rooted && joined(a, b).parts == folded_parts(
            a.parts,
            b.parts,
        ),
        a.is_verbatim() && b.prefix is None && b.rooted ==> joined(a, b) == (PathView {
            prefix: a.prefix,
            rooted: true,
            parts: folded_parts(Seq::empty(), b.parts),
        }),
{
    assert(a.parts + Seq::<Seq<char>>::empty() =~= a.parts);
    if b.parts.len() > 0 {
        assert(b.parts.drop_first() =~= b.parts.skip(1));
    }
    if b.is_empty() {
        assert(b.parts =~= Seq::<Seq<char>>::empty());
        assert(a.parts + b.parts =~= a.parts);
        if a.is_empty() {
            assert(a.parts =~= b.parts);
        }
    }
}

/// Parts are followed one after the other: a name goes down, `.` stays, and `..` goes
/// up where a name stands before it.
pub proof fn law_parts_are_followed(base: Seq<Seq<char>>, parts: Seq<Seq<char>>, part: Seq<char>)
    ensures
        folded_parts(base, Seq::empty()) == base,
        part == "."@ ==> folded_parts(base, parts.push(part)) == folded_parts(base, parts),
        part != "."@ && part != ".."@ ==> folded_parts(base, parts.push(part)) == folded_parts(
            base,
            parts,
        ).push(part),
        part == ".."@ && folded_parts(base, parts).len() > 0 && folded_parts(base, parts).last()
            != "."@ && folded_parts(base, parts).last() != ".."@ ==> folded_parts(
            base,
            parts.push(part),
        ) == folded_parts(base, parts).drop_last(),
        part == ".."@ && (folded_parts(base, parts).len() == 0 || folded_parts(base, parts).last()
            == ".."@) ==> folded_parts(base, parts.push(part)) == folded_parts(base, parts),
{
    reveal_strlit(".");
    reveal_strlit("..");
    assert("."@.len() != ".."@.len());
    assert(parts.push(part).drop_last() =~= parts);
    assert(parts.push(part).last() == part);
}

/// Normalizing works a path out part by part: a plain name is added, `.` adds nothing,
/// and `..` takes the last part away where there is one. The prefix and the root of a
/// path of such parts stay.
pub proof fn law_normalizing_follows_the_parts(path: PathView, part: Seq<char>)
    requires
        plain_steps(path.parts),
        plain_step(part),
        path.is_verbatim() ==> path.rooted,
    ensures
        ({
            let before = normalized(path);
            let next = normalized(PathView { parts: path.parts.push(part), ..path });
            &&& before.prefix == path.prefix && before.rooted == path.rooted
            &&& next.prefix == path.prefix && next.rooted == path.rooted
            &&& path.parts.len() == 0 ==> before.parts.len() == 0
            &&& part == "."@ ==> next.parts == before.parts
            &&& part == ".."@ && before.parts.len() > 0 ==> next.parts == before.parts.drop_last()
            &&& part == ".."@ && before.parts.len() == 0 ==> next.parts.len() == 0
            &&& part != "."@ && part != ".."@ ==> next.parts == before.parts.push(part)
        }),
{
    reveal_strlit(".");
    reveal_strlit("..");
    assert("."@.len() != ".."@.len());
    let start = PathView { prefix: path.prefix, rooted: path.rooted, parts: Seq::empty() };
    assert(start.is_verbatim() == path.is_verbatim());
    lemma_enter_plain(start, path.parts);
    assert(path.parts.push(part).drop_last() =~= path.parts);
    assert(path.parts.push(part).last() == part);
    if part != "."@ && part != ".."@ {
        lemma_join_name(entered(start, path.parts), part);
    }
}

/// The two spellings of a drive, and those of a share, are one place; any other path
/// is written in one way.
pub proof fn law_spellings_of_one_place(path: PathView, first: Seq<char>, second: Seq<char>)
    ensures
        plain(
            PathView {
                prefix: Some(PrefixView { kind: PrefixKind::VerbatimDisk, first, second }),
                ..path
            },
        ) == (PathView {
            prefix: Some(PrefixView { kind: PrefixKind::Disk, first, second }),
            ..path
        }),
        plain(
            PathView {
                prefix: Some(PrefixView { kind: PrefixKind::VerbatimUnc, first, second }),
                ..path
            },
        ) == (PathView {
            prefix: Some(PrefixView { kind: PrefixKind::Unc, first, second }),
            rooted: true,
            ..path
        }),
        path.prefix is None || path.prefix->0.kind == PrefixKind::Disk || path.prefix->0.kind
            == PrefixKind::Unc || path.prefix->0.kind == PrefixKind::Verbatim || path.prefix->0.kind
            == PrefixKind::DeviceNs ==> plain(path) == path,
{
}

/// A path stands on its own where it has a prefix and a root, or a prefix other than a
/// drive.
pub proof fn law_absolute_paths(path: PathView)
    ensures
        path.prefix is None ==> !path.is_absolute() && !path.is_verbatim(),
        path.prefix is Some && path.rooted ==> path.is_absolute(),
        path.prefix is Some && !path.rooted ==> (path.is_absolute() <==> path.prefix->0.kind
            != PrefixKind::Disk),
        path.prefix is Some ==> (path.is_verbatim() <==> path.prefix->0.kind
            == PrefixKind::Verbatim || path.prefix->0.kind == PrefixKind::VerbatimUnc
            || path.prefix->0.kind == PrefixKind::VerbatimDisk),
        path.is_empty() <==> path.prefix is None && !path.rooted && path.parts.len() == 0,
{
}

/// The text of a path: its prefix, the root, and the parts with one `\` between them.
pub proof fn law_paths_as_written(path: PathView, part: Seq<char>, first: Seq<char>, second: Seq<char>)
    ensures
        path.prefix is None && path.parts.len() == 0 && !path.rooted ==> rendered(path).len() == 0,
        path.parts.len() > 0 ==> rendered(
            PathView { parts: path.parts.push(part), ..path },
        ) == rendered(path) + seq!['\\'] + part,
        path.parts.len() == 0 && path.rooted ==> rendered(
            PathView { parts: seq![part], ..path },
        ) == (match path.prefix {
            Some(prefix) => prefix_text(prefix),
            None => Seq::empty(),
        }) + seq!['\\'] + part,
        path.parts.len() == 0 && !path.rooted ==> rendered(
            PathView { parts: seq![part], ..path },
        ) == (match path.prefix {
            Some(prefix) => prefix_text(prefix),
            None => Seq::empty(),
        }) + part,
        prefix_text(PrefixView { kind: PrefixKind::Disk, first, second }) == first + seq![':'],
        prefix_text(PrefixView { kind: PrefixKind::VerbatimDisk, first, second }) == seq![
            '\\',
            '\\',
            '?',
            '\\',
        ] + first + seq![':'],
        prefix_text(PrefixView { kind: PrefixKind::Unc, first, second }) == seq!['\\', '\\'] + first
            + seq!['\\'] + second,
        second.len() > 0 ==> prefix_text(
            PrefixView { kind: PrefixKind::VerbatimUnc, first, second },
        ) == seq!['\\', '\\', '?', '\\', 'U', 'N', 'C', '\\'] + first + seq!['\\'] + second,
        prefix_text(PrefixView { kind: PrefixKind::Verbatim, first, second }) == seq![
            '\\',
            '\\',
            '?',
            '\\',
        ] + first,
        prefix_text(PrefixView { kind: PrefixKind::DeviceNs, first, second }) == seq![
            '\\',
            '\\',
            '.',
            '\\',
        ] + first,
{
    reveal_strlit(r"\");
    reveal_strlit(r"\\");
    reveal_strlit(r"\\?\");
    reveal_strlit(r"\\.\");
    reveal_strlit(r"\\?\UNC\");
    reveal_strlit(":");
    assert(r"\"@ =~= seq!['\\']);
    assert(r"\\"@ =~= seq!['\\', '\\']);
    assert(r"\\?\"@ =~= seq!['\\', '\\', '?', '\\']);
    assert(r"\\.\"@ =~= seq!['\\', '\\', '.', '\\']);
    assert(r"\\?\UNC\"@ =~= seq!['\\', '\\', '?', '\\', 'U', 'N', 'C', '\\']);
    assert(":"@ =~= seq![':']);
    let more = path.parts.push(part);
    assert(more.drop_last() =~= path.parts);
    assert(more.last() == part);
    if path.parts.len() > 0 {
        let head = match path.prefix {
            Some(q) => prefix_text(q),
            None => Seq::<char>::empty(),
        };
        let next = PathView { parts: more, ..path };
        assert(root_shown(next) == root_shown(path));
        assert(parts_text(more) == parts_text(path.parts) + seq!['\\'] + part);
        assert(rendered(next) =~= rendered(path) + seq!['\\'] + part);
    }
    assert(parts_text(seq![part]) == part);
    assert(seq!['\\', '\\'] + first + (seq!['\\'] + second) =~= seq!['\\', '\\'] + first
        + seq!['\\'] + second);
    let unc = seq!['\\', '\\', '?', '\\', 'U', 'N', 'C', '\\'];
    assert(unc + first + (seq!['\\'] + second) =~= unc + first + seq!['\\'] + second);
}

/// A name in a directory is written behind it with one separator, which the directory
/// may bring itself; a bare drive and an empty directory need none.
pub proof fn law_children_as_written(dir: Seq<char>, name: Seq<char>, letter: char)
    requires
        'a' <= letter <= 'z' || 'A' <= letter <= 'Z',
    ensures
        child_text(dir.push('\\'), name) == dir.push('\\') + name,
        child_text(dir.push('/'), name) == dir.push('/') + name,
        child_text(Seq::empty(), name) == name,
        child_text(seq![letter, ':'], name) == seq![letter, ':'] + name,
        dir.len() > 0 && dir.last() != '\\' && dir.last() != '/' && dir.last() != ':' ==> child_text(
            dir,
            name,
        ) == dir + seq!['\\'] + name,
        dir.len() > 2 && dir.last() == ':' ==> child_text(dir, name) == dir + seq!['\\'] + name,
{
    assert(Seq::<char>::empty() + name =~= name);
}

/// The path above lacks the last part, and one without parts has none above it.
pub proof fn law_parents_lack_the_last_part(path: PathView, part: Seq<char>)
    ensures
        parent_path(PathView { parts: path.parts.push(part), ..path }) == path,
        path.parts.len() == 0 ==> parent_path(path) == path,
{
    assert(path.parts.push(part).drop_last() =~= path.parts);
}

/// The text of a path without parts: its prefix, and behind it the root where it has
/// one, unless the prefix implies it.
pub proof fn law_bare_paths_as_written(prefix: PrefixView, rooted: bool)
    ensures
        rendered(PathView { prefix: None, rooted: true, parts: Seq::empty() }) == seq!['\\'],
        rendered(PathView { prefix: Some(prefix), rooted: false, parts: Seq::empty() })
            == prefix_text(prefix),
        prefix.kind == PrefixKind::Unc || prefix.kind == PrefixKind::DeviceNs ==> rendered(
            PathView { prefix: Some(prefix), rooted, parts: Seq::empty() },
        ) == prefix_text(prefix),
        prefix.kind != PrefixKind::Unc && prefix.kind != PrefixKind::DeviceNs ==> rendered(
            PathView { prefix: Some(prefix), rooted: true, parts: Seq::empty() },
        ) == prefix_text(prefix) + seq!['\\'],
        prefix.kind == PrefixKind::VerbatimUnc && prefix.second.len() == 0 ==> prefix_text(prefix)
            == seq!['\\', '\\', '?', '\\', 'U', 'N', 'C', '\\'] + prefix.first,
{
    reveal_strlit(r"\");
    reveal_strlit(r"\\?\UNC\");
    assert(r"\"@ =~= seq!['\\']);
    assert(r"\\?\UNC\"@ =~= seq!['\\', '\\', '?', '\\', 'U', 'N', 'C', '\\']);
    let text = prefix_text(prefix);
    assert(text + Seq::<char>::empty() + Seq::<char>::empty() =~= text);
    assert(text + seq!['\\'] + Seq::<char>::empty() =~= text + seq!['\\']);
    assert(Seq::<char>::empty() + seq!['\\'] + Seq::<char>::empty() =~= seq!['\\']);
}

/// A prefix that ends the text: a `\\?\` path has no root then, a share may lack its
/// second name there, and a device has its root anyway.
pub proof fn law_bare_prefixes_are_read(letter: char, unc: Seq<char>, name: Seq<char>)
    requires
        'A' <= letter <= 'Z',
        unc == seq!['U', 'N', 'C'] || unc == seq!['u', 'n', 'c'],
        !name.contains('\\'),
        !name.contains('/'),
    ensures
        parse_path(seq!['\\', '\\', '?', '\\', letter, ':']) == (PathView {
            prefix: Some(
                PrefixView {
                    kind: PrefixKind::VerbatimDisk,
                    first: seq![letter],
                    second: Seq::empty(),
                },
            ),
            rooted: false,
            parts: Seq::empty(),
        }),
        parse_path(seq!['\\', '\\', '?', '\\'] + unc + seq!['\\'] + name) == (PathView {
            prefix: Some(
                PrefixView { kind: PrefixKind::VerbatimUnc, first: name, second: Seq::empty() },
            ),
            rooted: false,
            parts: Seq::empty(),
        }),
        parse_path(seq!['\\', '\\', '.', '\\'] + name) == (PathView {
            prefix: Some(
                PrefixView { kind: PrefixKind::DeviceNs, first: name, second: Seq::empty() },
            ),
            rooted: true,
            parts: Seq::empty(),
        }),
{
    lemma_bare_drive(letter);
    lemma_bare_unc(unc, name);
    lemma_bare_device(name);
}

proof fn lemma_bare_drive(letter: char)
    requires
        'A' <= letter <= 'Z',
    ensures
        parse_path(seq!['\\', '\\', '?', '\\', letter, ':']) == (PathView {
            prefix: Some(
                PrefixView {
                    kind: PrefixKind::VerbatimDisk,
                    first: seq![letter],
                    second: Seq::empty(),
                },
            ),
            rooted: false,
            parts: Seq::empty(),
        }),
{
    law_parts_stand_between_separators(Seq::empty(), '\\', Seq::empty(), Seq::empty());
    let s = seq!['\\', '\\', '?', '\\', letter, ':'];
    assert(!unc_at(s, 4));
    assert(s.skip(6) =~= Seq::<char>::empty());
    assert(parse_path(s).parts =~= Seq::<Seq<char>>::empty());
}

proof fn lemma_bare_unc(unc: Seq<char>, name: Seq<char>)
    requires
        unc == seq!['U', 'N', 'C'] || unc == seq!['u', 'n', 'c'],
        !name.contains('\\'),
    ensures
        parse_path(seq!['\\', '\\', '?', '\\'] + unc + seq!['\\'] + name) == (PathView {
            prefix: Some(
                PrefixView { kind: PrefixKind::VerbatimUnc, first: name, second: Seq::empty() },
            ),
            rooted: false,
            parts: Seq::empty(),
        }),
{
    law_parts_stand_between_separators(Seq::empty(), '\\', Seq::empty(), Seq::empty());
    let s = seq!['\\', '\\', '?', '\\'] + unc + seq!['\\'] + name;
    let n = s.len() as int;
    assert(s[0] == '\\' && s[1] == '\\' && s[2] == '?' && s[3] == '\\' && s[4] == unc[0] && s[5]
        == unc[1] && s[6] == unc[2] && s[7] == '\\');
    assert(unc_at(s, 4));
    assert forall|i: int| 8 <= i < n implies s[i] != '\\' by {
        assert(s[i] == name[i - 8]);
    }
    lemma_sep_at(s, 8, n, true);
    assert(name_at(s, 8, true) =~= name);
    assert(next_name(s, 8, true) =~= Seq::<char>::empty());
    assert(s.skip(n) =~= Seq::<char>::empty());
    assert(parse_path(s).parts =~= Seq::<Seq<char>>::empty());
}

proof fn lemma_bare_device(name: Seq<char>)
    requires
        !name.contains('\\'),
        !name.contains('/'),
    ensures
        parse_path(seq!['\\', '\\', '.', '\\'] + name) == (PathView {
            prefix: Some(
                PrefixView { kind: PrefixKind::DeviceNs, first: name, second: Seq::empty() },
            ),
            rooted: true,
            parts: Seq::empty(),
        }),
{
    law_parts_stand_between_separators(Seq::empty(), '\\', Seq::empty(), Seq::empty());
    let s = seq!['\\', '\\', '.', '\\'] + name;
    let n = s.len() as int;
    assert(s[0] == '\\' && s[1] == '\\' && s[2] == '.' && s[3] == '\\');
    assert forall|i: int| 4 <= i < n implies s[i] != '\\' && s[i] != '/' by {
        assert(s[i] == name[i - 4]);
    }
    lemma_sep_at(s, 4, n, false);
    assert(name_at(s, 4, false) =~= name);
    assert(s.skip(n) =~= Seq::<char>::empty());
    assert(parse_path(s).parts =~= Seq::<Seq<char>>::empty());
}

} // verus!
