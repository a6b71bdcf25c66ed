//! The part of the file system that a page may use: the app's data directory
//! and its temporary directory.

use crate::archive::{depth, enclosed_path, lemma_folded_depth, lemma_leading_dot};
use crate::text::{
    all_space, law_trimming_takes_the_ends_alone, no_space_around, strip_prefix, trim, trimmed,
    views,
};
use crate::winpath::{
    entered, folded_parts, is_name, joined, lemma_enter_names, lemma_enter_plain, lemma_join_name,
    lemma_starts_with, lexical_normalize, normalized, parent_path, parse_path, path_view, plain,
    plain_name, plain_names, plain_step, plain_steps, rendered, PathView, WinPath,
};
use vstd::prelude::*;

verus! {

/// What the file system says of a path.
#[derive(Debug)]
pub enum Known {
    /// Neither the path nor any directory above it exists.
    Nothing,
    /// All but the last `missing` parts of the normalized path exist, and what
    /// exists really is `found`.
    UpTo { found: WinPath, missing: usize },
    /// Something on the way exists whose real place cannot be told, such as a
    /// link that leads nowhere.
    Blocked,
}

/// What the file system says of a path, as plain values.
#[verifier::ext_equal]
pub ghost enum KnownView {
    Nothing,
    UpTo { found: PathView, missing: nat },
    Blocked,
}

impl View for Known {
    type V = KnownView;

    open spec fn view(&self) -> KnownView {
        match self {
            Known::Nothing => KnownView::Nothing,
            Known::UpTo { found, missing } => KnownView::UpTo {
                found: found@,
                missing: *missing as nat,
            },
            Known::Blocked => KnownView::Blocked,
        }
    }
}

/// What the file system says of one place.
#[derive(Debug)]
pub enum Probe {
    /// Nothing is there.
    Nothing,
    /// It exists, and really is this path.
    Real(WinPath),
    /// Something is there whose real place cannot be told.
    Broken,
}

/// What the file system says of one place, as plain values.
#[verifier::ext_equal]
pub ghost enum ProbeView {
    Nothing,
    Real(PathView),
    Broken,
}

impl View for Probe {
    type V = ProbeView;

    open spec fn view(&self) -> ProbeView {
        match self {
            Probe::Nothing => ProbeView::Nothing,
            Probe::Real(path) => ProbeView::Real(path@),
            Probe::Broken => ProbeView::Broken,
        }
    }
}

/// What is known of a path, from what the file system says of it and of the places
/// above it, from the path itself up: the first place where something is decides.
pub open spec fn nearest_of(probes: Seq<ProbeView>) -> KnownView
    decreases probes.len(),
{
    if probes.len() == 0 {
        KnownView::Nothing
    } else {
        let before = nearest_of(probes.drop_last());
        if before is Nothing {
            match probes.last() {
                ProbeView::Nothing => KnownView::Nothing,
                ProbeView::Real(found) => KnownView::UpTo {
                    found,
                    missing: (probes.len() - 1) as nat,
                },
                ProbeView::Broken => KnownView::Blocked,
            }
        } else {
            before
        }
    }
}

/// What some probes say, as plain values.
pub open spec fn probe_views(probes: Seq<Probe>) -> Seq<ProbeView> {
    probes.map_values(|probe: Probe| probe@)
}

proof fn lemma_nothing_above(probes: Seq<ProbeView>, n: int)
    requires
        0 <= n <= probes.len(),
        !(nearest_of(probes.take(n)) is Nothing),
    ensures
        nearest_of(probes) == nearest_of(probes.take(n)),
    decreases probes.len(),
{
    if n == probes.len() {
        assert(probes.take(n) == probes);
    } else {
        assert(probes.drop_last().take(n) == probes.take(n));
        lemma_nothing_above(probes.drop_last(), n);
    }
}

/// What is known of a path, from what the file system says of it and of the places
/// above it, from the path itself up.
pub fn nearest(probes: Vec<Probe>) -> (known: Known)
    ensures
        known@ == nearest_of(probe_views(probes@)),
{
    let ghost all = probe_views(probes@);
    let mut i: usize = 0;
    assert(all.take(0) == Seq::<ProbeView>::empty());
    while i < probes.len()
        invariant
            i <= probes.len(),
            all == probe_views(probes@),
            nearest_of(all.take(i as int)) is Nothing,
        decreases probes.len() - i,
    {
        assert(all.take(i + 1).drop_last() == all.take(i as int));
        assert(all.take(i + 1).last() == probes@[i as int]@);
        match &probes[i] {
            Probe::Nothing => {},
            Probe::Real(found) => {
                proof {
                    lemma_nothing_above(all, i + 1);
                }
                return Known::UpTo { found: found.copy(), missing: i };
            },
            Probe::Broken => {
                proof {
                    lemma_nothing_above(all, i + 1);
                }
                return Known::Blocked;
            },
        }
        i += 1;
    }
    assert(all.take(i as int) == all);
    Known::Nothing
}

/// What the file system says of the two directories and of the path of a
/// request.
#[derive(Debug)]
pub struct Canonical {
    pub data_dir: Known,
    pub temp_dir: Known,
    pub candidate: Known,
}

impl Canonical {
    /// None of the three paths exists.
    pub fn unknown() -> (r: Canonical)
        ensures
            r.data_dir@ == KnownView::Nothing,
            r.temp_dir@ == KnownView::Nothing,
            r.candidate@ == KnownView::Nothing,
    {
        Canonical { data_dir: Known::Nothing, temp_dir: Known::Nothing, candidate: Known::Nothing }
    }
}

/// The last `n` parts, or all where there are fewer.
pub open spec fn last_parts(parts: Seq<Seq<char>>, n: nat) -> Seq<Seq<char>> {
    if n <= parts.len() {
        parts.skip(parts.len() - n)
    } else {
        parts
    }
}

/// Where a path really lies: what exists of it is where the file system says,
/// and the parts that do not exist yet lie below.
pub open spec fn real_place(path: PathView, known: KnownView) -> Option<PathView> {
    match known {
        KnownView::Nothing => Some(normalized(path)),
        KnownView::UpTo { found, missing } => Some(
            entered(found, last_parts(normalized(path).parts, missing)),
        ),
        KnownView::Blocked => None,
    }
}

/// The texts of a path and of the directories above it: without `.` and `..`,
/// the path itself first, and then each with one part less.
pub fn places_above(path: &WinPath) -> (texts: Vec<String>)
    ensures
        texts@.len() == normalized(path@).parts.len() + 1,
        forall|i: int|
            0 <= i < texts@.len() ==> (#[trigger] texts@[i])@ == rendered(
                PathView {
                    prefix: normalized(path@).prefix,
                    rooted: normalized(path@).rooted,
                    parts: normalized(path@).parts.take(normalized(path@).parts.len() - i),
                },
            ),
{
    let mut place = lexical_normalize(path);
    let ghost whole = place@;
    let mut texts: Vec<String> = Vec::new();
    texts.push(place.to_text());
    assert(whole.parts.take(whole.parts.len() as int) == whole.parts);
    while place.parts.len() > 0
        invariant
            whole == normalized(path@),
            place@.prefix == whole.prefix,
            place@.rooted == whole.rooted,
            place.parts.len() <= whole.parts.len(),
            place@.parts == whole.parts.take(place.parts.len() as int),
            texts@.len() == whole.parts.len() - place.parts.len() + 1,
            forall|i: int|
                0 <= i < texts@.len() ==> (#[trigger] texts@[i])@ == rendered(
                    PathView {
                        prefix: whole.prefix,
                        rooted: whole.rooted,
                        parts: whole.parts.take(whole.parts.len() - i),
                    },
                ),
        decreases place.parts.len(),
    {
        let ghost before = place@;
        place.parts.pop();
        assert(place@ == parent_path(before));
        assert(place@.parts == whole.parts.take(place.parts.len() as int));
        texts.push(place.to_text());
    }
    texts
}

/// The path that a request names. A relative one, or one behind `~/`, is read
/// from the data directory; a blank one names nothing.
pub open spec fn candidate_of(data_dir: PathView, input: Seq<char>) -> Option<PathView> {
    let text = trimmed(input);
    if text.len() == 0 {
        None
    } else if "~/"@.is_prefix_of(text) {
        Some(joined(data_dir, parse_path(text.skip(2))))
    } else if parse_path(text).is_absolute() {
        Some(parse_path(text))
    } else {
        Some(joined(data_dir, parse_path(text)))
    }
}

/// True when `candidate` really lies in `root`. The two spellings of one drive
/// or share count as the same.
pub open spec fn inside(
    candidate: PathView,
    known_candidate: KnownView,
    root: PathView,
    known_root: KnownView,
) -> bool {
    match (real_place(candidate, known_candidate), real_place(root, known_root)) {
        (Some(place), Some(base)) => plain(place).starts_with(plain(base)),
        _ => false,
    }
}

/// The path that a request may use, if any.
pub open spec fn scoped(
    data_dir: PathView,
    temp_dir: PathView,
    input: Seq<char>,
    known_data: KnownView,
    known_temp: KnownView,
    known_candidate: KnownView,
) -> Option<PathView> {
    match candidate_of(data_dir, input) {
        Some(c) => if inside(c, known_candidate, data_dir, known_data) || inside(
            c,
            known_candidate,
            temp_dir,
            known_temp,
        ) {
            Some(c)
        } else {
            None
        },
        None => None,
    }
}

/// The path that a request names, before it is known whether it may be used.
pub fn scoped_candidate(data_dir: &WinPath, input: &str) -> (candidate: Option<WinPath>)
    ensures
        path_view(candidate) == candidate_of(data_dir@, input@),
{
    let text = trim(input);
    if text.as_str().is_empty() {
        return None;
    }
    proof {
        reveal_strlit("~/");
    }
    match strip_prefix(text.as_str(), "~/") {
        Some(rest) => Some(data_dir.join(&WinPath::parse(rest.as_str()))),
        None => {
            let path = WinPath::parse(text.as_str());
            if path.is_absolute() {
                Some(path)
            } else {
                Some(data_dir.join(&path))
            }
        },
    }
}

/// Where a path really lies.
fn find_place(path: &WinPath, known: &Known) -> (place: Option<WinPath>)
    ensures
        path_view(place) == real_place(path@, known@),
{
    match known {
        Known::Nothing => Some(lexical_normalize(path)),
        Known::UpTo { found, missing } => {
            let whole = lexical_normalize(path);
            let ghost parts = whole@.parts;
            let from: usize = if *missing <= whole.parts.len() {
                whole.parts.len() - *missing
            } else {
                0
            };
            let ghost below = last_parts(parts, *missing as nat);
            assert(below == parts.skip(from as int));
            let mut place = found.copy();
            let mut i: usize = from;
            assert(below.take(0) == Seq::<Seq<char>>::empty());
            while i < whole.parts.len()
                invariant
                    from <= i <= whole.parts.len(),
                    parts == views(whole.parts@),
                    below == parts.skip(from as int),
                    place@ == entered(found@, below.take(i - from)),
                decreases whole.parts.len() - i,
            {
                assert(below.take(i + 1 - from).drop_last() == below.take(i - from));
                assert(below.take(i + 1 - from).last() == whole.parts@[i as int]@);
                place = place.enter(whole.parts[i].as_str());
                i += 1;
            }
            assert(below.take(i - from) == below);
            Some(place)
        },
        Known::Blocked => None,
    }
}

fn is_inside(place: &Option<WinPath>, base: &Option<WinPath>) -> (r: bool)
    ensures
        r == match (path_view(*place), path_view(*base)) {
            (Some(place), Some(base)) => plain(place).starts_with(plain(base)),
            _ => false,
        },
{
    match (place, base) {
        (Some(place), Some(base)) => place.to_plain().starts_with(&base.to_plain()),
        _ => false,
    }
}

/// Scopes the path of a request: a relative path is read from `data_dir`; an
/// absolute one must lie inside `data_dir` or `temp_dir` already. `None` for
/// anything that escapes, such as `..` or a foreign drive.
pub fn resolve_scoped_path(
    data_dir: &WinPath,
    temp_dir: &WinPath,
    input: &str,
    known: &Canonical,
) -> (path: Option<WinPath>)
    ensures
        path_view(path) == scoped(
            data_dir@,
            temp_dir@,
            input@,
            known.data_dir@,
            known.temp_dir@,
            known.candidate@,
        ),
{
    match scoped_candidate(data_dir, input) {
        Some(candidate) => {
            let place = find_place(&candidate, &known.candidate);
            if is_inside(&place, &find_place(data_dir, &known.data_dir)) || is_inside(
                &place,
                &find_place(temp_dir, &known.temp_dir),
            ) {
                Some(candidate)
            } else {
                None
            }
        },
        None => None,
    }
}

// ---------------------------------------------------------------------------
// Laws
// ---------------------------------------------------------------------------

/// True for a directory on a drive or a share, by names, `.` and `..`.
pub open spec fn proper_dir(dir: PathView) -> bool {
    dir.prefix is Some && dir.rooted && plain_steps(dir.parts)
}

/// True when what is known of a path is told as the file system tells it: from a
/// drive or a share by names alone.
pub open spec fn real_form(known: KnownView) -> bool {
    known matches KnownView::UpTo { found, .. } ==> found.prefix is Some && found.rooted
        && plain_names(found.parts)
}

/// True when `place` is `base` or lies below it: both can be told, and on the same
/// drive or share the parts of `base` come before its own.
pub open spec fn lies_below(place: Option<PathView>, base: Option<PathView>) -> bool {
    &&& place is Some && base is Some
    &&& plain(place->Some_0).prefix == plain(base->Some_0).prefix
    &&& plain(place->Some_0).rooted
    &&& base->Some_0.parts.is_prefix_of(place->Some_0.parts)
}

/// True when neither path lies in the other.
pub open spec fn apart(a: PathView, b: PathView) -> bool {
    !plain(a).starts_with(plain(b)) && !plain(b).starts_with(plain(a))
}

proof fn lemma_last_names(parts: Seq<Seq<char>>, n: nat)
    requires
        plain_names(parts),
    ensures
        plain_names(last_parts(parts, n)),
{
    let last = last_parts(parts, n);
    assert forall|i: int| 0 <= i < last.len() implies plain_name(#[trigger] last[i]) by {
        assert(last[i] == parts[parts.len() - last.len() + i]);
        assert(plain_name(parts[parts.len() - last.len() + i]));
    }
}

/// The names of a path without its `.` and `..` are plain.
proof fn lemma_normalized_names(p: PathView)
    requires
        plain_steps(p.parts),
        p.is_verbatim() && p.parts.len() > 0 ==> p.rooted,
    ensures
        normalized(p).prefix == p.prefix,
        normalized(p).rooted == p.rooted,
        plain_names(normalized(p).parts),
{
    if p.parts.len() > 0 {
        lemma_enter_plain(
            PathView { prefix: p.prefix, rooted: p.rooted, parts: Seq::empty() },
            p.parts,
        );
    }
}

/// The real place of a path of names, `.` and `..` is told by names alone. What
/// exists of it is told first.
proof fn lemma_real_place(p: PathView, known: KnownView)
    requires
        plain_steps(p.parts),
        p.is_verbatim() && p.parts.len() > 0 ==> p.rooted,
        real_form(known),
    ensures
        real_place(p, known) matches Some(place) ==> plain_names(place.parts),
        known matches KnownView::UpTo { found, missing } ==> real_place(p, known) == Some(
            PathView {
                prefix: found.prefix,
                rooted: true,
                parts: found.parts + last_parts(normalized(p).parts, missing),
            },
        ),
        known is Nothing ==> real_place(p, known)->Some_0.prefix == p.prefix && real_place(
            p,
            known,
        )->Some_0.rooted == p.rooted,
{
    lemma_normalized_names(p);
    match known {
        KnownView::UpTo { found, missing } => {
            let below = last_parts(normalized(p).parts, missing);
            lemma_last_names(normalized(p).parts, missing);
            lemma_enter_names(found, below);
            let all = found.parts + below;
            assert forall|i: int| 0 <= i < all.len() implies plain_name(#[trigger] all[i]) by {
                if i < found.parts.len() {
                    assert(plain_name(found.parts[i]));
                } else {
                    assert(plain_name(below[i - found.parts.len()]));
                }
            }
        },
        _ => {},
    }
}

/// A path is let through exactly where it really lies in one of the two
/// directories: what exists of it does, wherever links lead, and so do the parts
/// that do not exist yet. Where the path is written with names, `.` and `..`, its
/// real place holds no `..` that could lead out again.
pub proof fn law_resolved_path_is_inside(
    data_dir: PathView,
    temp_dir: PathView,
    input: Seq<char>,
    known_data: KnownView,
    known_temp: KnownView,
    known_candidate: KnownView,
)
    requires
        proper_dir(data_dir),
        proper_dir(temp_dir),
        real_form(known_data),
        real_form(known_temp),
        real_form(known_candidate),
    ensures
        match candidate_of(data_dir, input) {
            Some(c) => {
                let place = real_place(c, known_candidate);
                &&& scoped(data_dir, temp_dir, input, known_data, known_temp, known_candidate) == (
                if lies_below(place, real_place(data_dir, known_data)) || lies_below(
                    place,
                    real_place(temp_dir, known_temp),
                ) {
                    Some(c)
                } else {
                    None
                })
                &&& plain_steps(c.parts) && (c.is_verbatim() ==> c.rooted) ==> (place matches Some(
                    place,
                ) ==> plain_names(place.parts))
            },
            None => scoped(
                data_dir,
                temp_dir,
                input,
                known_data,
                known_temp,
                known_candidate,
            ) is None,
        },
{
    lemma_real_place(data_dir, known_data);
    lemma_real_place(temp_dir, known_temp);
    match candidate_of(data_dir, input) {
        Some(c) => {
            match real_place(c, known_candidate) {
                Some(place) => {
                    match real_place(data_dir, known_data) {
                        Some(base) => {
                            lemma_starts_with(plain(place), plain(base));
                        },
                        None => {},
                    }
                    match real_place(temp_dir, known_temp) {
                        Some(base) => {
                            lemma_starts_with(plain(place), plain(base));
                        },
                        None => {},
                    }
                },
                None => {},
            }
            if plain_steps(c.parts) && (c.is_verbatim() ==> c.rooted) {
                lemma_real_place(c, known_candidate);
            }
        },
        None => {},
    }
}

/// The first place where something is decides what is known of a path.
pub proof fn law_nearest_place_decides(probes: Seq<ProbeView>, n: int)
    requires
        0 <= n < probes.len(),
        forall|i: int| 0 <= i < n ==> #[trigger] probes[i] == ProbeView::Nothing,
        probes[n] != ProbeView::Nothing,
    ensures
        nearest_of(probes) == match probes[n] {
            ProbeView::Real(found) => KnownView::UpTo { found, missing: n as nat },
            _ => KnownView::Blocked,
        },
{
    lemma_nothing_so_far(probes.take(n));
    assert(probes.take(n + 1).drop_last() == probes.take(n));
    lemma_nothing_above(probes, n + 1);
}

proof fn lemma_nothing_so_far(probes: Seq<ProbeView>)
    requires
        forall|i: int| 0 <= i < probes.len() ==> #[trigger] probes[i] == ProbeView::Nothing,
    ensures
        nearest_of(probes) is Nothing,
    decreases probes.len(),
{
    if probes.len() > 0 {
        assert(probes[probes.len() - 1] == ProbeView::Nothing);
        assert forall|i: int| 0 <= i < probes.drop_last().len() implies #[trigger] probes.drop_last()[i]
            == ProbeView::Nothing by {
            assert(probes[i] == ProbeView::Nothing);
        }
        lemma_nothing_so_far(probes.drop_last());
    }
}

/// A path is refused where what exists of it really lies apart from both
/// directories, such as a new file below a link that leads elsewhere.
pub proof fn law_links_that_lead_outside_are_refused(
    data_dir: PathView,
    temp_dir: PathView,
    input: Seq<char>,
    known_data: KnownView,
    known_temp: KnownView,
    found: PathView,
    missing: nat,
)
    requires
        proper_dir(data_dir),
        proper_dir(temp_dir),
        real_form(known_data),
        real_form(known_temp),
        real_form(KnownView::UpTo { found, missing }),
        candidate_of(data_dir, input) matches Some(c) ==> plain_steps(c.parts) && (c.is_verbatim()
            ==> c.rooted),
        real_place(data_dir, known_data) matches Some(base) ==> apart(found, base),
        real_place(temp_dir, known_temp) matches Some(base) ==> apart(found, base),
    ensures
        scoped(
            data_dir,
            temp_dir,
            input,
            known_data,
            known_temp,
            KnownView::UpTo { found, missing },
        ) is None,
{
    let known = KnownView::UpTo { found, missing };
    lemma_real_place(data_dir, known_data);
    lemma_real_place(temp_dir, known_temp);
    match candidate_of(data_dir, input) {
        Some(c) => {
            lemma_real_place(c, known);
            let place = real_place(c, known)->Some_0;
            match real_place(data_dir, known_data) {
                Some(base) => {
                    lemma_apart(found, place, base);
                },
                None => {},
            }
            match real_place(temp_dir, known_temp) {
                Some(base) => {
                    lemma_apart(found, place, base);
                },
                None => {},
            }
        },
        None => {},
    }
}

proof fn lemma_apart(found: PathView, place: PathView, base: PathView)
    requires
        apart(found, base),
        place.prefix == found.prefix,
        place.rooted == found.rooted,
        found.parts.is_prefix_of(place.parts),
        base.prefix is Some,
        found.prefix is Some,
        base.rooted,
        found.rooted,
    ensures
        !plain(place).starts_with(plain(base)),
{
    lemma_starts_with(plain(place), plain(base));
    lemma_starts_with(plain(found), plain(base));
    lemma_starts_with(plain(base), plain(found));
    if base.parts.is_prefix_of(place.parts) {
        assert(forall|i: int| 0 <= i < base.parts.len() ==> base.parts[i] == place.parts[i]);
        assert(forall|i: int| 0 <= i < found.parts.len() ==> found.parts[i] == place.parts[i]);
        if base.parts.len() <= found.parts.len() {
            assert(base.parts == found.parts.take(base.parts.len() as int));
        } else {
            assert(found.parts == base.parts.take(found.parts.len() as int));
        }
    }
}

/// What exists outside both directories is refused, however it is spelled.
pub proof fn law_known_place_outside_is_refused(
    data_dir: PathView,
    temp_dir: PathView,
    input: Seq<char>,
    known_data: KnownView,
    known_temp: KnownView,
    found: PathView,
)
    requires
        real_place(data_dir, known_data) matches Some(base) ==> !plain(found).starts_with(
            plain(base),
        ),
        real_place(temp_dir, known_temp) matches Some(base) ==> !plain(found).starts_with(
            plain(base),
        ),
    ensures
        scoped(
            data_dir,
            temp_dir,
            input,
            known_data,
            known_temp,
            KnownView::UpTo { found, missing: 0 },
        ) is None,
{
    match candidate_of(data_dir, input) {
        Some(c) => {
            assert(last_parts(normalized(c).parts, 0) == Seq::<Seq<char>>::empty());
        },
        None => {},
    }
}

/// Entering the steps of an enclosed path works them out on the parts.
proof fn lemma_enter_steps(start: PathView, steps: Seq<Seq<char>>)
    requires
        start.prefix is Some,
        start.rooted,
        plain_steps(steps),
        forall|n: int| 0 <= n <= steps.len() ==> depth(#[trigger] steps.take(n)) >= 0,
    ensures
        entered(start, steps) == (PathView {
            prefix: start.prefix,
            rooted: true,
            parts: folded_parts(start.parts, steps),
        }),
    decreases steps.len(),
{
    if steps.len() > 0 {
        let shorter = steps.drop_last();
        assert forall|i: int| 0 <= i < shorter.len() implies plain_step(#[trigger] shorter[i]) by {
            assert(plain_step(steps[i]));
        }
        assert forall|n: int| 0 <= n <= shorter.len() implies depth(#[trigger] shorter.take(n))
            >= 0 by {
            assert(shorter.take(n) == steps.take(n));
        }
        lemma_enter_steps(start, shorter);
        lemma_folded_depth(start.parts, shorter);
        assert(plain_step(steps[steps.len() - 1]));
        assert(steps.take(steps.len() as int) == steps);
        let before = entered(start, shorter);
        let step = steps.last();
        if step == "."@ {
        } else if step == ".."@ {
            assert(before.parts.len() > start.parts.len());
            assert(is_name(before.parts[before.parts.len() - 1]));
        } else {
            lemma_join_name(before, step);
        }
    }
}

proof fn lemma_enter_concat(start: PathView, a: Seq<Seq<char>>, b: Seq<Seq<char>>)
    ensures
        entered(start, a + b) == entered(entered(start, a), b),
    decreases b.len(),
{
    if b.len() == 0 {
        assert(a + b == a);
    } else {
        assert((a + b).drop_last() == a + b.drop_last());
        lemma_enter_concat(start, a, b.drop_last());
    }
}

/// Working plain steps out on plain names leaves plain names.
proof fn lemma_folded_names(base: Seq<Seq<char>>, steps: Seq<Seq<char>>)
    requires
        plain_names(base),
        plain_steps(steps),
    ensures
        plain_names(folded_parts(base, steps)),
    decreases steps.len(),
{
    if steps.len() > 0 {
        let shorter = steps.drop_last();
        assert forall|i: int| 0 <= i < shorter.len() implies plain_step(#[trigger] shorter[i]) by {
            assert(plain_step(steps[i]));
        }
        lemma_folded_names(base, shorter);
        assert(plain_step(steps[steps.len() - 1]));
        let before = folded_parts(base, shorter);
        let now = folded_parts(base, steps);
        assert forall|i: int| 0 <= i < now.len() implies plain_name(#[trigger] now[i]) by {
            if i < before.len() {
                assert(plain_name(before[i]));
            }
        }
    }
}

proof fn lemma_dot_adds_nothing(parts: Seq<Seq<char>>, n: int)
    requires
        parts.len() > 0,
        parts[0] == "."@,
        0 <= n < parts.len(),
    ensures
        depth(parts.drop_first().take(n)) == depth(parts.take(n + 1)),
    decreases n,
{
    reveal_strlit(".");
    reveal_strlit("..");
    assert("."@.len() != ".."@.len());
    let tail = parts.drop_first();
    if n == 0 {
        assert(parts.take(1).drop_last() == Seq::<Seq<char>>::empty());
        assert(depth(parts.take(1).drop_last()) == 0);
        assert(tail.take(0) == Seq::<Seq<char>>::empty());
    } else {
        lemma_dot_adds_nothing(parts, n - 1);
        assert(tail.take(n).drop_last() == tail.take(n - 1));
        assert(parts.take(n + 1).drop_last() == parts.take(n));
    }
}

proof fn lemma_leading_dot_depth(parts: Seq<Seq<char>>)
    requires
        parts.len() > 0,
        parts[0] == "."@,
        forall|n: int| 0 <= n <= parts.len() ==> depth(#[trigger] parts.take(n)) >= 0,
    ensures
        forall|n: int|
            0 <= n <= parts.drop_first().len() ==> depth(#[trigger] parts.drop_first().take(n)) >= 0,
{
    let tail = parts.drop_first();
    assert forall|n: int| 0 <= n <= tail.len() implies depth(#[trigger] tail.take(n)) >= 0 by {
        lemma_dot_adds_nothing(parts, n);
        assert(depth(parts.take(n + 1)) >= 0);
    }
}

/// What an enclosed path names below a directory, without `.` and `..`: the parts
/// of the directory, and as many names as the path goes down.
proof fn lemma_enclosed_below(dir: PathView, rel: PathView)
    requires
        dir.prefix is Some,
        dir.rooted,
        plain_names(dir.parts),
        enclosed_path(rel),
        plain_steps(rel.parts),
    ensures
        normalized(dir) == dir,
        normalized(joined(dir, rel)).prefix == dir.prefix,
        normalized(joined(dir, rel)).rooted,
        plain_names(normalized(joined(dir, rel)).parts),
        dir.parts.is_prefix_of(normalized(joined(dir, rel)).parts),
        normalized(joined(dir, rel)).parts.len() == dir.parts.len() + depth(rel.parts),
{
    let c = joined(dir, rel);
    let start = PathView { prefix: dir.prefix, rooted: true, parts: Seq::empty() };
    let whole = folded_parts(dir.parts, rel.parts);
    assert(rel.parts.take(rel.parts.len() as int) == rel.parts);
    lemma_folded_depth(dir.parts, rel.parts);
    lemma_folded_names(dir.parts, rel.parts);
    lemma_enter_names(start, dir.parts);
    assert(start.parts + dir.parts == dir.parts);
    assert(entered(start, dir.parts) == dir);
    if dir.is_verbatim() && !rel.is_empty() {
        lemma_enter_names(start, whole);
        assert(start.parts + whole == whole);
        assert(c.parts == whole);
    } else {
        let tail = if rel.parts.len() > 0 && rel.parts[0] == "."@ {
            rel.parts.drop_first()
        } else {
            rel.parts
        };
        if rel.parts.len() > 0 && rel.parts[0] == "."@ {
            lemma_leading_dot(dir.parts, rel.parts);
            lemma_leading_dot_depth(rel.parts);
        }
        assert forall|i: int| 0 <= i < tail.len() implies plain_step(#[trigger] tail[i]) by {
            if rel.parts.len() > 0 && rel.parts[0] == "."@ {
                assert(plain_step(rel.parts[i + 1]));
            } else {
                assert(plain_step(rel.parts[i]));
            }
        }
        lemma_enter_steps(dir, tail);
        lemma_enter_concat(start, dir.parts, tail);
        assert(c.parts == dir.parts + tail);
    }
    assert(normalized(c) == (PathView { prefix: dir.prefix, rooted: true, parts: whole }));
}

/// True when what the file system says of a path `steps` names below a directory
/// goes with what it says of the directory. Where the directory exists, what
/// exists of the path really lies in it; where it does not, both are missing
/// below one place.
pub open spec fn goes_with(dir: PathView, known_dir: KnownView, known: KnownView, steps: int) -> bool {
    match (known_dir, known) {
        (KnownView::Nothing, KnownView::Nothing) => true,
        (
            KnownView::UpTo { found: base, missing: above },
            KnownView::UpTo { found, missing },
        ) => if above == 0 {
            plain(found).starts_with(plain(base))
        } else {
            above <= dir.parts.len() && found == base && missing == above + steps
        },
        _ => false,
    }
}

proof fn lemma_below_data_dir(
    data_dir: PathView,
    rel: PathView,
    known_data: KnownView,
    known: KnownView,
)
    requires
        data_dir.prefix is Some,
        data_dir.rooted,
        plain_names(data_dir.parts),
        enclosed_path(rel),
        plain_steps(rel.parts),
        real_form(known_data),
        real_form(known),
        goes_with(data_dir, known_data, known, depth(rel.parts)),
    ensures
        inside(joined(data_dir, rel), known, data_dir, known_data),
{
    let c = joined(data_dir, rel);
    let whole = normalized(c).parts;
    let start = PathView { prefix: data_dir.prefix, rooted: true, parts: Seq::empty() };
    lemma_enclosed_below(data_dir, rel);
    let place = real_place(c, known)->Some_0;
    let base = real_place(data_dir, known_data)->Some_0;
    lemma_starts_with(plain(place), plain(base));
    match (known_data, known) {
        (
            KnownView::UpTo { found: top, missing: above },
            KnownView::UpTo { found, missing },
        ) => {
            let below = last_parts(whole, missing);
            lemma_last_names(whole, missing);
            lemma_enter_names(found, below);
            lemma_last_names(data_dir.parts, above);
            lemma_enter_names(top, last_parts(data_dir.parts, above));
            if above == 0 {
                assert(last_parts(data_dir.parts, 0) == Seq::<Seq<char>>::empty());
                assert(base == top);
                lemma_starts_with(plain(found), plain(base));
                assert(forall|i: int| 0 <= i < base.parts.len() ==> base.parts[i] == found.parts[i]);
                assert(base.parts == place.parts.take(base.parts.len() as int));
            } else {
                assert(forall|i: int|
                    0 <= i < data_dir.parts.len() ==> data_dir.parts[i] == whole[i]);
                assert(base.parts == place.parts.take(base.parts.len() as int));
            }
        },
        _ => {},
    }
}

/// A relative path of names that never goes above its start is read from the
/// data directory and let through, whether or not the file or the directory
/// exists already, and wherever the directory really lies.
pub proof fn law_relative_paths_resolve(
    data_dir: PathView,
    temp_dir: PathView,
    input: Seq<char>,
    known_data: KnownView,
    known_temp: KnownView,
    known_candidate: KnownView,
)
    requires
        data_dir.prefix is Some,
        data_dir.rooted,
        plain_names(data_dir.parts),
        trimmed(input).len() > 0,
        !"~/"@.is_prefix_of(trimmed(input)),
        enclosed_path(parse_path(trimmed(input))),
        plain_steps(parse_path(trimmed(input)).parts),
        real_form(known_data),
        real_form(known_candidate),
        goes_with(
            data_dir,
            known_data,
            known_candidate,
            depth(parse_path(trimmed(input)).parts),
        ),
    ensures
        scoped(data_dir, temp_dir, input, known_data, known_temp, known_candidate) == Some(
            joined(data_dir, parse_path(trimmed(input))),
        ),
{
    lemma_below_data_dir(data_dir, parse_path(trimmed(input)), known_data, known_candidate);
}

/// Behind `~/` a path is read from the data directory in the same way.
pub proof fn law_home_paths_resolve(
    data_dir: PathView,
    temp_dir: PathView,
    input: Seq<char>,
    known_data: KnownView,
    known_temp: KnownView,
    known_candidate: KnownView,
)
    requires
        data_dir.prefix is Some,
        data_dir.rooted,
        plain_names(data_dir.parts),
        "~/"@.is_prefix_of(trimmed(input)),
        enclosed_path(parse_path(trimmed(input).skip(2))),
        plain_steps(parse_path(trimmed(input).skip(2)).parts),
        real_form(known_data),
        real_form(known_candidate),
        goes_with(
            data_dir,
            known_data,
            known_candidate,
            depth(parse_path(trimmed(input).skip(2)).parts),
        ),
    ensures
        scoped(data_dir, temp_dir, input, known_data, known_temp, known_candidate) == Some(
            joined(data_dir, parse_path(trimmed(input).skip(2))),
        ),
{
    reveal_strlit("~/");
    lemma_below_data_dir(data_dir, parse_path(trimmed(input).skip(2)), known_data, known_candidate);
}

/// The path that a request names: its text without the white space round it, read
/// from the data directory where it is relative or stands behind `~/`. White space
/// alone names nothing.
pub proof fn law_requests_name_a_path(
    data_dir: PathView,
    before: Seq<char>,
    text: Seq<char>,
    behind: Seq<char>,
)
    requires
        all_space(before),
        all_space(behind),
        no_space_around(text),
    ensures
        ({
            let candidate = candidate_of(data_dir, before + text + behind);
            &&& text.len() == 0 ==> candidate is None
            &&& text.len() >= 2 && text[0] == '~' && text[1] == '/' ==> candidate == Some(
                joined(data_dir, parse_path(text.skip(2))),
            )
            &&& text.len() > 0 && (text[0] != '~' || text.len() < 2 || text[1] != '/')
                && parse_path(text).is_absolute() ==> candidate == Some(parse_path(text))
            &&& text.len() > 0 && (text[0] != '~' || text.len() < 2 || text[1] != '/')
                && !parse_path(text).is_absolute() ==> candidate == Some(
                joined(data_dir, parse_path(text)),
            )
        }),
{
    law_trimming_takes_the_ends_alone(before, text, behind);
    reveal_strlit("~/");
    if text.len() >= 2 && text[0] == '~' && text[1] == '/' {
        assert(text.take(2) =~= "~/"@);
    } else {
        assert(!"~/"@.is_prefix_of(text)) by {
            if "~/"@.is_prefix_of(text) {
                assert(text[0] == "~/"@[0] && text[1] == "~/"@[1]);
            }
        }
    }
}

/// A path really lies where the file system says of the part of it that exists, with
/// the names behind that part below; by its own text where nothing exists, and nowhere
/// where the real place cannot be told.
pub proof fn law_real_places(
    path: PathView,
    found: PathView,
    existing: Seq<Seq<char>>,
    missing: Seq<Seq<char>>,
)
    requires
        normalized(path).parts == existing + missing,
        plain_names(missing),
        found.is_verbatim() ==> found.rooted,
    ensures
        real_place(path, KnownView::Nothing) == Some(normalized(path)),
        real_place(path, KnownView::Blocked) is None,
        real_place(path, KnownView::UpTo { found, missing: 0 }) == Some(found),
        real_place(path, KnownView::UpTo { found, missing: missing.len() }) == Some(
            PathView {
                prefix: found.prefix,
                rooted: found.rooted,
                parts: found.parts + missing,
            },
        ),
{
    let all = existing + missing;
    assert(all.skip(all.len() - missing.len()) =~= missing);
    assert(all.skip(all.len() as int) =~= Seq::<Seq<char>>::empty());
    lemma_enter_names(found, missing);
    assert(entered(found, Seq::empty()) == found);
}

/// The file system knows nothing of a path where nothing is at any of the places asked.
pub proof fn law_nothing_is_known_of_missing_paths(probes: Seq<ProbeView>)
    requires
        forall|i: int| 0 <= i < probes.len() ==> #[trigger] probes[i] == ProbeView::Nothing,
    ensures
        nearest_of(probes) == KnownView::Nothing,
{
    lemma_nothing_so_far(probes);
}

/// Of parts the last ones are those at the end, or all where there are fewer.
pub proof fn law_last_parts(a: Seq<Seq<char>>, b: Seq<Seq<char>>, n: nat)
    ensures
        last_parts(a + b, b.len()) == b,
        n >= b.len() ==> last_parts(b, n) == b,
{
    assert((a + b).skip((a + b).len() - b.len()) =~= b);
    assert(b.skip(0) =~= b);
}

} // verus!
