//! Dotted version numbers.

use crate::text::{
    all_space, decimal, is_digit, is_space, law_decimal_reads_back,
    law_numbers_are_read_in_decimal, law_texts_split_at_separators, law_trimming_keeps_the_rest,
    law_trimming_takes_the_ends_alone, lemma_decimal, no_space_around, number_of, parse_number,
    pieces, split, trim, trimmed, views,
};
use vstd::prelude::*;

verus! {

/// The number of one segment; 0 for one that is no number of 64 bits.
pub open spec fn segment_number(segment: Seq<char>) -> int {
    match number_of(trimmed(segment), u64::MAX as int) {
        Some(n) => n,
        None => 0,
    }
}

/// The numbers of a dotted version.
pub open spec fn version_numbers(version: Seq<char>) -> Seq<int> {
    pieces(version, '.').map_values(|p: Seq<char>| segment_number(p))
}

/// The number at a place, 0 behind the last one.
pub open spec fn number_at(numbers: Seq<int>, i: int) -> int {
    if 0 <= i < numbers.len() {
        numbers[i]
    } else {
        0
    }
}

/// True when the two versions have the same numbers before place `i`.
pub open spec fn same_before(a: Seq<int>, b: Seq<int>, i: int) -> bool {
    forall|j: int| 0 <= j < i ==> #[trigger] number_at(a, j) == number_at(b, j)
}

/// True when `b` is greater than `a` at `i`, the first place where they differ.
pub open spec fn greater_at(a: Seq<int>, b: Seq<int>, i: int) -> bool {
    0 <= i && same_before(a, b, i) && number_at(b, i) > number_at(a, i)
}

/// True when version `candidate` is strictly newer than `current`.
pub open spec fn newer(current: Seq<char>, candidate: Seq<char>) -> bool {
    exists|i: int| greater_at(version_numbers(current), version_numbers(candidate), i)
}

fn numbers(version: &str) -> (list: Vec<u64>)
    ensures
        list@.map_values(|n: u64| n as int) == version_numbers(version@),
{
    let segments = split(version, '.');
    let mut list: Vec<u64> = Vec::new();
    let mut i: usize = 0;
    while i < segments.len()
        invariant
            i <= segments.len(),
            views(segments@) == pieces(version@, '.'),
            list.len() == i,
            forall|j: int| 0 <= j < i ==> #[trigger] list@[j] == segment_number(pieces(version@, '.')[j]),
        decreases segments.len() - i,
    {
        let segment = trim(segments[i].as_str());
        assert(views(segments@)[i as int] == segments@[i as int]@);
        let n: u64 = match parse_number(segment.as_str(), u64::MAX) {
            Some(n) => n,
            None => 0,
        };
        list.push(n);
        i += 1;
    }
    assert(list@.map_values(|n: u64| n as int) == version_numbers(version@));
    list
}

fn at(list: &Vec<u64>, i: usize) -> (n: u64)
    ensures
        n == number_at(list@.map_values(|n: u64| n as int), i as int),
{
    if i < list.len() {
        list[i]
    } else {
        0
    }
}

/// Compares dotted numeric versions (`1.2.10` is newer than `1.2.9`). True
/// when `candidate` is strictly newer than `current`.
pub fn is_newer_version(current: &str, candidate: &str) -> (r: bool)
    ensures
        r == newer(current@, candidate@),
{
    let a = numbers(current);
    let b = numbers(candidate);
    let ghost va = version_numbers(current@);
    let ghost vb = version_numbers(candidate@);
    let len = if a.len() > b.len() {
        a.len()
    } else {
        b.len()
    };
    let mut i: usize = 0;
    while i < len
        invariant
            i <= len,
            va == version_numbers(current@),
            vb == version_numbers(candidate@),
            a@.map_values(|n: u64| n as int) == va,
            b@.map_values(|n: u64| n as int) == vb,
            same_before(va, vb, i as int),
        decreases len - i,
    {
        let av = at(&a, i);
        let bv = at(&b, i);
        if av != bv {
            proof {
                if bv > av {
                    assert(greater_at(va, vb, i as int));
                } else {
                    assert forall|k: int| !greater_at(va, vb, k) by {
                        if k > i && same_before(va, vb, k) {
                            assert(number_at(va, i as int) == number_at(vb, i as int));
                        }
                        if 0 <= k < i {
                            assert(number_at(va, k) == number_at(vb, k));
                        }
                    }
                }
            }
            return bv > av;
        }
        i += 1;
    }
    assert forall|k: int| !greater_at(va, vb, k) by {
        if 0 <= k < len {
            assert(number_at(va, k) == number_at(vb, k));
        }
    }
    false
}

/// No version is newer than itself.
pub proof fn law_newer_is_irreflexive(v: Seq<char>)
    ensures
        !newer(v, v),
{
}

/// Of two versions at most one is newer than the other.
pub proof fn law_newer_is_asymmetric(a: Seq<char>, b: Seq<char>)
    requires
        newer(a, b),
    ensures
        !newer(b, a),
{
    let va = version_numbers(a);
    let vb = version_numbers(b);
    let i = choose|i: int| greater_at(va, vb, i);
    assert forall|k: int| !greater_at(vb, va, k) by {
        if k > i && same_before(vb, va, k) {
            assert(number_at(vb, i) == number_at(va, i));
        }
        if 0 <= k < i {
            assert(number_at(va, k) == number_at(vb, k));
        }
    }
}

/// A version newer than a newer one is newer.
pub proof fn law_newer_is_transitive(a: Seq<char>, b: Seq<char>, c: Seq<char>)
    requires
        newer(a, b),
        newer(b, c),
    ensures
        newer(a, c),
{
    let va = version_numbers(a);
    let vb = version_numbers(b);
    let vc = version_numbers(c);
    let i = choose|i: int| greater_at(va, vb, i);
    let k = choose|k: int| greater_at(vb, vc, k);
    let m = if i < k {
        i
    } else {
        k
    };
    assert forall|j: int| 0 <= j < m implies #[trigger] number_at(va, j) == number_at(vc, j) by {
        assert(number_at(va, j) == number_at(vb, j));
        assert(number_at(vb, j) == number_at(vc, j));
    }
    if i < k {
        assert(number_at(vb, i) == number_at(vc, i));
    }
    if k < i {
        assert(number_at(va, k) == number_at(vb, k));
    }
    assert(greater_at(va, vc, m));
}

/// Where neither of two versions is newer, all their numbers are the same.
pub proof fn law_neither_newer_means_equal(a: Seq<char>, b: Seq<char>, i: int)
    requires
        !newer(a, b),
        !newer(b, a),
        0 <= i,
    ensures
        number_at(version_numbers(a), i) == number_at(version_numbers(b), i),
    decreases i,
{
    let va = version_numbers(a);
    let vb = version_numbers(b);
    assert forall|j: int| 0 <= j < i implies #[trigger] number_at(va, j) == number_at(vb, j) by {
        law_neither_newer_means_equal(a, b, j);
    }
    assert(same_before(va, vb, i));
    assert(same_before(vb, va, i));
    assert(!greater_at(va, vb, i));
    assert(!greater_at(vb, va, i));
}

/// The number that is written in a segment is the one it is compared by, with
/// white space round it or without.
pub proof fn law_segments_count_as_written(before: Seq<char>, n: int, behind: Seq<char>)
    requires
        0 <= n <= u64::MAX,
        all_space(before),
        all_space(behind),
    ensures
        segment_number(before + decimal(n) + behind) == n,
{
    let text = decimal(n);
    lemma_decimal(n);
    assert(is_digit(text[0]) && is_digit(text[text.len() - 1]));
    assert(no_space_around(text));
    law_trimming_takes_the_ends_alone(before, text, behind);
    law_decimal_reads_back(n, u64::MAX as int);
}

/// A segment that holds anything but digits, white space and a `+` counts as 0.
pub proof fn law_words_count_as_nothing(segment: Seq<char>, i: int)
    requires
        0 <= i < segment.len(),
        !is_space(segment[i]),
        segment[i] != '+',
        !('0' <= segment[i] <= '9'),
    ensures
        segment_number(segment) == 0,
{
    law_trimming_keeps_the_rest(segment, i);
    let rest = trimmed(segment);
    let k = choose|k: int| 0 <= k < rest.len() && rest[k] == segment[i];
    law_numbers_are_read_in_decimal(rest, 0, u64::MAX as int);
    assert(number_of(rest, u64::MAX as int) is None) by {
        if number_of(rest, u64::MAX as int) is Some {
            assert('0' <= rest[k] <= '9' || rest[k] == '+');
        }
    }
}

/// The numbers of a version are those of its dotted parts, one after the other.
pub proof fn law_versions_are_dotted(a: Seq<char>, b: Seq<char>)
    ensures
        version_numbers(a.push('.') + b) == version_numbers(a) + version_numbers(b),
        !a.contains('.') ==> version_numbers(a) == seq![segment_number(a)],
{
    law_texts_split_at_separators(a, '.', b);
    let number = |p: Seq<char>| segment_number(p);
    assert((pieces(a, '.') + pieces(b, '.')).map_values(number) == pieces(a, '.').map_values(number)
        + pieces(b, '.').map_values(number));
    assert(seq![a].map_values(number) == seq![segment_number(a)]);
}

proof fn lemma_number_segment(n: int)
    requires
        0 <= n <= u64::MAX,
    ensures
        version_numbers(decimal(n)) == seq![n],
{
    lemma_decimal(n);
    assert(!decimal(n).contains('.')) by {
        if decimal(n).contains('.') {
            let i = choose|i: int| 0 <= i < decimal(n).len() && decimal(n)[i] == '.';
            assert(is_digit(decimal(n)[i]));
        }
    }
    law_versions_are_dotted(decimal(n), Seq::empty());
    law_segments_count_as_written(Seq::empty(), n, Seq::empty());
    assert(Seq::<char>::empty() + decimal(n) + Seq::<char>::empty() == decimal(n));
}

/// Versions are compared by the numbers that are written in them. Of two that
/// begin alike the one with the greater number behind is the newer, whatever
/// follows that number in either of them.
pub proof fn law_the_greater_number_is_newer(
    common: Seq<char>,
    n: int,
    m: int,
    more: Seq<char>,
    others: Seq<char>,
)
    requires
        0 <= n <= u64::MAX,
        0 <= m <= u64::MAX,
    ensures
        newer(decimal(n), decimal(m)) <==> n < m,
        newer(common.push('.') + decimal(n), common.push('.') + decimal(m)) <==> n < m,
        n < m ==> newer(
            common.push('.') + (decimal(n).push('.') + more),
            common.push('.') + (decimal(m).push('.') + others),
        ),
        n < m ==> newer(decimal(n).push('.') + more, decimal(m).push('.') + others),
{
    lemma_number_segment(n);
    lemma_number_segment(m);
    let start = version_numbers(common);
    law_versions_are_dotted(common, decimal(n));
    law_versions_are_dotted(common, decimal(m));
    law_versions_are_dotted(decimal(n), more);
    law_versions_are_dotted(decimal(m), others);
    law_versions_are_dotted(common, decimal(n).push('.') + more);
    law_versions_are_dotted(common, decimal(m).push('.') + others);
    lemma_first_difference(Seq::empty(), seq![n], seq![m]);
    assert(Seq::<int>::empty() + seq![n] == seq![n]);
    assert(Seq::<int>::empty() + seq![m] == seq![m]);
    lemma_first_difference(start, seq![n], seq![m]);
    let a = seq![n] + version_numbers(more);
    let b = seq![m] + version_numbers(others);
    lemma_first_difference(Seq::empty(), a, b);
    assert(Seq::<int>::empty() + a == a);
    assert(Seq::<int>::empty() + b == b);
    lemma_first_difference(start, a, b);
}

proof fn lemma_first_difference(start: Seq<int>, a: Seq<int>, b: Seq<int>)
    requires
        a.len() > 0,
        b.len() > 0,
    ensures
        a[0] < b[0] ==> greater_at(start + a, start + b, start.len() as int),
        a[0] >= b[0] && a.len() == 1 && b.len() == 1 ==> forall|i: int|
            !greater_at(start + a, start + b, i),
{
    let x = start + a;
    let y = start + b;
    let k = start.len() as int;
    assert(number_at(x, k) == a[0] && number_at(y, k) == b[0]);
    assert forall|j: int| 0 <= j < k implies #[trigger] number_at(x, j) == number_at(y, j) by {}
    if a[0] >= b[0] && a.len() == 1 && b.len() == 1 {
        assert forall|i: int| !greater_at(x, y, i) by {
            if 0 <= i < k {
                assert(number_at(x, i) == number_at(y, i));
            }
        }
    }
}

/// A version and the same version with another 0 behind it are of one age.
pub proof fn law_missing_numbers_are_zero(v: Seq<char>)
    ensures
        !newer(v, v.push('.') + decimal(0)),
        !newer(v.push('.') + decimal(0), v),
{
    lemma_number_segment(0);
    law_versions_are_dotted(v, decimal(0));
    let a = version_numbers(v);
    let b = a + seq![0int];
    assert forall|i: int| #[trigger] number_at(a, i) == number_at(b, i) by {}
    assert forall|i: int| !greater_at(a, b, i) && !greater_at(b, a, i) by {
        assert(number_at(a, i) == number_at(b, i));
    }
}

/// Of two versions at most one is newer than the other, and none is newer than itself.
pub proof fn law_newer_goes_one_way(a: Seq<char>, b: Seq<char>)
    ensures
        !(newer(a, b) && newer(b, a)),
        !newer(a, a),
{
    let x = version_numbers(a);
    let y = version_numbers(b);
    if newer(a, b) && newer(b, a) {
        let i = choose|i: int| greater_at(x, y, i);
        let j = choose|j: int| greater_at(y, x, j);
        if i < j {
            assert(number_at(x, i) == number_at(y, i));
        } else if j < i {
            assert(number_at(x, j) == number_at(y, j));
        }
    }
}

} // verus!
