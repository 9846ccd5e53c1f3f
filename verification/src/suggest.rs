//! "Did you mean ...?": the candidate nearest to a mistyped name.

use vstd::prelude::*;
use vstd::string::*;

use crate::text;

verus! {

pub open spec fn least(a: nat, b: nat) -> nat {
    if a <= b {
        a
    } else {
        b
    }
}

/// How many insertions, deletions and replacements of single characters lead
/// from `a` to `b`, at least.
pub open spec fn distance(a: Seq<char>, b: Seq<char>) -> nat
    decreases a.len() + b.len(),
{
    if a.len() == 0 {
        b.len()
    } else if b.len() == 0 {
        a.len()
    } else {
        least(
            least(distance(a.drop_last(), b) + 1, distance(a, b.drop_last()) + 1),
            distance(a.drop_last(), b.drop_last()) + if a.last() == b.last() {
                0nat
            } else {
                1nat
            },
        )
    }
}

/// How far a candidate may be from a name: a third of the name's length, at
/// least one.
pub open spec fn tolerance(name: Seq<char>) -> nat {
    if name.len() < 6 {
        1
    } else {
        (name.len() / 3) as nat
    }
}

/// The nearest of the candidates from `i` on, if it is nearer than `best`; the
/// first of them where several are.
pub open spec fn nearest_from(
    name: Seq<char>,
    candidates: Seq<Seq<char>>,
    i: int,
    best: Option<Seq<char>>,
) -> Option<Seq<char>>
    decreases candidates.len() - i,
{
    if i < 0 || i >= candidates.len() {
        best
    } else {
        let d = distance(name, candidates[i]);
        let nearer = d <= tolerance(name) && match best {
            Some(b) => d < distance(name, b),
            None => true,
        };
        nearest_from(
            name,
            candidates,
            i + 1,
            if nearer {
                Some(candidates[i])
            } else {
                best
            },
        )
    }
}

/// The candidate nearest to `name`, if one is near enough.
pub open spec fn nearest_of(name: Seq<char>, candidates: Seq<Seq<char>>) -> Option<Seq<char>> {
    nearest_from(name, candidates, 0, None)
}

proof fn lemma_distance_bound(a: Seq<char>, b: Seq<char>)
    ensures
        distance(a, b) <= a.len() + b.len(),
    decreases a.len() + b.len(),
{
    if a.len() > 0 && b.len() > 0 {
        lemma_distance_bound(a.drop_last(), b);
    }
}

/// The distances from the first `i` characters of `a` to every prefix of `b`.
spec fn is_row(row: Seq<usize>, a: Seq<char>, i: int, b: Seq<char>, n: int) -> bool {
    &&& row.len() == n
    &&& forall|j: int| 0 <= j < n ==> #[trigger] row[j] == distance(a.take(i), b.take(j))
}

fn smaller(a: usize, b: usize) -> (r: usize)
    ensures
        r == least(a as nat, b as nat),
{
    if a <= b {
        a
    } else {
        b
    }
}

fn next_row(x: &Vec<char>, i: usize, y: &Vec<char>, before: &Vec<usize>) -> (r: Vec<usize>)
    requires
        i < x.len(),
        x@.len() + y@.len() < usize::MAX,
        is_row(before@, x@, i as int, y@, y.len() + 1),
    ensures
        is_row(r@, x@, i + 1, y@, y.len() + 1),
{
    let ghost a = x@;
    let ghost b = y@;
    let mut row: Vec<usize> = Vec::new();
    proof {
        assert(b.take(0) =~= seq![]);
        assert(distance(a.take(i + 1), b.take(0)) == i + 1);
    }
    row.push(i + 1);
    let mut j: usize = 0;
    while j < y.len()
        invariant
            i < x.len(),
            a == x@,
            b == y@,
            j <= y.len(),
            x@.len() + y@.len() < usize::MAX,
            is_row(before@, a, i as int, b, y.len() + 1),
            is_row(row@, a, i + 1, b, j + 1),
        decreases y.len() - j,
    {
        proof {
            lemma_distance_bound(a.take(i as int), b.take(j + 1));
            lemma_distance_bound(a.take(i as int), b.take(j as int));
            lemma_distance_bound(a.take(i + 1), b.take(j as int));
            assert(a.take(i + 1).drop_last() =~= a.take(i as int));
            assert(b.take(j + 1).drop_last() =~= b.take(j as int));
            assert(before@[j + 1] == distance(a.take(i as int), b.take(j + 1)));
            assert(before@[j as int] == distance(a.take(i as int), b.take(j as int)));
            assert(row@[j as int] == distance(a.take(i + 1), b.take(j as int)));
        }
        let kept: usize = if x[i] == y[j] {
            before[j]
        } else {
            before[j] + 1
        };
        let best: usize = smaller(smaller(before[j + 1] + 1, row[j] + 1), kept);
        row.push(best);
        j += 1;
    }
    row
}

/// The edit distance, row by row.
fn edit_distance(x: &Vec<char>, y: &Vec<char>) -> (r: usize)
    requires
        x@.len() + y@.len() < usize::MAX,
    ensures
        r == distance(x@, y@),
{
    let ghost a = x@;
    let ghost b = y@;
    let mut row: Vec<usize> = Vec::new();
    let mut j: usize = 0;
    while j <= y.len()
        invariant
            a == x@,
            b == y@,
            j <= y.len() + 1,
            x@.len() + y@.len() < usize::MAX,
            is_row(row@, a, 0, b, j as int),
        decreases y.len() + 1 - j,
    {
        assert(a.take(0) =~= seq![]);
        row.push(j);
        j += 1;
    }
    let mut i: usize = 0;
    while i < x.len()
        invariant
            a == x@,
            b == y@,
            i <= x.len(),
            x@.len() + y@.len() < usize::MAX,
            is_row(row@, a, i as int, b, y.len() + 1),
        decreases x.len() - i,
    {
        row = next_row(x, i, y, &row);
        i += 1;
    }
    assert(a.take(i as int) =~= a);
    assert(b.take(y@.len() as int) =~= b);
    row[y.len()]
}

/// The candidate nearest to `name`, if one is near enough to be a typo of it.
pub(crate) fn nearest(name: &str, candidates: &Vec<String>) -> (r: Option<String>)
    ensures
        nearest_of(name@, text::strings_view(candidates@)) == match r {
            Some(c) => Some(c@),
            None => None,
        },
{
    let x = text::chars_of(name);
    let n: usize = x.len();
    let limit: usize = if n < 6 {
        1
    } else {
        n / 3
    };
    let ghost all = text::strings_view(candidates@);
    let mut best: Option<usize> = None;
    let mut best_distance: usize = 0;
    let mut i: usize = 0;
    while i < candidates.len()
        invariant
            i <= candidates.len(),
            x@ == name@,
            limit == tolerance(name@),
            text::byte_len(name@) <= isize::MAX,
            all == text::strings_view(candidates@),
            best matches Some(k) ==> k < candidates.len() && best_distance == distance(
                name@,
                all[k as int],
            ),
            nearest_of(name@, all) == nearest_from(
                name@,
                all,
                i as int,
                match best {
                    Some(k) => Some(all[k as int]),
                    None => None,
                },
            ),
        decreases candidates.len() - i,
    {
        let y = text::chars_of(candidates[i].as_str());
        proof {
            text::lemma_byte_len_at_least(name@);
            text::lemma_byte_len_at_least(candidates@[i as int]@);
            assert(all[i as int] == candidates@[i as int]@);
        }
        let d: usize = edit_distance(&x, &y);
        let nearer = d <= limit && (best.is_none() || d < best_distance);
        if nearer {
            best = Some(i);
            best_distance = d;
        }
        i += 1;
    }
    match best {
        Some(k) => Some(candidates[k].clone()),
        None => None,
    }
}

// --- Laws -------------------------------------------------------------------------------------------

/// The way back is as long as the way there.
pub proof fn distance_is_symmetric(a: Seq<char>, b: Seq<char>)
    ensures
        distance(a, b) == distance(b, a),
    decreases a.len() + b.len(),
{
    if a.len() > 0 && b.len() > 0 {
        distance_is_symmetric(a.drop_last(), b);
        distance_is_symmetric(a, b.drop_last());
        distance_is_symmetric(a.drop_last(), b.drop_last());
    }
}

/// Only the name itself is no way off.
pub proof fn only_equal_names_are_at_no_distance(a: Seq<char>, b: Seq<char>)
    ensures
        distance(a, b) == 0 <==> a == b,
    decreases a.len() + b.len(),
{
    if a.len() > 0 && b.len() > 0 {
        only_equal_names_are_at_no_distance(a.drop_last(), b.drop_last());
        if distance(a, b) == 0 {
            assert(a.drop_last().push(a.last()) =~= a);
            assert(b.drop_last().push(b.last()) =~= b);
        }
    } else if distance(a, b) == 0 {
        assert(a =~= b);
    }
}

proof fn lemma_nearest_from(
    name: Seq<char>,
    candidates: Seq<Seq<char>>,
    i: int,
    best: Option<Seq<char>>,
)
    requires
        0 <= i <= candidates.len(),
        match best {
            Some(b) => candidates.contains(b) && distance(name, b) <= tolerance(name),
            None => true,
        },
        forall|k: int|
            0 <= k < i ==> distance(name, #[trigger] candidates[k]) <= tolerance(name) ==> best
                is Some && distance(name, best->0) <= distance(name, candidates[k]),
    ensures
        match nearest_from(name, candidates, i, best) {
            Some(b) => candidates.contains(b) && distance(name, b) <= tolerance(name),
            None => true,
        },
        forall|k: int|
            0 <= k < candidates.len() ==> distance(name, #[trigger] candidates[k]) <= tolerance(
                name,
            ) ==> nearest_from(name, candidates, i, best) is Some && distance(
                name,
                nearest_from(name, candidates, i, best)->0,
            ) <= distance(name, candidates[k]),
    decreases candidates.len() - i,
{
    if i < candidates.len() {
        let d = distance(name, candidates[i]);
        let nearer = d <= tolerance(name) && match best {
            Some(b) => d < distance(name, b),
            None => true,
        };
        let next = if nearer {
            Some(candidates[i])
        } else {
            best
        };
        assert(candidates.contains(candidates[i]));
        lemma_nearest_from(name, candidates, i + 1, next);
    }
}

/// A suggestion is a candidate within the tolerance, and none is nearer; where
/// one is within the tolerance there is a suggestion.
pub proof fn suggestions_are_nearest(name: Seq<char>, candidates: Seq<Seq<char>>)
    ensures
        nearest_of(name, candidates) matches Some(c) ==> candidates.contains(c) && distance(name, c)
            <= tolerance(name),
        forall|k: int|
            0 <= k < candidates.len() ==> distance(name, #[trigger] candidates[k]) <= tolerance(
                name,
            ) ==> nearest_of(name, candidates) is Some && distance(
                name,
                nearest_of(name, candidates)->0,
            ) <= distance(name, candidates[k]),
{
    lemma_nearest_from(name, candidates, 0, None);
}

} // verus!
