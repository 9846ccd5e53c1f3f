//! Maps by name whose names ascend.

use vstd::prelude::*;
use vstd::string::*;

use crate::exec::inspect;
use crate::exec::order_laws;
use crate::exec::value::{self, Order};
use crate::text;

verus! {

/// A map by name; the names ascend.
#[derive(Debug)]
pub struct NameMap<T> {
    entries: Vec<(String, T)>,
}

/// What is called `name` from the entry `i` on.
pub open spec fn found_from<T>(entries: Seq<(Seq<char>, T)>, name: Seq<char>, i: int) -> Option<T>
    decreases entries.len() - i,
{
    if i < 0 || i >= entries.len() {
        None
    } else if entries[i].0 == name {
        Some(entries[i].1)
    } else {
        found_from(entries, name, i + 1)
    }
}

/// What is called `name`.
pub open spec fn found<T>(entries: Seq<(Seq<char>, T)>, name: Seq<char>) -> Option<T> {
    found_from(entries, name, 0)
}

/// The entries with `x` under `name`, which does not stand before `i`.
pub open spec fn bound_from<T>(
    entries: Seq<(Seq<char>, T)>,
    name: Seq<char>,
    x: T,
    i: int,
) -> Seq<(Seq<char>, T)>
    decreases entries.len() - i,
{
    if i < 0 || i >= entries.len() {
        entries.push((name, x))
    } else {
        match value::text_order(entries[i].0, name) {
            Order::Less => bound_from(entries, name, x, i + 1),
            Order::Equal => entries.update(i, (name, x)),
            Order::Greater => entries.insert(i, (name, x)),
        }
    }
}

/// The entries with `x` under `name`.
pub open spec fn bound_in<T>(entries: Seq<(Seq<char>, T)>, name: Seq<char>, x: T) -> Seq<
    (Seq<char>, T),
> {
    bound_from(entries, name, x, 0)
}

/// The entries without the first called `name` from `i` on.
pub open spec fn dropped_from<T>(entries: Seq<(Seq<char>, T)>, name: Seq<char>, i: int) -> Seq<
    (Seq<char>, T),
>
    decreases entries.len() - i,
{
    if i < 0 || i >= entries.len() {
        entries
    } else if entries[i].0 == name {
        entries.remove(i)
    } else {
        dropped_from(entries, name, i + 1)
    }
}

/// The entries without the one called `name`.
pub open spec fn dropped<T>(entries: Seq<(Seq<char>, T)>, name: Seq<char>) -> Seq<(Seq<char>, T)> {
    dropped_from(entries, name, 0)
}

/// The names, in order.
pub open spec fn names_of<T>(entries: Seq<(Seq<char>, T)>) -> Seq<Seq<char>> {
    Seq::new(entries.len(), |i: int| entries[i].0)
}

/// Whether the names ascend.
pub open spec fn ascend<T>(entries: Seq<(Seq<char>, T)>) -> bool {
    forall|i: int, j: int|
        0 <= i < j < entries.len() ==> value::text_order(
            (#[trigger] entries[i]).0,
            (#[trigger] entries[j]).0,
        ) == Order::Less
}

impl<T> NameMap<T> {
    pub closed spec fn view(&self) -> Seq<(Seq<char>, T)> {
        Seq::new(self.entries@.len(), |i: int| (self.entries@[i].0@, self.entries@[i].1))
    }

    /// The empty map.
    pub fn new() -> (r: NameMap<T>)
        ensures
            r@ == Seq::<(Seq<char>, T)>::empty(),
    {
        let r = NameMap { entries: Vec::new() };
        assert(r@ =~= Seq::<(Seq<char>, T)>::empty());
        r
    }

    pub fn len(&self) -> (r: usize)
        ensures
            r == self@.len(),
    {
        self.entries.len()
    }

    /// The `i`-th name.
    pub fn name(&self, i: usize) -> (r: &str)
        requires
            i < self@.len(),
        ensures
            r@ == self@[i as int].0,
    {
        self.entries[i].0.as_str()
    }

    /// What stands under the `i`-th name.
    pub fn at(&self, i: usize) -> (r: &T)
        requires
            i < self@.len(),
        ensures
            *r == self@[i as int].1,
    {
        &self.entries[i].1
    }

    /// The names, in order.
    pub fn names(&self) -> (r: Vec<String>)
        ensures
            text::strings_view(r@) == names_of(self@),
    {
        let mut out: Vec<String> = Vec::new();
        let mut i: usize = 0;
        while i < self.entries.len()
            invariant
                i <= self.entries.len(),
                out@.len() == i,
                forall|k: int| 0 <= k < i ==> (#[trigger] out@[k])@ == self.entries@[k].0@,
            decreases self.entries.len() - i,
        {
            out.push(self.entries[i].0.clone());
            i += 1;
        }
        assert(text::strings_view(out@) =~= names_of(self@));
        out
    }

    /// What is called `name`.
    pub fn get(&self, name: &str) -> (r: Option<&T>)
        ensures
            found(self@, name@) == match r {
                Some(x) => Some(*x),
                None => None,
            },
    {
        let ghost all = self@;
        let mut i: usize = 0;
        while i < self.entries.len()
            invariant
                i <= self.entries.len(),
                all == self@,
                found(all, name@) == found_from(all, name@, i as int),
            decreases self.entries.len() - i,
        {
            if text::str_eq(self.entries[i].0.as_str(), name) {
                return Some(&self.entries[i].1);
            }
            i += 1;
        }
        None
    }

    /// Whether something is called `name`.
    pub fn contains(&self, name: &str) -> (r: bool)
        ensures
            r == (found(self@, name@) is Some),
    {
        self.get(name).is_some()
    }

    /// Put `x` under `name`.
    pub fn insert(&mut self, name: String, x: T)
        ensures
            final(self)@ == bound_in(old(self)@, name@, x),
    {
        let ghost before = self@;
        let mut i: usize = 0;
        while i < self.entries.len()
            invariant
                i <= self.entries.len(),
                before == self@,
                before == old(self)@,
                bound_in(before, name@, x) == bound_from(before, name@, x, i as int),
            decreases self.entries.len() - i,
        {
            match value::order_texts(self.entries[i].0.as_str(), name.as_str()) {
                Order::Less => {},
                Order::Equal => {
                    let ghost entry = (name@, x);
                    self.entries[i] = (name, x);
                    assert(self@ =~= before.update(i as int, entry));
                    return;
                },
                Order::Greater => {
                    let ghost entry = (name@, x);
                    self.entries.insert(i, (name, x));
                    assert(self@ =~= before.insert(i as int, entry));
                    return;
                },
            }
            i += 1;
        }
        let ghost entry = (name@, x);
        self.entries.push((name, x));
        assert(self@ =~= before.push(entry));
    }

    /// Take `name` out.
    pub fn remove(&mut self, name: &str)
        ensures
            final(self)@ == dropped(old(self)@, name@),
    {
        let ghost before = self@;
        let mut i: usize = 0;
        while i < self.entries.len()
            invariant
                i <= self.entries.len(),
                before == self@,
                before == old(self)@,
                dropped(before, name@) == dropped_from(before, name@, i as int),
            decreases self.entries.len() - i,
        {
            if text::str_eq(self.entries[i].0.as_str(), name) {
                let gone = self.entries.remove(i);
                assert(self@ =~= before.remove(i as int));
                return;
            }
            i += 1;
        }
    }
}

impl<T: Copy> NameMap<T> {
    /// A copy.
    pub fn dup(&self) -> (r: NameMap<T>)
        ensures
            r@ == self@,
    {
        let mut entries: Vec<(String, T)> = Vec::new();
        let mut i: usize = 0;
        while i < self.entries.len()
            invariant
                i <= self.entries.len(),
                entries@.len() == i,
                forall|k: int|
                    0 <= k < i ==> (#[trigger] entries@[k]).0@ == self.entries@[k].0@
                        && entries@[k].1 == self.entries@[k].1,
            decreases self.entries.len() - i,
        {
            entries.push((self.entries[i].0.clone(), self.entries[i].1));
            i += 1;
        }
        let r = NameMap { entries };
        assert(r@ =~= self@);
        r
    }
}

// --- Laws -------------------------------------------------------------------------------------------

proof fn lemma_found_shift<T>(entries: Seq<(Seq<char>, T)>, name: Seq<char>, x: T, k: int, i: int)
    requires
        0 <= i <= k <= entries.len(),
        forall|j: int| i <= j < k ==> (#[trigger] entries[j]).0 != name,
    ensures
        found_from(entries.insert(k, (name, x)), name, i) == Some(x),
    decreases k - i,
{
    let more = entries.insert(k, (name, x));
    if i < k {
        assert(more[i] == entries[i]);
        lemma_found_shift(entries, name, x, k, i + 1);
    }
}

proof fn lemma_bound_found<T>(entries: Seq<(Seq<char>, T)>, name: Seq<char>, x: T, i: int)
    requires
        0 <= i <= entries.len(),
        forall|j: int| 0 <= j < i ==> (#[trigger] entries[j]).0 != name,
    ensures
        found(bound_from(entries, name, x, i), name) == Some(x),
    decreases entries.len() - i,
{
    if i >= entries.len() {
        assert(entries.push((name, x)) =~= entries.insert(i, (name, x)));
        lemma_found_shift(entries, name, x, i, 0);
    } else {
        inspect::lemma_text_order_equal(entries[i].0, name);
        match value::text_order(entries[i].0, name) {
            Order::Less => {
                lemma_bound_found(entries, name, x, i + 1);
            },
            Order::Equal => {
                let more = entries.update(i, (name, x));
                lemma_found_at(more, name, i, 0);
            },
            Order::Greater => {
                lemma_found_shift(entries, name, x, i, 0);
            },
        }
    }
}

proof fn lemma_found_at<T>(entries: Seq<(Seq<char>, T)>, name: Seq<char>, k: int, i: int)
    requires
        0 <= i <= k < entries.len(),
        entries[k].0 == name,
        forall|j: int| i <= j < k ==> (#[trigger] entries[j]).0 != name,
    ensures
        found_from(entries, name, i) == Some(entries[k].1),
    decreases k - i,
{
    if i < k {
        lemma_found_at(entries, name, k, i + 1);
    }
}

proof fn lemma_bound_other<T>(
    entries: Seq<(Seq<char>, T)>,
    name: Seq<char>,
    x: T,
    other: Seq<char>,
    i: int,
    j: int,
)
    requires
        0 <= i <= entries.len(),
        0 <= j <= i,
        other != name,
    ensures
        found_from(bound_from(entries, name, x, i), other, j) == found_from(entries, other, j),
    decreases entries.len() - i, i - j,
{
    if i >= entries.len() {
        lemma_other_insert(entries, name, x, other, entries.len() as int, j);
        assert(entries.push((name, x)) =~= entries.insert(entries.len() as int, (name, x)));
    } else {
        inspect::lemma_text_order_equal(entries[i].0, name);
        match value::text_order(entries[i].0, name) {
            Order::Less => {
                lemma_bound_other(entries, name, x, other, i + 1, j);
            },
            Order::Equal => {
                lemma_other_update(entries, name, x, other, i, j);
            },
            Order::Greater => {
                lemma_other_insert(entries, name, x, other, i, j);
            },
        }
    }
}

proof fn lemma_other_update<T>(
    entries: Seq<(Seq<char>, T)>,
    name: Seq<char>,
    x: T,
    other: Seq<char>,
    k: int,
    j: int,
)
    requires
        0 <= k < entries.len(),
        0 <= j,
        entries[k].0 == name,
        other != name,
    ensures
        found_from(entries.update(k, (name, x)), other, j) == found_from(entries, other, j),
    decreases entries.len() - j,
{
    if j < entries.len() {
        lemma_other_update(entries, name, x, other, k, j + 1);
    }
}

proof fn lemma_other_insert<T>(
    entries: Seq<(Seq<char>, T)>,
    name: Seq<char>,
    x: T,
    other: Seq<char>,
    k: int,
    j: int,
)
    requires
        0 <= j <= k <= entries.len(),
        other != name,
    ensures
        found_from(entries.insert(k, (name, x)), other, j) == found_from(entries, other, j),
    decreases k - j,
{
    let more = entries.insert(k, (name, x));
    if j < k {
        assert(more[j] == entries[j]);
        lemma_other_insert(entries, name, x, other, k, j + 1);
    } else {
        assert(more[k].0 == name);
        lemma_shifted(entries, name, x, other, k, k);
    }
}

proof fn lemma_shifted<T>(
    entries: Seq<(Seq<char>, T)>,
    name: Seq<char>,
    x: T,
    other: Seq<char>,
    k: int,
    j: int,
)
    requires
        0 <= k <= j <= entries.len(),
    ensures
        found_from(entries.insert(k, (name, x)), other, j + 1) == found_from(entries, other, j),
    decreases entries.len() - j,
{
    if j < entries.len() {
        assert(entries.insert(k, (name, x))[j + 1] == entries[j]);
        lemma_shifted(entries, name, x, other, k, j + 1);
    }
}

/// What was put under a name is found under it, and what stands under other
/// names is as before.
pub proof fn found_after_insert<T>(
    entries: Seq<(Seq<char>, T)>,
    name: Seq<char>,
    x: T,
    other: Seq<char>,
)
    ensures
        found(bound_in(entries, name, x), other) == if other == name {
            Some(x)
        } else {
            found(entries, other)
        },
{
    if other == name {
        lemma_bound_found(entries, name, x, 0);
    } else {
        lemma_bound_other(entries, name, x, other, 0, 0);
    }
}

proof fn lemma_bound_ascends<T>(entries: Seq<(Seq<char>, T)>, name: Seq<char>, x: T, i: int)
    requires
        ascend(entries),
        0 <= i <= entries.len(),
        forall|k: int| 0 <= k < i ==> value::text_order((#[trigger] entries[k]).0, name) == Order::Less,
    ensures
        ascend(bound_from(entries, name, x, i)),
    decreases entries.len() - i,
{
    if i < entries.len() {
        match value::text_order(entries[i].0, name) {
            Order::Less => {
                lemma_bound_ascends(entries, name, x, i + 1);
            },
            Order::Equal => {
                inspect::lemma_text_order_equal(entries[i].0, name);
                let after = entries.update(i, (name, x));
                assert forall|j: int, k: int| 0 <= j < k < after.len() implies value::text_order(
                    (#[trigger] after[j]).0,
                    (#[trigger] after[k]).0,
                ) == Order::Less by {
                    assert(after[j].0 == entries[j].0);
                    assert(after[k].0 == entries[k].0);
                }
            },
            Order::Greater => {
                let after = entries.insert(i, (name, x));
                order_laws::lemma_text_flips(entries[i].0, name);
                assert forall|j: int, k: int| 0 <= j < k < after.len() implies value::text_order(
                    (#[trigger] after[j]).0,
                    (#[trigger] after[k]).0,
                ) == Order::Less by {
                    let p = if j < i {
                        j
                    } else {
                        j - 1
                    };
                    let q = if k < i {
                        k
                    } else {
                        k - 1
                    };
                    if j == i {
                        if k > i + 1 {
                            order_laws::lemma_texts_compose(name, entries[i].0, entries[q].0);
                        }
                    } else if k != i {
                        assert(after[j] == entries[p]);
                        assert(after[k] == entries[q]);
                    }
                }
            },
        }
    } else {
        let after = entries.push((name, x));
        assert forall|j: int, k: int| 0 <= j < k < after.len() implies value::text_order(
            (#[trigger] after[j]).0,
            (#[trigger] after[k]).0,
        ) == Order::Less by {
            assert(after[j] == entries[j]);
            if k < entries.len() {
                assert(after[k] == entries[k]);
            }
        }
    }
}

/// The names keep ascending when one is put in.
pub proof fn names_keep_ascending<T>(entries: Seq<(Seq<char>, T)>, name: Seq<char>, x: T)
    requires
        ascend(entries),
    ensures
        ascend(bound_in(entries, name, x)),
{
    lemma_bound_ascends(entries, name, x, 0);
}

} // verus!
