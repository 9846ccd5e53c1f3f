//! Rows: the values of the variables in scope.

use vstd::prelude::*;

use crate::bind::bound::VarId;
use crate::exec::overlay::MutableGraph;
use crate::exec::refresh;
use crate::exec::source::GraphSource;
use crate::exec::value::{Value, ValueView};

verus! {

/// One result row: values by variable.
#[derive(Debug)]
pub struct Row {
    slots: Vec<Option<Value>>,
}

/// The values of the variables that a row binds.
pub open spec fn row_get(row: Map<u32, ValueView>, var: VarId) -> ValueView {
    if row.dom().contains(var.0) {
        row[var.0]
    } else {
        ValueView::Null
    }
}

impl Row {
    pub closed spec fn view(&self) -> Map<u32, ValueView> {
        Map::new(
            |k: u32| (k as int) < self.slots@.len() && self.slots@[k as int] is Some,
            |k: u32| self.slots@[k as int]->0@,
        )
    }

    /// A row that binds nothing.
    pub fn new() -> (r: Row)
        ensures
            r@ == Map::<u32, ValueView>::empty(),
    {
        let r = Row { slots: Vec::new() };
        assert(r@ =~= Map::<u32, ValueView>::empty());
        r
    }

    /// The value of a variable, null where it is not bound.
    pub fn get(&self, var: VarId) -> (r: Value)
        ensures
            r@ == row_get(self@, var),
    {
        if (var.0 as usize) < self.slots.len() {
            if let Some(v) = &self.slots[var.0 as usize] {
                return v.dup();
            }
        }
        Value::Null
    }

    /// Distinguishes a variable bound to null (matches nothing in a pattern)
    /// from one not bound at all (a fresh pattern variable).
    pub fn contains(&self, var: VarId) -> (r: bool)
        ensures
            r == self@.dom().contains(var.0),
    {
        (var.0 as usize) < self.slots.len() && self.slots[var.0 as usize].is_some()
    }

    pub fn set(&mut self, var: VarId, value: Value)
        ensures
            final(self)@ == old(self)@.insert(var.0, value@),
    {
        let at: usize = var.0 as usize;
        let ghost before = self@;
        while self.slots.len() <= at
            invariant
                self@ == before,
            decreases at + 1 - self.slots@.len(),
        {
            self.slots.push(None);
            assert(self@ =~= before);
        }
        self.slots[at] = Some(value);
        assert(self@ =~= before.insert(var.0, value@));
    }

    /// A copy.
    pub fn dup(&self) -> (r: Row)
        ensures
            r@ == self@,
    {
        let mut slots: Vec<Option<Value>> = Vec::new();
        let mut i: usize = 0;
        while i < self.slots.len()
            invariant
                i <= self.slots.len(),
                slots@.len() == i,
                forall|k: int|
                    0 <= k < i ==> ((#[trigger] slots@[k]) is Some <==> self.slots@[k] is Some),
                forall|k: int|
                    0 <= k < i && (#[trigger] slots@[k]) is Some ==> slots@[k]->0@
                        == self.slots@[k]->0@,
            decreases self.slots.len() - i,
        {
            let copy: Option<Value> = match &self.slots[i] {
                Some(v) => Some(v.dup()),
                None => None,
            };
            slots.push(copy);
            i += 1;
        }
        let r = Row { slots };
        assert(r@ =~= self@);
        r
    }

    /// The row with its entities as the pending writes have them.
    pub(crate) fn refreshed<G: GraphSource>(&self, graph: &MutableGraph<G>) -> (r: Row)
        ensures
            r@ == refresh::refreshed_row(self@, graph@),
    {
        let mut slots: Vec<Option<Value>> = Vec::new();
        let mut i: usize = 0;
        while i < self.slots.len()
            invariant
                i <= self.slots.len(),
                slots@.len() == i,
                forall|k: int|
                    0 <= k < i ==> ((#[trigger] slots@[k]) is Some <==> self.slots@[k] is Some),
                forall|k: int|
                    0 <= k < i && (#[trigger] slots@[k]) is Some ==> slots@[k]->0@
                        == refresh::refreshed(self.slots@[k]->0@, graph@),
            decreases self.slots.len() - i,
        {
            match &self.slots[i] {
                Some(v) => {
                    slots.push(Some(refresh::refresh(v, graph)));
                },
                None => {
                    slots.push(None);
                },
            }
            i += 1;
        }
        let r = Row { slots };
        assert(r@ =~= refresh::refreshed_row(self@, graph@));
        r
    }
}

impl Clone for Row {
    fn clone(&self) -> (r: Self)
        ensures
            r@ == self@,
    {
        self.dup()
    }
}

impl Default for Row {
    fn default() -> (r: Self)
        ensures
            r@ == Map::<u32, ValueView>::empty(),
    {
        Row::new()
    }
}

/// The values that a list of rows stands for.
pub open spec fn rows_view(v: Seq<Row>) -> Seq<Map<u32, ValueView>> {
    Seq::new(v.len(), |i: int| v[i]@)
}

/// What is set in a row is read back, and nothing else changes.
pub proof fn row_get_after_set(
    row: Map<u32, ValueView>,
    var: VarId,
    value: ValueView,
    other: VarId,
)
    ensures
        row_get(row.insert(var.0, value), var) == value,
        other != var ==> row_get(row.insert(var.0, value), other) == row_get(row, other),
{
}

} // verus!
