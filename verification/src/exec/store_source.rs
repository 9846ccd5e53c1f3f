//! Seeks over a graph that is read lazily from storage: which probes serve a pin
//! exactly, and when a seek costs more than the scan it replaces.
//!
//! Storage keys the raw typed value, but a scan matches bytes and temporal
//! properties by their rendering, so a raw probe serves a pin only where it
//! cannot miss such a value: numeric and boolean pins always, a string pin only
//! when the property's declared type rules them out.

use vstd::prelude::*;
use vstd::string::*;

use crate::ast::Direction;
use crate::bind::catalogue::{PropertyType, SchemaEntry};
use crate::exec::adapter::{self, KeyNames, StoredNode, StoredRel};
use crate::exec::compare;
use crate::exec::families::{self, Families};
use crate::exec::float;
use crate::exec::records::{self, ModelValue, ModelValueView, NodeKey, NodeKeyView};
use crate::exec::seek::{self, EXACT_LIMIT, MAX_PROBES, RangeEnd, RangePlan};
use crate::exec::source;
use crate::exec::value::{
    self, EntityId, EntityIdView, NodeValue, NodeValueView, RelValue, RelValueView, Ternary, Value,
    ValueView,
};
use crate::names;
use crate::persist::identity;
use crate::persist::stage;
use crate::text;

verus! {

// --- Budget -----------------------------------------------------------------------------------------

/// Candidates a seek may always materialise, whatever the graph's size.
///
/// A result this small beats a scan on any graph large enough for the question to
/// matter, so it is served without sampling the nodes map at all.
pub const CANDIDATE_FLOOR: usize = 32;

/// A seek breaks even with the scan at one row in this many.
pub const BREAK_EVEN_ONE_IN: usize = 200;

/// The larger of the floor and the break-even share of the rows.
pub open spec fn cap_for(rows: int) -> int {
    if rows / BREAK_EVEN_ONE_IN as int >= CANDIDATE_FLOOR {
        rows / BREAK_EVEN_ONE_IN as int
    } else {
        CANDIDATE_FLOOR as int
    }
}

/// How many candidates a seek may materialise before it should decline and let
/// the scan answer: a seek does one random point read per matching row, the scan
/// it replaces reads sequentially. The floor keeps point lookups working on tiny
/// graphs.
pub fn candidate_cap(estimated_rows: usize) -> (r: usize)
    ensures
        r == cap_for(estimated_rows as int),
{
    let share: usize = estimated_rows / BREAK_EVEN_ONE_IN;
    if share >= CANDIDATE_FLOOR {
        share
    } else {
        CANDIDATE_FLOOR
    }
}

/// The budget of a seek that cleared the floor. `None`, where the nodes map could
/// not be sampled, means that the seek cannot serve.
pub fn candidate_budget(estimated_rows: Option<usize>) -> (r: Option<usize>)
    ensures
        r == (match estimated_rows {
            Some(rows) => Some(cap_for(rows as int) as usize),
            None => None,
        }),
{
    match estimated_rows {
        Some(rows) => Some(candidate_cap(rows)),
        None => None,
    }
}

/// The budget is at least the floor and grows with the graph.
pub proof fn budgets_grow_with_the_graph(fewer: int, more: int)
    requires
        0 <= fewer <= more,
    ensures
        CANDIDATE_FLOOR <= cap_for(fewer) <= cap_for(more),
        cap_for(more) <= CANDIDATE_FLOOR || cap_for(more) * BREAK_EVEN_ONE_IN <= more,
{
}

/// The identities that probes have found so far, each once, and how many there
/// may be.
#[derive(Debug)]
pub struct Candidates {
    pub cap: usize,
    pub ids: Vec<EntityId>,
}

/// `seen` and those of the first `n` identities that are new, each once.
pub open spec fn gathered(seen: Seq<EntityIdView>, more: Seq<EntityIdView>, n: nat) -> Seq<
    EntityIdView,
>
    decreases n,
{
    if n == 0 || n > more.len() {
        seen
    } else {
        let before = gathered(seen, more, (n - 1) as nat);
        if before.contains(more[n - 1]) {
            before
        } else {
            before.push(more[n - 1])
        }
    }
}

pub(crate) proof fn lemma_pushed(ids: Seq<EntityIdView>, last: EntityIdView, id: EntityIdView)
    ensures
        ids.push(last).contains(id) <==> ids.contains(id) || id == last,
{
    let after = ids.push(last);
    if ids.contains(id) {
        assert(after[ids.index_of(id)] == id);
    }
    if id == last {
        assert(after[ids.len() as int] == id);
    }
    if after.contains(id) && id != last {
        assert(ids[after.index_of(id)] == id);
    }
}

proof fn lemma_gathered(seen: Seq<EntityIdView>, more: Seq<EntityIdView>, n: nat)
    requires
        n <= more.len(),
        seen.no_duplicates(),
    ensures
        gathered(seen, more, n).no_duplicates(),
        gathered(seen, more, n).len() <= seen.len() + n,
        forall|id: EntityIdView|
            #[trigger] gathered(seen, more, n).contains(id) <==> seen.contains(id) || more.take(
                n as int,
            ).contains(id),
    decreases n,
{
    if n == 0 {
        assert(more.take(0) =~= seq![]);
    } else {
        lemma_gathered(seen, more, (n - 1) as nat);
        let before = gathered(seen, more, (n - 1) as nat);
        let after = gathered(seen, more, n);
        let last = more[n - 1];
        assert(more.take(n as int) =~= more.take(n - 1).push(last));
        assert forall|id: EntityIdView| #[trigger] after.contains(id) <==> seen.contains(id)
            || more.take(n as int).contains(id) by {
            let shorter = more.take(n - 1);
            let longer = more.take(n as int);
            assert(longer == shorter.push(last));
            lemma_pushed(shorter, last, id);
            lemma_pushed(before, last, id);
        }
    }
}

impl Candidates {
    /// No candidate yet.
    pub fn new(cap: usize) -> (r: Candidates)
        ensures
            r.cap == cap,
            source::entity_ids_view(r.ids@) == Seq::<EntityIdView>::empty(),
    {
        let ids: Vec<EntityId> = Vec::new();
        assert(source::entity_ids_view(ids@) =~= seq![]);
        Candidates { cap, ids }
    }

    /// How many more candidates fit.
    pub fn remaining(&self) -> (r: usize)
        ensures
            r == (if self.ids@.len() >= self.cap {
                0
            } else {
                self.cap - self.ids@.len()
            }),
    {
        if self.ids.len() >= self.cap {
            0
        } else {
            self.cap - self.ids.len()
        }
    }

    fn holds(&self, id: &EntityId) -> (r: bool)
        ensures
            r == source::entity_ids_view(self.ids@).contains(id@),
    {
        let ghost all = source::entity_ids_view(self.ids@);
        let mut i: usize = 0;
        while i < self.ids.len()
            invariant
                i <= self.ids.len(),
                all == source::entity_ids_view(self.ids@),
                forall|k: int| 0 <= k < i ==> #[trigger] all[k] != id@,
            decreases self.ids.len() - i,
        {
            assert(all[i as int] == self.ids@[i as int]@);
            if self.ids[i].same(id) {
                return true;
            }
            i += 1;
        }
        false
    }

    /// Take what one probe found, where it fits; `false` means that the probes
    /// match more than the budget allows, which is not the same as a count that
    /// was reached: what several probes find counts once.
    pub fn offer(&mut self, found: &Vec<EntityId>) -> (r: bool)
        ensures
            final(self).cap == old(self).cap,
            r == (old(self).ids@.len() + found@.len() <= old(self).cap || found@.len() == 0),
            source::entity_ids_view(final(self).ids@) == (if r {
                gathered(
                    source::entity_ids_view(old(self).ids@),
                    source::entity_ids_view(found@),
                    found@.len(),
                )
            } else {
                source::entity_ids_view(old(self).ids@)
            }),
    {
        if found.len() > self.remaining() {
            return false;
        }
        let ghost seen = source::entity_ids_view(self.ids@);
        let ghost all = source::entity_ids_view(found@);
        let mut i: usize = 0;
        while i < found.len()
            invariant
                i <= found.len(),
                self.cap == old(self).cap,
                all == source::entity_ids_view(found@),
                source::entity_ids_view(self.ids@) == gathered(seen, all, i as nat),
            decreases found.len() - i,
        {
            assert(all[i as int] == found@[i as int]@);
            if !self.holds(&found[i]) {
                let id = found[i].dup();
                assert(source::entity_ids_view(self.ids@.push(id)) =~= source::entity_ids_view(self.ids@).push(
                    id@,
                ));
                self.ids.push(id);
            }
            i += 1;
        }
        true
    }
}

/// What fits the budget is kept whole, each candidate once, and stays within it.
pub proof fn accepted_candidates_are_complete(
    seen: Seq<EntityIdView>,
    found: Seq<EntityIdView>,
    cap: nat,
)
    requires
        seen.no_duplicates(),
        seen.len() + found.len() <= cap,
    ensures
        gathered(seen, found, found.len()).no_duplicates(),
        gathered(seen, found, found.len()).len() <= cap,
        forall|id: EntityIdView|
            seen.contains(id) || found.contains(id) ==> #[trigger] gathered(
                seen,
                found,
                found.len(),
            ).contains(id),
{
    lemma_gathered(seen, found, found.len());
    assert(found.take(found.len() as int) =~= found);
}

// --- Indexes ----------------------------------------------------------------------------------------

/// A declared index that a seek can serve, single or composite.
#[derive(Debug)]
pub struct IndexInfo {
    pub label: String,
    /// The indexed properties, in declared order.
    pub properties: Vec<String>,
    /// Each property's declared type, if the schema types it.
    pub types: Vec<Option<PropertyType>>,
}

/// The types that the last declaration of a label among the first `n` gives.
pub open spec fn types_of(schema: Seq<SchemaEntry>, label: Seq<char>, n: nat) -> Seq<
    (Seq<char>, PropertyType),
>
    decreases n,
{
    if n == 0 || n > schema.len() {
        seq![]
    } else {
        match schema[n - 1] {
            SchemaEntry::Label { name, def } if name@ == label => def.types@,
            _ => types_of(schema, label, (n - 1) as nat),
        }
    }
}

/// Whether an index is as declared, its properties typed by the schema.
pub open spec fn describes(info: IndexInfo, label: Seq<char>, properties: Seq<Seq<char>>, schema:
    Seq<SchemaEntry>) -> bool {
    &&& info.label@ == label
    &&& text::strings_view(info.properties@) == properties
    &&& info.types@ == Seq::new(
        properties.len(),
        |i: int| names::found(types_of(schema, label, schema.len()), properties[i]),
    )
}

/// The declaration of an index: the last of its name among the first `n`.
pub open spec fn declared_index(schema: Seq<SchemaEntry>, name: Seq<char>, n: nat) -> Option<
    (Seq<char>, Seq<Seq<char>>),
>
    decreases n,
{
    if n == 0 || n > schema.len() {
        None
    } else {
        match schema[n - 1] {
            SchemaEntry::Index { name: declared, def } if declared@ == name => Some(
                (def.label@, text::strings_view(def.properties@)),
            ),
            _ => declared_index(schema, name, (n - 1) as nat),
        }
    }
}

fn declared_type(
    schema: &Vec<SchemaEntry>,
    label: &str,
    property: &str,
) -> (r: Option<PropertyType>)
    ensures
        r == names::found(types_of(schema@, label@, schema@.len()), property@),
{
    let mut n: usize = schema.len();
    while n > 0
        invariant
            n <= schema.len(),
            types_of(schema@, label@, schema@.len()) == types_of(schema@, label@, n as nat),
        decreases n,
    {
        if let SchemaEntry::Label { name, def } = &schema[n - 1] {
            if text::str_eq(name.as_str(), label) {
                return match def.types.get(property) {
                    Some(t) => Some(*t),
                    None => None,
                };
            }
        }
        n -= 1;
    }
    None
}

/// The index of a name that the schema declares.
pub fn index_info(schema: &Vec<SchemaEntry>, index_name: &str) -> (r: Option<IndexInfo>)
    ensures
        match declared_index(schema@, index_name@, schema@.len()) {
            None => r is None,
            Some((label, properties)) => r is Some && describes(
                r->Some_0,
                label,
                properties,
                schema@,
            ),
        },
{
    let mut n: usize = schema.len();
    while n > 0
        invariant
            n <= schema.len(),
            declared_index(schema@, index_name@, schema@.len()) == declared_index(
                schema@,
                index_name@,
                n as nat,
            ),
        decreases n,
    {
        if let SchemaEntry::Index { name, def } = &schema[n - 1] {
            if text::str_eq(name.as_str(), index_name) {
                return Some(info_of(schema, def.label.as_str(), &def.properties));
            }
        }
        n -= 1;
    }
    None
}

fn info_of(schema: &Vec<SchemaEntry>, label: &str, properties: &Vec<String>) -> (r: IndexInfo)
    ensures
        describes(r, label@, text::strings_view(properties@), schema@),
{
    let ghost names = text::strings_view(properties@);
    let ghost declared = types_of(schema@, label@, schema@.len());
    let mut types: Vec<Option<PropertyType>> = Vec::new();
    let mut i: usize = 0;
    while i < properties.len()
        invariant
            i <= properties.len(),
            names == text::strings_view(properties@),
            declared == types_of(schema@, label@, schema@.len()),
            types@.len() == i,
            forall|k: int| 0 <= k < i ==> #[trigger] types@[k] == names::found(declared, names[k]),
        decreases properties.len() - i,
    {
        assert(names[i as int] == properties@[i as int]@);
        types.push(declared_type(schema, label, properties[i].as_str()));
        i += 1;
    }
    assert(types@ =~= Seq::new(names.len(), |i: int| names::found(declared, names[i])));
    IndexInfo { label: label.to_owned(), properties: text::dup_strings(properties), types }
}

// --- Probes -----------------------------------------------------------------------------------------

/// The raw stored values that equal a number: of its own type and of the other.
/// `None` where a floating-point integer has more than one integer equal to it.
pub open spec fn number_probes(v: ValueView) -> Option<Seq<ModelValueView>> {
    match v {
        ValueView::Int(n) => Some(
            seq![ModelValueView::Int(n), ModelValueView::Float(float::of_int(n as int) as u64)],
        ),
        ValueView::Float(x) => if float::is_infinite(x) || !float::is_whole(x) {
            Some(seq![ModelValueView::Float(x)])
        } else if float::magnitude(x) >= EXACT_LIMIT {
            None
        } else {
            Some(
                seq![ModelValueView::Float(x), ModelValueView::Int(float::to_int(x) as i64)],
            )
        },
        _ => None,
    }
}

/// Whether a declared type rules out values that read as texts without being
/// stored as such.
pub open spec fn is_native(t: Option<PropertyType>) -> bool {
    t == Some(PropertyType::String) || t == Some(PropertyType::Int) || t == Some(
        PropertyType::Float,
    ) || t == Some(PropertyType::Bool)
}

/// The raw stored values that a pin of an indexed property could equal: `None`
/// where raw probes may miss one, nothing where the index cannot hold one.
pub open spec fn index_probes(
    t: Option<PropertyType>,
    v: ValueView,
) -> Option<Seq<ModelValueView>> {
    match v {
        ValueView::Null => Some(seq![]),
        ValueView::Int(_) => number_probes(v),
        ValueView::Float(x) => if float::is_nan(x) {
            Some(seq![])
        } else {
            number_probes(v)
        },
        ValueView::Bool(b) => Some(seq![ModelValueView::Bool(b)]),
        ValueView::String(s) => if is_native(t) {
            Some(seq![ModelValueView::String(s)])
        } else {
            None
        },
        ValueView::List(_) => None,
        ValueView::Stored(_) => None,
        _ => Some(seq![]),
    }
}

/// The raw stored values that a pin of a key property could equal; `None` where
/// raw probes may miss one.
pub open spec fn key_probes(v: ValueView) -> Option<Seq<ModelValueView>> {
    match v {
        ValueView::Null => None,
        ValueView::Int(_) => number_probes(v),
        ValueView::Float(x) => if float::is_nan(x) {
            None
        } else {
            number_probes(v)
        },
        ValueView::String(_) => None,
        ValueView::Stored(_) => None,
        _ => match records::indexed_as(v, 0) {
            Some(m) => Some(seq![m]),
            None => None,
        },
    }
}

pub open spec fn optional_models(r: Option<Vec<ModelValue>>) -> Option<Seq<ModelValueView>> {
    match r {
        Some(all) => Some(records::model_values_view(all@)),
        None => None,
    }
}

fn probe_number(v: &Value) -> (r: Option<Vec<ModelValue>>)
    ensures
        optional_models(r) == number_probes(v@),
{
    let mut out: Vec<ModelValue> = Vec::new();
    match v {
        Value::Int(n) => {
            out.push(ModelValue::Int(*n));
            out.push(ModelValue::Float(float::from_int(*n)));
        },
        Value::Float(x) => {
            if float::infinite(*x) || !float::integral(*x) {
                out.push(ModelValue::Float(*x));
            } else if float::absolute(*x) >= EXACT_LIMIT {
                return None;
            } else {
                out.push(ModelValue::Float(*x));
                out.push(ModelValue::Int(float::truncate(*x)));
            }
        },
        _ => {
            return None;
        },
    }
    assert(records::model_values_view(out@) =~= number_probes(v@)->Some_0);
    Some(out)
}

/// Probe alternatives for one indexed property: the candidate raw values whose
/// stored index key the pin could equal, or `None` to fall back to a scan.
pub fn probe_value(declared: Option<PropertyType>, v: &Value) -> (r: Option<Vec<ModelValue>>)
    ensures
        optional_models(r) == index_probes(declared, v@),
{
    let mut out: Vec<ModelValue> = Vec::new();
    assert(records::model_values_view(out@) =~= seq![]);
    match v {
        Value::Null => Some(out),
        Value::Int(_) => probe_number(v),
        Value::Float(x) => if float::nan(*x) {
            Some(out)
        } else {
            probe_number(v)
        },
        Value::Bool(b) => {
            out.push(ModelValue::Bool(*b));
            assert(records::model_values_view(out@) =~= seq![ModelValueView::Bool(*b)]);
            Some(out)
        },
        Value::String(s) => match declared {
            Some(PropertyType::String) | Some(PropertyType::Int) | Some(PropertyType::Float) | Some(
                PropertyType::Bool,
            ) => {
                out.push(ModelValue::String(s.clone()));
                assert(records::model_values_view(out@) =~= seq![ModelValueView::String(s@)]);
                Some(out)
            },
            _ => None,
        },
        Value::List(_) => None,
        Value::Stored(_) => None,
        _ => Some(out),
    }
}

/// Probe alternatives for one key property.
fn probe_key(v: &Value) -> (r: Option<Vec<ModelValue>>)
    ensures
        optional_models(r) == key_probes(v@),
{
    match v {
        Value::Null => None,
        Value::Int(_) => probe_number(v),
        Value::Float(x) => if float::nan(*x) {
            None
        } else {
            probe_number(v)
        },
        Value::String(_) => None,
        Value::Stored(_) => None,
        _ => match records::model_value_of(v) {
            Some(m) => {
                let mut out: Vec<ModelValue> = Vec::new();
                let ghost mv = m@;
                out.push(m);
                assert(records::model_values_view(out@) =~= seq![mv]);
                Some(out)
            },
            None => None,
        },
    }
}

/// Every tuple that takes one of the alternatives of each of the first `n`
/// components.
pub open spec fn product(parts: Seq<Seq<ModelValueView>>, n: nat) -> Seq<Seq<ModelValueView>>
    decreases n,
{
    if n == 0 || n > parts.len() {
        seq![seq![]]
    } else {
        let before = product(parts, (n - 1) as nat);
        seek::extended_by(before, before.len(), parts[n - 1])
    }
}

/// Whether the product over some of the first `n` components is larger than a
/// seek tries.
pub open spec fn overfull(parts: Seq<Seq<ModelValueView>>, n: nat) -> bool
    decreases n,
{
    if n == 0 || n > parts.len() {
        false
    } else {
        overfull(parts, (n - 1) as nat) || product(parts, n).len() > MAX_PROBES
    }
}

proof fn lemma_overfull_grows(parts: Seq<Seq<ModelValueView>>, m: nat, n: nat)
    requires
        m <= n <= parts.len(),
        overfull(parts, m),
    ensures
        overfull(parts, n),
    decreases n - m,
{
    if m < n {
        lemma_overfull_grows(parts, m, (n - 1) as nat);
    }
}

/// The tuples of a seek; `None` where they are too many.
pub open spec fn bounded_product(parts: Seq<Seq<ModelValueView>>) -> Option<
    Seq<Seq<ModelValueView>>,
> {
    if overfull(parts, parts.len()) {
        None
    } else {
        Some(product(parts, parts.len()))
    }
}

fn tuples_of(parts: &Vec<Vec<ModelValue>>) -> (r: Option<Vec<Vec<ModelValue>>>)
    ensures
        bounded_product(seek::tuples_view(parts@)) == match r {
            Some(tuples) => Some(seek::tuples_view(tuples@)),
            None => None,
        },
{
    let ghost all = seek::tuples_view(parts@);
    let mut tuples: Vec<Vec<ModelValue>> = Vec::new();
    tuples.push(Vec::new());
    assert(records::model_values_view(tuples@[0]@) =~= seq![]);
    assert(seek::tuples_view(tuples@) =~= product(all, 0));
    let mut k: usize = 0;
    while k < parts.len()
        invariant
            k <= parts.len(),
            all == seek::tuples_view(parts@),
            !overfull(all, k as nat),
            seek::tuples_view(tuples@) == product(all, k as nat),
        decreases parts.len() - k,
    {
        assert(all[k as int] == records::model_values_view(parts@[k as int]@));
        assert(seek::tuples_view(tuples@).len() == tuples@.len());
        tuples = seek::extend_tuples(&tuples, &parts[k]);
        assert(seek::tuples_view(tuples@).len() == tuples@.len());
        if tuples.len() > MAX_PROBES {
            proof {
                lemma_overfull_grows(all, (k + 1) as nat, all.len());
            }
            return None;
        }
        k += 1;
    }
    Some(tuples)
}

/// What a seek on an index does.
#[derive(Debug)]
pub enum SeekPlan {
    /// The pins cannot be served exactly: scan.
    Decline,
    /// Nothing can match.
    Nothing,
    /// Look these value tuples up.
    Probe { tuples: Vec<Vec<ModelValue>> },
}

/// The value that a [`SeekPlan`] stands for.
pub enum SeekPlanView {
    Decline,
    Nothing,
    Probe { tuples: Seq<Seq<ModelValueView>> },
}

impl SeekPlan {
    pub open spec fn view(&self) -> SeekPlanView {
        match self {
            SeekPlan::Decline => SeekPlanView::Decline,
            SeekPlan::Nothing => SeekPlanView::Nothing,
            SeekPlan::Probe { tuples } => SeekPlanView::Probe { tuples: seek::tuples_view(tuples@) },
        }
    }
}

/// The plan with the alternatives of the components from `i` on behind `parts`:
/// the first component that cannot be served, or that nothing equals, decides.
pub open spec fn index_plan_from(
    types: Seq<Option<PropertyType>>,
    values: Seq<ValueView>,
    i: int,
    parts: Seq<Seq<ModelValueView>>,
) -> SeekPlanView
    decreases values.len() - i,
{
    if i < 0 || i >= values.len() || i >= types.len() {
        match bounded_product(parts) {
            Some(tuples) => SeekPlanView::Probe { tuples },
            None => SeekPlanView::Decline,
        }
    } else {
        match index_probes(types[i], values[i]) {
            None => SeekPlanView::Decline,
            Some(alternatives) => if alternatives.len() == 0 {
                SeekPlanView::Nothing
            } else {
                index_plan_from(types, values, i + 1, parts.push(alternatives))
            },
        }
    }
}

/// What a seek on an index does: an index over other properties than the
/// expected ones, or another number of values, declines.
pub open spec fn index_plan(
    info: IndexInfo,
    properties: Seq<Seq<char>>,
    values: Seq<ValueView>,
) -> SeekPlanView {
    if text::strings_view(info.properties@) != properties || values.len() != properties.len() {
        SeekPlanView::Decline
    } else {
        index_plan_from(info.types@, values, 0, seq![])
    }
}

/// Plan an equality on a declared index: the hint may have been bound against
/// another version's catalogue, so the index must be over exactly `properties`.
pub fn plan_index_seek(info: &IndexInfo, properties: &Vec<String>, values: &Vec<Value>) -> (r:
    SeekPlan)
    ensures
        r@ == index_plan(*info, text::strings_view(properties@), value::values_view(values@)),
{
    let ghost all = value::values_view(values@);
    let ghost types = info.types@;
    assert(all.len() == values@.len());
    assert(text::strings_view(properties@).len() == properties@.len());
    if !adapter::same_strings(&info.properties, properties) || values.len() != properties.len() {
        return SeekPlan::Decline;
    }
    let mut parts: Vec<Vec<ModelValue>> = Vec::new();
    let mut i: usize = 0;
    assert(seek::tuples_view(parts@) =~= seq![]);
    while i < values.len() && i < info.types.len()
        invariant
            i <= values.len(),
            i <= info.types.len(),
            all == value::values_view(values@),
            types == info.types@,
            all.len() == text::strings_view(properties@).len(),
            text::strings_view(info.properties@) == text::strings_view(properties@),
            index_plan_from(types, all, 0, seq![]) == index_plan_from(
                types,
                all,
                i as int,
                seek::tuples_view(parts@),
            ),
        decreases values.len() - i,
    {
        assert(all[i as int] == values@[i as int]@);
        match probe_value(info.types[i], &values[i]) {
            None => {
                return SeekPlan::Decline;
            },
            Some(alternatives) => {
                assert(records::model_values_view(alternatives@).len() == alternatives@.len());
                if alternatives.len() == 0 {
                    return SeekPlan::Nothing;
                }
                assert(seek::tuples_view(parts@.push(alternatives)) =~= seek::tuples_view(parts@).push(
                    records::model_values_view(alternatives@),
                ));
                parts.push(alternatives);
            },
        }
        i += 1;
    }
    match tuples_of(&parts) {
        Some(tuples) => SeekPlan::Probe { tuples },
        None => SeekPlan::Decline,
    }
}

/// The tuples of a key seek, with the alternatives of the values from `i` on
/// behind `parts`.
pub open spec fn key_tuples_from(
    values: Seq<ValueView>,
    i: int,
    parts: Seq<Seq<ModelValueView>>,
) -> Option<Seq<Seq<ModelValueView>>>
    decreases values.len() - i,
{
    if i < 0 || i >= values.len() {
        bounded_product(parts)
    } else {
        match key_probes(values[i]) {
            None => None,
            Some(alternatives) => key_tuples_from(values, i + 1, parts.push(alternatives)),
        }
    }
}

/// The keys of a label that those of the first `n` tuples make that can be keys.
pub open spec fn keys_made(label: Seq<char>, tuples: Seq<Seq<ModelValueView>>, n: nat) -> Seq<
    NodeKeyView,
>
    decreases n,
{
    if n == 0 || n > tuples.len() {
        seq![]
    } else {
        let before = keys_made(label, tuples, (n - 1) as nat);
        if identity::key_fault(tuples[n - 1], 0) is Some {
            before
        } else {
            before.push(NodeKeyView { label, key: tuples[n - 1] })
        }
    }
}

/// The keys that a key seek looks up.
pub open spec fn key_plan(label: Seq<char>, values: Seq<ValueView>) -> Option<Seq<NodeKeyView>> {
    match key_tuples_from(values, 0, seq![]) {
        Some(tuples) => Some(keys_made(label, tuples, tuples.len())),
        None => None,
    }
}

fn key_tuples(values: &Vec<Value>) -> (r: Option<Vec<Vec<ModelValue>>>)
    ensures
        key_tuples_from(value::values_view(values@), 0, seq![]) == match r {
            Some(tuples) => Some(seek::tuples_view(tuples@)),
            None => None,
        },
{
    let ghost all = value::values_view(values@);
    let mut parts: Vec<Vec<ModelValue>> = Vec::new();
    let mut i: usize = 0;
    assert(seek::tuples_view(parts@) =~= seq![]);
    while i < values.len()
        invariant
            i <= values.len(),
            all == value::values_view(values@),
            key_tuples_from(all, 0, seq![]) == key_tuples_from(
                all,
                i as int,
                seek::tuples_view(parts@),
            ),
        decreases values.len() - i,
    {
        assert(all[i as int] == values@[i as int]@);
        match probe_key(&values[i]) {
            None => {
                return None;
            },
            Some(alternatives) => {
                assert(seek::tuples_view(parts@.push(alternatives)) =~= seek::tuples_view(parts@).push(
                    records::model_values_view(alternatives@),
                ));
                parts.push(alternatives);
            },
        }
        i += 1;
    }
    tuples_of(&parts)
}

/// Plan a primary-key lookup: the keys to read, or `None` where the probes may
/// miss a node and the scan must answer.
pub fn plan_key_seek(label: &str, key_values: &Vec<Value>) -> (r: Option<Vec<NodeKey>>)
    ensures
        key_plan(label@, value::values_view(key_values@)) == match r {
            Some(keys) => Some(stage::node_keys_view(keys@)),
            None => None,
        },
{
    let tuples = match key_tuples(key_values) {
        None => {
            return None;
        },
        Some(tuples) => tuples,
    };
    let ghost all = seek::tuples_view(tuples@);
    assert(all.len() == tuples@.len());
    let mut out: Vec<NodeKey> = Vec::new();
    let mut i: usize = 0;
    assert(stage::node_keys_view(out@) =~= seq![]);
    while i < tuples.len()
        invariant
            i <= tuples.len(),
            all == seek::tuples_view(tuples@),
            stage::node_keys_view(out@) == keys_made(label@, all, i as nat),
        decreases tuples.len() - i,
    {
        assert(all[i as int] == records::model_values_view(tuples@[i as int]@));
        if identity::find_key_fault(&tuples[i]).is_none() {
            let key = NodeKey { label: label.to_owned(), key: records::dup_model_values(&tuples[i]) };
            assert(
                stage::node_keys_view(out@.push(key)) =~= stage::node_keys_view(out@).push(key@)
            );
            out.push(key);
        }
        i += 1;
    }
    Some(out)
}

/// The nodes that a key seek found. Finding none is no answer: the scan confirms
/// an absence.
pub fn key_seek_answer(stored: &Vec<StoredNode>, names: &KeyNames) -> (r: Option<Vec<NodeValue>>)
    ensures
        stored@.len() == 0 ==> r is None,
        stored@.len() > 0 ==> r is Some && value::node_values_view(r->Some_0@) == adapter::nodes_of(
            stored@,
            names@,
        ),
{
    if stored.len() == 0 {
        return None;
    }
    let ghost all = adapter::nodes_of(stored@, names@);
    let mut out: Vec<NodeValue> = Vec::new();
    let mut i: usize = 0;
    assert(value::node_values_view(out@) =~= all.take(0));
    while i < stored.len()
        invariant
            i <= stored.len(),
            all == adapter::nodes_of(stored@, names@),
            value::node_values_view(out@) == all.take(i as int),
        decreases stored.len() - i,
    {
        let node = adapter::node_value(&stored[i].id, &stored[i].key, &stored[i].record, names);
        assert(
            value::node_values_view(out@.push(node)) =~= value::node_values_view(out@).push(node@)
        );
        assert(all.take(i + 1) =~= all.take(i as int).push(all[i as int]));
        out.push(node);
        i += 1;
    }
    assert(all.take(i as int) =~= all);
    Some(out)
}

/// What a range seek over storage reads: the parts of the range, or nothing where
/// it declines. Only numeric bounds are served: a text bound could lie on either
/// side of a value that is stored as bytes or as a temporal one, while a number
/// never compares with its rendering.
pub open spec fn stored_families(
    info: IndexInfo,
    property: Seq<char>,
    lower: Option<RangeEnd>,
    upper: Option<RangeEnd>,
) -> Option<Families> {
    if text::strings_view(info.properties@) != seq![property] {
        None
    } else if !seek::is_numeric(lower) || !seek::is_numeric(upper) {
        None
    } else {
        families::families_of(lower, upper)
    }
}

/// Plan a range on a declared index over one property: `None` means that the scan
/// must answer.
pub fn plan_index_range(
    info: &IndexInfo,
    property: &str,
    lower: Option<(&Value, bool)>,
    upper: Option<(&Value, bool)>,
) -> (r: Option<Families>)
    ensures
        r == stored_families(
            *info,
            property@,
            seek::range_end_view(lower),
            seek::range_end_view(upper),
        ),
{
    proof {
        if info.properties@.len() == 1 {
            if info.properties@[0]@ == property@ {
                assert(text::strings_view(info.properties@) =~= seq![property@]);
            } else {
                assert(text::strings_view(info.properties@)[0] != seq![property@][0]);
            }
        } else {
            assert(text::strings_view(info.properties@).len() != seq![property@].len());
        }
    }
    if info.properties.len() != 1 || !text::str_eq(info.properties[0].as_str(), property) {
        None
    } else if !seek::numeric(&lower) || !seek::numeric(&upper) {
        None
    } else {
        families::numeric_families(lower, upper)
    }
}

// --- Expansion --------------------------------------------------------------------------------------

/// The relationships of the first `n` that are followed, each with the node at
/// its far end. A loop that the outgoing pass has met is not met again.
pub open spec fn followed(
    rels: Seq<StoredRel>,
    types: Seq<Seq<char>>,
    node: EntityIdView,
    outgoing: bool,
    both: bool,
    n: nat,
) -> Seq<(RelValueView, EntityIdView)>
    decreases n,
{
    if n == 0 || n > rels.len() {
        seq![]
    } else {
        let before = followed(rels, types, node, outgoing, both, (n - 1) as nat);
        let rel = rels[n - 1];
        if (types.len() > 0 && !types.contains(rel.rtype@)) || (both && !outgoing && rel.start@
            == node) {
            before
        } else {
            before.push(
                (
                    adapter::rel_of(rel),
                    if outgoing {
                        rel.end@
                    } else {
                        rel.start@
                    },
                ),
            )
        }
    }
}

pub open spec fn followed_view(v: Seq<(RelValue, EntityId)>) -> Seq<(RelValueView, EntityIdView)> {
    Seq::new(v.len(), |i: int| (v[i].0@, v[i].1@))
}

fn push_followed(
    rels: &Vec<StoredRel>,
    types: &Vec<String>,
    node: &EntityId,
    outgoing: bool,
    both: bool,
    out: &mut Vec<(RelValue, EntityId)>,
)
    ensures
        followed_view(final(out)@) == followed_view(old(out)@) + followed(
            rels@,
            text::strings_view(types@),
            node@,
            outgoing,
            both,
            rels@.len(),
        ),
{
    let ghost ts = text::strings_view(types@);
    let ghost before = followed_view(out@);
    assert(ts.len() == types@.len());
    let mut i: usize = 0;
    assert(followed_view(out@) =~= before + followed(rels@, ts, node@, outgoing, both, 0));
    while i < rels.len()
        invariant
            i <= rels.len(),
            ts == text::strings_view(types@),
            ts.len() == types@.len(),
            followed_view(out@) == before + followed(rels@, ts, node@, outgoing, both, i as nat),
        decreases rels.len() - i,
    {
        let rel = &rels[i];
        let typed = types.len() == 0 || text::strings_contain(types, rel.rtype.as_str());
        if typed && !(both && !outgoing && rel.start.same(node)) {
            let far = if outgoing {
                rel.end.dup()
            } else {
                rel.start.dup()
            };
            let pair = (adapter::rel_value(rel), far);
            let ghost v = out@;
            out.push(pair);
            assert(followed_view(v.push(pair)) =~= followed_view(v).push((pair.0@, pair.1@)));
        }
        i += 1;
        assert(followed_view(out@) =~= before + followed(
            rels@,
            ts,
            node@,
            outgoing,
            both,
            i as nat,
        ));
    }
}

/// Which stored relationships an expansion follows, given those that leave the
/// node and those that enter it: the outgoing ones first. The caller reads the
/// far ends and drops what is gone.
pub fn edges_followed(
    node: &EntityId,
    direction: Direction,
    types: &Vec<String>,
    leaving: &Vec<StoredRel>,
    entering: &Vec<StoredRel>,
) -> (r: Vec<(RelValue, EntityId)>)
    ensures
        followed_view(r@) == (if direction == Direction::In {
            seq![]
        } else {
            followed(
                leaving@,
                text::strings_view(types@),
                node@,
                true,
                direction == Direction::Undirected,
                leaving@.len(),
            )
        }) + (if direction == Direction::Out {
            seq![]
        } else {
            followed(
                entering@,
                text::strings_view(types@),
                node@,
                false,
                direction == Direction::Undirected,
                entering@.len(),
            )
        }),
{
    let both = direction == Direction::Undirected;
    let mut out: Vec<(RelValue, EntityId)> = Vec::new();
    assert(followed_view(out@) =~= seq![]);
    if direction != Direction::In {
        push_followed(leaving, types, node, true, both, &mut out);
        assert(followed_view(out@) =~= followed(
            leaving@,
            text::strings_view(types@),
            node@,
            true,
            both,
            leaving@.len(),
        ));
    }
    let ghost first = followed_view(out@);
    if direction != Direction::Out {
        push_followed(entering, types, node, false, both, &mut out);
    } else {
        assert(first + seq![] =~= first);
    }
    out
}

// --- Laws -------------------------------------------------------------------------------------------

/// A pin's raw probes, where a seek offers them, hold the stored form of every
/// stored value that the pin equals, if that value is not one that reads as a
/// text without being stored as such.
pub proof fn raw_probes_cover_what_is_equal(
    t: Option<PropertyType>,
    stored: ModelValueView,
    pin: ValueView,
)
    requires
        index_probes(t, pin) is Some,
        compare::equality(records::runtime_of(stored, 0), pin) == Some(true),
        stored is Deferred ==> !is_native(t),
        stored is Float ==> stored->Float_0 != float::SIGN,
        pin is Float ==> pin->Float_0 != float::SIGN,
    ensures
        index_probes(t, pin)->Some_0.contains(stored),
{
    let probes = index_probes(t, pin)->Some_0;
    match (records::runtime_of(stored, 0), pin) {
        (ValueView::Int(x), ValueView::Int(y)) => {
            assert(probes[0] == stored);
        },
        (ValueView::Float(x), ValueView::Int(y)) => {
            let n = y as int;
            if float::magnitude(float::of_int(n) as u64) == 0 {
                if -0x20_0000_0000_0000 < n < 0x20_0000_0000_0000 {
                    seek::lemma_zero_converts(n);
                } else {
                    float::lemma_large_integers(n);
                }
            }
            assert(probes[1] == stored);
        },
        (ValueView::Float(x), ValueView::Float(y)) => {
            assert(probes[0] == stored);
        },
        (ValueView::Int(x), ValueView::Float(y)) => {
            seek::lemma_equal_numbers(x, y);
            assert(probes[1] == stored);
        },
        (ValueView::Bool(x), ValueView::Bool(y)) => {
            assert(probes[0] == stored);
        },
        (ValueView::String(x), ValueView::String(y)) => {
            assert(probes[0] == stored);
        },
        _ => {},
    }
}

} // verus!
