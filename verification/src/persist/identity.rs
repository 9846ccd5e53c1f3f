//! Deriving a node's stored identity from its labels and properties.

use vstd::prelude::*;
use vstd::string::*;

use crate::bind::catalogue::{Catalogue, CatalogueView, LabelDef};
use crate::exec::float;
use crate::exec::records::{
    self, ModelValue, ModelValueView, NodeKey, NodeKeyView, NodeRecord, NodeRecordView,
};
use crate::exec::value::{
    self, NodeValue, NodeValueView, PropertyMap, PropertyMapView, StoredValue, StoredValueView,
    Value, ValueView,
};
use crate::persist::error::{self, KeyError, PersistError, PersistErrorView};
use crate::text;

verus! {

/// Whether a label declares a key.
pub open spec fn declares_key(catalogue: CatalogueView, label: Seq<char>) -> bool {
    match catalogue.label(label) {
        Some(def) => def.key@.len() > 0,
        None => false,
    }
}

/// Where the first label from `i` on stands that declares a key; at the end
/// where none does.
pub open spec fn keyed_from(labels: Seq<Seq<char>>, i: int, catalogue: CatalogueView) -> int
    decreases labels.len() - i,
{
    if i < 0 || i >= labels.len() {
        labels.len() as int
    } else if declares_key(catalogue, labels[i]) {
        i
    } else {
        keyed_from(labels, i + 1, catalogue)
    }
}

/// Where a node's primary label stands: the one that declares a key. Without
/// one the node has no identity, with two it is ambiguous.
pub open spec fn primary_of(labels: Seq<Seq<char>>, catalogue: CatalogueView) -> Result<
    int,
    PersistErrorView,
> {
    let i = keyed_from(labels, 0, catalogue);
    if i < labels.len() {
        let j = keyed_from(labels, i + 1, catalogue);
        if j < labels.len() {
            Err(PersistErrorView::AmbiguousIdentity { labels, first: labels[i], second: labels[j] })
        } else {
            Ok(i)
        }
    } else if labels.len() == 0 {
        Err(
            PersistErrorView::Identity {
                reason:
                    "this node has no labels — in Cypher a label is written with a colon, e.g. `(:Topic {…})`; a bare name like `(Topic {…})` is a variable, not a label"@,
            },
        )
    } else {
        Err(
            PersistErrorView::Identity {
                reason: "none of the labels "@ + error::label_list(labels)
                    + " declares a key, so this node has no identity (Invariant #3) — declare one first, e.g. `acetone declare-label "@
                    + text::quoted(labels[0]) + " --key <property>`"@,
            },
        )
    }
}

fn find_keyed(labels: &Vec<String>, from: usize, catalogue: &Catalogue) -> (r: usize)
    requires
        from <= labels@.len(),
    ensures
        r == keyed_from(text::strings_view(labels@), from as int, catalogue@),
        r <= labels@.len(),
{
    let ghost all = text::strings_view(labels@);
    let mut i: usize = from;
    while i < labels.len()
        invariant
            i <= labels.len(),
            all == text::strings_view(labels@),
            keyed_from(all, from as int, catalogue@) == keyed_from(all, i as int, catalogue@),
        decreases labels.len() - i,
    {
        assert(all[i as int] == labels@[i as int]@);
        let keyed = match catalogue.label(labels[i].as_str()) {
            Some(def) => def.key.len() > 0,
            None => false,
        };
        if keyed {
            return i;
        }
        i += 1;
    }
    i
}

fn primary_label(labels: &Vec<String>, catalogue: &Catalogue) -> (r: Result<usize, PersistError>)
    ensures
        primary_of(text::strings_view(labels@), catalogue@) == match r {
            Ok(i) => Ok::<int, PersistErrorView>(i as int),
            Err(e) => Err(e@),
        },
        r is Ok ==> r->Ok_0 < labels@.len(),
        r is Ok ==> declares_key(catalogue@, labels@[r->Ok_0 as int]@),
{
    let ghost all = text::strings_view(labels@);
    assert(all.len() == labels@.len());
    let i: usize = find_keyed(labels, 0, catalogue);
    if i < labels.len() {
        proof {
            lemma_keyed(all, 0, catalogue@);
            assert(all[i as int] == labels@[i as int]@);
        }
        let j: usize = find_keyed(labels, i + 1, catalogue);
        if j < labels.len() {
            assert(all[j as int] == labels@[j as int]@);
            return Err(
                PersistError::AmbiguousIdentity {
                    labels: text::dup_strings(labels),
                    first: labels[i].clone(),
                    second: labels[j].clone(),
                },
            );
        }
        Ok(i)
    } else if labels.len() == 0 {
        Err(
            PersistError::Identity {
                reason:
                    "this node has no labels — in Cypher a label is written with a colon, e.g. `(:Topic {…})`; a bare name like `(Topic {…})` is a variable, not a label".to_owned(),
            },
        )
    } else {
        assert(all[0] == labels@[0]@);
        let head = text::join3(
            "none of the labels ",
            error::format_labels(labels).as_str(),
            " declares a key, so this node has no identity (Invariant #3) — declare one first, e.g. `acetone declare-label ",
        );
        Err(
            PersistError::Identity {
                reason: text::join3(
                    head.as_str(),
                    text::quote(labels[0].as_str()).as_str(),
                    " --key <property>`",
                ),
            },
        )
    }
}

proof fn lemma_keyed(labels: Seq<Seq<char>>, i: int, catalogue: CatalogueView)
    requires
        0 <= i <= labels.len(),
    ensures
        i <= keyed_from(labels, i, catalogue) <= labels.len(),
        keyed_from(labels, i, catalogue) < labels.len() ==> declares_key(
            catalogue,
            labels[keyed_from(labels, i, catalogue)],
        ),
        forall|k: int|
            i <= k < keyed_from(labels, i, catalogue) ==> !declares_key(
                catalogue,
                #[trigger] labels[k],
            ),
    decreases labels.len() - i,
{
    if i < labels.len() && !declares_key(catalogue, labels[i]) {
        lemma_keyed(labels, i + 1, catalogue);
    }
}

// --- Keys -------------------------------------------------------------------------------------------

/// The name of a stored value's type, where it must not form a key: bytes and
/// the temporal types travel through queries as texts, so comparing identities
/// would compare renderings.
pub open spec fn deferred_type(v: ModelValueView) -> Option<Seq<char>> {
    match v {
        ModelValueView::Deferred(StoredValueView::Bytes(_)) => Some("bytes"@),
        ModelValueView::Deferred(StoredValueView::Date { .. }) => Some("date"@),
        ModelValueView::Deferred(StoredValueView::Time { .. }) => Some("time"@),
        ModelValueView::Deferred(StoredValueView::DateTime { .. }) => Some("datetime"@),
        ModelValueView::Deferred(StoredValueView::Duration { .. }) => Some("duration"@),
        _ => None,
    }
}

/// The rendered type name of a value that must not form a node key, if it is
/// one.
fn deferred_type_text(v: &ModelValue) -> (r: Option<&'static str>)
    ensures
        deferred_type(v@) == match r {
            Some(name) => Some(name@),
            None => None,
        },
{
    match v {
        ModelValue::Deferred(StoredValue::Bytes(_)) => Some("bytes"),
        ModelValue::Deferred(StoredValue::Date { .. }) => Some("date"),
        ModelValue::Deferred(StoredValue::Time { .. }) => Some("time"),
        ModelValue::Deferred(StoredValue::DateTime { .. }) => Some("datetime"),
        ModelValue::Deferred(StoredValue::Duration { .. }) => Some("duration"),
        _ => None,
    }
}

/// The value of one key property.
pub open spec fn key_value(
    properties: PropertyMapView,
    label: Seq<char>,
    name: Seq<char>,
) -> Result<ModelValueView, PersistErrorView> {
    match properties.lookup(name) {
        None => Err(
            PersistErrorView::Identity {
                reason: "node "@ + text::quoted(label) + " is missing key property "@ + text::quoted(
                    name,
                ),
            },
        ),
        Some(v) => match records::stored_as(v, 0) {
            Err(kind) => Err(PersistErrorView::Value { kind }),
            Ok(m) => match deferred_type(m) {
                Some(type_text) => Err(
                    PersistErrorView::KeyValueType { label, property: name, type_text },
                ),
                None => Ok(m),
            },
        },
    }
}

/// The values of the first `n` key properties.
pub open spec fn key_values(
    properties: PropertyMapView,
    label: Seq<char>,
    names: Seq<Seq<char>>,
    n: nat,
) -> Result<Seq<ModelValueView>, PersistErrorView>
    decreases n,
{
    if n == 0 || n > names.len() {
        Ok(seq![])
    } else {
        match key_values(properties, label, names, (n - 1) as nat) {
            Err(e) => Err(e),
            Ok(before) => match key_value(properties, label, names[n - 1]) {
                Err(e) => Err(e),
                Ok(m) => Ok(before.push(m)),
            },
        }
    }
}

proof fn lemma_key_values_err(
    properties: PropertyMapView,
    label: Seq<char>,
    names: Seq<Seq<char>>,
    m: nat,
    n: nat,
)
    requires
        m <= n <= names.len(),
        key_values(properties, label, names, m) is Err,
    ensures
        key_values(properties, label, names, n) == key_values(properties, label, names, m),
    decreases n - m,
{
    if m < n {
        lemma_key_values_err(properties, label, names, m, (n - 1) as nat);
    }
}

fn one_key_value(properties: &PropertyMap, label: &str, name: &str) -> (r: Result<
    ModelValue,
    PersistError,
>)
    ensures
        key_value(properties@, label@, name@) == match r {
            Ok(m) => Ok::<ModelValueView, PersistErrorView>(m@),
            Err(e) => Err(e@),
        },
{
    match properties.get(name) {
        None => {
            let head = text::join3(
                "node ",
                text::quote(label).as_str(),
                " is missing key property ",
            );
            Err(
                PersistError::Identity { reason: text::join2(head.as_str(), text::quote(name).as_str()) },
            )
        },
        Some(v) => match records::storable(v) {
            Err(kind) => Err(PersistError::Value { kind }),
            Ok(m) => match deferred_type_text(&m) {
                Some(type_text) => Err(
                    PersistError::KeyValueType {
                        label: label.to_owned(),
                        property: name.to_owned(),
                        type_text,
                    },
                ),
                None => Ok(m),
            },
        },
    }
}

fn all_key_values(properties: &PropertyMap, label: &str, names: &Vec<String>) -> (r: Result<
    Vec<ModelValue>,
    PersistError,
>)
    ensures
        key_values(properties@, label@, text::strings_view(names@), names@.len()) == match r {
            Ok(all) => Ok::<Seq<ModelValueView>, PersistErrorView>(
                records::model_values_view(all@)
            ),
            Err(e) => Err(e@),
        },
{
    let ghost all = text::strings_view(names@);
    let mut out: Vec<ModelValue> = Vec::new();
    let mut i: usize = 0;
    assert(records::model_values_view(out@) =~= seq![]);
    while i < names.len()
        invariant
            i <= names.len(),
            all == text::strings_view(names@),
            key_values(properties@, label@, all, i as nat) == Ok::<_, PersistErrorView>(
                records::model_values_view(out@),
            ),
        decreases names.len() - i,
    {
        assert(all[i as int] == names@[i as int]@);
        match one_key_value(properties, label, names[i].as_str()) {
            Err(e) => {
                proof {
                    lemma_key_values_err(properties@, label@, all, (i + 1) as nat, all.len());
                }
                return Err(e);
            },
            Ok(m) => {
                assert(
                    records::model_values_view(out@.push(m)) =~= records::model_values_view(out@).push(m@)
                );
                out.push(m);
            },
        }
        i += 1;
    }
    Ok(out)
}

/// Why one value cannot stand in a key.
pub open spec fn value_fault(v: ModelValueView) -> Option<KeyError> {
    match v {
        ModelValueView::Null => Some(KeyError::Null),
        ModelValueView::List(_) => Some(KeyError::List),
        ModelValueView::Float(x) => if float::is_nan(x) {
            Some(KeyError::NotANumber)
        } else {
            None
        },
        _ => None,
    }
}

/// Why the values from `i` on do not make a key.
pub open spec fn key_fault(values: Seq<ModelValueView>, i: int) -> Option<KeyError>
    decreases values.len() - i,
{
    if i < 0 || i >= values.len() {
        None
    } else if value_fault(values[i]) is Some {
        value_fault(values[i])
    } else {
        key_fault(values, i + 1)
    }
}

pub(crate) fn find_key_fault(values: &Vec<ModelValue>) -> (r: Option<KeyError>)
    ensures
        r == key_fault(records::model_values_view(values@), 0),
{
    let ghost all = records::model_values_view(values@);
    let mut i: usize = 0;
    while i < values.len()
        invariant
            i <= values.len(),
            all == records::model_values_view(values@),
            key_fault(all, 0) == key_fault(all, i as int),
        decreases values.len() - i,
    {
        assert(all[i as int] == values@[i as int]@);
        match &values[i] {
            ModelValue::Null => {
                return Some(KeyError::Null);
            },
            ModelValue::List(_) => {
                return Some(KeyError::List);
            },
            ModelValue::Float(x) => {
                if float::nan(*x) {
                    return Some(KeyError::NotANumber);
                }
            },
            _ => {},
        }
        i += 1;
    }
    None
}

// --- Records ----------------------------------------------------------------------------------------

/// Those of the first `n` labels that are not `primary`.
pub open spec fn other_labels(labels: Seq<Seq<char>>, primary: Seq<char>, n: nat) -> Seq<Seq<char>>
    decreases n,
{
    if n == 0 || n > labels.len() {
        seq![]
    } else {
        let before = other_labels(labels, primary, (n - 1) as nat);
        if labels[n - 1] == primary {
            before
        } else {
            before.push(labels[n - 1])
        }
    }
}

fn secondary_labels(labels: &Vec<String>, primary: &str) -> (r: Vec<String>)
    ensures
        text::strings_view(r@) == other_labels(
            text::strings_view(labels@),
            primary@,
            labels@.len(),
        ),
{
    let ghost all = text::strings_view(labels@);
    let mut out: Vec<String> = Vec::new();
    let mut i: usize = 0;
    assert(text::strings_view(out@) =~= other_labels(all, primary@, 0));
    while i < labels.len()
        invariant
            i <= labels.len(),
            all == text::strings_view(labels@),
            text::strings_view(out@) == other_labels(all, primary@, i as nat),
        decreases labels.len() - i,
    {
        assert(all[i as int] == labels@[i as int]@);
        if !text::str_eq(labels[i].as_str(), primary) {
            let label = labels[i].clone();
            assert(text::strings_view(out@.push(label)) =~= text::strings_view(out@).push(label@));
            out.push(label);
        }
        i += 1;
    }
    out
}

/// The stored form of the first `n` properties but those of the key, in order.
pub open spec fn stored_properties(
    entries: Seq<(Seq<char>, ValueView)>,
    names: Seq<Seq<char>>,
    n: nat,
) -> Result<Seq<(Seq<char>, ModelValueView)>, PersistErrorView>
    decreases n,
{
    if n == 0 || n > entries.len() {
        Ok(seq![])
    } else {
        match stored_properties(entries, names, (n - 1) as nat) {
            Err(e) => Err(e),
            Ok(before) => if names.contains(entries[n - 1].0) {
                Ok(before)
            } else {
                match records::stored_as(entries[n - 1].1, 0) {
                    Err(kind) => Err(PersistErrorView::Value { kind }),
                    Ok(m) => Ok(before.push((entries[n - 1].0, m))),
                }
            },
        }
    }
}

proof fn lemma_stored_properties_err(
    entries: Seq<(Seq<char>, ValueView)>,
    names: Seq<Seq<char>>,
    m: nat,
    n: nat,
)
    requires
        m <= n <= entries.len(),
        stored_properties(entries, names, m) is Err,
    ensures
        stored_properties(entries, names, n) == stored_properties(entries, names, m),
    decreases n - m,
{
    if m < n {
        lemma_stored_properties_err(entries, names, m, (n - 1) as nat);
    }
}

/// The stored form of properties, but those named.
pub(crate) fn store_properties(properties: &PropertyMap, but: &Vec<String>) -> (r: Result<
    Vec<(String, ModelValue)>,
    PersistError,
>)
    ensures
        stored_properties(
            properties@.entries,
            text::strings_view(but@),
            properties@.entries.len(),
        ) == match r {
            Ok(all) => Ok::<Seq<(Seq<char>, ModelValueView)>, PersistErrorView>(
                records::string_model_values_view(all@),
            ),
            Err(e) => Err(e@),
        },
{
    let ghost all = properties@.entries;
    let ghost names = text::strings_view(but@);
    let mut out: Vec<(String, ModelValue)> = Vec::new();
    let mut i: usize = 0;
    assert(records::string_model_values_view(out@) =~= seq![]);
    assert(all.len() == properties.entries@.len());
    while i < properties.entries.len()
        invariant
            i <= properties.entries.len(),
            all == value::string_values_view(properties.entries@),
            all.len() == properties.entries@.len(),
            names == text::strings_view(but@),
            stored_properties(all, names, i as nat) == Ok::<_, PersistErrorView>(
                records::string_model_values_view(out@),
            ),
        decreases properties.entries.len() - i,
    {
        assert(all[i as int] == (
            properties.entries@[i as int].0@,
            properties.entries@[i as int].1@,
        ));
        let entry = &properties.entries[i];
        if !text::strings_contain(but, entry.0.as_str()) {
            match records::storable(&entry.1) {
                Err(kind) => {
                    proof {
                        lemma_stored_properties_err(all, names, (i + 1) as nat, all.len());
                    }
                    return Err(PersistError::Value { kind });
                },
                Ok(m) => {
                    let pair = (entry.0.clone(), m);
                    assert(records::string_model_values_view(out@.push(pair)) =~= records::string_model_values_view(
                        out@,
                    ).push((pair.0@, pair.1@)));
                    out.push(pair);
                },
            }
        }
        i += 1;
    }
    Ok(out)
}

/// The identity and the record of a node.
pub open spec fn identified(node: NodeValueView, catalogue: CatalogueView) -> Result<
    (NodeKeyView, NodeRecordView),
    PersistErrorView,
> {
    match primary_of(node.labels, catalogue) {
        Err(e) => Err(e),
        Ok(i) => {
            let label = node.labels[i];
            let names = text::strings_view(catalogue.label(label)->Some_0.key@);
            match key_values(node.properties, label, names, names.len()) {
                Err(e) => Err(e),
                Ok(key) => if key_fault(key, 0) is Some {
                    Err(PersistErrorView::Key { error: key_fault(key, 0)->Some_0 })
                } else {
                    match stored_properties(
                        node.properties.entries,
                        names,
                        node.properties.entries.len(),
                    ) {
                        Err(e) => Err(e),
                        Ok(properties) => Ok(
                            (
                                NodeKeyView { label, key },
                                NodeRecordView {
                                    secondary_labels: other_labels(
                                        node.labels,
                                        label,
                                        node.labels.len(),
                                    ),
                                    properties,
                                },
                            ),
                        ),
                    }
                },
            }
        },
    }
}

/// Derive the key and the record of a runtime node, using the schema to find the
/// primary label and its key properties. Exactly one label must declare a key:
/// with none a node is unidentifiable, with two it is ambiguous.
pub fn node_key_and_record(node: &NodeValue, catalogue: &Catalogue) -> (r: Result<
    (NodeKey, NodeRecord),
    PersistError,
>)
    ensures
        identified(node@, catalogue@) == match r {
            Ok((key, record)) => Ok::<(NodeKeyView, NodeRecordView), PersistErrorView>(
                (key@, record@),
            ),
            Err(e) => Err(e@),
        },
{
    assert(text::strings_view(node.labels@).len() == node.labels@.len());
    let i: usize = match primary_label(&node.labels, catalogue) {
        Err(e) => {
            return Err(e);
        },
        Ok(i) => i,
    };
    let label = node.labels[i].as_str();
    assert(node@.labels[i as int] == node.labels@[i as int]@);
    match catalogue.label(label) {
        None => Err(PersistError::Key { error: KeyError::NotAKey }),
        Some(def) => {
            assert(text::strings_view(def.key@).len() == def.key@.len());
            let key = match all_key_values(&node.properties, label, &def.key) {
                Err(e) => {
                    return Err(e);
                },
                Ok(key) => key,
            };
            if let Some(error) = find_key_fault(&key) {
                return Err(PersistError::Key { error });
            }
            match store_properties(&node.properties, &def.key) {
                Err(e) => Err(e),
                Ok(properties) => Ok(
                    (
                        NodeKey { label: label.to_owned(), key },
                        NodeRecord {
                            secondary_labels: secondary_labels(&node.labels, label),
                            properties,
                        },
                    ),
                ),
            }
        },
    }
}

} // verus!
