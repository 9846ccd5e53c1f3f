//! The schema snapshot the binder resolves against, decoupled from the
//! repository so binding is a pure function over data.

use vstd::prelude::*;
use vstd::string::*;

use crate::names::{self, NameMap};
use crate::text;

verus! {

/// The declared type of a property.
#[derive(Debug, Clone, Copy, PartialEq, Eq, Structural)]
pub enum PropertyType {
    Bool,
    Int,
    Float,
    String,
    Bytes,
    Date,
    Time,
    DateTime,
    Duration,
}

/// What a label declares: its key tuple, the types of properties, and which of
/// them are required or unique.
#[derive(Debug)]
pub struct LabelDef {
    pub key: Vec<String>,
    pub types: NameMap<PropertyType>,
    pub required: Vec<String>,
    pub unique: Vec<String>,
}

/// What a relationship type declares.
#[derive(Debug)]
pub struct RelTypeDef {
    pub discriminator: Option<String>,
    pub types: NameMap<PropertyType>,
    pub required: Vec<String>,
}

/// A secondary index over properties of a label.
#[derive(Debug)]
pub struct IndexDef {
    pub label: String,
    pub properties: Vec<String>,
}

/// One declaration of the schema.
#[derive(Debug)]
pub enum SchemaEntry {
    Label { name: String, def: LabelDef },
    RelType { name: String, def: RelTypeDef },
    Index { name: String, def: IndexDef },
}

/// A read-only snapshot of the schema at the bound ref.
#[derive(Debug)]
pub struct Catalogue {
    labels: NameMap<LabelDef>,
    rel_types: NameMap<RelTypeDef>,
    /// Index name to declaration.
    indexes: NameMap<IndexDef>,
}

/// The value that a [`Catalogue`] stands for.
pub struct CatalogueView {
    pub labels: Seq<(Seq<char>, LabelDef)>,
    pub rel_types: Seq<(Seq<char>, RelTypeDef)>,
    pub indexes: Seq<(Seq<char>, IndexDef)>,
}

/// The first index from `i` on over exactly the one property of a label.
pub open spec fn index_from(
    indexes: Seq<(Seq<char>, IndexDef)>,
    label: Seq<char>,
    property: Seq<char>,
    i: int,
) -> Option<(Seq<char>, IndexDef)>
    decreases indexes.len() - i,
{
    if i < 0 || i >= indexes.len() {
        None
    } else if indexes[i].1.label@ == label && text::strings_view(indexes[i].1.properties@) == seq![
        property,
    ] {
        Some(indexes[i])
    } else {
        index_from(indexes, label, property, i + 1)
    }
}

/// Whether every one of the first `n` names is among `pinned`.
pub open spec fn all_pinned(names: Seq<Seq<char>>, pinned: Seq<Seq<char>>, n: nat) -> bool {
    forall|i: int| 0 <= i < n && i < names.len() ==> pinned.contains(#[trigger] names[i])
}

/// The first index of a label from `i` on all of whose properties are pinned.
pub open spec fn seekable_from(
    indexes: Seq<(Seq<char>, IndexDef)>,
    label: Seq<char>,
    pinned: Seq<Seq<char>>,
    i: int,
) -> Option<(Seq<char>, IndexDef)>
    decreases indexes.len() - i,
{
    if i < 0 || i >= indexes.len() {
        None
    } else {
        let properties = text::strings_view(indexes[i].1.properties@);
        if indexes[i].1.label@ == label && properties.len() > 0 && all_pinned(
            properties,
            pinned,
            properties.len(),
        ) {
            Some(indexes[i])
        } else {
            seekable_from(indexes, label, pinned, i + 1)
        }
    }
}

/// Whether every one of `names` is among `pinned`.
pub(crate) fn pins_all(names: &Vec<String>, pinned: &Vec<String>) -> (r: bool)
    ensures
        r == all_pinned(text::strings_view(names@), text::strings_view(pinned@), names@.len()),
{
    let ghost all = text::strings_view(names@);
    let ghost pins = text::strings_view(pinned@);
    let mut i: usize = 0;
    while i < names.len()
        invariant
            i <= names.len(),
            all == text::strings_view(names@),
            pins == text::strings_view(pinned@),
            forall|k: int| 0 <= k < i ==> pins.contains(#[trigger] all[k]),
        decreases names.len() - i,
    {
        assert(all[i as int] == names@[i as int]@);
        if !text::strings_contain(pinned, names[i].as_str()) {
            assert(!pins.contains(all[i as int]));
            return false;
        }
        i += 1;
    }
    true
}

impl CatalogueView {
    pub open spec fn empty() -> CatalogueView {
        CatalogueView { labels: seq![], rel_types: seq![], indexes: seq![] }
    }

    pub open spec fn label(self, name: Seq<char>) -> Option<LabelDef> {
        names::found(self.labels, name)
    }

    pub open spec fn rel_type(self, name: Seq<char>) -> Option<RelTypeDef> {
        names::found(self.rel_types, name)
    }

    /// The catalogue with one more declaration, in place of one of its name.
    pub open spec fn with_entry(self, entry: SchemaEntry) -> CatalogueView {
        match entry {
            SchemaEntry::Label { name, def } => CatalogueView {
                labels: names::bound_in(self.labels, name@, def),
                ..self
            },
            SchemaEntry::RelType { name, def } => CatalogueView {
                rel_types: names::bound_in(self.rel_types, name@, def),
                ..self
            },
            SchemaEntry::Index { name, def } => CatalogueView {
                indexes: names::bound_in(self.indexes, name@, def),
                ..self
            },
        }
    }

    /// The first `n` declarations, one after the other.
    pub open spec fn of_entries(entries: Seq<SchemaEntry>, n: nat) -> CatalogueView
        decreases n,
    {
        if n == 0 || n > entries.len() {
            CatalogueView::empty()
        } else {
            CatalogueView::of_entries(entries, (n - 1) as nat).with_entry(entries[n - 1])
        }
    }

    /// The names of the properties that a label declares: its key tuple plus
    /// any typed properties.
    pub open spec fn property_names(self, label: Seq<char>) -> Seq<Seq<char>> {
        match self.label(label) {
            Some(def) => text::strings_view(def.key@) + names::names_of(def.types@),
            None => seq![],
        }
    }

    /// The index over exactly `(label, property)`.
    pub open spec fn index_on(self, label: Seq<char>, property: Seq<char>) -> Option<
        (Seq<char>, IndexDef),
    > {
        index_from(self.indexes, label, property, 0)
    }

    /// Whether a property leads the key of a label.
    pub open spec fn is_key_prefix(self, label: Seq<char>, property: Seq<char>) -> bool {
        match self.label(label) {
            Some(def) => def.key@.len() > 0 && def.key@[0]@ == property,
            None => false,
        }
    }

    /// Whether a property is anywhere in the key of a label.
    pub open spec fn is_key_property(self, label: Seq<char>, property: Seq<char>) -> bool {
        match self.label(label) {
            Some(def) => text::strings_view(def.key@).contains(property),
            None => false,
        }
    }

    /// Whether an index covers a property of a label.
    pub open spec fn is_indexed(self, label: Seq<char>, property: Seq<char>) -> bool {
        exists|i: int|
            0 <= i < self.indexes.len() && #[trigger] self.indexes[i].1.label@ == label
                && text::strings_view(self.indexes[i].1.properties@).contains(property)
    }

    /// Whether a label declares a property anywhere: in its key, its types, as
    /// required or unique, or in an index.
    pub open spec fn declares_property(self, label: Seq<char>, property: Seq<char>) -> bool {
        self.is_indexed(label, property) || match self.label(label) {
            Some(def) => {
                ||| text::strings_view(def.key@).contains(property)
                ||| names::found(def.types@, property) is Some
                ||| text::strings_view(def.required@).contains(property)
                ||| text::strings_view(def.unique@).contains(property)
            },
            None => false,
        }
    }

    /// Whether a label declares types.
    pub open spec fn is_shaped(self, label: Seq<char>) -> bool {
        match self.label(label) {
            Some(def) => def.types@.len() > 0,
            None => false,
        }
    }
}

impl Catalogue {
    pub closed spec fn view(&self) -> CatalogueView {
        CatalogueView {
            labels: self.labels@,
            rel_types: self.rel_types@,
            indexes: self.indexes@,
        }
    }

    /// An empty catalogue: no declared labels, types or indexes. Useful for
    /// schema-free binding.
    pub fn empty() -> (r: Catalogue)
        ensures
            r@ == CatalogueView::empty(),
    {
        Catalogue { labels: NameMap::new(), rel_types: NameMap::new(), indexes: NameMap::new() }
    }

    /// Whether the catalogue declares nothing: a schema-free repository.
    pub fn is_empty(&self) -> (r: bool)
        ensures
            r == (self@ == CatalogueView::empty()),
    {
        let r = self.labels.len() == 0 && self.rel_types.len() == 0 && self.indexes.len() == 0;
        proof {
            if r {
                assert(self@.labels =~= seq![]);
                assert(self@.rel_types =~= seq![]);
                assert(self@.indexes =~= seq![]);
            }
        }
        r
    }

    fn declare(&mut self, entry: SchemaEntry)
        ensures
            final(self)@ == old(self)@.with_entry(entry),
    {
        match entry {
            SchemaEntry::Label { name, def } => {
                self.labels.insert(name, def);
            },
            SchemaEntry::RelType { name, def } => {
                self.rel_types.insert(name, def);
            },
            SchemaEntry::Index { name, def } => {
                self.indexes.insert(name, def);
            },
        }
    }

    /// The catalogue of a schema's declarations; a later one of a name stands
    /// in place of an earlier one.
    pub fn from_entries(entries: Vec<SchemaEntry>) -> (r: Catalogue)
        ensures
            r@ == CatalogueView::of_entries(entries@, entries@.len()),
    {
        let ghost all = entries@;
        let mut rest = entries;
        let mut r = Catalogue::empty();
        let mut i: usize = 0;
        let n: usize = rest.len();
        while i < n
            invariant
                i <= n,
                n == all.len(),
                rest@ == all.skip(i as int),
                r@ == CatalogueView::of_entries(all, i as nat),
            decreases n - i,
        {
            let entry = rest.remove(0);
            assert(entry == all[i as int]);
            assert(rest@ =~= all.skip(i + 1));
            r.declare(entry);
            i += 1;
        }
        r
    }

    pub fn label(&self, name: &str) -> (r: Option<&LabelDef>)
        ensures
            self@.label(name@) == match r {
                Some(def) => Some(*def),
                None => None,
            },
    {
        self.labels.get(name)
    }

    pub fn rel_type(&self, name: &str) -> (r: Option<&RelTypeDef>)
        ensures
            self@.rel_type(name@) == match r {
                Some(def) => Some(*def),
                None => None,
            },
    {
        self.rel_types.get(name)
    }

    /// Declared label names, for "did you mean" suggestions on an unknown
    /// label, in ascending order.
    pub fn label_names(&self) -> (r: Vec<String>)
        ensures
            text::strings_view(r@) == names::names_of(self@.labels),
    {
        self.labels.names()
    }

    /// Declared relationship-type names, for suggestions on an unknown type.
    pub fn rel_type_names(&self) -> (r: Vec<String>)
        ensures
            text::strings_view(r@) == names::names_of(self@.rel_types),
    {
        self.rel_types.names()
    }

    /// The property names a `label` declares, for suggestions on an unknown
    /// property. Empty if the label is undeclared.
    pub fn property_names(&self, label: &str) -> (r: Vec<String>)
        ensures
            text::strings_view(r@) == self@.property_names(label@),
    {
        match self.label(label) {
            Some(def) => {
                let mut out = text::dup_strings(&def.key);
                let mut typed = def.types.names();
                let ghost keys = text::strings_view(out@);
                let ghost more = text::strings_view(typed@);
                out.append(&mut typed);
                assert(text::strings_view(out@) =~= keys + more);
                out
            },
            None => {
                let out: Vec<String> = Vec::new();
                assert(text::strings_view(out@) =~= seq![]);
                out
            },
        }
    }

    /// A declared single-property secondary index over `(label, property)`, if
    /// any. Composite (multi-property) indexes are not consulted.
    pub fn index_on(&self, label: &str, property: &str) -> (r: Option<(&str, &IndexDef)>)
        ensures
            self@.index_on(label@, property@) == match r {
                Some((name, def)) => Some((name@, *def)),
                None => None,
            },
    {
        let ghost all = self@.indexes;
        let mut i: usize = 0;
        while i < self.indexes.len()
            invariant
                i <= self.indexes@.len(),
                all == self.indexes@,
                all == self@.indexes,
                self@.index_on(label@, property@) == index_from(
                    all,
                    label@,
                    property@,
                    i as int,
                ),
            decreases self.indexes@.len() - i,
        {
            let def = self.indexes.at(i);
            if text::str_eq(def.label.as_str(), label) && def.properties.len() == 1 && text::str_eq(
                def.properties[0].as_str(),
                property,
            ) {
                assert(text::strings_view(def.properties@) =~= seq![property@]);
                return Some((self.indexes.name(i), def));
            }
            proof {
                if text::strings_view(def.properties@) == seq![property@] {
                    assert(text::strings_view(def.properties@)[0] == property@);
                    assert(text::strings_view(def.properties@).len() == 1);
                }
            }
            i += 1;
        }
        None
    }

    /// A declared index over `label`, single or composite, that an equality on
    /// every one of the `pinned` properties can seek on, if any.
    pub fn seek_index_on(&self, label: &str, pinned: &Vec<String>) -> (r: Option<(&str, &IndexDef)>)
        ensures
            seekable_from(self@.indexes, label@, text::strings_view(pinned@), 0) == match r {
                Some((name, def)) => Some((name@, *def)),
                None => None,
            },
    {
        let ghost all = self@.indexes;
        let ghost pins = text::strings_view(pinned@);
        let mut i: usize = 0;
        while i < self.indexes.len()
            invariant
                i <= self.indexes@.len(),
                all == self.indexes@,
                pins == text::strings_view(pinned@),
                seekable_from(all, label@, pins, 0) == seekable_from(all, label@, pins, i as int),
            decreases self.indexes@.len() - i,
        {
            let def = self.indexes.at(i);
            assert(text::strings_view(def.properties@).len() == def.properties@.len());
            if text::str_eq(def.label.as_str(), label) && def.properties.len() > 0 && pins_all(
                &def.properties,
                pinned,
            ) {
                return Some((self.indexes.name(i), def));
            }
            i += 1;
        }
        None
    }

    /// Whether `property` leads the key of `label`: the primary map itself
    /// serves as the key index.
    pub fn is_key_prefix(&self, label: &str, property: &str) -> (r: bool)
        ensures
            r == self@.is_key_prefix(label@, property@),
    {
        match self.label(label) {
            Some(def) => def.key.len() > 0 && text::str_eq(def.key[0].as_str(), property),
            None => false,
        }
    }

    /// Whether `property` is anywhere in `label`'s key tuple: the properties
    /// `SET`/`REMOVE` must never touch.
    pub fn is_key_property(&self, label: &str, property: &str) -> (r: bool)
        ensures
            r == self@.is_key_property(label@, property@),
    {
        match self.label(label) {
            Some(def) => text::strings_contain(&def.key, property),
            None => false,
        }
    }

    fn is_indexed(&self, label: &str, property: &str) -> (r: bool)
        ensures
            r == self@.is_indexed(label@, property@),
    {
        let ghost all = self@.indexes;
        let mut i: usize = 0;
        while i < self.indexes.len()
            invariant
                i <= self.indexes@.len(),
                all == self.indexes@,
                all == self@.indexes,
                forall|k: int|
                    0 <= k < i ==> !(#[trigger] all[k].1.label@ == label@ && text::strings_view(
                        all[k].1.properties@,
                    ).contains(property@)),
            decreases self.indexes@.len() - i,
        {
            let def = self.indexes.at(i);
            if text::str_eq(
                def.label.as_str(),
                label,
            ) && text::strings_contain(&def.properties, property) {
                assert(all[i as int].1.label@ == label@);
                return true;
            }
            i += 1;
        }
        false
    }

    /// Whether `label` declares `property` anywhere.
    pub fn declares_property(&self, label: &str, property: &str) -> (r: bool)
        ensures
            r == self@.declares_property(label@, property@),
    {
        self.is_indexed(label, property) || match self.label(label) {
            Some(def) => text::strings_contain(&def.key, property) || def.types.contains(property)
                || text::strings_contain(&def.required, property) || text::strings_contain(
                &def.unique,
                property,
            ),
            None => false,
        }
    }

    /// Whether `label` declares types.
    pub fn is_shaped(&self, label: &str) -> (r: bool)
        ensures
            r == self@.is_shaped(label@),
    {
        match self.label(label) {
            Some(def) => def.types.len() > 0,
            None => false,
        }
    }
}

} // verus!
