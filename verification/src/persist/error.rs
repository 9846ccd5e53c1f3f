//! Why changes cannot be persisted.

use vstd::prelude::*;
use vstd::string::*;

use crate::exec::records::{EdgeKey, EdgeKeyView, NodeKey, NodeKeyView};
use crate::exec::value::Value;
use crate::text;

verus! {

/// Why values do not make a node key, or an identity is not a key.
#[derive(Debug, Clone, Copy, PartialEq, Eq, Structural)]
pub enum KeyError {
    /// A key holds null.
    Null,
    /// A key holds a list.
    List,
    /// A key holds NaN.
    NotANumber,
    /// An identity is not that of a stored node.
    NotAKey,
}

/// How a key error reads.
pub open spec fn key_error_text(e: KeyError) -> Seq<char> {
    match e {
        KeyError::Null => "a node key cannot hold null"@,
        KeyError::List => "a node key cannot hold a list"@,
        KeyError::NotANumber => "a node key cannot hold NaN"@,
        KeyError::NotAKey => "the identity is not the key of a stored node"@,
    }
}

impl KeyError {
    /// The message.
    pub fn display(&self) -> (r: &'static str)
        ensures
            r@ == key_error_text(*self),
    {
        match self {
            KeyError::Null => "a node key cannot hold null",
            KeyError::List => "a node key cannot hold a list",
            KeyError::NotANumber => "a node key cannot hold NaN",
            KeyError::NotAKey => "the identity is not the key of a stored node",
        }
    }
}

/// Why changes cannot be persisted. The variants that show a key hold it as
/// values: how keys read is the storage model's business, and
/// [`PersistError::display`] takes their texts.
#[derive(Debug)]
pub enum PersistError {
    /// A node without an identity.
    Identity { reason: String },
    /// Two labels of a node declare a key.
    AmbiguousIdentity { labels: Vec<String>, first: String, second: String },
    /// A created node has the key of a stored one.
    DuplicateKey { key: NodeKey },
    /// One statement creates two nodes of one key.
    DuplicateKeyInStatement { key: NodeKey },
    /// A created relationship has the ends and the type of another.
    DuplicateEdge { key: EdgeKey },
    /// A stored node's key was changed.
    KeyImmutable { label: String },
    /// A required property is missing.
    MissingRequired { key: NodeKey, property: String },
    /// Another node has the value of a unique property.
    UniqueViolation { label: String, property: String },
    /// A value that cannot be stored.
    Value { kind: &'static str },
    /// A value of a type that cannot form a key.
    KeyValueType { label: String, property: String, type_text: &'static str },
    /// A malformed key.
    Key { error: KeyError },
}

/// The value that a [`PersistError`] stands for.
pub enum PersistErrorView {
    Identity { reason: Seq<char> },
    AmbiguousIdentity { labels: Seq<Seq<char>>, first: Seq<char>, second: Seq<char> },
    DuplicateKey { key: NodeKeyView },
    DuplicateKeyInStatement { key: NodeKeyView },
    DuplicateEdge { key: EdgeKeyView },
    KeyImmutable { label: Seq<char> },
    MissingRequired { key: NodeKeyView, property: Seq<char> },
    UniqueViolation { label: Seq<char>, property: Seq<char> },
    Value { kind: Seq<char> },
    KeyValueType { label: Seq<char>, property: Seq<char>, type_text: Seq<char> },
    Key { error: KeyError },
}

impl PersistError {
    pub open spec fn view(&self) -> PersistErrorView {
        match self {
            PersistError::Identity { reason } => PersistErrorView::Identity { reason: reason@ },
            PersistError::AmbiguousIdentity { labels, first, second } => PersistErrorView::AmbiguousIdentity { labels: text::strings_view(labels@), first: first@, second: second@ },
            PersistError::DuplicateKey { key } => PersistErrorView::DuplicateKey { key: key@ },
            PersistError::DuplicateKeyInStatement { key } => PersistErrorView::DuplicateKeyInStatement { key: key@ },
            PersistError::DuplicateEdge { key } => PersistErrorView::DuplicateEdge { key: key@ },
            PersistError::KeyImmutable { label } => PersistErrorView::KeyImmutable { label: label@ },
            PersistError::MissingRequired { key, property } => PersistErrorView::MissingRequired { key: key@, property: property@ },
            PersistError::UniqueViolation { label, property } => PersistErrorView::UniqueViolation { label: label@, property: property@ },
            PersistError::Value { kind } => PersistErrorView::Value { kind: kind@ },
            PersistError::KeyValueType { label, property, type_text } => PersistErrorView::KeyValueType { label: label@, property: property@, type_text: type_text@ },
            PersistError::Key { error } => PersistErrorView::Key { error: *error },
        }
    }
}

/// The first `n` names, quoted, with commas between.
pub open spec fn names_listed(names: Seq<Seq<char>>, n: nat) -> Seq<char>
    decreases n,
{
    if n == 0 || n > names.len() {
        ""@
    } else if n == 1 {
        text::quoted(names[0])
    } else {
        names_listed(names, (n - 1) as nat) + ", "@ + text::quoted(names[n - 1])
    }
}

/// A list of labels as it reads in a message.
pub open spec fn label_list(labels: Seq<Seq<char>>) -> Seq<char> {
    "["@ + names_listed(labels, labels.len()) + "]"@
}

pub(crate) fn format_labels(labels: &Vec<String>) -> (r: String)
    ensures
        r@ == label_list(text::strings_view(labels@)),
{
    let ghost all = text::strings_view(labels@);
    let mut out: String = "".to_owned();
    let mut i: usize = 0;
    while i < labels.len()
        invariant
            i <= labels.len(),
            all == text::strings_view(labels@),
            out@ == names_listed(all, i as nat),
        decreases labels.len() - i,
    {
        assert(all[i as int] == labels@[i as int]@);
        if i == 0 {
            out = text::quote(labels[i].as_str());
        } else {
            out = text::join3(out.as_str(), ", ", text::quote(labels[i].as_str()).as_str());
        }
        i += 1;
    }
    text::join3("[", out.as_str(), "]")
}

impl PersistErrorView {
    /// The keys that the message shows.
    pub open spec fn keys(self) -> Seq<NodeKeyView> {
        match self {
            PersistErrorView::DuplicateKey { key } => seq![key],
            PersistErrorView::DuplicateKeyInStatement { key } => seq![key],
            PersistErrorView::DuplicateEdge { key } => seq![key.src, key.dst],
            PersistErrorView::MissingRequired { key, .. } => seq![key],
            _ => seq![],
        }
    }

    /// The message, given the texts of the keys that it shows.
    pub open spec fn shown(self, keys: Seq<Seq<char>>) -> Seq<char> {
        match self {
            PersistErrorView::Identity { reason } => "cannot persist node: "@ + reason,
            PersistErrorView::AmbiguousIdentity { labels, first, second } => "a node with labels "@ + label_list(labels) + " bears more than one label declaring a key ("@ + text::quoted(first) + ", "@ + text::quoted(second) + "); node identity is ambiguous"@,
            PersistErrorView::DuplicateKey { key } => "CREATE of "@ + text::quoted(key.label) + " "@ + keys[0] + " conflicts with an existing node; CREATE always makes a new node, so identity collides (a MERGE on a multi-element pattern also CREATEs its nodes when the whole pattern doesn't match). To match-or-create, MERGE each node on its own before MERGEing a relationship between them: `MERGE (a:Label {…}) MERGE (b:…) MERGE (a)-[:…]->(b)`"@,
            PersistErrorView::DuplicateKeyInStatement { key } => "CREATE creates the node "@ + text::quoted(key.label) + " "@ + keys[0] + " twice in the same statement; each CREATE makes a new node and identity must be unique"@,
            PersistErrorView::DuplicateEdge { key } => "cannot add the "@ + key.rtype + " relationship "@ + keys[0] + " -> "@ + keys[1] + ": it conflicts with an existing relationship and acetone v0.1 has no parallel-edge discriminator (ADR-0030) — modify the existing relationship with SET, or delete it first"@,
            PersistErrorView::KeyImmutable { label } => "SET must not change the key property of "@ + text::quoted(label) + " (node identity is immutable; a key change is a delete-plus-create — see rekey)"@,
            PersistErrorView::MissingRequired { key, property } => "node "@ + text::quoted(key.label) + " "@ + keys[0] + " is missing required property "@ + text::quoted(property),
            PersistErrorView::UniqueViolation { label, property } => "UNIQUE constraint on "@ + text::quoted(label) + "."@ + text::quoted(property) + " violated: value already used by another node"@,
            PersistErrorView::Value { kind } => "cannot persist a "@ + kind + " as a stored property value"@,
            PersistErrorView::KeyValueType { label, property, type_text } => "the key property "@ + text::quoted(property) + " of "@ + text::quoted(label) + " has a "@ + type_text + " value, which cannot form a node key: key properties must be boolean, integer, float or string (bytes and temporal values are not identity-round-trippable through queries)"@,
            PersistErrorView::Key { error } => key_error_text(error),
        }
    }
}

impl PersistError {
    /// The keys that the message shows.
    pub fn keys(&self) -> (r: Vec<NodeKey>)
        ensures
            Seq::new(r@.len(), |i: int| r@[i]@) == self@.keys(),
    {
        let mut out: Vec<NodeKey> = Vec::new();
        match self {
            PersistError::DuplicateKey { key } => {
                out.push(key.dup());
            },
            PersistError::DuplicateKeyInStatement { key } => {
                out.push(key.dup());
            },
            PersistError::DuplicateEdge { key } => {
                out.push(key.src.dup());
                out.push(key.dst.dup());
            },
            PersistError::MissingRequired { key, .. } => {
                out.push(key.dup());
            },
            _ => {},
        }
        assert(Seq::new(out@.len(), |i: int| out@[i]@) =~= self@.keys());
        out
    }

    /// The message; `shown` holds the texts of [`PersistError::keys`].
    pub fn display(&self, shown: &Vec<String>) -> (r: String)
        requires
            shown@.len() == self@.keys().len(),
        ensures
            r@ == self@.shown(text::strings_view(shown@)),
    {
        match self {
            PersistError::Identity { reason } => {
                text::join2("cannot persist node: ", reason.as_str())
            },
            PersistError::AmbiguousIdentity { labels, first, second } => {
                let part1 = text::join3(
                    "a node with labels ",
                    format_labels(labels).as_str(),
                    " bears more than one label declaring a key (",
                );
                let part2 = text::join3(part1.as_str(), text::quote(first.as_str()).as_str(), ", ");
                text::join3(
                    part2.as_str(),
                    text::quote(second.as_str()).as_str(),
                    "); node identity is ambiguous",
                )
            },
            PersistError::DuplicateKey { key } => {
                let part1 = text::join3(
                    "CREATE of ",
                    text::quote(key.label.as_str()).as_str(),
                    " ",
                );
                text::join3(
                    part1.as_str(),
                    shown[0].as_str(),
                    " conflicts with an existing node; CREATE always makes a new node, so identity collides (a MERGE on a multi-element pattern also CREATEs its nodes when the whole pattern doesn't match). To match-or-create, MERGE each node on its own before MERGEing a relationship between them: `MERGE (a:Label {…}) MERGE (b:…) MERGE (a)-[:…]->(b)`",
                )
            },
            PersistError::DuplicateKeyInStatement { key } => {
                let part1 = text::join3(
                    "CREATE creates the node ",
                    text::quote(key.label.as_str()).as_str(),
                    " ",
                );
                text::join3(
                    part1.as_str(),
                    shown[0].as_str(),
                    " twice in the same statement; each CREATE makes a new node and identity must be unique",
                )
            },
            PersistError::DuplicateEdge { key } => {
                let part1 = text::join3("cannot add the ", key.rtype.as_str(), " relationship ");
                let part2 = text::join3(part1.as_str(), shown[0].as_str(), " -> ");
                text::join3(
                    part2.as_str(),
                    shown[1].as_str(),
                    ": it conflicts with an existing relationship and acetone v0.1 has no parallel-edge discriminator (ADR-0030) — modify the existing relationship with SET, or delete it first",
                )
            },
            PersistError::KeyImmutable { label } => {
                text::join3(
                    "SET must not change the key property of ",
                    text::quote(label.as_str()).as_str(),
                    " (node identity is immutable; a key change is a delete-plus-create — see rekey)",
                )
            },
            PersistError::MissingRequired { key, property } => {
                let part1 = text::join3("node ", text::quote(key.label.as_str()).as_str(), " ");
                let part2 = text::join3(
                    part1.as_str(),
                    shown[0].as_str(),
                    " is missing required property ",
                );
                text::join2(part2.as_str(), text::quote(property.as_str()).as_str())
            },
            PersistError::UniqueViolation { label, property } => {
                let part1 = text::join3(
                    "UNIQUE constraint on ",
                    text::quote(label.as_str()).as_str(),
                    ".",
                );
                text::join3(
                    part1.as_str(),
                    text::quote(property.as_str()).as_str(),
                    " violated: value already used by another node",
                )
            },
            PersistError::Value { kind } => {
                text::join3("cannot persist a ", kind, " as a stored property value")
            },
            PersistError::KeyValueType { label, property, type_text } => {
                let part1 = text::join3(
                    "the key property ",
                    text::quote(property.as_str()).as_str(),
                    " of ",
                );
                let part2 = text::join3(
                    part1.as_str(),
                    text::quote(label.as_str()).as_str(),
                    " has a ",
                );
                text::join3(
                    part2.as_str(),
                    type_text,
                    " value, which cannot form a node key: key properties must be boolean, integer, float or string (bytes and temporal values are not identity-round-trippable through queries)",
                )
            },
            PersistError::Key { error } => {
                error.display().to_owned()
            },
        }
    }
}

} // verus!
