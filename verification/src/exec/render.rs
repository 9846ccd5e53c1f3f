//! A human-readable rendering of values for user-facing error messages.
//! Strings are escaped, so control characters from hostile data never reach a
//! terminal raw.

use vstd::prelude::*;
use vstd::string::*;

use crate::exec::fault::{ExecError, ExecErrorView, FloatRequest, FloatRequestView};
use crate::exec::float::{self, FloatAnswerView, FloatTable};
use crate::exec::value::{self, PropertyMapView, Value, ValueView};
use crate::span::Span;
use crate::text;

verus! {

/// The rendering of a value. A float's digits come from `table`; where they
/// are not there, the error at `span` asks for them.
pub open spec fn formatted(
    table: Seq<(FloatRequestView, FloatAnswerView)>,
    v: ValueView,
    span: Span,
) -> Result<Seq<char>, ExecErrorView>
    decreases v, 0nat,
{
    match v {
        ValueView::Null => Ok("null"@),
        ValueView::Bool(b) => Ok(
            if b {
                "true"@
            } else {
                "false"@
            },
        ),
        ValueView::Int(n) => Ok(text::signed_decimal(n as int)),
        ValueView::Float(x) => float::text_for(table, FloatRequestView::Display { a: x }, span),
        ValueView::String(s) => Ok(text::quoted(s)),
        ValueView::List(items) => match formatted_items(table, items, items.len(), span) {
            Ok(inner) => Ok("["@ + inner + "]"@),
            Err(e) => Err(e),
        },
        ValueView::Mapping(m) => match formatted_entries(
            table,
            m.entries,
            m.entries.len(),
            span,
        ) {
            Ok(inner) => Ok("{"@ + inner + "}"@),
            Err(e) => Err(e),
        },
        ValueView::Node(n) => Ok("node("@ + quoted_labels(n.labels, n.labels.len()) + ")"@),
        ValueView::Relationship(r) => Ok("relationship("@ + text::quoted(r.rel_type) + ")"@),
        ValueView::Path(p) => Ok("path(length "@ + text::decimal(p.rels.len()) + ")"@),
        ValueView::Stored(m) => Ok(text::quoted(value::stored_text(m))),
    }
}

/// The first `n` elements, with commas between them.
pub open spec fn formatted_items(
    table: Seq<(FloatRequestView, FloatAnswerView)>,
    items: Seq<ValueView>,
    n: nat,
    span: Span,
) -> Result<Seq<char>, ExecErrorView>
    decreases items, n,
{
    if n == 0 || n > items.len() {
        Ok(Seq::empty())
    } else {
        match formatted_items(table, items, (n - 1) as nat, span) {
            Err(e) => Err(e),
            Ok(before) => match formatted(table, items[n - 1], span) {
                Err(e) => Err(e),
                Ok(this) => Ok(
                    if n == 1 {
                        this
                    } else {
                        before + ", "@ + this
                    },
                ),
            },
        }
    }
}

/// The first `n` entries, with commas between them.
pub open spec fn formatted_entries(
    table: Seq<(FloatRequestView, FloatAnswerView)>,
    entries: Seq<(Seq<char>, ValueView)>,
    n: nat,
    span: Span,
) -> Result<Seq<char>, ExecErrorView>
    decreases entries, n,
{
    if n == 0 || n > entries.len() {
        Ok(Seq::empty())
    } else {
        match formatted_entries(table, entries, (n - 1) as nat, span) {
            Err(e) => Err(e),
            Ok(before) => match formatted(table, entries[n - 1].1, span) {
                Err(e) => Err(e),
                Ok(this) => {
                    let entry = text::quoted(entries[n - 1].0) + ": "@ + this;
                    Ok(
                        if n == 1 {
                            entry
                        } else {
                            before + ", "@ + entry
                        },
                    )
                },
            },
        }
    }
}

/// The first `n` labels, with colons between them.
pub open spec fn quoted_labels(labels: Seq<Seq<char>>, n: nat) -> Seq<char>
    decreases n,
{
    if n == 0 || n > labels.len() {
        Seq::empty()
    } else if n == 1 {
        text::quoted(labels[0])
    } else {
        quoted_labels(labels, (n - 1) as nat) + ":"@ + text::quoted(labels[n - 1])
    }
}

fn labels_text(labels: &Vec<String>) -> (r: String)
    ensures
        r@ == quoted_labels(text::strings_view(labels@), labels@.len()),
{
    let mut out = String::new();
    let mut i: usize = 0;
    while i < labels.len()
        invariant
            i <= labels.len(),
            out@ == quoted_labels(text::strings_view(labels@), i as nat),
        decreases labels.len() - i,
    {
        let this = text::quote(labels[i].as_str());
        out = if i == 0 {
            this
        } else {
            text::join3(out.as_str(), ":", this.as_str())
        };
        i += 1;
    }
    out
}

impl Value {
    /// A human-readable rendering for user-facing error messages.
    pub fn format(&self, table: &FloatTable, span: Span) -> (r: Result<String, ExecError>)
        ensures
            match r {
                Ok(s) => formatted(table@, self@, span) == Ok::<_, ExecErrorView>(s@),
                Err(e) => formatted(table@, self@, span) == Err::<Seq<char>, _>(e@),
            },
        decreases self,
    {
        match self {
            Value::Null => Ok("null".to_owned()),
            Value::Bool(b) => Ok(
                if *b {
                    "true".to_owned()
                } else {
                    "false".to_owned()
                },
            ),
            Value::Int(n) => Ok(text::int_text(*n)),
            Value::Float(x) => table.text(FloatRequest::Display { a: *x }, span),
            Value::String(s) => Ok(text::quote(s.as_str())),
            Value::List(items) => {
                let mut out = String::new();
                let mut i: usize = 0;
                while i < items.len()
                    invariant
                        i <= items.len(),
                        self is List,
                        *items == self->List_0,
                        formatted_items(table@, value::values_view(items@), i as nat, span) == Ok::<
                            _,
                            ExecErrorView,
                        >(out@),
                    decreases items.len() - i,
                {
                    proof {
                        assert(decreases_to!(*self => self->List_0@[i as int]));
                    }
                    match items[i].format(table, span) {
                        Err(e) => {
                            proof {
                                lemma_items_fail(
                                    table@,
                                    value::values_view(items@),
                                    (i + 1) as nat,
                                    items@.len(),
                                    span,
                                    e@,
                                );
                            }
                            return Err(e);
                        },
                        Ok(this) => {
                            out = if i == 0 {
                                this
                            } else {
                                text::join3(out.as_str(), ", ", this.as_str())
                            };
                        },
                    }
                    i += 1;
                }
                Ok(text::join3("[", out.as_str(), "]"))
            },
            Value::Mapping(m) => {
                let entries = &m.entries;
                assert(m@.entries == value::string_values_view(entries@));
                let mut out = String::new();
                let mut i: usize = 0;
                while i < entries.len()
                    invariant
                        i <= entries.len(),
                        self is Mapping,
                        *entries == self->Mapping_0.entries,
                        self@ == ValueView::Mapping(
                            PropertyMapView { entries: value::string_values_view(entries@) },
                        ),
                        formatted_entries(
                            table@,
                            value::string_values_view(entries@),
                            i as nat,
                            span,
                        )
                            == Ok::<_, ExecErrorView>(out@),
                    decreases entries.len() - i,
                {
                    proof {
                        assert(decreases_to!(*self => self->Mapping_0.entries@[i as int].1));
                        assert(value::string_values_view(entries@)[i as int] == (
                            entries@[i as int].0@,
                            entries@[i as int].1@,
                        ));
                    }
                    match entries[i].1.format(table, span) {
                        Err(e) => {
                            proof {
                                lemma_entries_fail(
                                    table@,
                                    value::string_values_view(entries@),
                                    (i + 1) as nat,
                                    entries@.len(),
                                    span,
                                    e@,
                                );
                            }
                            return Err(e);
                        },
                        Ok(this) => {
                            let name = text::quote(entries[i].0.as_str());
                            let entry = text::join3(name.as_str(), ": ", this.as_str());
                            out = if i == 0 {
                                entry
                            } else {
                                text::join3(out.as_str(), ", ", entry.as_str())
                            };
                        },
                    }
                    i += 1;
                }
                Ok(text::join3("{", out.as_str(), "}"))
            },
            Value::Node(n) => {
                assert(n@.labels == text::strings_view(n.labels@));
                Ok(text::join3("node(", labels_text(&n.labels).as_str(), ")"))
            },
            Value::Relationship(x) => {
                assert(x@.rel_type == x.rel_type@);
                Ok(text::join3("relationship(", text::quote(x.rel_type.as_str()).as_str(), ")"))
            },
            Value::Path(p) => {
                assert(p@.rels.len() == p.rels@.len());
                Ok(
                    text::join3(
                        "path(length ",
                        text::decimal_text(p.rels.len() as u64).as_str(),
                        ")",
                    ),
                )
            },
            Value::Stored(m) => Ok(text::quote(value::render_stored(m).as_str())),
        }
    }
}

proof fn lemma_items_fail(
    table: Seq<(FloatRequestView, FloatAnswerView)>,
    items: Seq<ValueView>,
    m: nat,
    n: nat,
    span: Span,
    e: ExecErrorView,
)
    requires
        m <= n <= items.len(),
        formatted_items(table, items, m, span) == Err::<Seq<char>, _>(e),
    ensures
        formatted_items(table, items, n, span) == Err::<Seq<char>, _>(e),
    decreases n,
{
    if m < n {
        lemma_items_fail(table, items, m, (n - 1) as nat, span, e);
    }
}

proof fn lemma_entries_fail(
    table: Seq<(FloatRequestView, FloatAnswerView)>,
    entries: Seq<(Seq<char>, ValueView)>,
    m: nat,
    n: nat,
    span: Span,
    e: ExecErrorView,
)
    requires
        m <= n <= entries.len(),
        formatted_entries(table, entries, m, span) == Err::<Seq<char>, _>(e),
    ensures
        formatted_entries(table, entries, n, span) == Err::<Seq<char>, _>(e),
    decreases n,
{
    if m < n {
        lemma_entries_fail(table, entries, m, (n - 1) as nat, span, e);
    }
}

} // verus!
