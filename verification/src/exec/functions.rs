//! Implementations of the function registry. Arity is validated by the binder;
//! null arguments generally yield null per openCypher.

use vstd::prelude::*;
use vstd::string::*;

use crate::exec::arith;
use crate::exec::compare;
use crate::exec::fault::{ExecError, ExecErrorView, FloatFn, FloatRequest, FloatRequestView};
use crate::exec::float::{self, FloatAnswerView, FloatTable};
use crate::exec::governor::{Budget, Governor};
use crate::exec::inspect;
use crate::exec::operators::{self, Operated};
use crate::exec::source::{GraphSource, GraphView};
use crate::exec::strings;
use crate::exec::value::{
    self, EntityId, EntityIdView, PathValue, PropertyMap, PropertyMapView, Value, ValueView,
};
use crate::span::Span;
use crate::text;

verus! {

/// Upper bound on the number of elements `range()` may materialise, whatever
/// the governor allows.
pub const MAX_RANGE_ELEMENTS: u64 = 10_000_000;

/// The argument at `i`, null where there is none.
pub open spec fn arg_at(args: Seq<ValueView>, i: int) -> ValueView {
    if 0 <= i < args.len() {
        args[i]
    } else {
        ValueView::Null
    }
}

/// Whether `name` is `known` up to case.
pub open spec fn named(name: Seq<char>, known: Seq<char>) -> bool {
    text::same_ignoring_case(name, known)
}

pub open spec fn refuses(what: Seq<char>, v: ValueView, span: Span) -> Result<
    ValueView,
    ExecErrorView,
> {
    Err(operators::type_error(what + inspect::type_label_of(v), span))
}

pub open spec fn invalid(message: Seq<char>, span: Span) -> Result<ValueView, ExecErrorView> {
    Err(ExecErrorView::InvalidArgument { message, span })
}

fn refuse(what: &str, v: &Value, span: Span) -> (r: Result<Value, ExecError>)
    ensures
        operators::agrees(r, refuses(what@, v@, span)),
{
    Err(operators::type_err(text::join2(what, v.type_label()), span))
}

fn reject(message: &str, span: Span) -> (r: Result<Value, ExecError>)
    ensures
        operators::agrees(r, invalid(message@, span)),
{
    Err(ExecError::InvalidArgument { message: message.to_owned(), span })
}

/// Whether an optional result is what the model says.
pub open spec fn maybe_agrees(
    r: Option<Result<Value, ExecError>>,
    model: Option<Result<ValueView, ExecErrorView>>,
) -> bool {
    match r {
        Some(x) => model is Some && operators::agrees(x, model->0),
        None => model is None,
    }
}

fn arg(args: &Vec<Value>, i: usize) -> (r: Value)
    ensures
        r@ == arg_at(value::values_view(args@), i as int),
{
    if i < args.len() {
        args[i].dup()
    } else {
        Value::Null
    }
}

// --- Numbers --------------------------------------------------------------------------------------

pub open spec fn absolute_of(v: ValueView, span: Span) -> Result<ValueView, ExecErrorView> {
    match v {
        ValueView::Int(n) => if n == i64::MIN {
            Err(ExecErrorView::Overflow { span })
        } else {
            Ok(
                ValueView::Int(
                    if n < 0 {
                        (-n) as i64
                    } else {
                        n
                    },
                ),
            )
        },
        ValueView::Float(x) => Ok(ValueView::Float(float::magnitude(x))),
        other => refuses("abs() needs a number, got "@, other, span),
    }
}

pub open spec fn sign_of(v: ValueView, span: Span) -> Result<ValueView, ExecErrorView> {
    match v {
        ValueView::Int(n) => Ok(
            ValueView::Int(
                if n > 0 {
                    1
                } else if n < 0 {
                    (-1int) as i64
                } else {
                    0
                },
            ),
        ),
        ValueView::Float(x) => Ok(
            ValueView::Int(
                if float::is_nan(x) || float::order_key(x) == 0 {
                    0
                } else if float::order_key(x) > 0 {
                    1
                } else {
                    (-1int) as i64
                },
            ),
        ),
        other => refuses("sign() needs a number, got "@, other, span),
    }
}

/// A rounding function or root of a number.
pub open spec fn float_function(
    op: FloatFn,
    v: ValueView,
    span: Span,
    table: Seq<(FloatRequestView, FloatAnswerView)>,
) -> Result<ValueView, ExecErrorView> {
    if compare::is_number(v) {
        arith::number_result(
            float::number_for(
                table,
                FloatRequestView::Unary { op, a: compare::number_bits(v) },
                span,
            ),
        )
    } else {
        refuses("expected a number, got "@, v, span)
    }
}

pub open spec fn numeric_function(
    name: Seq<char>,
    args: Seq<ValueView>,
    span: Span,
    table: Seq<(FloatRequestView, FloatAnswerView)>,
) -> Option<Result<ValueView, ExecErrorView>> {
    let a = arg_at(args, 0);
    if named(name, "abs"@) {
        Some(absolute_of(a, span))
    } else if named(name, "ceil"@) {
        Some(float_function(FloatFn::Ceil, a, span, table))
    } else if named(name, "floor"@) {
        Some(float_function(FloatFn::Floor, a, span, table))
    } else if named(name, "round"@) {
        Some(float_function(FloatFn::Round, a, span, table))
    } else if named(name, "sqrt"@) {
        Some(float_function(FloatFn::Sqrt, a, span, table))
    } else if named(name, "sign"@) {
        Some(sign_of(a, span))
    } else {
        None
    }
}

fn absolute_value(v: &Value, span: Span) -> (r: Result<Value, ExecError>)
    ensures
        operators::agrees(r, absolute_of(v@, span)),
{
    match v {
        Value::Int(n) => if *n == i64::MIN {
            Err(ExecError::Overflow { span })
        } else {
            Ok(
                Value::Int(
                    if *n < 0 {
                        -*n
                    } else {
                        *n
                    },
                ),
            )
        },
        Value::Float(x) => Ok(Value::Float(float::absolute(*x))),
        other => refuse("abs() needs a number, got ", other, span),
    }
}

fn sign(v: &Value, span: Span) -> (r: Result<Value, ExecError>)
    ensures
        operators::agrees(r, sign_of(v@, span)),
{
    match v {
        Value::Int(n) => Ok(
            Value::Int(
                if *n > 0 {
                    1
                } else if *n < 0 {
                    -1
                } else {
                    0
                },
            ),
        ),
        Value::Float(x) => Ok(
            Value::Int(
                if float::nan(*x) {
                    0
                } else if float::below(0, *x) {
                    1
                } else if float::below(*x, 0) {
                    -1
                } else {
                    0
                },
            ),
        ),
        other => refuse("sign() needs a number, got ", other, span),
    }
}

fn numeric_to_float(op: FloatFn, v: &Value, span: Span, table: &FloatTable) -> (r: Result<
    Value,
    ExecError,
>)
    ensures
        operators::agrees(r, float_function(op, v@, span, table@)),
{
    let bits: u64 = match v {
        Value::Int(n) => float::from_int(*n),
        Value::Float(x) => *x,
        other => {
            return refuse("expected a number, got ", other, span);
        },
    };
    match table.number(FloatRequest::Unary { op, a: bits }, span) {
        Ok(x) => Ok(Value::Float(x)),
        Err(e) => Err(e),
    }
}

fn call_numeric(name: &str, args: &Vec<Value>, span: Span, table: &FloatTable) -> (r: Option<
    Result<Value, ExecError>,
>)
    ensures
        maybe_agrees(r, numeric_function(name@, value::values_view(args@), span, table@)),
{
    let a = arg(args, 0);
    if text::eq_ignore_case(name, "abs") {
        Some(absolute_value(&a, span))
    } else if text::eq_ignore_case(name, "ceil") {
        Some(numeric_to_float(FloatFn::Ceil, &a, span, table))
    } else if text::eq_ignore_case(name, "floor") {
        Some(numeric_to_float(FloatFn::Floor, &a, span, table))
    } else if text::eq_ignore_case(name, "round") {
        Some(numeric_to_float(FloatFn::Round, &a, span, table))
    } else if text::eq_ignore_case(name, "sqrt") {
        Some(numeric_to_float(FloatFn::Sqrt, &a, span, table))
    } else if text::eq_ignore_case(name, "sign") {
        Some(sign(&a, span))
    } else {
        None
    }
}

// --- Collections ------------------------------------------------------------------------------------

pub open spec fn size_of(v: ValueView, span: Span) -> Result<ValueView, ExecErrorView> {
    match v {
        ValueView::List(items) => Ok(ValueView::Int(items.len() as i64)),
        ValueView::String(s) => Ok(ValueView::Int(s.len() as i64)),
        ValueView::Mapping(m) => Ok(ValueView::Int(m.entries.len() as i64)),
        other => refuses("size() cannot measure "@, other, span),
    }
}

pub open spec fn length_of(v: ValueView, span: Span) -> Result<ValueView, ExecErrorView> {
    match v {
        ValueView::Path(p) => Ok(ValueView::Int(p.rels.len() as i64)),
        ValueView::String(s) => Ok(ValueView::Int(s.len() as i64)),
        ValueView::List(items) => Ok(ValueView::Int(items.len() as i64)),
        other => refuses("length() cannot measure "@, other, span),
    }
}

pub open spec fn head_of(v: ValueView, span: Span) -> Result<ValueView, ExecErrorView> {
    match v {
        ValueView::List(items) => Ok(
            if items.len() > 0 {
                items[0]
            } else {
                ValueView::Null
            },
        ),
        other => refuses("head() needs a list, got "@, other, span),
    }
}

pub open spec fn last_of(v: ValueView, span: Span) -> Result<ValueView, ExecErrorView> {
    match v {
        ValueView::List(items) => Ok(
            if items.len() > 0 {
                items.last()
            } else {
                ValueView::Null
            },
        ),
        other => refuses("last() needs a list, got "@, other, span),
    }
}

pub open spec fn tail_of(v: ValueView, span: Span) -> Result<ValueView, ExecErrorView> {
    match v {
        ValueView::List(items) => Ok(
            ValueView::List(
                if items.len() > 0 {
                    items.skip(1)
                } else {
                    items
                },
            ),
        ),
        other => refuses("tail() needs a list, got "@, other, span),
    }
}

pub open spec fn reversed_of(v: ValueView, span: Span) -> Result<ValueView, ExecErrorView> {
    match v {
        ValueView::List(items) => Ok(ValueView::List(items.reverse())),
        ValueView::String(s) => Ok(ValueView::String(s.reverse())),
        other => refuses("reverse() cannot reverse "@, other, span),
    }
}

pub open spec fn collection_function(
    name: Seq<char>,
    args: Seq<ValueView>,
    span: Span,
) -> Option<Result<ValueView, ExecErrorView>> {
    let a = arg_at(args, 0);
    if named(name, "size"@) {
        Some(size_of(a, span))
    } else if named(name, "length"@) {
        Some(length_of(a, span))
    } else if named(name, "head"@) {
        Some(head_of(a, span))
    } else if named(name, "last"@) {
        Some(last_of(a, span))
    } else if named(name, "tail"@) {
        Some(tail_of(a, span))
    } else if named(name, "reverse"@) {
        Some(reversed_of(a, span))
    } else {
        None
    }
}

fn char_count(s: &str) -> (r: i64)
    ensures
        r == s@.len() as i64,
{
    text::chars_of(s).len() as i64
}

fn measure_size(v: &Value, span: Span) -> (r: Result<Value, ExecError>)
    ensures
        operators::agrees(r, size_of(v@, span)),
{
    match v {
        Value::List(items) => Ok(Value::Int(items.len() as i64)),
        Value::String(s) => Ok(Value::Int(char_count(s.as_str()))),
        Value::Mapping(m) => {
            assert(m@.entries.len() == m.entries@.len());
            Ok(Value::Int(m.entries.len() as i64))
        },
        other => refuse("size() cannot measure ", other, span),
    }
}

fn measure_length(v: &Value, span: Span) -> (r: Result<Value, ExecError>)
    ensures
        operators::agrees(r, length_of(v@, span)),
{
    match v {
        Value::Path(p) => {
            assert(p@.rels.len() == p.rels@.len());
            Ok(Value::Int(p.rels.len() as i64))
        },
        Value::String(s) => Ok(Value::Int(char_count(s.as_str()))),
        Value::List(items) => Ok(Value::Int(items.len() as i64)),
        other => refuse("length() cannot measure ", other, span),
    }
}

fn tail(v: &Value, span: Span) -> (r: Result<Value, ExecError>)
    ensures
        operators::agrees(r, tail_of(v@, span)),
{
    match v {
        Value::List(items) => {
            let ghost all = value::values_view(items@);
            let mut out: Vec<Value> = Vec::new();
            let mut i: usize = 1;
            while i < items.len()
                invariant
                    1 <= i,
                    i <= items.len() || (items.len() == 0 && i == 1),
                    all == value::values_view(items@),
                    out@.len() == i - 1,
                    forall|k: int| 0 <= k < i - 1 ==> (#[trigger] out@[k])@ == all[k + 1],
                decreases items.len() - i,
            {
                out.push(items[i].dup());
                i += 1;
            }
            proof {
                if all.len() > 0 {
                    assert(value::values_view(out@) =~= all.skip(1));
                } else {
                    assert(value::values_view(out@) =~= all);
                }
            }
            Ok(Value::List(out))
        },
        other => refuse("tail() needs a list, got ", other, span),
    }
}

fn reverse(v: &Value, span: Span) -> (r: Result<Value, ExecError>)
    ensures
        operators::agrees(r, reversed_of(v@, span)),
{
    match v {
        Value::List(items) => {
            let ghost all = value::values_view(items@);
            let mut out: Vec<Value> = Vec::new();
            let mut i: usize = items.len();
            while i > 0
                invariant
                    i <= items.len(),
                    all == value::values_view(items@),
                    out@.len() == items.len() - i,
                    forall|k: int|
                        0 <= k < items.len() - i ==> (#[trigger] out@[k])@ == all[all.len() - 1
                            - k],
                decreases i,
            {
                i -= 1;
                out.push(items[i].dup());
            }
            proof {
                assert(value::values_view(out@) =~= all.reverse());
            }
            Ok(Value::List(out))
        },
        Value::String(s) => {
            let chars = text::chars_of(s.as_str());
            let mut out = String::new();
            let mut i: usize = chars.len();
            while i > 0
                invariant
                    i <= chars.len(),
                    chars@ == s@,
                    out@.len() == chars.len() - i,
                    forall|k: int|
                        0 <= k < chars.len() - i ==> #[trigger] out@[k] == s@[s@.len() - 1 - k],
                decreases i,
            {
                i -= 1;
                out.push(chars[i]);
            }
            proof {
                assert(out@ =~= s@.reverse());
            }
            Ok(Value::String(out))
        },
        other => refuse("reverse() cannot reverse ", other, span),
    }
}

fn call_collection(name: &str, args: &Vec<Value>, span: Span) -> (r: Option<
    Result<Value, ExecError>,
>)
    ensures
        maybe_agrees(r, collection_function(name@, value::values_view(args@), span)),
{
    let a = arg(args, 0);
    if text::eq_ignore_case(name, "size") {
        Some(measure_size(&a, span))
    } else if text::eq_ignore_case(name, "length") {
        Some(measure_length(&a, span))
    } else if text::eq_ignore_case(name, "head") {
        Some(
            match &a {
                Value::List(items) => Ok(
                    if items.len() > 0 {
                        items[0].dup()
                    } else {
                        Value::Null
                    },
                ),
                other => refuse("head() needs a list, got ", other, span),
            },
        )
    } else if text::eq_ignore_case(name, "last") {
        Some(
            match &a {
                Value::List(items) => Ok(
                    if items.len() > 0 {
                        items[items.len() - 1].dup()
                    } else {
                        Value::Null
                    },
                ),
                other => refuse("last() needs a list, got ", other, span),
            },
        )
    } else if text::eq_ignore_case(name, "tail") {
        Some(tail(&a, span))
    } else if text::eq_ignore_case(name, "reverse") {
        Some(reverse(&a, span))
    } else {
        None
    }
}

// --- Entities and paths ---------------------------------------------------------------------------

/// The names of a map, in order, as strings.
pub open spec fn names_of(m: PropertyMapView) -> ValueView {
    ValueView::List(Seq::new(m.entries.len(), |i: int| ValueView::String(m.entries[i].0)))
}

pub open spec fn keys_of(v: ValueView, span: Span) -> Result<ValueView, ExecErrorView> {
    match v {
        ValueView::Mapping(m) => Ok(names_of(m)),
        ValueView::Node(n) => Ok(names_of(n.properties)),
        ValueView::Relationship(r) => Ok(names_of(r.properties)),
        other => refuses("keys() cannot inspect "@, other, span),
    }
}

pub open spec fn properties_of(v: ValueView, span: Span) -> Result<ValueView, ExecErrorView> {
    match v {
        ValueView::Mapping(m) => Ok(ValueView::Mapping(m)),
        ValueView::Node(n) => Ok(ValueView::Mapping(n.properties)),
        ValueView::Relationship(r) => Ok(ValueView::Mapping(r.properties)),
        other => refuses("properties() cannot inspect "@, other, span),
    }
}

pub open spec fn string_list(texts: Seq<Seq<char>>) -> ValueView {
    ValueView::List(Seq::new(texts.len(), |i: int| ValueView::String(texts[i])))
}

pub open spec fn labels_of(v: ValueView, span: Span) -> Result<ValueView, ExecErrorView> {
    match v {
        ValueView::Node(n) => Ok(string_list(n.labels)),
        other => refuses("labels() needs a node, got "@, other, span),
    }
}

pub open spec fn type_of(v: ValueView, span: Span) -> Result<ValueView, ExecErrorView> {
    match v {
        ValueView::Relationship(r) => Ok(ValueView::String(r.rel_type)),
        other => refuses("type() needs a relationship, got "@, other, span),
    }
}

/// The node with the identity `id`, null where the graph has none.
pub open spec fn node_or_null(graph: GraphView, id: EntityIdView) -> ValueView {
    match (graph.node)(id) {
        Some(n) => ValueView::Node(n),
        None => ValueView::Null,
    }
}

pub open spec fn entity_function(
    name: Seq<char>,
    args: Seq<ValueView>,
    span: Span,
    graph: GraphView,
) -> Option<Result<ValueView, ExecErrorView>> {
    let a = arg_at(args, 0);
    if named(name, "keys"@) {
        Some(keys_of(a, span))
    } else if named(name, "properties"@) {
        Some(properties_of(a, span))
    } else if named(name, "labels"@) {
        Some(labels_of(a, span))
    } else if named(name, "type"@) {
        Some(type_of(a, span))
    } else if named(name, "startNode"@) {
        Some(
            match a {
                ValueView::Relationship(r) => Ok(node_or_null(graph, r.start)),
                other => refuses("startNode() needs a relationship, got "@, other, span),
            },
        )
    } else if named(name, "endNode"@) {
        Some(
            match a {
                ValueView::Relationship(r) => Ok(node_or_null(graph, r.end)),
                other => refuses("endNode() needs a relationship, got "@, other, span),
            },
        )
    } else if named(name, "nodes"@) {
        Some(
            match a {
                ValueView::Path(p) => Ok(
                    ValueView::List(
                        Seq::new(p.nodes.len(), |i: int| ValueView::Node(p.nodes[i])),
                    ),
                ),
                other => refuses("nodes() needs a path, got "@, other, span),
            },
        )
    } else if named(name, "relationships"@) {
        Some(
            match a {
                ValueView::Path(p) => Ok(
                    ValueView::List(
                        Seq::new(p.rels.len(), |i: int| ValueView::Relationship(p.rels[i])),
                    ),
                ),
                other => refuses("relationships() needs a path, got "@, other, span),
            },
        )
    } else {
        None
    }
}

fn name_list(m: &PropertyMap) -> (r: Value)
    ensures
        r@ == names_of(m@),
{
    let entries = &m.entries;
    let ghost all = m@.entries;
    let mut out: Vec<Value> = Vec::new();
    let mut i: usize = 0;
    while i < entries.len()
        invariant
            i <= entries.len(),
            all == value::string_values_view(entries@),
            out@.len() == i,
            forall|k: int| 0 <= k < i ==> (#[trigger] out@[k])@ == ValueView::String(all[k].0),
        decreases entries.len() - i,
    {
        out.push(Value::String(entries[i].0.clone()));
        i += 1;
    }
    let r = Value::List(out);
    assert(r@->List_0 =~= names_of(m@)->List_0);
    r
}

/// A list of strings as a value.
pub(crate) fn list_of_strings(texts: &Vec<String>) -> (r: Value)
    ensures
        r@ == string_list(text::strings_view(texts@)),
{
    let mut out: Vec<Value> = Vec::new();
    let mut i: usize = 0;
    while i < texts.len()
        invariant
            i <= texts.len(),
            out@.len() == i,
            forall|k: int|
                0 <= k < i ==> (#[trigger] out@[k])@ == ValueView::String(texts@[k]@),
        decreases texts.len() - i,
    {
        out.push(Value::String(texts[i].clone()));
        i += 1;
    }
    let r = Value::List(out);
    assert(r@->List_0 =~= string_list(text::strings_view(texts@))->List_0);
    r
}

fn node_value<G: GraphSource>(graph: &G, id: &EntityId) -> (r: Value)
    ensures
        r@ == node_or_null(graph.graph(), id@),
{
    match graph.node(id) {
        Some(n) => Value::Node(n),
        None => Value::Null,
    }
}

fn nodes_list(p: &PathValue) -> (r: Value)
    ensures
        r@ == ValueView::List(Seq::new(p@.nodes.len(), |i: int| ValueView::Node(p@.nodes[i]))),
{
    let ghost all = p@.nodes;
    let mut out: Vec<Value> = Vec::new();
    let mut i: usize = 0;
    while i < p.nodes.len()
        invariant
            i <= p.nodes.len(),
            all == p@.nodes,
            out@.len() == i,
            forall|k: int| 0 <= k < i ==> (#[trigger] out@[k])@ == ValueView::Node(all[k]),
        decreases p.nodes.len() - i,
    {
        assert(all[i as int] == p.nodes@[i as int]@);
        out.push(Value::Node(p.nodes[i].dup()));
        i += 1;
    }
    let r = Value::List(out);
    assert(r@->List_0 =~= Seq::new(p@.nodes.len(), |i: int| ValueView::Node(p@.nodes[i])));
    r
}

fn rels_list(p: &PathValue) -> (r: Value)
    ensures
        r@ == ValueView::List(
            Seq::new(p@.rels.len(), |i: int| ValueView::Relationship(p@.rels[i])),
        ),
{
    let ghost all = p@.rels;
    let mut out: Vec<Value> = Vec::new();
    let mut i: usize = 0;
    while i < p.rels.len()
        invariant
            i <= p.rels.len(),
            all == p@.rels,
            out@.len() == i,
            forall|k: int| 0 <= k < i ==> (#[trigger] out@[k])@ == ValueView::Relationship(all[k]),
        decreases p.rels.len() - i,
    {
        assert(all[i as int] == p.rels@[i as int]@);
        out.push(Value::Relationship(p.rels[i].dup()));
        i += 1;
    }
    let r = Value::List(out);
    assert(r@->List_0 =~= Seq::new(p@.rels.len(), |i: int| ValueView::Relationship(p@.rels[i])));
    r
}

fn call_entity<G: GraphSource>(name: &str, args: &Vec<Value>, span: Span, graph: &G) -> (r: Option<
    Result<Value, ExecError>,
>)
    ensures
        maybe_agrees(r, entity_function(name@, value::values_view(args@), span, graph.graph())),
{
    let a = arg(args, 0);
    if text::eq_ignore_case(name, "keys") {
        Some(
            match &a {
                Value::Mapping(m) => Ok(name_list(m)),
                Value::Node(n) => Ok(name_list(&n.properties)),
                Value::Relationship(x) => Ok(name_list(&x.properties)),
                other => refuse("keys() cannot inspect ", other, span),
            },
        )
    } else if text::eq_ignore_case(name, "properties") {
        Some(
            match a {
                Value::Mapping(m) => Ok(Value::Mapping(m)),
                Value::Node(n) => Ok(Value::Mapping(n.properties)),
                Value::Relationship(x) => Ok(Value::Mapping(x.properties)),
                other => refuse("properties() cannot inspect ", &other, span),
            },
        )
    } else if text::eq_ignore_case(name, "labels") {
        Some(
            match &a {
                Value::Node(n) => Ok(list_of_strings(&n.labels)),
                other => refuse("labels() needs a node, got ", other, span),
            },
        )
    } else if text::eq_ignore_case(name, "type") {
        Some(
            match a {
                Value::Relationship(x) => Ok(Value::String(x.rel_type)),
                other => refuse("type() needs a relationship, got ", &other, span),
            },
        )
    } else if text::eq_ignore_case(name, "startNode") {
        Some(
            match &a {
                Value::Relationship(x) => Ok(node_value(graph, &x.start)),
                other => refuse("startNode() needs a relationship, got ", other, span),
            },
        )
    } else if text::eq_ignore_case(name, "endNode") {
        Some(
            match &a {
                Value::Relationship(x) => Ok(node_value(graph, &x.end)),
                other => refuse("endNode() needs a relationship, got ", other, span),
            },
        )
    } else if text::eq_ignore_case(name, "nodes") {
        Some(
            match &a {
                Value::Path(p) => Ok(nodes_list(p)),
                other => refuse("nodes() needs a path, got ", other, span),
            },
        )
    } else if text::eq_ignore_case(name, "relationships") {
        Some(
            match &a {
                Value::Path(p) => Ok(rels_list(p)),
                other => refuse("relationships() needs a path, got ", other, span),
            },
        )
    } else {
        None
    }
}

// --- Text ------------------------------------------------------------------------------------------

pub open spec fn on_text(
    v: ValueView,
    span: Span,
    result: spec_fn(Seq<char>) -> Seq<char>,
) -> Result<
    ValueView,
    ExecErrorView,
> {
    match v {
        ValueView::String(s) => Ok(ValueView::String(result(s))),
        other => refuses("expected a string, got "@, other, span),
    }
}

pub open spec fn split_result(a: ValueView, b: ValueView, span: Span) -> Result<
    ValueView,
    ExecErrorView,
> {
    match (a, b) {
        (
            ValueView::String(s),
            ValueView::String(sep),
        ) => Ok(string_list(strings::parts_of(s, sep))),
        (x, y) => Err(
            operators::type_error(
                "split() needs strings, got "@ + inspect::type_label_of(x) + " and "@ + inspect::type_label_of(y),
                span,
            ),
        ),
    }
}

pub open spec fn replace_result(a: ValueView, b: ValueView, c: ValueView, span: Span) -> Result<
    ValueView,
    ExecErrorView,
> {
    match (a, b, c) {
        (ValueView::String(s), ValueView::String(from), ValueView::String(to)) => Ok(
            ValueView::String(strings::replaced(s, from, to)),
        ),
        _ => Err(operators::type_error("replace() needs three strings"@, span)),
    }
}

/// `n`, but no more than `len`.
pub open spec fn at_most(n: int, len: nat) -> int {
    if n > len {
        len as int
    } else {
        n
    }
}

pub open spec fn left_result(a: ValueView, b: ValueView, span: Span) -> Result<
    ValueView,
    ExecErrorView,
> {
    match (a, b) {
        (ValueView::String(s), ValueView::Int(n)) => if n >= 0 {
            Ok(ValueView::String(s.subrange(0, at_most(n as int, s.len()))))
        } else {
            invalid("left() length cannot be negative"@, span)
        },
        _ => Err(operators::type_error("left() needs a string and an integer"@, span)),
    }
}

pub open spec fn right_result(a: ValueView, b: ValueView, span: Span) -> Result<
    ValueView,
    ExecErrorView,
> {
    match (a, b) {
        (ValueView::String(s), ValueView::Int(n)) => if n >= 0 {
            Ok(
                ValueView::String(
                    s.subrange(s.len() - at_most(n as int, s.len()), s.len() as int),
                ),
            )
        } else {
            invalid("right() length cannot be negative"@, span)
        },
        _ => Err(operators::type_error("right() needs a string and an integer"@, span)),
    }
}

/// `substring(text, start[, length])`.
pub open spec fn substring_result(args: Seq<ValueView>, span: Span) -> Result<
    ValueView,
    ExecErrorView,
> {
    match (arg_at(args, 0), arg_at(args, 1)) {
        (ValueView::String(s), ValueView::Int(n)) => if n >= 0 {
            let start = at_most(n as int, s.len());
            if args.len() <= 2 {
                Ok(ValueView::String(s.subrange(start, s.len() as int)))
            } else {
                match args[2] {
                    ValueView::Int(len) => if len >= 0 {
                        Ok(
                            ValueView::String(
                                s.subrange(start, at_most(start + len, s.len())),
                            ),
                        )
                    } else {
                        invalid("substring() length cannot be negative"@, span)
                    },
                    other => refuses(
                        "substring() length must be an integer, got "@,
                        other,
                        span,
                    ),
                }
            }
        } else {
            invalid("substring() start cannot be negative"@, span)
        },
        _ => Err(operators::type_error("substring() needs a string and an integer"@, span)),
    }
}

/// `left` and `right` cut a string in two, and `substring` cuts out the same
/// pieces.
pub proof fn left_and_right_make_the_whole(s: Seq<char>, n: i64, m: i64, span: Span)
    requires
        0 <= n,
        0 <= m,
        n + m == s.len(),
    ensures
        ({
            let text = ValueView::String(s);
            let l = s.subrange(0, n as int);
            let r = s.subrange(n as int, s.len() as int);
            &&& left_result(text, ValueView::Int(n), span) == Ok::<_, ExecErrorView>(
                ValueView::String(l),
            )
            &&& right_result(text, ValueView::Int(m), span) == Ok::<_, ExecErrorView>(
                ValueView::String(r),
            )
            &&& substring_result(seq![text, ValueView::Int(0), ValueView::Int(n)], span)
                == left_result(text, ValueView::Int(n), span)
            &&& substring_result(seq![text, ValueView::Int(n)], span) == right_result(
                text,
                ValueView::Int(m),
                span,
            )
            &&& l.len() == n
            &&& r.len() == m
            &&& l + r == s
        }),
{
    assert(s.subrange(0, n as int) + s.subrange(n as int, s.len() as int) =~= s);
}

pub open spec fn text_function(
    name: Seq<char>,
    args: Seq<ValueView>,
    span: Span,
) -> Option<Result<ValueView, ExecErrorView>> {
    let a = arg_at(args, 0);
    let b = arg_at(args, 1);
    if named(name, "toUpper"@) {
        Some(on_text(a, span, |s: Seq<char>| text::uppercase(s)))
    } else if named(name, "toLower"@) {
        Some(on_text(a, span, |s: Seq<char>| text::lowercase(s)))
    } else if named(name, "trim"@) {
        Some(on_text(a, span, |s: Seq<char>| strings::trimmed(s)))
    } else if named(name, "lTrim"@) {
        Some(on_text(a, span, |s: Seq<char>| strings::trimmed_start(s)))
    } else if named(name, "rTrim"@) {
        Some(on_text(a, span, |s: Seq<char>| strings::trimmed_end(s)))
    } else if named(name, "split"@) {
        Some(split_result(a, b, span))
    } else if named(name, "replace"@) {
        Some(replace_result(a, b, arg_at(args, 2), span))
    } else if named(name, "left"@) {
        Some(left_result(a, b, span))
    } else if named(name, "right"@) {
        Some(right_result(a, b, span))
    } else if named(name, "substring"@) {
        Some(substring_result(args, span))
    } else {
        None
    }
}

/// `n`, which is not negative, but no more than `len`.
fn cap(n: i64, len: usize) -> (r: usize)
    requires
        n >= 0,
    ensures
        r == at_most(n as int, len as nat),
{
    if n as u64 > len as u64 {
        len
    } else {
        n as usize
    }
}

fn take_left(a: &Value, b: &Value, span: Span) -> (r: Result<Value, ExecError>)
    ensures
        operators::agrees(r, left_result(a@, b@, span)),
{
    match (a, b) {
        (Value::String(s), Value::Int(n)) => {
            if *n < 0 {
                return reject("left() length cannot be negative", span);
            }
            let chars = text::chars_of(s.as_str());
            let end: usize = cap(*n, chars.len());
            Ok(Value::String(text::text_of(&chars, 0, end)))
        },
        _ => Err(operators::type_err("left() needs a string and an integer".to_owned(), span)),
    }
}

fn take_right(a: &Value, b: &Value, span: Span) -> (r: Result<Value, ExecError>)
    ensures
        operators::agrees(r, right_result(a@, b@, span)),
{
    match (a, b) {
        (Value::String(s), Value::Int(n)) => {
            if *n < 0 {
                return reject("right() length cannot be negative", span);
            }
            let chars = text::chars_of(s.as_str());
            let count: usize = cap(*n, chars.len());
            Ok(Value::String(text::text_of(&chars, chars.len() - count, chars.len())))
        },
        _ => Err(operators::type_err("right() needs a string and an integer".to_owned(), span)),
    }
}

fn substring(args: &Vec<Value>, span: Span) -> (r: Result<Value, ExecError>)
    ensures
        operators::agrees(r, substring_result(value::values_view(args@), span)),
{
    let ghost all = value::values_view(args@);
    let a = arg(args, 0);
    let b = arg(args, 1);
    match (&a, &b) {
        (Value::String(s), Value::Int(n)) => {
            if *n < 0 {
                return reject("substring() start cannot be negative", span);
            }
            let chars = text::chars_of(s.as_str());
            let start: usize = cap(*n, chars.len());
            if args.len() <= 2 {
                return Ok(Value::String(text::text_of(&chars, start, chars.len())));
            }
            assert(all[2] == args@[2]@);
            match &args[2] {
                Value::Int(len) => {
                    if *len < 0 {
                        return reject("substring() length cannot be negative", span);
                    }
                    let count: usize = cap(*len, chars.len() - start);
                    Ok(Value::String(text::text_of(&chars, start, start + count)))
                },
                other => refuse("substring() length must be an integer, got ", other, span),
            }
        },
        _ => Err(operators::type_err("substring() needs a string and an integer".to_owned(), span)),
    }
}

fn split_text(a: &Value, b: &Value, span: Span) -> (r: Result<Value, ExecError>)
    ensures
        operators::agrees(r, split_result(a@, b@, span)),
{
    match (a, b) {
        (Value::String(s), Value::String(sep)) => {
            let parts = strings::split(s.as_str(), sep.as_str());
            Ok(list_of_strings(&parts))
        },
        (x, y) => {
            let head = text::join3("split() needs strings, got ", x.type_label(), " and ");
            Err(operators::type_err(text::join2(head.as_str(), y.type_label()), span))
        },
    }
}

fn replace_text(a: &Value, b: &Value, c: &Value, span: Span) -> (r: Result<Value, ExecError>)
    ensures
        operators::agrees(r, replace_result(a@, b@, c@, span)),
{
    match (a, b, c) {
        (Value::String(s), Value::String(from), Value::String(to)) => Ok(
            Value::String(strings::replace(s.as_str(), from.as_str(), to.as_str())),
        ),
        _ => Err(operators::type_err("replace() needs three strings".to_owned(), span)),
    }
}

fn call_text(name: &str, args: &Vec<Value>, span: Span) -> (r: Option<Result<Value, ExecError>>)
    ensures
        maybe_agrees(r, text_function(name@, value::values_view(args@), span)),
{
    let a = arg(args, 0);
    let b = arg(args, 1);
    if text::eq_ignore_case(name, "toUpper") {
        Some(
            match &a {
                Value::String(s) => Ok(Value::String(text::to_upper(s.as_str()))),
                other => refuse("expected a string, got ", other, span),
            },
        )
    } else if text::eq_ignore_case(name, "toLower") {
        Some(
            match &a {
                Value::String(s) => Ok(Value::String(text::to_lower(s.as_str()))),
                other => refuse("expected a string, got ", other, span),
            },
        )
    } else if text::eq_ignore_case(name, "trim") {
        Some(
            match &a {
                Value::String(s) => Ok(Value::String(strings::trim(s.as_str()))),
                other => refuse("expected a string, got ", other, span),
            },
        )
    } else if text::eq_ignore_case(name, "lTrim") {
        Some(
            match &a {
                Value::String(s) => Ok(Value::String(strings::trim_start(s.as_str()))),
                other => refuse("expected a string, got ", other, span),
            },
        )
    } else if text::eq_ignore_case(name, "rTrim") {
        Some(
            match &a {
                Value::String(s) => Ok(Value::String(strings::trim_end(s.as_str()))),
                other => refuse("expected a string, got ", other, span),
            },
        )
    } else if text::eq_ignore_case(name, "split") {
        Some(split_text(&a, &b, span))
    } else if text::eq_ignore_case(name, "replace") {
        Some(replace_text(&a, &b, &arg(args, 2), span))
    } else if text::eq_ignore_case(name, "left") {
        Some(take_left(&a, &b, span))
    } else if text::eq_ignore_case(name, "right") {
        Some(take_right(&a, &b, span))
    } else if text::eq_ignore_case(name, "substring") {
        Some(substring(args, span))
    } else {
        None
    }
}

// --- Conversions -------------------------------------------------------------------------------------

pub open spec fn to_string_result(
    v: ValueView,
    span: Span,
    table: Seq<(FloatRequestView, FloatAnswerView)>,
) -> Result<ValueView, ExecErrorView> {
    match v {
        ValueView::String(s) => Ok(v),
        ValueView::Int(n) => Ok(ValueView::String(text::signed_decimal(n as int))),
        ValueView::Float(x) => match float::shown(table, x, span) {
            Ok(t) => Ok(ValueView::String(t)),
            Err(e) => Err(e),
        },
        ValueView::Bool(b) => Ok(
            ValueView::String(
                if b {
                    "true"@
                } else {
                    "false"@
                },
            ),
        ),
        other => refuses("toString() cannot convert "@, other, span),
    }
}

pub open spec fn to_integer_result(
    v: ValueView,
    span: Span,
    table: Seq<(FloatRequestView, FloatAnswerView)>,
) -> Result<ValueView, ExecErrorView> {
    match v {
        ValueView::Int(n) => Ok(v),
        ValueView::Float(x) => Ok(ValueView::Int(float::to_int(x) as i64)),
        ValueView::String(s) => match strings::integer_in(strings::trimmed(s)) {
            Some(n) => Ok(ValueView::Int(n)),
            None => match float::parsed_for(table, strings::trimmed(s), span) {
                Ok(Some(x)) => Ok(ValueView::Int(float::to_int(x) as i64)),
                Ok(None) => Ok(ValueView::Null),
                Err(e) => Err(e),
            },
        },
        other => refuses("toInteger() cannot convert "@, other, span),
    }
}

pub open spec fn to_float_result(
    v: ValueView,
    span: Span,
    table: Seq<(FloatRequestView, FloatAnswerView)>,
) -> Result<ValueView, ExecErrorView> {
    match v {
        ValueView::Int(n) => Ok(ValueView::Float(float::of_int(n as int) as u64)),
        ValueView::Float(x) => Ok(v),
        ValueView::String(s) => match float::parsed_for(table, strings::trimmed(s), span) {
            Ok(Some(x)) => Ok(ValueView::Float(x)),
            Ok(None) => Ok(ValueView::Null),
            Err(e) => Err(e),
        },
        other => refuses("toFloat() cannot convert "@, other, span),
    }
}

pub open spec fn to_boolean_result(v: ValueView, span: Span) -> Result<ValueView, ExecErrorView> {
    match v {
        ValueView::Bool(b) => Ok(v),
        ValueView::String(s) => Ok(
            if text::same_ignoring_case(strings::trimmed(s), "true"@) {
                ValueView::Bool(true)
            } else if text::same_ignoring_case(strings::trimmed(s), "false"@) {
                ValueView::Bool(false)
            } else {
                ValueView::Null
            },
        ),
        other => refuses("toBoolean() cannot convert "@, other, span),
    }
}

pub open spec fn conversion_function(
    name: Seq<char>,
    args: Seq<ValueView>,
    span: Span,
    table: Seq<(FloatRequestView, FloatAnswerView)>,
) -> Option<Result<ValueView, ExecErrorView>> {
    let a = arg_at(args, 0);
    if named(name, "toString"@) {
        Some(to_string_result(a, span, table))
    } else if named(name, "toInteger"@) {
        Some(to_integer_result(a, span, table))
    } else if named(name, "toFloat"@) {
        Some(to_float_result(a, span, table))
    } else if named(name, "toBoolean"@) {
        Some(to_boolean_result(a, span))
    } else {
        None
    }
}

fn convert_to_string(v: Value, span: Span, table: &FloatTable) -> (r: Result<Value, ExecError>)
    ensures
        operators::agrees(r, to_string_result(v@, span, table@)),
{
    match v {
        Value::String(s) => Ok(Value::String(s)),
        Value::Int(n) => Ok(Value::String(text::int_text(n))),
        Value::Float(x) => match float::format_float(table, x, span) {
            Ok(t) => Ok(Value::String(t)),
            Err(e) => Err(e),
        },
        Value::Bool(b) => Ok(
            Value::String(
                if b {
                    "true".to_owned()
                } else {
                    "false".to_owned()
                },
            ),
        ),
        other => refuse("toString() cannot convert ", &other, span),
    }
}

fn convert_to_integer(v: Value, span: Span, table: &FloatTable) -> (r: Result<Value, ExecError>)
    ensures
        operators::agrees(r, to_integer_result(v@, span, table@)),
{
    match v {
        Value::Int(n) => Ok(Value::Int(n)),
        Value::Float(x) => Ok(Value::Int(float::truncate(x))),
        Value::String(s) => {
            let t = strings::trim(s.as_str());
            if let Some(n) = strings::parse_integer(t.as_str()) {
                return Ok(Value::Int(n));
            }
            match table.parsed(t.as_str(), span) {
                Ok(Some(x)) => Ok(Value::Int(float::truncate(x))),
                Ok(None) => Ok(Value::Null),
                Err(e) => Err(e),
            }
        },
        other => refuse("toInteger() cannot convert ", &other, span),
    }
}

fn convert_to_float(v: Value, span: Span, table: &FloatTable) -> (r: Result<Value, ExecError>)
    ensures
        operators::agrees(r, to_float_result(v@, span, table@)),
{
    match v {
        Value::Int(n) => Ok(Value::Float(float::from_int(n))),
        Value::Float(x) => Ok(Value::Float(x)),
        Value::String(s) => match table.parsed(strings::trim(s.as_str()).as_str(), span) {
            Ok(Some(x)) => Ok(Value::Float(x)),
            Ok(None) => Ok(Value::Null),
            Err(e) => Err(e),
        },
        other => refuse("toFloat() cannot convert ", &other, span),
    }
}

fn convert_to_boolean(v: Value, span: Span) -> (r: Result<Value, ExecError>)
    ensures
        operators::agrees(r, to_boolean_result(v@, span)),
{
    match v {
        Value::Bool(b) => Ok(Value::Bool(b)),
        Value::String(s) => {
            let t = strings::trim(s.as_str());
            if text::eq_ignore_case(t.as_str(), "true") {
                Ok(Value::Bool(true))
            } else if text::eq_ignore_case(t.as_str(), "false") {
                Ok(Value::Bool(false))
            } else {
                Ok(Value::Null)
            }
        },
        other => refuse("toBoolean() cannot convert ", &other, span),
    }
}

fn call_conversion(name: &str, args: &Vec<Value>, span: Span, table: &FloatTable) -> (r: Option<
    Result<Value, ExecError>,
>)
    ensures
        maybe_agrees(r, conversion_function(name@, value::values_view(args@), span, table@)),
{
    let a = arg(args, 0);
    if text::eq_ignore_case(name, "toString") {
        Some(convert_to_string(a, span, table))
    } else if text::eq_ignore_case(name, "toInteger") {
        Some(convert_to_integer(a, span, table))
    } else if text::eq_ignore_case(name, "toFloat") {
        Some(convert_to_float(a, span, table))
    } else if text::eq_ignore_case(name, "toBoolean") {
        Some(convert_to_boolean(a, span))
    } else {
        None
    }
}

// --- Ranges --------------------------------------------------------------------------------------------

/// The first of the arguments that is no integer, from `i` on.
pub open spec fn first_non_integer(args: Seq<ValueView>, i: int) -> Option<ValueView>
    decreases args.len() - i,
{
    if i < 0 || i >= args.len() {
        None
    } else if !(args[i] is Int) {
        Some(args[i])
    } else {
        first_non_integer(args, i + 1)
    }
}

/// How many elements lie from `start` to `end`, both included, `step` apart.
pub open spec fn range_count(start: int, end: int, step: int) -> nat {
    if (step > 0 && end < start) || (step < 0 && end > start) {
        0
    } else if step > 0 {
        ((end - start) / step + 1) as nat
    } else {
        ((start - end) / (-step) + 1) as nat
    }
}

/// `count` integers from `start` on, `step` apart.
pub open spec fn range_items(start: int, step: int, count: nat) -> Seq<ValueView> {
    Seq::new(count, |i: int| ValueView::Int((start + i * step) as i64))
}

/// `range(start, end[, step])`. The elements are charged before they are
/// built.
pub open spec fn range_result(args: Seq<ValueView>, span: Span, budget: Budget) -> Operated {
    match first_non_integer(args, 0) {
        Some(other) => arith::free_of_charge(
            invalid("range() needs integers, got "@ + inspect::type_label_of(other), span),
            budget,
        ),
        None => {
            let step: int = if args.len() > 2 {
                args[2]->Int_0 as int
            } else {
                1
            };
            if step == 0 {
                arith::free_of_charge(invalid("range() step cannot be zero"@, span), budget)
            } else if args.len() < 2 {
                arith::free_of_charge(invalid("range() needs a start and an end"@, span), budget)
            } else {
                let start = args[0]->Int_0 as int;
                let count = range_count(start, args[1]->Int_0 as int, step);
                let c = budget.collection(arith::count64(count));
                match c.result {
                    Err(e) => arith::free_of_charge(Err(e), c.budget),
                    Ok(_) => if count > MAX_RANGE_ELEMENTS {
                        arith::free_of_charge(
                            invalid(
                                "range() would produce "@ + text::decimal(count)
                                    + " elements, exceeding the limit of "@ + text::decimal(
                                    MAX_RANGE_ELEMENTS as nat,
                                ),
                                span,
                            ),
                            c.budget,
                        )
                    } else {
                        arith::free_of_charge(
                            Ok(ValueView::List(range_items(start, step, count))),
                            c.budget,
                        )
                    },
                }
            }
        },
    }
}

fn count_range(start: i64, end: i64, step: i64) -> (r: u128)
    requires
        step != 0,
    ensures
        r == range_count(start as int, end as int, step as int),
        r <= 0x1_0000_0000_0000_0000,
{
    if (step > 0 && end < start) || (step < 0 && end > start) {
        return 0;
    }
    let (distance, stride): (u128, u128) = if step > 0 {
        ((end as i128 - start as i128) as u128, step as u128)
    } else {
        ((start as i128 - end as i128) as u128, (-(step as i128)) as u128)
    };
    proof {
        assert(distance as int / stride as int <= distance as int) by (nonlinear_arith)
            requires
                distance >= 0,
                stride >= 1,
        ;
    }
    distance / stride + 1
}

/// The elements of a range stay between its ends.
proof fn lemma_range_bounds(start: int, end: int, step: int, i: int)
    requires
        step != 0,
        0 <= i < range_count(start, end, step),
    ensures
        step > 0 ==> start <= start + i * step <= end,
        step < 0 ==> end <= start + i * step <= start,
{
    if step > 0 {
        let q = (end - start) / step;
        assert(i <= q);
        assert(0 <= i * step <= end - start) by (nonlinear_arith)
            requires
                0 <= i <= q,
                q == (end - start) / step,
                step > 0,
                end >= start,
        ;
    } else {
        let s = -step;
        let q = (start - end) / s;
        assert(i <= q);
        assert(0 <= i * s <= start - end) by (nonlinear_arith)
            requires
                0 <= i <= q,
                q == (start - end) / s,
                s > 0,
                start >= end,
        ;
        assert(i * step == -(i * s)) by (nonlinear_arith)
            requires
                s == -step,
        ;
    }
}

fn integers(args: &Vec<Value>, span: Span) -> (r: Result<Vec<i64>, ExecError>)
    ensures
        r matches Ok(v) ==> first_non_integer(value::values_view(args@), 0) is None && v@.len()
            == args@.len() && forall|k: int|
            0 <= k < args@.len() ==> value::values_view(args@)[k] == ValueView::Int(#[trigger] v@[k]),
        r matches Err(e) ==> first_non_integer(value::values_view(args@), 0) is Some && e@
            == (ExecErrorView::InvalidArgument {
            message: "range() needs integers, got "@ + inspect::type_label_of(
                first_non_integer(value::values_view(args@), 0)->0,
            ),
            span,
        }),
{
    let ghost all = value::values_view(args@);
    let mut out: Vec<i64> = Vec::new();
    let mut i: usize = 0;
    while i < args.len()
        invariant
            i <= args.len(),
            all == value::values_view(args@),
            out@.len() == i,
            first_non_integer(all, 0) == first_non_integer(all, i as int),
            forall|k: int| 0 <= k < i ==> all[k] == ValueView::Int(#[trigger] out@[k]),
        decreases args.len() - i,
    {
        assert(all[i as int] == args@[i as int]@);
        match &args[i] {
            Value::Int(n) => out.push(*n),
            other => {
                return Err(
                    ExecError::InvalidArgument {
                        message: text::join2("range() needs integers, got ", other.type_label()),
                        span,
                    },
                );
            },
        }
        i += 1;
    }
    Ok(out)
}

fn range(args: &Vec<Value>, span: Span, governor: &mut Governor) -> (r: Result<Value, ExecError>)
    ensures
        arith::operated(
            r,
            old(governor)@,
            final(governor)@,
            range_result(value::values_view(args@), span, old(governor)@),
        ),
{
    broadcast use crate::exec::poll_laws::group_polls;

    let bounds = match integers(args, span) {
        Err(e) => {
            return Err(e);
        },
        Ok(bounds) => bounds,
    };
    let ghost all = value::values_view(args@);
    let step: i64 = if bounds.len() > 2 {
        bounds[2]
    } else {
        1
    };
    assert(bounds@.len() > 2 ==> all[2] == ValueView::Int(step));
    if step == 0 {
        return reject("range() step cannot be zero", span);
    }
    if bounds.len() < 2 {
        return reject("range() needs a start and an end", span);
    }
    let start: i64 = bounds[0];
    let end: i64 = bounds[1];
    assert(all[0] == ValueView::Int(start) && all[1] == ValueView::Int(end));
    let count: u128 = count_range(start, end, step);
    let len: u64 = if count > u64::MAX as u128 {
        u64::MAX
    } else {
        count as u64
    };
    if let Err(e) = governor.collection(len) {
        return Err(e);
    }
    if count > MAX_RANGE_ELEMENTS as u128 {
        let head = text::join3(
            "range() would produce ",
            text::wide_decimal_text(count).as_str(),
            " elements, exceeding the limit of ",
        );
        let message = text::join2(head.as_str(), text::decimal_text(MAX_RANGE_ELEMENTS).as_str());
        return reject(message.as_str(), span);
    }
    let ghost n = range_count(start as int, end as int, step as int);
    let ghost wanted = range_items(start as int, step as int, n);
    let mut items: Vec<Value> = Vec::new();
    let mut at: i64 = start;
    let mut i: u64 = 0;
    while i < len
        invariant
            i <= len,
            len == n,
            n == range_count(start as int, end as int, step as int),
            step != 0,
            wanted == range_items(start as int, step as int, n),
            items@.len() == i,
            i < len ==> at == start + i * step,
            forall|k: int| 0 <= k < i ==> (#[trigger] items@[k])@ == wanted[k],
        decreases len - i,
    {
        proof {
            lemma_range_bounds(start as int, end as int, step as int, i as int);
            if i + 1 < len {
                lemma_range_bounds(start as int, end as int, step as int, i + 1);
                assert((i + 1) * step == i * step + step) by (nonlinear_arith);
            }
        }
        items.push(Value::Int(at));
        // Only advance between elements: every emitted value stays between
        // the ends, so this never overflows.
        if i + 1 < len {
            at = at + step;
        }
        i += 1;
    }
    proof {
        assert(value::values_view(items@) =~= wanted);
    }
    Ok(Value::List(items))
}

// --- Calls ---------------------------------------------------------------------------------------------

/// The first argument from `i` on that is not null, null where there is none.
pub open spec fn first_present(args: Seq<ValueView>, i: int) -> ValueView
    decreases args.len() - i,
{
    if i < 0 || i >= args.len() {
        ValueView::Null
    } else if !(args[i] is Null) {
        args[i]
    } else {
        first_present(args, i + 1)
    }
}

pub open spec fn some_null(args: Seq<ValueView>) -> bool {
    exists|i: int| 0 <= i < args.len() && #[trigger] args[i] is Null
}

/// What the function called `name` gives for `args`.
pub open spec fn applied(
    name: Seq<char>,
    args: Seq<ValueView>,
    span: Span,
    graph: GraphView,
    table: Seq<(FloatRequestView, FloatAnswerView)>,
    budget: Budget,
) -> Operated {
    if named(name, "coalesce"@) {
        arith::free_of_charge(Ok(first_present(args, 0)), budget)
    } else if !named(name, "range"@) && some_null(args) {
        arith::free_of_charge(Ok(ValueView::Null), budget)
    } else if named(name, "range"@) {
        range_result(args, span, budget)
    } else {
        match numeric_function(name, args, span, table) {
            Some(r) => arith::free_of_charge(r, budget),
            None => match collection_function(name, args, span) {
                Some(r) => arith::free_of_charge(r, budget),
                None => match entity_function(name, args, span, graph) {
                    Some(r) => arith::free_of_charge(r, budget),
                    None => match text_function(name, args, span) {
                        Some(r) => arith::free_of_charge(r, budget),
                        None => match conversion_function(name, args, span, table) {
                            Some(r) => arith::free_of_charge(r, budget),
                            None => arith::free_of_charge(
                                Err(ExecErrorView::Unsupported { feature: "function"@, span }),
                                budget,
                            ),
                        },
                    },
                },
            },
        }
    }
}

/// Only `range` is charged for; no other function call touches the budget, so none
/// reads the clock.
pub proof fn only_range_is_charged(
    name: Seq<char>,
    args: Seq<ValueView>,
    span: Span,
    graph: GraphView,
    table: Seq<(FloatRequestView, FloatAnswerView)>,
    budget: Budget,
)
    requires
        !named(name, "range"@),
    ensures
        applied(name, args, span, graph, table, budget).budget == budget,
{
}

fn coalesce(args: &Vec<Value>) -> (r: Value)
    ensures
        r@ == first_present(value::values_view(args@), 0),
{
    let mut i: usize = 0;
    while i < args.len()
        invariant
            i <= args.len(),
            first_present(value::values_view(args@), 0) == first_present(
                value::values_view(args@),
                i as int,
            ),
        decreases args.len() - i,
    {
        assert(value::values_view(args@)[i as int] == args@[i as int]@);
        if !args[i].is_null() {
            return args[i].dup();
        }
        i += 1;
    }
    Value::Null
}

fn any_null(args: &Vec<Value>) -> (r: bool)
    ensures
        r == some_null(value::values_view(args@)),
{
    let ghost all = value::values_view(args@);
    let mut i: usize = 0;
    while i < args.len()
        invariant
            i <= args.len(),
            all == value::values_view(args@),
            forall|k: int| 0 <= k < i ==> !(#[trigger] all[k] is Null),
        decreases args.len() - i,
    {
        assert(all[i as int] == args@[i as int]@);
        if args[i].is_null() {
            return true;
        }
        i += 1;
    }
    false
}

/// Calls the function called `name`.
pub fn call<G: GraphSource>(
    name: &str,
    args: Vec<Value>,
    span: Span,
    graph: &G,
    table: &FloatTable,
    governor: &mut Governor,
) -> (r: Result<Value, ExecError>)
    ensures
        arith::operated(
            r,
            old(governor)@,
            final(governor)@,
            applied(name@, value::values_view(args@), span, graph.graph(), table@, old(governor)@),
        ),
{
    broadcast use crate::exec::poll_laws::group_polls;

    // coalesce is the only function that looks past a null argument.
    if text::eq_ignore_case(name, "coalesce") {
        return Ok(coalesce(&args));
    }
    // range has no null-propagation (its arguments must be integers).
    let is_range: bool = text::eq_ignore_case(name, "range");
    if !is_range && any_null(&args) {
        return Ok(Value::Null);
    }
    if is_range {
        return range(&args, span, governor);
    }
    if let Some(r) = call_numeric(name, &args, span, table) {
        return r;
    }
    if let Some(r) = call_collection(name, &args, span) {
        return r;
    }
    if let Some(r) = call_entity(name, &args, span, graph) {
        return r;
    }
    if let Some(r) = call_text(name, &args, span) {
        return r;
    }
    if let Some(r) = call_conversion(name, &args, span, table) {
        return r;
    }
    Err(ExecError::Unsupported { feature: "function", span })
}

/// A range never leaves its ends, whichever way it runs.
pub proof fn range_stays_between_its_ends(start: int, end: int, step: int, i: int)
    requires
        step != 0,
        0 <= i < range_count(start, end, step),
    ensures
        step > 0 ==> start <= start + i * step <= end,
        step < 0 ==> end <= start + i * step <= start,
{
    lemma_range_bounds(start, end, step, i);
}

} // verus!
