//! Property, index and slice access.

use vstd::prelude::*;
use vstd::string::*;

use crate::exec::fault::{ExecError, ExecErrorView};
use crate::exec::inspect;
use crate::exec::operators;
use crate::exec::value::{self, Value, ValueView};
use crate::span::Span;
use crate::text;

verus! {

/// `base.key`.
pub open spec fn property_of(base: ValueView, key: Seq<char>, span: Span) -> Result<
    ValueView,
    ExecErrorView,
> {
    match base {
        ValueView::Null => Ok(ValueView::Null),
        ValueView::Node(n) => Ok(n.properties.lookup_or_null(key)),
        ValueView::Relationship(r) => Ok(r.properties.lookup_or_null(key)),
        ValueView::Mapping(m) => Ok(m.lookup_or_null(key)),
        other => Err(
            operators::type_error(
                "cannot access property on "@ + inspect::type_label_of(other),
                span,
            ),
        ),
    }
}

pub(crate) fn property_access(base: &Value, key: &str, span: Span) -> (r: Result<
    Value,
    ExecError,
>)
    ensures
        operators::agrees(r, property_of(base@, key@, span)),
{
    match base {
        Value::Null => Ok(Value::Null),
        Value::Node(n) => Ok(n.properties.get_or_null(key)),
        Value::Relationship(x) => Ok(x.properties.get_or_null(key)),
        Value::Mapping(m) => Ok(m.get_or_null(key)),
        other => Err(
            operators::type_err(
                text::join2("cannot access property on ", other.type_label()),
                span,
            ),
        ),
    }
}

/// The place that an index counts to: from the end where it is negative.
pub open spec fn place_of(i: int, len: nat) -> int {
    if i < 0 {
        i + len
    } else {
        i
    }
}

/// `base[index]`.
pub open spec fn indexed(base: ValueView, index: ValueView, span: Span) -> Result<
    ValueView,
    ExecErrorView,
> {
    match (base, index) {
        (ValueView::Null, _) => Ok(ValueView::Null),
        (_, ValueView::Null) => Ok(ValueView::Null),
        (ValueView::List(items), ValueView::Int(i)) => {
            let at = place_of(i as int, items.len());
            Ok(
                if 0 <= at < items.len() {
                    items[at]
                } else {
                    ValueView::Null
                },
            )
        },
        (ValueView::Mapping(m), ValueView::String(key)) => Ok(m.lookup_or_null(key)),
        (ValueView::Node(n), ValueView::String(key)) => Ok(n.properties.lookup_or_null(key)),
        (ValueView::Relationship(r), ValueView::String(key)) => Ok(
            r.properties.lookup_or_null(key),
        ),
        (ValueView::List(_), other) => Err(
            operators::type_error(
                "list index must be an integer, got "@ + inspect::type_label_of(other),
                span,
            ),
        ),
        (other, _) => Err(
            operators::type_error("cannot index "@ + inspect::type_label_of(other), span),
        ),
    }
}

pub(crate) fn index_access(base: Value, index: Value, span: Span) -> (r: Result<Value, ExecError>)
    ensures
        operators::agrees(r, indexed(base@, index@, span)),
{
    match (&base, &index) {
        (Value::Null, _) => Ok(Value::Null),
        (_, Value::Null) => Ok(Value::Null),
        (Value::List(items), Value::Int(i)) => {
            let len: i128 = items.len() as i128;
            let at: i128 = if *i < 0 {
                *i as i128 + len
            } else {
                *i as i128
            };
            if at < 0 || at >= len {
                Ok(Value::Null)
            } else {
                Ok(items[at as usize].dup())
            }
        },
        (Value::Mapping(m), Value::String(key)) => Ok(m.get_or_null(key.as_str())),
        (Value::Node(n), Value::String(key)) => Ok(n.properties.get_or_null(key.as_str())),
        (Value::Relationship(x), Value::String(key)) => Ok(
            x.properties.get_or_null(key.as_str()),
        ),
        (Value::List(_), other) => Err(
            operators::type_err(
                text::join2("list index must be an integer, got ", other.type_label()),
                span,
            ),
        ),
        (other, _) => Err(
            operators::type_err(text::join2("cannot index ", other.type_label()), span),
        ),
    }
}

/// `n` brought between 0 and `len`.
pub open spec fn clamped(n: int, len: nat) -> int {
    if n < 0 {
        0
    } else if n > len {
        len as int
    } else {
        n
    }
}

/// Where a slice bound stands in a list of `len`: `default` where it is left
/// out, nowhere where it is null.
pub open spec fn bound_of(bound: Option<ValueView>, default: int, len: nat, span: Span) -> Result<
    Option<int>,
    ExecErrorView,
> {
    match bound {
        None => Ok(Some(default)),
        Some(ValueView::Null) => Ok(None),
        Some(ValueView::Int(i)) => Ok(Some(clamped(place_of(i as int, len), len))),
        Some(other) => Err(
            operators::type_error(
                "slice bound must be an integer, got "@ + inspect::type_label_of(other),
                span,
            ),
        ),
    }
}

/// `base[from..to]`.
pub open spec fn sliced(
    base: ValueView,
    from: Option<ValueView>,
    to: Option<ValueView>,
    span: Span,
) -> Result<ValueView, ExecErrorView> {
    match base {
        ValueView::Null => Ok(ValueView::Null),
        ValueView::List(items) => match bound_of(from, 0, items.len(), span) {
            Err(e) => Err(e),
            Ok(None) => Ok(ValueView::Null),
            Ok(Some(start)) => match bound_of(to, items.len() as int, items.len(), span) {
                Err(e) => Err(e),
                Ok(None) => Ok(ValueView::Null),
                Ok(Some(end)) => Ok(
                    ValueView::List(
                        if start >= end {
                            seq![]
                        } else {
                            items.subrange(start, end)
                        },
                    ),
                ),
            },
        },
        other => Err(operators::type_error("cannot slice "@ + inspect::type_label_of(other), span)),
    }
}

fn resolve_bound(bound: &Option<Value>, default: usize, len: usize, span: Span) -> (r: Result<
    Option<usize>,
    ExecError,
>)
    requires
        default <= len,
    ensures
        match r {
            Ok(Some(n)) => n <= len && bound_of(
                optional_view(*bound),
                default as int,
                len as nat,
                span,
            ) == Ok::<_, ExecErrorView>(Some(n as int)),
            Ok(None) => bound_of(optional_view(*bound), default as int, len as nat, span) == Ok::<
                _,
                ExecErrorView,
            >(None::<int>),
            Err(e) => bound_of(optional_view(*bound), default as int, len as nat, span) == Err::<
                Option<int>,
                _,
            >(e@),
        },
{
    match bound {
        None => Ok(Some(default)),
        Some(Value::Null) => Ok(None),
        Some(Value::Int(i)) => {
            let wide: i128 = len as i128;
            let at: i128 = if *i < 0 {
                *i as i128 + wide
            } else {
                *i as i128
            };
            if at < 0 {
                Ok(Some(0))
            } else if at > wide {
                Ok(Some(len))
            } else {
                Ok(Some(at as usize))
            }
        },
        Some(other) => Err(
            operators::type_err(
                text::join2("slice bound must be an integer, got ", other.type_label()),
                span,
            ),
        ),
    }
}

/// The value that an optional value stands for.
pub open spec fn optional_view(o: Option<Value>) -> Option<ValueView> {
    match o {
        Some(v) => Some(v@),
        None => None,
    }
}

pub(crate) fn slice_access(
    base: Value,
    from: Option<Value>,
    to: Option<Value>,
    span: Span,
) -> (r: Result<Value, ExecError>)
    ensures
        operators::agrees(r, sliced(base@, optional_view(from), optional_view(to), span)),
{
    match &base {
        Value::Null => Ok(Value::Null),
        Value::List(items) => {
            let ghost all = value::values_view(items@);
            let start: usize = match resolve_bound(&from, 0, items.len(), span) {
                Err(e) => {
                    return Err(e);
                },
                Ok(None) => {
                    return Ok(Value::Null);
                },
                Ok(Some(n)) => n,
            };
            let end: usize = match resolve_bound(&to, items.len(), items.len(), span) {
                Err(e) => {
                    return Err(e);
                },
                Ok(None) => {
                    return Ok(Value::Null);
                },
                Ok(Some(n)) => n,
            };
            let mut out: Vec<Value> = Vec::new();
            let mut i: usize = start;
            while i < end
                invariant
                    start <= i,
                    i <= end || start > end,
                    end <= items.len(),
                    start > end ==> i == start,
                    all == value::values_view(items@),
                    out@.len() == i - start,
                    forall|k: int|
                        0 <= k < i - start ==> (#[trigger] out@[k])@ == all[start + k],
                decreases end - i,
            {
                out.push(items[i].dup());
                i += 1;
            }
            proof {
                if start >= end {
                    assert(value::values_view(out@) =~= seq![]);
                } else {
                    assert(value::values_view(out@) =~= all.subrange(start as int, end as int));
                }
            }
            Ok(Value::List(out))
        },
        other => Err(operators::type_err(text::join2("cannot slice ", other.type_label()), span)),
    }
}

/// An index from the end finds what the index from the front finds.
pub proof fn negative_indices_count_from_the_end(items: Seq<ValueView>, i: i64, span: Span)
    requires
        0 <= i < items.len(),
        items.len() <= i64::MAX,
    ensures
        indexed(ValueView::List(items), ValueView::Int((i - items.len()) as i64), span) == indexed(
            ValueView::List(items),
            ValueView::Int(i),
            span,
        ),
{
}

} // verus!
