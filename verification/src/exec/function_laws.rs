//! What the functions of the registry are for: each as a relation between its
//! arguments and its result.

use vstd::prelude::*;
use vstd::string::*;

use crate::exec::aggregate_laws;
use crate::exec::arith;
use crate::exec::fault::{ExecErrorView, FloatFn, FloatRequestView};
use crate::exec::float::{self, FloatAnswerView};
use crate::exec::functions;
use crate::exec::governor::Budget;
use crate::exec::source::GraphView;
use crate::exec::strings;
use crate::exec::value::{NodeValueView, PathValueView, PropertyMapView, RelValueView, ValueView};
use crate::span::Span;
use crate::text;

verus! {

/// What a call of the function called `name` comes to.
pub open spec fn called(
    name: Seq<char>,
    args: Seq<ValueView>,
    span: Span,
    given: Surroundings,
) -> Result<ValueView, ExecErrorView> {
    functions::applied(name, args, span, given.graph, given.floats, given.budget).result
}

/// What a call reads besides its arguments.
pub struct Surroundings {
    pub graph: GraphView,
    pub floats: Seq<(FloatRequestView, FloatAnswerView)>,
    pub budget: Budget,
}

/// Whether a call comes to a value.
pub open spec fn comes_to(
    name: Seq<char>,
    args: Seq<ValueView>,
    span: Span,
    given: Surroundings,
    v: ValueView,
) -> bool {
    called(name, args, span, given) == Ok::<_, ExecErrorView>(v)
}

// --- Names ------------------------------------------------------------------------------------------

proof fn lemma_apart(a: Seq<char>, b: Seq<char>, i: int)
    requires
        a.len() != b.len() || (
            0 <= i < a.len() && text::ascii_lower(a[i]) != text::ascii_lower(b[i])
        ),
    ensures
        !functions::named(a, b),
{
    let (x, y) = (text::ascii_lower_all(a), text::ascii_lower_all(b));
    assert(x.len() == a.len() && y.len() == b.len());
    if a.len() == b.len() {
        assert(x[i] == text::ascii_lower(a[i]));
        assert(y[i] == text::ascii_lower(b[i]));
    }
}

/// What tells names apart: the length, the first, the third and the last letter.
spec fn outline(s: Seq<char>) -> (nat, char, char, char) {
    (
        s.len(),
        text::ascii_lower(s[0]),
        text::ascii_lower(s[2]),
        text::ascii_lower(s[s.len() - 1]),
    )
}

proof fn lemma_outlines()
    ensures
        forall|a: Seq<char>, b: Seq<char>|
            a.len() >= 3 && #[trigger] functions::named(a, b) ==> outline(a) == outline(b),
{
    assert forall|a: Seq<char>, b: Seq<char>|
        a.len() >= 3 && #[trigger] functions::named(a, b) implies outline(a) == outline(b) by {
        if a.len() != b.len() {
            lemma_apart(a, b, 0);
        } else if text::ascii_lower(a[0]) != text::ascii_lower(b[0]) {
            lemma_apart(a, b, 0);
        } else if text::ascii_lower(a[2]) != text::ascii_lower(b[2]) {
            lemma_apart(a, b, 2);
        } else if text::ascii_lower(a[a.len() - 1]) != text::ascii_lower(b[b.len() - 1]) {
            lemma_apart(a, b, a.len() - 1);
        }
    }
}

/// The functions have different names.
proof fn lemma_names()
    ensures
        outline("coalesce"@) == (8nat, 'c', 'a', 'e'),
        outline("range"@) == (5nat, 'r', 'n', 'e'),
        outline("abs"@) == (3nat, 'a', 's', 's'),
        outline("ceil"@) == (4nat, 'c', 'i', 'l'),
        outline("floor"@) == (5nat, 'f', 'o', 'r'),
        outline("round"@) == (5nat, 'r', 'u', 'd'),
        outline("sqrt"@) == (4nat, 's', 'r', 't'),
        outline("sign"@) == (4nat, 's', 'g', 'n'),
        outline("size"@) == (4nat, 's', 'z', 'e'),
        outline("length"@) == (6nat, 'l', 'n', 'h'),
        outline("head"@) == (4nat, 'h', 'a', 'd'),
        outline("last"@) == (4nat, 'l', 's', 't'),
        outline("tail"@) == (4nat, 't', 'i', 'l'),
        outline("reverse"@) == (7nat, 'r', 'v', 'e'),
        outline("keys"@) == (4nat, 'k', 'y', 's'),
        outline("properties"@) == (10nat, 'p', 'o', 's'),
        outline("labels"@) == (6nat, 'l', 'b', 's'),
        outline("type"@) == (4nat, 't', 'p', 'e'),
        outline("startNode"@) == (9nat, 's', 'a', 'e'),
        outline("endNode"@) == (7nat, 'e', 'd', 'e'),
        outline("nodes"@) == (5nat, 'n', 'd', 's'),
        outline("relationships"@) == (13nat, 'r', 'l', 's'),
        outline("toUpper"@) == (7nat, 't', 'u', 'r'),
        outline("toLower"@) == (7nat, 't', 'l', 'r'),
        outline("trim"@) == (4nat, 't', 'i', 'm'),
        outline("lTrim"@) == (5nat, 'l', 'r', 'm'),
        outline("rTrim"@) == (5nat, 'r', 'r', 'm'),
        outline("split"@) == (5nat, 's', 'l', 't'),
        outline("replace"@) == (7nat, 'r', 'p', 'e'),
        outline("left"@) == (4nat, 'l', 'f', 't'),
        outline("right"@) == (5nat, 'r', 'g', 't'),
        outline("substring"@) == (9nat, 's', 'b', 'g'),
        outline("toString"@) == (8nat, 't', 's', 'g'),
        outline("toInteger"@) == (9nat, 't', 'i', 'r'),
        outline("toFloat"@) == (7nat, 't', 'f', 't'),
        outline("toBoolean"@) == (9nat, 't', 'b', 'n'),
        forall|a: Seq<char>, b: Seq<char>|
            a.len() >= 3 && #[trigger] functions::named(a, b) ==> outline(a) == outline(b),
{
    lemma_outlines();
    reveal_strlit("coalesce");
    reveal_strlit("range");
    reveal_strlit("abs");
    reveal_strlit("ceil");
    reveal_strlit("floor");
    reveal_strlit("round");
    reveal_strlit("sqrt");
    reveal_strlit("sign");
    reveal_strlit("size");
    reveal_strlit("length");
    reveal_strlit("head");
    reveal_strlit("last");
    reveal_strlit("tail");
    reveal_strlit("reverse");
    reveal_strlit("keys");
    reveal_strlit("properties");
    reveal_strlit("labels");
    reveal_strlit("type");
    reveal_strlit("startNode");
    reveal_strlit("endNode");
    reveal_strlit("nodes");
    reveal_strlit("relationships");
    reveal_strlit("toUpper");
    reveal_strlit("toLower");
    reveal_strlit("trim");
    reveal_strlit("lTrim");
    reveal_strlit("rTrim");
    reveal_strlit("split");
    reveal_strlit("replace");
    reveal_strlit("left");
    reveal_strlit("right");
    reveal_strlit("substring");
    reveal_strlit("toString");
    reveal_strlit("toInteger");
    reveal_strlit("toFloat");
    reveal_strlit("toBoolean");
}

/// The case of a function's name does not matter.
pub proof fn the_case_of_a_name_does_not_matter(
    name: Seq<char>,
    other: Seq<char>,
    args: Seq<ValueView>,
    span: Span,
    given: Surroundings,
)
    requires
        text::same_ignoring_case(name, other),
    ensures
        called(name, args, span, given) == called(other, args, span, given),
{
    assert forall|known: Seq<char>| #[trigger] functions::named(name, known)
        == functions::named(other, known) by {
    }
}

/// A null argument makes a call null, except for `coalesce` and `range`.
pub proof fn null_arguments_make_null(
    name: Seq<char>,
    args: Seq<ValueView>,
    span: Span,
    given: Surroundings,
    i: int,
)
    requires
        0 <= i < args.len(),
        args[i] is Null,
        !text::same_ignoring_case(name, "coalesce"@),
        !text::same_ignoring_case(name, "range"@),
    ensures
        comes_to(name, args, span, given, ValueView::Null),
{
    assert(functions::some_null(args));
}

proof fn lemma_first_present(args: Seq<ValueView>, i: int, k: int)
    requires
        0 <= i <= k <= args.len(),
        forall|j: int| 0 <= j < k ==> #[trigger] args[j] is Null,
        k < args.len() ==> !(args[k] is Null),
    ensures
        functions::first_present(args, i) == (if k < args.len() {
            args[k]
        } else {
            ValueView::Null
        }),
    decreases k - i,
{
    if i < k {
        assert(args[i] is Null);
        lemma_first_present(args, i + 1, k);
    }
}

/// `coalesce` gives the first argument that is not null, and null where all are.
pub proof fn coalesce_gives_the_first_that_is_not_null(
    args: Seq<ValueView>,
    span: Span,
    given: Surroundings,
    k: int,
)
    requires
        0 <= k <= args.len(),
        forall|j: int| 0 <= j < k ==> #[trigger] args[j] is Null,
        k < args.len() ==> !(args[k] is Null),
    ensures
        k < args.len() ==> comes_to("coalesce"@, args, span, given, args[k]),
        k == args.len() ==> comes_to("coalesce"@, args, span, given, ValueView::Null),
{
    lemma_first_present(args, 0, k);
}

// --- Numbers ----------------------------------------------------------------------------------------

/// The absolute value of an integer is not negative and is the integer or its
/// opposite; `sign` times the absolute value is the integer.
pub proof fn absolute_value_and_sign_make_the_integer(n: i64, span: Span, given: Surroundings)
    requires
        n != i64::MIN,
    ensures
        exists|m: i64, s: i64| #[trigger] comes_to("abs"@, seq![ValueView::Int(n)], span, given, ValueView::Int(m)) && #[trigger] comes_to("sign"@, seq![ValueView::Int(n)], span, given, ValueView::Int(s)) && m >= 0 && -1 <= s <= 1 && s * m == n && (s == 0 <==> n == 0),
{
    lemma_names();
    let args = seq![ValueView::Int(n)];
    assert(args[0] == ValueView::Int(n));
    assert(!functions::some_null(args));
    let m: i64 = if n < 0 { (-n) as i64 } else { n };
    let s: i64 = if n > 0 { 1 } else if n < 0 { (-1int) as i64 } else { 0 };
    assert(comes_to("abs"@, args, span, given, ValueView::Int(m)));
    assert(comes_to("sign"@, args, span, given, ValueView::Int(s)));
}

/// The least integer has no absolute value.
pub proof fn the_least_integer_has_no_absolute_value(n: i64, span: Span, given: Surroundings)
    requires
        n == i64::MIN,
    ensures
        called(
            "abs"@,
            seq![ValueView::Int(n)],
            span,
            given,
        ) == Err::<ValueView, _>(ExecErrorView::Overflow { span }),
{
    lemma_names();
    assert(!functions::some_null(seq![ValueView::Int(n)]));
}

/// The absolute value of a float is it or its opposite, without a sign; `sign` tells on
/// which side of zero it lies.
pub proof fn float_signs(x: u64, span: Span, given: Surroundings)
    ensures
        exists|r: u64| #[trigger] comes_to("abs"@, seq![ValueView::Float(x)], span, given, ValueView::Float(r)) && r < float::SIGN && (r == x || r == float::negated(x)),
        comes_to(
            "sign"@,
            seq![ValueView::Float(x)],
            span,
            given,
            ValueView::Int(1),
        ) <==> !float::is_nan(x) && float::order_key(x) > 0,
        comes_to(
            "sign"@,
            seq![ValueView::Float(x)],
            span,
            given,
            ValueView::Int(0),
        ) <==> float::is_nan(x) || float::order_key(x) == 0,
        comes_to(
            "sign"@,
            seq![ValueView::Float(x)],
            span,
            given,
            ValueView::Int(-1i64),
        ) <==> !float::is_nan(x) && float::order_key(x) < 0,
{
    lemma_names();
    let args = seq![ValueView::Float(x)];
    assert(!functions::some_null(args));
    let r: u64 = if x >= float::SIGN { (x - float::SIGN) as u64 } else { x };
    assert(comes_to("abs"@, args, span, given, ValueView::Float(r)));
}

/// `ceil` is what the table has for it.
pub proof fn ceil_is_answered(v: ValueView, z: u64, span: Span, given: Surroundings)
    requires
        v is Int || v is Float,
    ensures
        comes_to("ceil"@, seq![v], span, given, ValueView::Float(z)) <==> float::answer(
            given.floats,
            FloatRequestView::Unary { op: FloatFn::Ceil, a: aggregate_laws::as_float(v) },
        ) == Some(FloatAnswerView::Bits(z)),
{
    lemma_names();
    assert(!functions::some_null(seq![v]));
}

/// `floor` is what the table has for it.
pub proof fn floor_is_answered(v: ValueView, z: u64, span: Span, given: Surroundings)
    requires
        v is Int || v is Float,
    ensures
        comes_to("floor"@, seq![v], span, given, ValueView::Float(z)) <==> float::answer(
            given.floats,
            FloatRequestView::Unary { op: FloatFn::Floor, a: aggregate_laws::as_float(v) },
        ) == Some(FloatAnswerView::Bits(z)),
{
    lemma_names();
    assert(!functions::some_null(seq![v]));
}

/// `round` is what the table has for it.
pub proof fn round_is_answered(v: ValueView, z: u64, span: Span, given: Surroundings)
    requires
        v is Int || v is Float,
    ensures
        comes_to("round"@, seq![v], span, given, ValueView::Float(z)) <==> float::answer(
            given.floats,
            FloatRequestView::Unary { op: FloatFn::Round, a: aggregate_laws::as_float(v) },
        ) == Some(FloatAnswerView::Bits(z)),
{
    lemma_names();
    assert(!functions::some_null(seq![v]));
}

/// `sqrt` is what the table has for it.
pub proof fn sqrt_is_answered(v: ValueView, z: u64, span: Span, given: Surroundings)
    requires
        v is Int || v is Float,
    ensures
        comes_to("sqrt"@, seq![v], span, given, ValueView::Float(z)) <==> float::answer(
            given.floats,
            FloatRequestView::Unary { op: FloatFn::Sqrt, a: aggregate_laws::as_float(v) },
        ) == Some(FloatAnswerView::Bits(z)),
{
    lemma_names();
    assert(!functions::some_null(seq![v]));
}

// --- Collections ------------------------------------------------------------------------------------

/// The head and the tail make up a list; the last is its last element; what is empty
/// has neither head nor last.
pub proof fn head_and_tail_make_the_list(items: Seq<ValueView>, span: Span, given: Surroundings)
    ensures
        items.len() > 0 ==> exists|h: ValueView, t: Seq<ValueView>| comes_to("head"@, seq![ValueView::List(items)], span, given, h) && comes_to("tail"@, seq![ValueView::List(items)], span, given, ValueView::List(t)) && items == #[trigger] (seq![h] + t),
        items.len() > 0 ==> exists|before: Seq<ValueView>, l: ValueView| comes_to("last"@, seq![ValueView::List(items)], span, given, l) && items == #[trigger] before.push(l),
        items.len() == 0 ==> comes_to("head"@, seq![ValueView::List(items)], span, given, ValueView::Null) && comes_to("last"@, seq![ValueView::List(items)], span, given, ValueView::Null) && comes_to("tail"@, seq![ValueView::List(items)], span, given, ValueView::List(items)),
{
    lemma_names();
    let args = seq![ValueView::List(items)];
    assert(!functions::some_null(args));
    if items.len() > 0 {
        let (h, t) = (items[0], items.skip(1));
        assert(items =~= seq![h] + t);
        assert(comes_to("tail"@, args, span, given, ValueView::List(t)));
        let (before, l) = (items.drop_last(), items.last());
        assert(items =~= before.push(l));
    }
}

/// Reversing turns every place round, in lists and in texts.
pub proof fn reversing_turns_places_round(
    items: Seq<ValueView>,
    s: Seq<char>,
    i: int,
    span: Span,
    given: Surroundings,
)
    ensures
        called("reverse"@, seq![ValueView::List(items)], span, given) matches Ok(ValueView::List(r)) && r.len() == items.len() && (0 <= i < items.len() ==> r[i] == items[items.len() - 1 - i]),
        called("reverse"@, seq![ValueView::String(s)], span, given) matches Ok(ValueView::String(r)) && r.len() == s.len() && (0 <= i < s.len() ==> r[i] == s[s.len() - 1 - i]),
{
    lemma_names();
    assert(!functions::some_null(seq![ValueView::List(items)]));
    assert(!functions::some_null(seq![ValueView::String(s)]));
}

/// `size` and `length` count elements, characters, entries and relationships.
pub proof fn size_and_length_count(
    items: Seq<ValueView>,
    s: Seq<char>,
    m: PropertyMapView,
    p: PathValueView,
    span: Span,
    given: Surroundings,
)
    requires
        items.len() <= i64::MAX,
        s.len() <= i64::MAX,
        m.entries.len() <= i64::MAX,
        p.rels.len() <= i64::MAX,
    ensures
        comes_to(
            "size"@,
            seq![ValueView::List(items)],
            span,
            given,
            ValueView::Int(items.len() as i64),
        ),
        comes_to("size"@, seq![ValueView::String(s)], span, given, ValueView::Int(s.len() as i64)),
        comes_to(
            "size"@,
            seq![ValueView::Mapping(m)],
            span,
            given,
            ValueView::Int(m.entries.len() as i64),
        ),
        comes_to(
            "length"@,
            seq![ValueView::List(items)],
            span,
            given,
            ValueView::Int(items.len() as i64),
        ),
        comes_to(
            "length"@,
            seq![ValueView::String(s)],
            span,
            given,
            ValueView::Int(s.len() as i64),
        ),
        comes_to(
            "length"@,
            seq![ValueView::Path(p)],
            span,
            given,
            ValueView::Int(p.rels.len() as i64),
        ),
{
    lemma_names();
    assert(!functions::some_null(seq![ValueView::List(items)]));
    assert(!functions::some_null(seq![ValueView::String(s)]));
    assert(!functions::some_null(seq![ValueView::Mapping(m)]));
    assert(!functions::some_null(seq![ValueView::Path(p)]));
}

/// How many elements lie between two ends: each is a step behind the one before it and
/// within the ends, and one more would lie beyond.
pub proof fn ranges_step_from_end_to_end(
    start: i64,
    end: i64,
    step: i64,
    span: Span,
    given: Surroundings,
    i: int,
)
    requires
        step != 0,
    ensures
        called(
            "range"@,
            seq![ValueView::Int(start), ValueView::Int(end), ValueView::Int(step)],
            span,
            given,
        ) matches Ok(v) ==> (v matches ValueView::List(items) && {
            &&& 0 <= i < items.len() ==> (items[i] matches ValueView::Int(k) && k == start + i * step
                && (step > 0 ==> k <= end) && (step < 0 ==> k >= end))
            &&& step > 0 ==> start + items.len() * step > end
            &&& step < 0 ==> start + items.len() * step < end
        }),
        step == 1 ==> called(
            "range"@,
            seq![ValueView::Int(start), ValueView::Int(end)],
            span,
            given,
        ) == called(
            "range"@,
            seq![ValueView::Int(start), ValueView::Int(end), ValueView::Int(step)],
            span,
            given,
        ),
        called(
            "range"@,
            seq![ValueView::Int(start), ValueView::Int(end), ValueView::Int(0)],
            span,
            given,
        ) is Err,
{
    lemma_names();
    let two = seq![ValueView::Int(start), ValueView::Int(end)];
    let args = seq![ValueView::Int(start), ValueView::Int(end), ValueView::Int(step)];
    let none = seq![ValueView::Int(start), ValueView::Int(end), ValueView::Int(0)];
    assert(functions::first_non_integer(args, 3) is None);
    assert(functions::first_non_integer(args, 2) is None);
    assert(functions::first_non_integer(args, 1) is None);
    assert(functions::first_non_integer(args, 0) is None);
    assert(functions::first_non_integer(two, 2) is None);
    assert(functions::first_non_integer(two, 1) is None);
    assert(functions::first_non_integer(two, 0) is None);
    assert(functions::first_non_integer(none, 3) is None);
    assert(functions::first_non_integer(none, 2) is None);
    assert(functions::first_non_integer(none, 1) is None);
    assert(functions::first_non_integer(none, 0) is None);
    let count = functions::range_count(start as int, end as int, step as int);
    lemma_steps(start as int, end as int, step as int, i);
}

proof fn lemma_steps(start: int, end: int, step: int, i: int)
    requires
        step != 0,
    ensures
        ({
            let count = functions::range_count(start, end, step);
            &&& 0 <= i < count ==> (step > 0 ==> start <= start + i * step <= end) && (step < 0
                ==> start >= start + i * step >= end)
            &&& step > 0 ==> start + count * step > end
            &&& step < 0 ==> start + count * step < end
        }),
{
    let count = functions::range_count(start, end, step);
    if step > 0 {
        if end >= start {
            let d = end - start;
            vstd::arithmetic::div_mod::lemma_fundamental_div_mod(d, step);
            vstd::arithmetic::div_mod::lemma_mod_bound(d, step);
            let q = d / step;
            assert(q >= 0) by (nonlinear_arith)
                requires
                    d == step * q + d % step,
                    0 <= d % step < step,
                    d >= 0,
                    step > 0,
            ;
            assert((q + 1) * step == step * q + step) by (nonlinear_arith);
            if 0 <= i < count {
                assert(0 <= i * step <= step * q) by (nonlinear_arith)
                    requires
                        0 <= i <= q,
                        step > 0,
                ;
            }
        } else {
            assert(count * step == 0) by (nonlinear_arith)
                requires
                    count == 0,
            ;
        }
    } else {
        if end <= start {
            let d = start - end;
            let t = -step;
            vstd::arithmetic::div_mod::lemma_fundamental_div_mod(d, t);
            vstd::arithmetic::div_mod::lemma_mod_bound(d, t);
            let q = d / t;
            assert(q >= 0) by (nonlinear_arith)
                requires
                    d == t * q + d % t,
                    0 <= d % t < t,
                    d >= 0,
                    t > 0,
            ;
            assert((q + 1) * step == -(t * q + t)) by (nonlinear_arith)
                requires
                    t == -step,
            ;
            if 0 <= i < count {
                assert(-(t * q) <= i * step <= 0) by (nonlinear_arith)
                    requires
                        0 <= i <= q,
                        t == -step,
                        t > 0,
                ;
            }
        } else {
            assert(count * step == 0) by (nonlinear_arith)
                requires
                    count == 0,
            ;
        }
    }
}

// --- Elements ---------------------------------------------------------------------------------------

/// `keys` lists the names of a map or of an element, and `properties` is the map of
/// them.
pub proof fn keys_and_properties_tell_what_an_element_has(
    m: PropertyMapView,
    n: NodeValueView,
    r: RelValueView,
    i: int,
    span: Span,
    given: Surroundings,
)
    ensures
        called("keys"@, seq![ValueView::Mapping(m)], span, given) matches Ok(ValueView::List(names)) && names.len() == m.entries.len() && (0 <= i < names.len() ==> names[i] == ValueView::String(m.entries[i].0)),
        called("keys"@, seq![ValueView::Node(n)], span, given) == called(
            "keys"@,
            seq![ValueView::Mapping(n.properties)],
            span,
            given,
        ),
        called("keys"@, seq![ValueView::Relationship(r)], span, given) == called(
            "keys"@,
            seq![ValueView::Mapping(r.properties)],
            span,
            given,
        ),
        comes_to("properties"@, seq![ValueView::Mapping(m)], span, given, ValueView::Mapping(m)),
        comes_to(
            "properties"@,
            seq![ValueView::Node(n)],
            span,
            given,
            ValueView::Mapping(n.properties),
        ),
        comes_to(
            "properties"@,
            seq![ValueView::Relationship(r)],
            span,
            given,
            ValueView::Mapping(r.properties),
        ),
{
    lemma_names();
    assert(!functions::some_null(seq![ValueView::Mapping(m)]));
    assert(!functions::some_null(seq![ValueView::Node(n)]));
    assert(!functions::some_null(seq![ValueView::Relationship(r)]));
    assert(!functions::some_null(seq![ValueView::Mapping(n.properties)]));
    assert(!functions::some_null(seq![ValueView::Mapping(r.properties)]));
}

/// `labels` lists a node's labels, and `type` is a relationship's.
pub proof fn labels_and_types_are_told(
    n: NodeValueView,
    r: RelValueView,
    i: int,
    span: Span,
    given: Surroundings,
)
    ensures
        called("labels"@, seq![ValueView::Node(n)], span, given) matches Ok(ValueView::List(texts)) && texts.len() == n.labels.len() && (0 <= i < texts.len() ==> texts[i] == ValueView::String(n.labels[i])),
        comes_to(
            "type"@,
            seq![ValueView::Relationship(r)],
            span,
            given,
            ValueView::String(r.rel_type),
        ),
{
    lemma_names();
    assert(!functions::some_null(seq![ValueView::Node(n)]));
    assert(!functions::some_null(seq![ValueView::Relationship(r)]));
}

/// `startNode` and `endNode` are the nodes that the graph has under the identities of a
/// relationship's ends.
pub proof fn a_relationship_leads_from_start_to_end(
    r: RelValueView,
    span: Span,
    given: Surroundings,
)
    ensures
        (given.graph.node)(r.start) matches Some(n) ==> comes_to(
            "startNode"@,
            seq![ValueView::Relationship(r)],
            span,
            given,
            ValueView::Node(n),
        ),
        (given.graph.node)(r.end) matches Some(n) ==> comes_to(
            "endNode"@,
            seq![ValueView::Relationship(r)],
            span,
            given,
            ValueView::Node(n),
        ),
        (given.graph.node)(r.start) is None ==> comes_to(
            "startNode"@,
            seq![ValueView::Relationship(r)],
            span,
            given,
            ValueView::Null,
        ),
        (given.graph.node)(r.end) is None ==> comes_to(
            "endNode"@,
            seq![ValueView::Relationship(r)],
            span,
            given,
            ValueView::Null,
        ),
{
    lemma_names();
    assert(!functions::some_null(seq![ValueView::Relationship(r)]));
}

/// `nodes` and `relationships` list what a path goes along.
pub proof fn a_path_lists_its_elements(p: PathValueView, i: int, span: Span, given: Surroundings)
    ensures
        called("nodes"@, seq![ValueView::Path(p)], span, given) matches Ok(ValueView::List(all)) && all.len() == p.nodes.len() && (0 <= i < all.len() ==> all[i] == ValueView::Node(p.nodes[i])),
        called("relationships"@, seq![ValueView::Path(p)], span, given) matches Ok(ValueView::List(all)) && all.len() == p.rels.len() && (0 <= i < all.len() ==> all[i] == ValueView::Relationship(p.rels[i])),
{
    lemma_names();
    assert(!functions::some_null(seq![ValueView::Path(p)]));
}

// --- Text -------------------------------------------------------------------------------------------

/// `toUpper` and `toLower` change the case of a text.
pub proof fn case_is_changed(s: Seq<char>, span: Span, given: Surroundings)
    ensures
        comes_to(
            "toUpper"@,
            seq![ValueView::String(s)],
            span,
            given,
            ValueView::String(text::uppercase(s)),
        ),
        comes_to(
            "toLower"@,
            seq![ValueView::String(s)],
            span,
            given,
            ValueView::String(text::lowercase(s)),
        ),
{
    lemma_names();
    assert(!functions::some_null(seq![ValueView::String(s)]));
}

/// Whether a text is white space.
pub open spec fn is_blank(s: Seq<char>) -> bool {
    forall|i: int| 0 <= i < s.len() ==> text::is_whitespace(#[trigger] s[i])
}

/// Whether a text starts with something other than white space, if with anything.
pub open spec fn starts_bare(s: Seq<char>) -> bool {
    s.len() > 0 ==> !text::is_whitespace(s[0])
}

pub open spec fn ends_bare(s: Seq<char>) -> bool {
    s.len() > 0 ==> !text::is_whitespace(s.last())
}

proof fn lemma_blank_end(s: Seq<char>, i: int)
    requires
        0 <= i <= s.len(),
        is_blank(s.take(i)),
    ensures
        i <= strings::blank_end(s, i) <= s.len(),
        is_blank(s.take(strings::blank_end(s, i))),
        starts_bare(s.skip(strings::blank_end(s, i))),
    decreases s.len() - i,
{
    if i < s.len() && text::is_whitespace(s[i]) {
        assert forall|j: int| 0 <= j < i + 1 implies text::is_whitespace(
            #[trigger] s.take(i + 1)[j],
        ) by {
            if j < i {
                assert(s.take(i)[j] == s[j]);
            }
        }
        lemma_blank_end(s, i + 1);
    }
}

proof fn lemma_blank_start(s: Seq<char>, j: int)
    requires
        0 <= j <= s.len(),
        is_blank(s.skip(j)),
    ensures
        0 <= strings::blank_start(s, j) <= j,
        is_blank(s.skip(strings::blank_start(s, j))),
        ends_bare(s.take(strings::blank_start(s, j))),
    decreases j,
{
    if 0 < j && text::is_whitespace(s[j - 1]) {
        assert forall|k: int| 0 <= k < s.len() - (j - 1) implies text::is_whitespace(
            #[trigger] s.skip(j - 1)[k],
        ) by {
            if k > 0 {
                assert(s.skip(j)[k - 1] == s[j - 1 + k]);
            }
        }
        lemma_blank_start(s, j - 1);
    }
}

proof fn lemma_trimmed(s: Seq<char>)
    ensures
        exists|a: Seq<char>| is_blank(a) && s == #[trigger] (a + strings::trimmed_start(s)),
        starts_bare(strings::trimmed_start(s)),
        exists|b: Seq<char>| is_blank(b) && s == #[trigger] (strings::trimmed_end(s) + b),
        ends_bare(strings::trimmed_end(s)),
{
    assert(is_blank(s.take(0)));
    lemma_blank_end(s, 0);
    let i = strings::blank_end(s, 0);
    assert(s.skip(i) =~= strings::trimmed_start(s));
    assert(s =~= s.take(i) + strings::trimmed_start(s));
    assert(is_blank(s.skip(s.len() as int)));
    lemma_blank_start(s, s.len() as int);
    let j = strings::blank_start(s, s.len() as int);
    assert(s.take(j) =~= strings::trimmed_end(s));
    assert(s =~= strings::trimmed_end(s) + s.skip(j));
}

/// Trimming takes white space off the ends of a text, all of it and nothing else:
/// `lTrim` in front, `rTrim` behind, `trim` on both sides.
pub proof fn trimming_takes_white_space_off(s: Seq<char>, span: Span, given: Surroundings)
    ensures
        called("lTrim"@, seq![ValueView::String(s)], span, given) matches Ok(ValueView::String(r))
            && starts_bare(r) && exists|a: Seq<char>| is_blank(a) && s == #[trigger] (a + r),
        called("rTrim"@, seq![ValueView::String(s)], span, given) matches Ok(ValueView::String(r))
            && ends_bare(r) && exists|b: Seq<char>| is_blank(b) && s == #[trigger] (r + b),
        called("trim"@, seq![ValueView::String(s)], span, given) matches Ok(ValueView::String(r))
            && starts_bare(r) && ends_bare(r) && exists|a: Seq<char>, b: Seq<char>|
            is_blank(a) && is_blank(b) && s == #[trigger] (a + r + b),
{
    lemma_names();
    assert(!functions::some_null(seq![ValueView::String(s)]));
    lemma_trimmed(s);
    let t = strings::trimmed_start(s);
    lemma_trimmed(t);
    let r = strings::trimmed(s);
    let a = choose|a: Seq<char>| is_blank(a) && s == #[trigger] (a + t);
    let b = choose|b: Seq<char>| is_blank(b) && t == #[trigger] (r + b);
    assert(s =~= a + r + b);
    if r.len() > 0 {
        assert(r[0] == t[0]);
    }
}

/// Texts one after the other with a text between each two.
pub open spec fn chained(parts: Seq<Seq<char>>, glue: Seq<char>) -> Seq<char>
    decreases parts.len(),
{
    if parts.len() == 0 {
        seq![]
    } else if parts.len() == 1 {
        parts[0]
    } else {
        parts[0] + glue + chained(parts.skip(1), glue)
    }
}

/// Whether a text stands nowhere in another.
pub open spec fn is_nowhere_in(t: Seq<char>, s: Seq<char>) -> bool {
    forall|a: Seq<char>, b: Seq<char>| s != #[trigger] (a + t + b)
}

proof fn lemma_chained_end(parts: Seq<Seq<char>>, glue: Seq<char>, last: Seq<char>)
    requires
        parts.len() > 0,
    ensures
        chained(parts.push(last), glue) == chained(parts, glue) + glue + last,
    decreases parts.len(),
{
    let all = parts.push(last);
    assert(all[0] == parts[0]);
    if parts.len() == 1 {
        assert(all.skip(1) =~= seq![last]);
        assert(chained(seq![last], glue) == last);
    } else {
        assert(all.skip(1) =~= parts.skip(1).push(last));
        lemma_chained_end(parts.skip(1), glue, last);
        assert(chained(all, glue) =~= chained(parts, glue) + glue + last);
    }
}

proof fn lemma_glued(parts: Seq<Seq<char>>, glue: Seq<char>, n: nat)
    requires
        n <= parts.len(),
    ensures
        strings::glued(parts, glue, n) == chained(parts.take(n as int), glue),
    decreases n,
{
    if n == 1 {
        assert(parts.take(1)[0] == parts[0]);
    } else if n > 1 {
        lemma_glued(parts, glue, (n - 1) as nat);
        lemma_chained_end(parts.take(n - 1), glue, parts[n - 1]);
        assert(parts.take(n - 1).push(parts[n - 1]) =~= parts.take(n as int));
    }
}

proof fn lemma_parts(s: Seq<char>, sep: Seq<char>, from: int, i: int)
    requires
        sep.len() > 0,
        0 <= from <= i <= s.len(),
        forall|j: int| from <= j < i ==> !#[trigger] arith::stands_at(s, sep, j),
    ensures
        ({
            let parts = strings::parts_from(s, sep, from, i);
            &&& parts.len() > 0
            &&& chained(parts, sep) == s.skip(from)
            &&& forall|k: int| 0 <= k < parts.len() ==> is_nowhere_in(sep, #[trigger] parts[k])
        }),
    decreases s.len() - i,
{
    let parts = strings::parts_from(s, sep, from, i);
    if i + sep.len() > s.len() {
        assert(s.subrange(from, s.len() as int) =~= s.skip(from));
        lemma_nowhere(s, sep, from, s.len() as int, i);
        assert(parts[0] == s.subrange(from, s.len() as int));
    } else if arith::stands_at(s, sep, i) {
        let next = i + sep.len();
        lemma_parts(s, sep, next, next);
        let rest = strings::parts_from(s, sep, next, next);
        let first = s.subrange(from, i);
        assert(parts == seq![first] + rest);
        assert(parts.skip(1) =~= rest);
        assert(parts[0] == first);
        lemma_stands(s, sep, i);
        assert(s.skip(from) =~= first + sep + s.skip(next));
        lemma_nowhere(s, sep, from, i, i);
        assert forall|k: int| 0 <= k < parts.len() implies is_nowhere_in(
            sep,
            #[trigger] parts[k],
        ) by {
            if k > 0 {
                assert(parts[k] == rest[k - 1]);
            }
        }
    } else {
        lemma_parts(s, sep, from, i + 1);
    }
}

proof fn lemma_stands(s: Seq<char>, t: Seq<char>, i: int)
    requires
        0 <= i,
        i + t.len() <= s.len(),
    ensures
        arith::stands_at(s, t, i) <==> s.subrange(i, i + t.len()) == t,
{
    assert(arith::stands_at(s, t, i) <==> s.subrange(i, i + t.len()) =~= t);
}

/// Where a text stands at none of the first places, it is nowhere in the part before
/// them that is too short for later ones.
proof fn lemma_nowhere(s: Seq<char>, sep: Seq<char>, from: int, to: int, i: int)
    requires
        sep.len() > 0,
        0 <= from <= i <= to <= s.len(),
        forall|j: int| from <= j < i ==> !#[trigger] arith::stands_at(s, sep, j),
        i + sep.len() > to,
    ensures
        is_nowhere_in(sep, s.subrange(from, to)),
{
    let part = s.subrange(from, to);
    assert forall|a: Seq<char>, b: Seq<char>| part != #[trigger] (a + sep + b) by {
        if part == a + sep + b {
            let j = from + a.len();
            assert((a + sep + b).len() == a.len() + sep.len() + b.len());
            assert(part.len() == to - from);
            assert(j + sep.len() <= to);
            assert(s.subrange(j, j + sep.len()) =~= sep) by {
                assert forall|k: int| 0 <= k < sep.len() implies s[j + k] == #[trigger] sep[k] by {
                    assert((a + sep + b)[a.len() + k] == sep[k]);
                    assert(part[a.len() + k] == s[j + k]);
                }
            }
            lemma_stands(s, sep, j);
            assert(!arith::stands_at(s, sep, j));
        }
    }
}

/// The texts of a list of texts.
pub open spec fn are_texts(v: ValueView, parts: Seq<Seq<char>>) -> bool {
    v matches ValueView::List(items) && items.len() == parts.len() && forall|i: int|
        0 <= i < items.len() ==> #[trigger] items[i] == ValueView::String(parts[i])
}

/// `split` takes a text apart at every place of the separator: with the separator
/// between them its parts make up the text, and it stands in none of them. `replace`
/// puts another text between those parts.
pub proof fn splitting_and_replacing(
    s: Seq<char>,
    sep: Seq<char>,
    to: Seq<char>,
    span: Span,
    given: Surroundings,
)
    requires
        sep.len() > 0,
    ensures
        exists|v: ValueView, parts: Seq<Seq<char>>|
            {
                &&& comes_to(
                    "split"@,
                    seq![ValueView::String(s), ValueView::String(sep)],
                    span,
                    given,
                    v,
                )
                &&& #[trigger] are_texts(v, parts)
                &&& comes_to(
                    "replace"@,
                    seq![ValueView::String(s), ValueView::String(sep), ValueView::String(to)],
                    span,
                    given,
                    ValueView::String(chained(parts, to)),
                )
                &&& chained(parts, sep) == s
                &&& forall|k: int|
                    0 <= k < parts.len() ==> is_nowhere_in(sep, #[trigger] parts[k])
            },
{
    lemma_names();
    let args = seq![ValueView::String(s), ValueView::String(sep)];
    let three = seq![ValueView::String(s), ValueView::String(sep), ValueView::String(to)];
    assert(!functions::some_null(args));
    assert(!functions::some_null(three));
    let parts = strings::parts_of(s, sep);
    lemma_parts(s, sep, 0, 0);
    assert(s.skip(0) =~= s);
    lemma_glued(parts, to, parts.len());
    assert(parts.take(parts.len() as int) =~= parts);
    assert(called("split"@, args, span, given) == Ok::<_, ExecErrorView>(
        functions::string_list(parts),
    ));
    assert(are_texts(functions::string_list(parts), parts));
    assert(comes_to("replace"@, three, span, given, ValueView::String(chained(parts, to))));
}

/// Whether a text stands in another behind its first `k` characters.
pub open spec fn lies_at(r: Seq<char>, s: Seq<char>, k: int) -> bool {
    &&& 0 <= k
    &&& k + r.len() <= s.len()
    &&& forall|i: int| 0 <= i < r.len() ==> #[trigger] r[i] == s[k + i]
}

/// `left`, `right` and `substring` cut pieces out of a text, as long as they are asked
/// to be and as far as the text goes.
pub proof fn pieces_are_cut_out(s: Seq<char>, n: i64, m: i64, span: Span, given: Surroundings)
    requires
        n >= 0,
        m >= 0,
    ensures
        called("left"@, seq![ValueView::String(s), ValueView::Int(n)], span, given) matches Ok(
            ValueView::String(r),
        ) && lies_at(r, s, 0) && (r.len() == n || (n > s.len() && r.len() == s.len())),
        called("right"@, seq![ValueView::String(s), ValueView::Int(n)], span, given) matches Ok(
            ValueView::String(r),
        ) && lies_at(r, s, s.len() - r.len()) && (r.len() == n || (n > s.len() && r.len()
            == s.len())),
        called("substring"@, seq![ValueView::String(s), ValueView::Int(n)], span, given) matches Ok(
            ValueView::String(r),
        ) && (n <= s.len() ==> lies_at(r, s, n as int) && r.len() == s.len() - n) && (n > s.len()
            ==> r.len() == 0),
        called(
            "substring"@,
            seq![ValueView::String(s), ValueView::Int(n), ValueView::Int(m)],
            span,
            given,
        ) matches Ok(ValueView::String(r)) && (n + m <= s.len() ==> lies_at(r, s, n as int)
            && r.len() == m) && (n + m > s.len() && n <= s.len() ==> lies_at(r, s, n as int)
            && r.len() == s.len() - n) && (n > s.len() ==> r.len() == 0),
{
    lemma_names();
    let args = seq![ValueView::String(s), ValueView::Int(n)];
    let three = seq![ValueView::String(s), ValueView::Int(n), ValueView::Int(m)];
    assert(!functions::some_null(args));
    assert(!functions::some_null(three));
}

/// Pieces of a negative length or start are refused.
pub proof fn negative_pieces_are_refused(
    s: Seq<char>,
    n: i64,
    m: i64,
    span: Span,
    given: Surroundings,
)
    requires
        n < 0,
    ensures
        called("left"@, seq![ValueView::String(s), ValueView::Int(n)], span, given) is Err,
        called("right"@, seq![ValueView::String(s), ValueView::Int(n)], span, given) is Err,
        called("substring"@, seq![ValueView::String(s), ValueView::Int(n)], span, given) is Err,
        called(
            "substring"@,
            seq![ValueView::String(s), ValueView::Int(m), ValueView::Int(n)],
            span,
            given,
        ) is Err,
{
    lemma_names();
    assert(!functions::some_null(seq![ValueView::String(s), ValueView::Int(n)]));
    assert(!functions::some_null(
        seq![ValueView::String(s), ValueView::Int(m), ValueView::Int(n)],
    ));
}

// --- Conversions ------------------------------------------------------------------------------------

proof fn lemma_digits_pushed(s: Seq<char>, c: char, i: int, read: nat)
    requires
        0 <= i <= s.len(),
        text::is_digit(c),
        strings::digits_read(s, i, read) is Some,
    ensures
        strings::digits_read(s.push(c), i, read) == Some(
            (strings::digits_read(s, i, read)->0 * 10 + ((c as u32) - 48)) as nat,
        ),
    decreases s.len() - i,
{
    if i < s.len() {
        assert(s.push(c)[i] == s[i]);
        lemma_digits_pushed(s, c, i + 1, read * 10 + ((s[i] as u32) - 48) as nat);
    } else {
        assert(s.push(c)[i] == c);
        assert(
            strings::digits_read(s.push(c), i + 1, read * 10 + ((c as u32) - 48) as nat) is Some
        );
    }
}

proof fn lemma_decimal(n: nat)
    ensures
        text::decimal(n).len() > 0,
        forall|i: int| 0 <= i < text::decimal(n).len() ==> text::is_digit(#[trigger] text::decimal(n)[i]),
        strings::digits_read(text::decimal(n), 0, 0) == Some(n),
    decreases n,
{
    if n >= 10 {
        lemma_decimal(n / 10);
        let before = text::decimal(n / 10);
        let c = text::digit_char(n % 10);
        assert(text::decimal(n) =~= before.push(c));
        lemma_digits_pushed(before, c, 0, 0);
        assert(n == (n / 10) * 10 + n % 10) by (nonlinear_arith);
    } else {
        let c = text::digit_char(n);
        assert(text::decimal(n) =~= seq![c]);
        assert(strings::digits_read(seq![c], 1, n) == Some(n));
    }
}

proof fn lemma_not_blank(s: Seq<char>)
    requires
        s.len() > 0,
        !text::is_whitespace(s[0]),
        !text::is_whitespace(s.last()),
    ensures
        strings::trimmed(s) == s,
{
    assert(strings::blank_end(s, 0) == 0);
    assert(strings::trimmed_start(s) =~= s);
    assert(strings::blank_start(s, s.len() as int) == s.len());
    assert(strings::trimmed_end(s) =~= s);
}

proof fn lemma_digits_shifted(s: Seq<char>, t: Seq<char>, i: int, read: nat)
    requires
        t == seq!['-'] + s,
        0 <= i <= s.len(),
    ensures
        strings::digits_read(t, i + 1, read) == strings::digits_read(s, i, read),
    decreases s.len() - i,
{
    if i < s.len() {
        assert(t[i + 1] == s[i]);
        if text::is_digit(s[i]) {
            lemma_digits_shifted(s, t, i + 1, read * 10 + ((s[i] as u32) - 48) as nat);
        }
    }
}

/// `toInteger` reads what `toString` writes of an integer.
pub proof fn an_integer_is_read_back(n: i64, span: Span, given: Surroundings)
    ensures
        exists|s: Seq<char>|
            #[trigger] comes_to(
                "toString"@,
                seq![ValueView::Int(n)],
                span,
                given,
                ValueView::String(s),
            ) && comes_to(
                "toInteger"@,
                seq![ValueView::String(s)],
                span,
                given,
                ValueView::Int(n),
            ),
{
    lemma_names();
    let s = text::signed_decimal(n as int);
    assert(!functions::some_null(seq![ValueView::Int(n)]));
    assert(!functions::some_null(seq![ValueView::String(s)]));
    if n < 0 {
        let m = (-n) as nat;
        lemma_decimal(m);
        let d = text::decimal(m);
        assert(s =~= seq!['-'] + d);
        assert(s.last() == d.last());
        assert(text::is_digit(d[d.len() - 1]));
        lemma_not_blank(s);
        lemma_digits_shifted(d, s, 0, 0);
    } else {
        lemma_decimal(n as nat);
        assert(text::is_digit(s[0]));
        assert(text::is_digit(s[s.len() - 1]));
        lemma_not_blank(s);
    }
    assert(comes_to("toString"@, seq![ValueView::Int(n)], span, given, ValueView::String(s)));
}

/// `toBoolean` reads what `toString` writes of a truth value, and nothing of other
/// texts.
pub proof fn a_truth_value_is_read_back(b: bool, s: Seq<char>, span: Span, given: Surroundings)
    ensures
        exists|t: Seq<char>|
            #[trigger] comes_to(
                "toString"@,
                seq![ValueView::Bool(b)],
                span,
                given,
                ValueView::String(t),
            ) && comes_to(
                "toBoolean"@,
                seq![ValueView::String(t)],
                span,
                given,
                ValueView::Bool(b),
            ),
        comes_to("toString"@, seq![ValueView::Bool(true)], span, given, ValueView::String("true"@)),
        comes_to("toBoolean"@, seq![ValueView::Bool(b)], span, given, ValueView::Bool(b)),
        !text::same_ignoring_case(strings::trimmed(s), "true"@) && !text::same_ignoring_case(
            strings::trimmed(s),
            "false"@,
        ) ==> comes_to("toBoolean"@, seq![ValueView::String(s)], span, given, ValueView::Null),
{
    lemma_names();
    reveal_strlit("true");
    reveal_strlit("false");
    let t = if b {
        "true"@
    } else {
        "false"@
    };
    assert(!functions::some_null(seq![ValueView::Bool(b)]));
    assert(!functions::some_null(seq![ValueView::Bool(true)]));
    assert(!functions::some_null(seq![ValueView::String(t)]));
    assert(!functions::some_null(seq![ValueView::String(s)]));
    lemma_not_blank(t);
    lemma_apart("false"@, "true"@, 0);
    assert(comes_to("toString"@, seq![ValueView::Bool(b)], span, given, ValueView::String(t)));
}

/// Conversions leave what is converted already; integers become the nearest float.
pub proof fn conversions_leave_what_is_converted(
    n: i64,
    x: u64,
    s: Seq<char>,
    span: Span,
    given: Surroundings,
)
    ensures
        comes_to("toString"@, seq![ValueView::String(s)], span, given, ValueView::String(s)),
        comes_to("toInteger"@, seq![ValueView::Int(n)], span, given, ValueView::Int(n)),
        comes_to("toFloat"@, seq![ValueView::Float(x)], span, given, ValueView::Float(x)),
        comes_to(
            "toFloat"@,
            seq![ValueView::Int(n)],
            span,
            given,
            ValueView::Float(float::of_int(n as int) as u64),
        ),
{
    lemma_names();
    assert(!functions::some_null(seq![ValueView::String(s)]));
    assert(!functions::some_null(seq![ValueView::Int(n)]));
    assert(!functions::some_null(seq![ValueView::Float(x)]));
}

} // verus!
