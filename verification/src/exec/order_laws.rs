//! Laws of the comparison regimes.

use vstd::prelude::*;

use crate::exec::compare;
use crate::exec::float;
use crate::exec::value::{self, Order, StoredValueView, ValueView};

verus! {

proof fn lemma_text_flip(a: Seq<char>, b: Seq<char>, i: int)
    requires
        0 <= i,
    ensures
        value::text_order_from(b, a, i) == value::text_order_from(a, b, i).flipped(),
    decreases a.len() - i,
{
    if i < a.len() && i < b.len() && a[i] == b[i] {
        lemma_text_flip(a, b, i + 1);
    }
}

proof fn lemma_bytes_flip(a: Seq<u8>, b: Seq<u8>, i: int)
    requires
        0 <= i,
    ensures
        value::bytes_order_from(b, a, i) == value::bytes_order_from(a, b, i).flipped(),
    decreases a.len() - i,
{
    if i < a.len() && i < b.len() && a[i] == b[i] {
        lemma_bytes_flip(a, b, i + 1);
    }
}

proof fn lemma_ids_flip(a: Seq<Seq<u8>>, b: Seq<Seq<u8>>, i: int)
    requires
        0 <= i,
    ensures
        value::ids_order_from(b, a, i) == value::ids_order_from(a, b, i).flipped(),
    decreases a.len() - i,
{
    if i < a.len() && i < b.len() {
        lemma_bytes_flip(a[i], b[i], 0);
        if value::bytes_order(a[i], b[i]) == Order::Equal {
            lemma_ids_flip(a, b, i + 1);
        }
    }
}

proof fn lemma_names_flip(
    xs: Seq<(Seq<char>, ValueView)>,
    ys: Seq<(Seq<char>, ValueView)>,
    i: int,
)
    requires
        0 <= i,
    ensures
        compare::names_order(ys, xs, i) == compare::names_order(xs, ys, i).flipped(),
    decreases xs.len() - i,
{
    if i < xs.len() && i < ys.len() {
        lemma_text_flip(xs[i].0, ys[i].0, 0);
        if value::text_order(xs[i].0, ys[i].0) == Order::Equal {
            lemma_names_flip(xs, ys, i + 1);
        }
    }
}

/// The global sort order of two values turned around is that of the values
/// turned around.
pub proof fn sort_order_is_antisymmetric(a: ValueView, b: ValueView)
    ensures
        compare::sort_order(b, a) == compare::sort_order(a, b).flipped(),
    decreases a, 0nat,
{
    if compare::text_of_value(a) is Some && compare::text_of_value(b) is Some {
        lemma_text_flip(compare::text_of_value(a)->0, compare::text_of_value(b)->0, 0);
    } else {
        match (a, b) {
            (ValueView::List(xs), ValueView::List(ys)) => {
                lemma_list_flip(xs, ys, 0);
            },
            (ValueView::Mapping(x), ValueView::Mapping(y)) => {
                lemma_names_flip(x.entries, y.entries, 0);
                lemma_entries_flip(x.entries, y.entries, 0);
            },
            (ValueView::Node(x), ValueView::Node(y)) => {
                lemma_bytes_flip(x.id.bytes, y.id.bytes, 0);
            },
            (ValueView::Relationship(x), ValueView::Relationship(y)) => {
                lemma_bytes_flip(x.id.bytes, y.id.bytes, 0);
            },
            (ValueView::Path(x), ValueView::Path(y)) => {
                lemma_ids_flip(compare::path_ids(x), compare::path_ids(y), 0);
            },
            _ => {},
        }
    }
}

proof fn lemma_list_flip(xs: Seq<ValueView>, ys: Seq<ValueView>, i: int)
    requires
        0 <= i,
    ensures
        compare::list_order(ys, xs, i) == compare::list_order(xs, ys, i).flipped(),
    decreases xs, xs.len() - i,
{
    if i < xs.len() && i < ys.len() {
        sort_order_is_antisymmetric(xs[i], ys[i]);
        if compare::sort_order(xs[i], ys[i]) == Order::Equal {
            lemma_list_flip(xs, ys, i + 1);
        }
    }
}

proof fn lemma_entries_flip(
    xs: Seq<(Seq<char>, ValueView)>,
    ys: Seq<(Seq<char>, ValueView)>,
    i: int,
)
    requires
        0 <= i,
    ensures
        compare::entries_order(ys, xs, i) == compare::entries_order(xs, ys, i).flipped(),
    decreases xs, xs.len() - i,
{
    if i < xs.len() && i < ys.len() {
        sort_order_is_antisymmetric(xs[i].1, ys[i].1);
        if compare::sort_order(xs[i].1, ys[i].1) == Order::Equal {
            lemma_entries_flip(xs, ys, i + 1);
        }
    }
}

/// Every value, null and NaN too, is equivalent to itself.
pub proof fn a_value_is_equivalent_to_itself(a: ValueView)
    ensures
        compare::sort_order(a, a) == Order::Equal,
{
    sort_order_is_antisymmetric(a, a);
}

/// Null is greatest in the global sort order.
pub proof fn null_sorts_last(a: ValueView)
    requires
        !(a is Null),
    ensures
        compare::sort_order(a, ValueView::Null) == Order::Less,
{
}

/// Not-a-number sorts after every other number.
pub proof fn nan_sorts_after_numbers(x: u64, v: ValueView)
    requires
        float::is_nan(x),
        compare::is_number(v),
        !float::is_nan(compare::number_bits(v)),
    ensures
        compare::sort_order(v, ValueView::Float(x)) == Order::Less,
{
}

/// openCypher equality does not depend on the order of its operands.
pub proof fn equality_is_symmetric(a: ValueView, b: ValueView)
    ensures
        compare::equality(a, b) == compare::equality(b, a),
    decreases a, 0nat,
{
    if a is Null || b is Null || compare::text_of_value(a) is Some || compare::text_of_value(b) is Some {
    } else {
        match (a, b) {
            (ValueView::List(xs), ValueView::List(ys)) => {
                if xs.len() == ys.len() {
                    lemma_all_equal_symmetric(xs, ys, xs.len());
                }
            },
            (ValueView::Mapping(x), ValueView::Mapping(y)) => {
                assert(
                    compare::same_keys(x.entries, y.entries) ==> compare::same_keys(y.entries, x.entries)
                );
                assert(
                    compare::same_keys(y.entries, x.entries) ==> compare::same_keys(x.entries, y.entries)
                );
                if compare::same_keys(x.entries, y.entries) {
                    lemma_entries_equal_symmetric(x.entries, y.entries, x.entries.len());
                }
            },
            (ValueView::Path(x), ValueView::Path(y)) => {
                assert(compare::same_path(x, y) ==> compare::same_path(y, x));
                assert(compare::same_path(y, x) ==> compare::same_path(x, y));
            },
            _ => {},
        }
    }
}

proof fn lemma_all_equal_symmetric(xs: Seq<ValueView>, ys: Seq<ValueView>, n: nat)
    ensures
        compare::all_equal(xs, ys, n) == compare::all_equal(ys, xs, n),
    decreases xs, n,
{
    if 0 < n <= xs.len() && n <= ys.len() {
        lemma_all_equal_symmetric(xs, ys, (n - 1) as nat);
        equality_is_symmetric(xs[n - 1], ys[n - 1]);
    }
}

proof fn lemma_entries_equal_symmetric(
    xs: Seq<(Seq<char>, ValueView)>,
    ys: Seq<(Seq<char>, ValueView)>,
    n: nat,
)
    ensures
        compare::all_entries_equal(xs, ys, n) == compare::all_entries_equal(ys, xs, n),
    decreases xs, n,
{
    if 0 < n <= xs.len() && n <= ys.len() {
        lemma_entries_equal_symmetric(xs, ys, (n - 1) as nat);
        equality_is_symmetric(xs[n - 1].1, ys[n - 1].1);
    }
}

/// openCypher comparison turned around is the comparison of the operands
/// turned around.
pub proof fn comparison_is_antisymmetric(a: ValueView, b: ValueView)
    ensures
        compare::comparison(b, a) == match compare::comparison(a, b) {
            Some(order) => Some(order.flipped()),
            None => None,
        },
    decreases a, 0nat,
{
    if compare::text_of_value(a) is Some && compare::text_of_value(b) is Some {
        lemma_text_flip(compare::text_of_value(a)->0, compare::text_of_value(b)->0, 0);
    } else {
        match (a, b) {
            (ValueView::List(xs), ValueView::List(ys)) => {
                lemma_list_comparison_flip(xs, ys, 0);
            },
            _ => {},
        }
    }
}

proof fn lemma_list_comparison_flip(xs: Seq<ValueView>, ys: Seq<ValueView>, i: int)
    requires
        0 <= i,
    ensures
        compare::list_comparison(ys, xs, i) == match compare::list_comparison(xs, ys, i) {
            Some(order) => Some(order.flipped()),
            None => None,
        },
    decreases xs, xs.len() - i,
{
    if i < xs.len() && i < ys.len() {
        comparison_is_antisymmetric(xs[i], ys[i]);
        if compare::comparison(xs[i], ys[i]) == Some(Order::Equal) {
            lemma_list_comparison_flip(xs, ys, i + 1);
        }
    }
}

/// In all three regimes a carrier behaves as the string of its rendering, on
/// either side.
pub proof fn a_carrier_compares_as_its_rendering(m: StoredValueView, v: ValueView)
    ensures
        compare::equality(ValueView::Stored(m), v) == compare::equality(
            ValueView::String(value::stored_text(m)),
            v,
        ),
        compare::equality(v, ValueView::Stored(m)) == compare::equality(
            v,
            ValueView::String(value::stored_text(m)),
        ),
        compare::comparison(ValueView::Stored(m), v) == compare::comparison(
            ValueView::String(value::stored_text(m)),
            v,
        ),
        compare::comparison(v, ValueView::Stored(m)) == compare::comparison(
            v,
            ValueView::String(value::stored_text(m)),
        ),
        compare::sort_order(ValueView::Stored(m), v) == compare::sort_order(
            ValueView::String(value::stored_text(m)),
            v,
        ),
        compare::sort_order(v, ValueView::Stored(m)) == compare::sort_order(
            v,
            ValueView::String(value::stored_text(m)),
        ),
{
}

// --- Transitivity --------------------------------------------------------------------------

/// Whether the order `ac` of the outer two of three things follows from the
/// orders `ab` and `bc` of neighbours as it does in a total order.
pub open spec fn composes(ab: Order, bc: Order, ac: Order) -> bool {
    &&& ab == Order::Equal ==> ac == bc
    &&& bc == Order::Equal ==> ac == ab
    &&& ab == bc ==> ac == ab
}

proof fn lemma_text_composes(a: Seq<char>, b: Seq<char>, c: Seq<char>, i: int)
    requires
        0 <= i,
    ensures
        composes(
            value::text_order_from(a, b, i),
            value::text_order_from(b, c, i),
            value::text_order_from(a, c, i),
        ),
    decreases a.len() - i,
{
    if i < a.len() && i < b.len() && i < c.len() && a[i] == b[i] && b[i] == c[i] {
        lemma_text_composes(a, b, c, i + 1);
    }
}

proof fn lemma_bytes_compose(a: Seq<u8>, b: Seq<u8>, c: Seq<u8>, i: int)
    requires
        0 <= i,
    ensures
        composes(
            value::bytes_order_from(a, b, i),
            value::bytes_order_from(b, c, i),
            value::bytes_order_from(a, c, i),
        ),
    decreases a.len() - i,
{
    if i < a.len() && i < b.len() && i < c.len() && a[i] == b[i] && b[i] == c[i] {
        lemma_bytes_compose(a, b, c, i + 1);
    }
}

proof fn lemma_ids_compose(a: Seq<Seq<u8>>, b: Seq<Seq<u8>>, c: Seq<Seq<u8>>, i: int)
    requires
        0 <= i,
    ensures
        composes(
            value::ids_order_from(a, b, i),
            value::ids_order_from(b, c, i),
            value::ids_order_from(a, c, i),
        ),
    decreases a.len() - i,
{
    if i < a.len() && i < b.len() && i < c.len() {
        lemma_bytes_compose(a[i], b[i], c[i], 0);
        lemma_ids_compose(a, b, c, i + 1);
    }
}

proof fn lemma_names_compose(
    xs: Seq<(Seq<char>, ValueView)>,
    ys: Seq<(Seq<char>, ValueView)>,
    zs: Seq<(Seq<char>, ValueView)>,
    i: int,
)
    requires
        0 <= i,
    ensures
        composes(
            compare::names_order(xs, ys, i),
            compare::names_order(ys, zs, i),
            compare::names_order(xs, zs, i),
        ),
    decreases xs.len() - i,
{
    if i < xs.len() && i < ys.len() && i < zs.len() {
        lemma_text_composes(xs[i].0, ys[i].0, zs[i].0, 0);
        lemma_names_compose(xs, ys, zs, i + 1);
    }
}

/// The global sort order is transitive over all values, and so is equivalence:
/// integers and floating-point numbers compare by their exact values.
pub proof fn sort_order_is_transitive(a: ValueView, b: ValueView, c: ValueView)
    ensures
        composes(compare::sort_order(a, b), compare::sort_order(b, c), compare::sort_order(a, c)),
    decreases a, 0nat,
{
    let (p, q, r) = (compare::type_rank(a), compare::type_rank(b), compare::type_rank(c));
    assert(p != q ==> compare::sort_order(a, b) == value::int_order(p, q));
    assert(q != r ==> compare::sort_order(b, c) == value::int_order(q, r));
    assert(p != r ==> compare::sort_order(a, c) == value::int_order(p, r));
    if p == q && q == r {
        if compare::text_of_value(a) is Some {
            lemma_text_composes(
                compare::text_of_value(a)->0,
                compare::text_of_value(b)->0,
                compare::text_of_value(c)->0,
                0,
            );
        } else {
            match a {
                ValueView::List(xs) => {
                    lemma_list_composes(xs, b->List_0, c->List_0, 0);
                },
                ValueView::Mapping(x) => {
                    let y = b->Mapping_0;
                    let z = c->Mapping_0;
                    lemma_names_compose(x.entries, y.entries, z.entries, 0);
                    if compare::names_order(x.entries, y.entries, 0) == Order::Equal && compare::names_order(
                        y.entries,
                        z.entries,
                        0,
                    ) == Order::Equal {
                        lemma_names_len(x.entries, y.entries, 0);
                        lemma_names_len(y.entries, z.entries, 0);
                        lemma_entries_compose(x.entries, y.entries, z.entries, 0);
                    }
                },
                ValueView::Node(x) => {
                    lemma_bytes_compose(
                        x.id.bytes,
                        b->Node_0.id.bytes,
                        c->Node_0.id.bytes,
                        0,
                    );
                },
                ValueView::Relationship(x) => {
                    lemma_bytes_compose(
                        x.id.bytes,
                        b->Relationship_0.id.bytes,
                        c->Relationship_0.id.bytes,
                        0,
                    );
                },
                ValueView::Path(x) => {
                    lemma_ids_compose(
                        compare::path_ids(x),
                        compare::path_ids(b->Path_0),
                        compare::path_ids(c->Path_0),
                        0,
                    );
                },
                _ => {},
            }
        }
    }
}

proof fn lemma_names_len(
    xs: Seq<(Seq<char>, ValueView)>,
    ys: Seq<(Seq<char>, ValueView)>,
    i: int,
)
    requires
        0 <= i,
        compare::names_order(xs, ys, i) == Order::Equal,
    ensures
        xs.len() == ys.len(),
    decreases xs.len() - i,
{
    if i < xs.len() && i < ys.len() {
        lemma_names_len(xs, ys, i + 1);
    }
}

proof fn lemma_list_composes(
    xs: Seq<ValueView>,
    ys: Seq<ValueView>,
    zs: Seq<ValueView>,
    i: int,
)
    requires
        0 <= i,
    ensures
        composes(
            compare::list_order(xs, ys, i),
            compare::list_order(ys, zs, i),
            compare::list_order(xs, zs, i),
        ),
    decreases xs, xs.len() - i,
{
    if i < xs.len() && i < ys.len() && i < zs.len() {
        sort_order_is_transitive(xs[i], ys[i], zs[i]);
        lemma_list_composes(xs, ys, zs, i + 1);
    }
}

proof fn lemma_entries_compose(
    xs: Seq<(Seq<char>, ValueView)>,
    ys: Seq<(Seq<char>, ValueView)>,
    zs: Seq<(Seq<char>, ValueView)>,
    i: int,
)
    requires
        0 <= i,
        xs.len() == ys.len() == zs.len(),
    ensures
        composes(
            compare::entries_order(xs, ys, i),
            compare::entries_order(ys, zs, i),
            compare::entries_order(xs, zs, i),
        ),
    decreases xs, xs.len() - i,
{
    if i < xs.len() {
        sort_order_is_transitive(xs[i].1, ys[i].1, zs[i].1);
        lemma_entries_compose(xs, ys, zs, i + 1);
    }
}

/// The global sort order is total: of any two values one is not after the other,
/// what is not after something that is not after a third is not after that, and
/// equivalence carries over.
pub proof fn sort_order_is_total(a: ValueView, b: ValueView, c: ValueView)
    ensures
        compare::sort_order(a, b) != Order::Greater || compare::sort_order(b, a) != Order::Greater,
        compare::sort_order(a, a) == Order::Equal,
        compare::sort_order(a, b) != Order::Greater && compare::sort_order(b, c) != Order::Greater
            ==> compare::sort_order(a, c) != Order::Greater,
        compare::sort_order(a, b) == Order::Equal && compare::sort_order(b, c) == Order::Equal
            ==> compare::sort_order(a, c) == Order::Equal,
{
    sort_order_is_antisymmetric(a, b);
    a_value_is_equivalent_to_itself(a);
    sort_order_is_transitive(a, b, c);
}

/// The order of two texts turned around is that of the texts turned around.
pub proof fn lemma_text_flips(a: Seq<char>, b: Seq<char>)
    ensures
        value::text_order(b, a) == value::text_order(a, b).flipped(),
{
    lemma_text_flip(a, b, 0);
}

/// The order of texts is transitive.
pub proof fn lemma_texts_compose(a: Seq<char>, b: Seq<char>, c: Seq<char>)
    ensures
        composes(value::text_order(a, b), value::text_order(b, c), value::text_order(a, c)),
{
    lemma_text_composes(a, b, c, 0);
}

} // verus!
