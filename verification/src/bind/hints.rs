//! Planner hints from a `WHERE` predicate: the seeks that its conjuncts allow.
//!
//! The predicate itself still decides after matching, so a hint only prunes,
//! never widens.

use vstd::prelude::*;
use vstd::string::*;

use crate::ast::{BinaryOp, Literal, LiteralView};
use crate::bind::binder;
use crate::bind::bound::{
    BoundExpr, BoundExprView, BoundNodePattern, BoundNodePatternView, BoundPathPattern, IndexHint,
    IndexHintView, VarId,
};
use crate::bind::catalogue::{self, Catalogue, CatalogueView, IndexDef};
use crate::exec::value::{self, Order};
use crate::text;

verus! {

/// A constant that a property is compared with.
#[derive(Debug, PartialEq, Eq)]
pub enum RangeBound {
    Literal(Literal),
    Parameter(String),
}

/// The value that a [`RangeBound`] stands for.
pub enum RangeBoundView {
    Literal(LiteralView),
    Parameter(Seq<char>),
}

impl RangeBound {
    pub open spec fn view(&self) -> RangeBoundView {
        match self {
            RangeBound::Literal(l) => RangeBoundView::Literal(l@),
            RangeBound::Parameter(name) => RangeBoundView::Parameter(name@),
        }
    }

    /// A copy.
    pub fn dup(&self) -> (r: RangeBound)
        ensures
            r@ == self@,
    {
        match self {
            RangeBound::Literal(l) => RangeBound::Literal(binder::dup_literal(l)),
            RangeBound::Parameter(name) => RangeBound::Parameter(name.clone()),
        }
    }
}

// --- Comparisons ------------------------------------------------------------------------------------

/// A conjunct that compares a property of a variable with a constant.
#[derive(Debug, PartialEq, Eq)]
pub struct Comparison {
    pub property: String,
    pub op: BinaryOp,
    pub bound: RangeBound,
}

/// The value that a [`Comparison`] stands for.
pub struct ComparisonView {
    pub property: Seq<char>,
    pub op: BinaryOp,
    pub bound: RangeBoundView,
}

impl Comparison {
    pub open spec fn view(&self) -> ComparisonView {
        ComparisonView { property: self.property@, op: self.op, bound: self.bound@ }
    }
}

pub open spec fn comparisons_view(v: Seq<Comparison>) -> Seq<ComparisonView> {
    Seq::new(v.len(), |i: int| v[i]@)
}

/// Whether an expression is a variable.
pub open spec fn reads_variable(e: BoundExprView, var: VarId) -> bool {
    match e {
        BoundExprView::Variable { id, .. } => id == var,
        _ => false,
    }
}

/// The property of a variable that an expression reads.
pub open spec fn property_read(e: BoundExprView, var: VarId) -> Option<Seq<char>> {
    match e {
        BoundExprView::Property { base, key, .. } => if reads_variable(*base, var) {
            Some(key)
        } else {
            None
        },
        _ => None,
    }
}

/// The constant that an expression is.
pub open spec fn constant(e: BoundExprView) -> Option<RangeBoundView> {
    match e {
        BoundExprView::Literal { value, .. } => Some(RangeBoundView::Literal(value)),
        BoundExprView::Parameter { name, .. } => Some(RangeBoundView::Parameter(name)),
        _ => None,
    }
}

/// Whether an operator compares.
pub open spec fn compares(op: BinaryOp) -> bool {
    op == BinaryOp::Eq || op == BinaryOp::Lt || op == BinaryOp::Le || op == BinaryOp::Gt || op
        == BinaryOp::Ge
}

/// The operator with its sides swapped.
pub open spec fn mirrored(op: BinaryOp) -> BinaryOp {
    match op {
        BinaryOp::Lt => BinaryOp::Gt,
        BinaryOp::Le => BinaryOp::Ge,
        BinaryOp::Gt => BinaryOp::Lt,
        BinaryOp::Ge => BinaryOp::Le,
        _ => op,
    }
}

/// The conjuncts of a predicate that compare a property of a variable with a
/// constant, on either side, in order.
pub open spec fn comparisons_in(e: BoundExprView, var: VarId) -> Seq<ComparisonView>
    decreases e,
{
    match e {
        BoundExprView::Binary { op, lhs, rhs, .. } => if op == BinaryOp::And {
            comparisons_in(*lhs, var) + comparisons_in(*rhs, var)
        } else if !compares(op) {
            seq![]
        } else {
            match (property_read(*lhs, var), constant(*rhs)) {
                (Some(property), Some(bound)) => seq![ComparisonView { property, op, bound }],
                _ => match (property_read(*rhs, var), constant(*lhs)) {
                    (Some(property), Some(bound)) => seq![
                        ComparisonView { property, op: mirrored(op), bound },
                    ],
                    _ => seq![],
                },
            }
        },
        _ => seq![],
    }
}

fn is_variable(e: &BoundExpr, var: VarId) -> (r: bool)
    ensures
        r == reads_variable(e@, var),
{
    match e {
        BoundExpr::Variable { id, .. } => *id == var,
        _ => false,
    }
}

fn as_property(e: &BoundExpr, var: VarId) -> (r: Option<String>)
    ensures
        property_read(e@, var) == match r {
            Some(key) => Some(key@),
            None => None,
        },
{
    match e {
        BoundExpr::Property { base, key, .. } => if is_variable(base, var) {
            Some(key.clone())
        } else {
            None
        },
        _ => None,
    }
}

fn as_constant(e: &BoundExpr) -> (r: Option<RangeBound>)
    ensures
        constant(e@) == match r {
            Some(bound) => Some(bound@),
            None => None,
        },
{
    match e {
        BoundExpr::Literal { value, .. } => Some(RangeBound::Literal(binder::dup_literal(value))),
        BoundExpr::Parameter { name, .. } => Some(RangeBound::Parameter(name.clone())),
        _ => None,
    }
}

fn mirror(op: BinaryOp) -> (r: BinaryOp)
    ensures
        r == mirrored(op),
{
    match op {
        BinaryOp::Lt => BinaryOp::Gt,
        BinaryOp::Le => BinaryOp::Ge,
        BinaryOp::Gt => BinaryOp::Lt,
        BinaryOp::Ge => BinaryOp::Le,
        _ => op,
    }
}

fn one_comparison(op: BinaryOp, lhs: &BoundExpr, rhs: &BoundExpr, var: VarId) -> (r: Option<
    Comparison,
>)
    ensures
        (match r {
            Some(c) => seq![c@],
            None => seq![],
        }) == (match (property_read(lhs@, var), constant(rhs@)) {
            (Some(property), Some(bound)) => seq![ComparisonView { property, op, bound }],
            _ => match (property_read(rhs@, var), constant(lhs@)) {
                (Some(property), Some(bound)) => seq![
                    ComparisonView { property, op: mirrored(op), bound },
                ],
                _ => seq![],
            },
        }),
{
    match (as_property(lhs, var), as_constant(rhs)) {
        (Some(property), Some(bound)) => Some(Comparison { property, op, bound }),
        _ => match (as_property(rhs, var), as_constant(lhs)) {
            (Some(property), Some(bound)) => Some(Comparison { property, op: mirror(op), bound }),
            _ => None,
        },
    }
}

/// Walk the conjuncts of a predicate, collecting what compares a property of
/// `var` with a constant.
fn collect_comparisons(e: &BoundExpr, var: VarId, out: &mut Vec<Comparison>)
    ensures
        comparisons_view(final(out)@) == comparisons_view(old(out)@) + comparisons_in(e@, var),
    decreases e,
{
    let ghost before = comparisons_view(out@);
    match e {
        BoundExpr::Binary { op, lhs, rhs, .. } => {
            if *op == BinaryOp::And {
                collect_comparisons(lhs, var, out);
                collect_comparisons(rhs, var, out);
                assert(comparisons_view(out@) =~= before + comparisons_in(e@, var));
            } else if *op == BinaryOp::Eq || *op == BinaryOp::Lt || *op == BinaryOp::Le || *op
                == BinaryOp::Gt || *op == BinaryOp::Ge {
                if let Some(c) = one_comparison(*op, lhs, rhs, var) {
                    let ghost v = out@;
                    out.push(c);
                    assert(comparisons_view(v.push(c)) =~= comparisons_view(v).push(c@));
                    assert(comparisons_view(out@) =~= before + seq![c@]);
                } else {
                    assert(comparisons_view(out@) =~= before + seq![]);
                }
            } else {
                assert(comparisons_view(out@) =~= before + seq![]);
            }
        },
        _ => {
            assert(comparisons_view(out@) =~= before + seq![]);
        },
    }
}

// --- What is pinned ---------------------------------------------------------------------------------

/// The constant that the last equality among the first `n` comparisons pins a
/// property to.
pub open spec fn pin_of(cs: Seq<ComparisonView>, property: Seq<char>, n: nat) -> Option<
    RangeBoundView,
>
    decreases n,
{
    if n == 0 || n > cs.len() {
        None
    } else if cs[n - 1].op == BinaryOp::Eq && cs[n - 1].property == property {
        Some(cs[n - 1].bound)
    } else {
        pin_of(cs, property, (n - 1) as nat)
    }
}

/// The properties that the first `n` comparisons pin.
pub open spec fn pinned_names(cs: Seq<ComparisonView>, n: nat) -> Seq<Seq<char>>
    decreases n,
{
    if n == 0 || n > cs.len() {
        seq![]
    } else {
        let before = pinned_names(cs, (n - 1) as nat);
        if cs[n - 1].op == BinaryOp::Eq {
            before.push(cs[n - 1].property)
        } else {
            before
        }
    }
}

/// The constants that the first `n` properties are pinned to.
pub open spec fn pins_for(cs: Seq<ComparisonView>, names: Seq<Seq<char>>, n: nat) -> Seq<
    RangeBoundView,
>
    decreases n,
{
    if n == 0 || n > names.len() {
        seq![]
    } else {
        let before = pins_for(cs, names, (n - 1) as nat);
        match pin_of(cs, names[n - 1], cs.len()) {
            Some(bound) => before.push(bound),
            None => before,
        }
    }
}

pub open spec fn bounds_view(v: Seq<RangeBound>) -> Seq<RangeBoundView> {
    Seq::new(v.len(), |i: int| v[i]@)
}

fn find_pinned(cs: &Vec<Comparison>) -> (r: Vec<String>)
    ensures
        text::strings_view(r@) == pinned_names(comparisons_view(cs@), cs@.len()),
{
    let ghost all = comparisons_view(cs@);
    let mut out: Vec<String> = Vec::new();
    let mut i: usize = 0;
    assert(text::strings_view(out@) =~= seq![]);
    while i < cs.len()
        invariant
            i <= cs.len(),
            all == comparisons_view(cs@),
            text::strings_view(out@) == pinned_names(all, i as nat),
        decreases cs.len() - i,
    {
        assert(all[i as int] == cs@[i as int]@);
        if cs[i].op == BinaryOp::Eq {
            let name = cs[i].property.clone();
            assert(text::strings_view(out@.push(name)) =~= text::strings_view(out@).push(name@));
            out.push(name);
        }
        i += 1;
    }
    out
}

fn find_pin(cs: &Vec<Comparison>, property: &str) -> (r: Option<RangeBound>)
    ensures
        pin_of(comparisons_view(cs@), property@, cs@.len()) == match r {
            Some(bound) => Some(bound@),
            None => None,
        },
{
    let ghost all = comparisons_view(cs@);
    let mut n: usize = cs.len();
    while n > 0
        invariant
            n <= cs.len(),
            all == comparisons_view(cs@),
            pin_of(all, property@, cs@.len()) == pin_of(all, property@, n as nat),
        decreases n,
    {
        assert(all[n - 1] == cs@[n - 1]@);
        if cs[n - 1].op == BinaryOp::Eq && text::str_eq(cs[n - 1].property.as_str(), property) {
            return Some(cs[n - 1].bound.dup());
        }
        n -= 1;
    }
    None
}

fn find_pins(cs: &Vec<Comparison>, names: &Vec<String>) -> (r: Vec<RangeBound>)
    ensures
        bounds_view(r@) == pins_for(
            comparisons_view(cs@),
            text::strings_view(names@),
            names@.len(),
        ),
{
    let ghost all = comparisons_view(cs@);
    let ghost ns = text::strings_view(names@);
    assert(all.len() == cs@.len());
    let mut out: Vec<RangeBound> = Vec::new();
    let mut i: usize = 0;
    assert(bounds_view(out@) =~= seq![]);
    while i < names.len()
        invariant
            i <= names.len(),
            all == comparisons_view(cs@),
            all.len() == cs@.len(),
            ns == text::strings_view(names@),
            bounds_view(out@) == pins_for(all, ns, i as nat),
        decreases names.len() - i,
    {
        assert(ns[i as int] == names@[i as int]@);
        if let Some(bound) = find_pin(cs, names[i].as_str()) {
            assert(bounds_view(out@.push(bound)) =~= bounds_view(out@).push(bound@));
            out.push(bound);
        }
        i += 1;
    }
    out
}

// --- What is bounded --------------------------------------------------------------------------------

/// Whether an operator bounds what stands on its left, from below or from above.
pub open spec fn bounds(op: BinaryOp, lower: bool) -> bool {
    if lower {
        op == BinaryOp::Gt || op == BinaryOp::Ge
    } else {
        op == BinaryOp::Lt || op == BinaryOp::Le
    }
}

/// The first comparison from `i` on that bounds a property: its constant, and
/// whether it is included.
pub open spec fn bound_of(
    cs: Seq<ComparisonView>,
    property: Seq<char>,
    lower: bool,
    i: int,
) -> Option<(RangeBoundView, bool)>
    decreases cs.len() - i,
{
    if i < 0 || i >= cs.len() {
        None
    } else if bounds(cs[i].op, lower) && cs[i].property == property {
        Some((cs[i].bound, cs[i].op == BinaryOp::Ge || cs[i].op == BinaryOp::Le))
    } else {
        bound_of(cs, property, lower, i + 1)
    }
}

/// The least in the order of names of the properties that the first `n`
/// comparisons bound and that an index of the label covers.
pub open spec fn least_bounded(
    cs: Seq<ComparisonView>,
    label: Seq<char>,
    catalogue: CatalogueView,
    n: nat,
) -> Option<Seq<char>>
    decreases n,
{
    if n == 0 || n > cs.len() {
        None
    } else {
        let before = least_bounded(cs, label, catalogue, (n - 1) as nat);
        let name = cs[n - 1].property;
        if cs[n - 1].op == BinaryOp::Eq || catalogue.index_on(label, name) is None {
            before
        } else {
            match before {
                Some(least) => if value::text_order(name, least) == Order::Less {
                    Some(name)
                } else {
                    before
                },
                None => Some(name),
            }
        }
    }
}

pub open spec fn bound_view_of(r: Option<(RangeBound, bool)>) -> Option<(RangeBoundView, bool)> {
    match r {
        Some((bound, inclusive)) => Some((bound@, inclusive)),
        None => None,
    }
}

fn find_bound(cs: &Vec<Comparison>, property: &str, lower: bool) -> (r: Option<(RangeBound, bool)>)
    ensures
        bound_view_of(r) == bound_of(comparisons_view(cs@), property@, lower, 0),
{
    let ghost all = comparisons_view(cs@);
    let mut i: usize = 0;
    while i < cs.len()
        invariant
            i <= cs.len(),
            all == comparisons_view(cs@),
            bound_of(all, property@, lower, 0) == bound_of(all, property@, lower, i as int),
        decreases cs.len() - i,
    {
        assert(all[i as int] == cs@[i as int]@);
        let op = cs[i].op;
        let hit = if lower {
            op == BinaryOp::Gt || op == BinaryOp::Ge
        } else {
            op == BinaryOp::Lt || op == BinaryOp::Le
        };
        if hit && text::str_eq(cs[i].property.as_str(), property) {
            return Some((cs[i].bound.dup(), op == BinaryOp::Ge || op == BinaryOp::Le));
        }
        i += 1;
    }
    None
}

fn find_least_bounded(cs: &Vec<Comparison>, label: &str, catalogue: &Catalogue) -> (r: Option<
    String,
>)
    ensures
        least_bounded(comparisons_view(cs@), label@, catalogue@, cs@.len()) == match r {
            Some(name) => Some(name@),
            None => None,
        },
{
    let ghost all = comparisons_view(cs@);
    let mut least: Option<String> = None;
    let mut i: usize = 0;
    while i < cs.len()
        invariant
            i <= cs.len(),
            all == comparisons_view(cs@),
            least_bounded(all, label@, catalogue@, i as nat) == match least {
                Some(name) => Some(name@),
                None => None,
            },
        decreases cs.len() - i,
    {
        assert(all[i as int] == cs@[i as int]@);
        let name = cs[i].property.as_str();
        if cs[i].op != BinaryOp::Eq && catalogue.index_on(label, name).is_some() {
            let smaller = match &least {
                Some(best) => value::order_texts(name, best.as_str()) == Order::Less,
                None => true,
            };
            if smaller {
                least = Some(cs[i].property.clone());
            }
        }
        i += 1;
    }
    least
}

// --- Hints ------------------------------------------------------------------------------------------

/// A seek that a predicate allows.
#[derive(Debug)]
pub enum SeekHint {
    /// Every key property of `label` is pinned.
    KeySeek { label: String, key: Vec<String>, values: Vec<RangeBound> },
    /// Every property of the declared index `name` is pinned.
    IndexSeek {
        name: String,
        label: String,
        properties: Vec<String>,
        values: Vec<RangeBound>,
    },
    /// The declared index `name` covers a bounded property.
    IndexRange {
        name: String,
        label: String,
        property: String,
        lower: Option<(RangeBound, bool)>,
        upper: Option<(RangeBound, bool)>,
    },
}

/// The value that a [`SeekHint`] stands for.
pub enum SeekHintView {
    KeySeek { label: Seq<char>, key: Seq<Seq<char>>, values: Seq<RangeBoundView> },
    IndexSeek {
        name: Seq<char>,
        label: Seq<char>,
        properties: Seq<Seq<char>>,
        values: Seq<RangeBoundView>,
    },
    IndexRange {
        name: Seq<char>,
        label: Seq<char>,
        property: Seq<char>,
        lower: Option<(RangeBoundView, bool)>,
        upper: Option<(RangeBoundView, bool)>,
    },
}

impl SeekHint {
    pub open spec fn view(&self) -> SeekHintView {
        match self {
            SeekHint::KeySeek { label, key, values } => SeekHintView::KeySeek {
                label: label@,
                key: text::strings_view(key@),
                values: bounds_view(values@),
            },
            SeekHint::IndexSeek { name, label, properties, values } => SeekHintView::IndexSeek {
                name: name@,
                label: label@,
                properties: text::strings_view(properties@),
                values: bounds_view(values@),
            },
            SeekHint::IndexRange { name, label, property, lower, upper } =>
                SeekHintView::IndexRange {
                name: name@,
                label: label@,
                property: property@,
                lower: bound_view_of(*lower),
                upper: bound_view_of(*upper),
            },
        }
    }
}

pub open spec fn hints_view(v: Seq<SeekHint>) -> Seq<SeekHintView> {
    Seq::new(v.len(), |i: int| v[i]@)
}

/// Whether a pattern's own hint seeks on the key of a label.
pub open spec fn seeks_key(hint: Option<IndexHintView>, label: Seq<char>) -> bool {
    match hint {
        Some(IndexHintView::KeySeek { label: own }) => own == label,
        _ => false,
    }
}

/// Whether a pattern's own hint seeks on an index.
pub open spec fn seeks_index(hint: Option<IndexHintView>, name: Seq<char>) -> bool {
    match hint {
        Some(IndexHintView::IndexSeek { name: own, .. }) => own == name,
        _ => false,
    }
}

/// The equality that comparisons allow on a label: on its key, where every key
/// property is pinned, and otherwise on an index all of whose properties are. What
/// the pattern itself pins is not repeated.
pub open spec fn equality_hint(
    own: Option<IndexHintView>,
    label: Seq<char>,
    cs: Seq<ComparisonView>,
    catalogue: CatalogueView,
) -> Seq<SeekHintView> {
    let pinned = pinned_names(cs, cs.len());
    let key = match catalogue.label(label) {
        Some(def) => text::strings_view(def.key@),
        None => seq![],
    };
    if key.len() > 0 && catalogue::all_pinned(key, pinned, key.len()) {
        if seeks_key(own, label) {
            seq![]
        } else {
            seq![SeekHintView::KeySeek { label, key, values: pins_for(cs, key, key.len()) }]
        }
    } else {
        match catalogue::seekable_from(catalogue.indexes, label, pinned, 0) {
            Some((name, def)) => if seeks_index(own, name) {
                seq![]
            } else {
                let properties = text::strings_view(def.properties@);
                seq![
                    SeekHintView::IndexSeek {
                        name,
                        label,
                        properties,
                        values: pins_for(cs, properties, properties.len()),
                    },
                ]
            },
            None => seq![],
        }
    }
}

/// The range that comparisons allow on a label.
pub open spec fn range_hint(
    label: Seq<char>,
    cs: Seq<ComparisonView>,
    catalogue: CatalogueView,
) -> Seq<SeekHintView> {
    match least_bounded(cs, label, catalogue, cs.len()) {
        Some(property) => match catalogue.index_on(label, property) {
            Some((name, _)) => seq![
                SeekHintView::IndexRange {
                    name,
                    label,
                    property,
                    lower: bound_of(cs, property, true, 0),
                    upper: bound_of(cs, property, false, 0),
                },
            ],
            None => seq![],
        },
        None => seq![],
    }
}

/// The seeks that a predicate allows at the start of a pattern, an equality
/// before a range: it is generally the more selective of the two.
pub open spec fn allowed_seeks(
    start: BoundNodePatternView,
    pred: BoundExprView,
    catalogue: CatalogueView,
) -> Seq<SeekHintView> {
    match start.var {
        None => seq![],
        Some(var) => if start.labels.len() != 1 {
            seq![]
        } else {
            let cs = comparisons_in(pred, var);
            equality_hint(start.index_hint, start.labels[0], cs, catalogue) + range_hint(
                start.labels[0],
                cs,
                catalogue,
            )
        },
    }
}

fn own_key_seek(hint: &Option<IndexHint>, label: &str) -> (r: bool)
    ensures
        r == seeks_key(
            match hint {
                Some(x) => Some(x@),
                None => None,
            },
            label@,
        ),
{
    match hint {
        Some(IndexHint::KeySeek { label: own }) => text::str_eq(own.as_str(), label),
        _ => false,
    }
}

fn own_index_seek(hint: &Option<IndexHint>, name: &str) -> (r: bool)
    ensures
        r == seeks_index(
            match hint {
                Some(x) => Some(x@),
                None => None,
            },
            name@,
        ),
{
    match hint {
        Some(IndexHint::IndexSeek { name: own, .. }) => text::str_eq(own.as_str(), name),
        _ => false,
    }
}

fn attach_equality_hint(
    own: &Option<IndexHint>,
    label: &str,
    cs: &Vec<Comparison>,
    catalogue: &Catalogue,
) -> (r: Option<SeekHint>)
    ensures
        (match r {
            Some(hint) => seq![hint@],
            None => seq![],
        }) == equality_hint(
            match own {
                Some(x) => Some(x@),
                None => None,
            },
            label@,
            comparisons_view(cs@),
            catalogue@,
        ),
{
    assert(comparisons_view(cs@).len() == cs@.len());
    let pinned = find_pinned(cs);
    if let Some(def) = catalogue.label(label) {
        assert(text::strings_view(def.key@).len() == def.key@.len());
        if def.key.len() > 0 && catalogue::pins_all(&def.key, &pinned) {
            return if own_key_seek(own, label) {
                None
            } else {
                Some(
                    SeekHint::KeySeek {
                        label: label.to_owned(),
                        key: text::dup_strings(&def.key),
                        values: find_pins(cs, &def.key),
                    },
                )
            };
        }
    }
    match catalogue.seek_index_on(label, &pinned) {
        Some((name, def)) => if own_index_seek(own, name) {
            None
        } else {
            assert(text::strings_view(def.properties@).len() == def.properties@.len());
            Some(
                SeekHint::IndexSeek {
                    name: name.to_owned(),
                    label: label.to_owned(),
                    properties: text::dup_strings(&def.properties),
                    values: find_pins(cs, &def.properties),
                },
            )
        },
        None => None,
    }
}

fn attach_range_hint(label: &str, cs: &Vec<Comparison>, catalogue: &Catalogue) -> (r: Option<
    SeekHint,
>)
    ensures
        (match r {
            Some(hint) => seq![hint@],
            None => seq![],
        }) == range_hint(label@, comparisons_view(cs@), catalogue@),
{
    assert(comparisons_view(cs@).len() == cs@.len());
    match find_least_bounded(cs, label, catalogue) {
        Some(property) => match catalogue.index_on(label, property.as_str()) {
            Some((name, _)) => {
                let lower = find_bound(cs, property.as_str(), true);
                let upper = find_bound(cs, property.as_str(), false);
                Some(
                    SeekHint::IndexRange {
                        name: name.to_owned(),
                        label: label.to_owned(),
                        property,
                        lower,
                        upper,
                    },
                )
            },
            None => None,
        },
        None => None,
    }
}

/// The seeks that a `WHERE` predicate allows at the start of a pattern, as
/// ordered candidates beside the pattern's own hint.
pub fn where_hints(start: &BoundNodePattern, pred: &BoundExpr, catalogue: &Catalogue) -> (r: Vec<
    SeekHint,
>)
    ensures
        hints_view(r@) == allowed_seeks(start@, pred@, catalogue@),
{
    proof {
        start.lemma_view();
        assert(text::strings_view(start.labels@).len() == start.labels@.len());
    }
    let mut out: Vec<SeekHint> = Vec::new();
    assert(hints_view(out@) =~= seq![]);
    let var = match start.var {
        None => {
            return out;
        },
        Some(var) => var,
    };
    if start.labels.len() != 1 {
        return out;
    }
    let label = start.labels[0].as_str();
    assert(start@.labels[0] == label@);
    let mut cs: Vec<Comparison> = Vec::new();
    assert(comparisons_view(cs@) =~= seq![]);
    collect_comparisons(pred, var, &mut cs);
    assert(comparisons_view(cs@) =~= comparisons_in(pred@, var));
    if let Some(hint) = attach_equality_hint(&start.index_hint, label, &cs, catalogue) {
        out.push(hint);
    }
    let ghost first = hints_view(out@);
    assert(first =~= equality_hint(
        start@.index_hint,
        label@,
        comparisons_view(cs@),
        catalogue@,
    ));
    if let Some(hint) = attach_range_hint(label, &cs, catalogue) {
        let ghost v = out@;
        out.push(hint);
        assert(hints_view(v.push(hint)) =~= first + seq![hint@]);
    } else {
        assert(first + seq![] =~= first);
    }
    out
}

} // verus!
