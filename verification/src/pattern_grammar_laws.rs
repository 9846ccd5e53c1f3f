//! Patterns are read as they are written: the arrows, the types, the lengths, the labels
//! and the variables of what is written are those of what is read.

use vstd::prelude::*;
use vstd::string::*;

use crate::ast::{Direction, ExprView, VarLength};
use crate::error::ParseErrorView;
use crate::grammar;
use crate::grammar_laws::{self, stand_at};
use crate::lex::{TokenKindView, TokenView};
use crate::structure;
use crate::text;

verus! {

/// A name between backquotes, as a token.
pub open spec fn named(name: Seq<char>) -> TokenKindView {
    TokenKindView::Ident { name, backquoted: true }
}

pub open spec fn maybe_named(name: Option<Seq<char>>) -> Seq<TokenKindView> {
    match name {
        Some(n) => seq![named(n)],
        None => seq![],
    }
}

pub open spec fn maybe_parameter(name: Option<Seq<char>>) -> Seq<TokenKindView> {
    match name {
        Some(n) => seq![TokenKindView::Parameter(n)],
        None => seq![],
    }
}

/// Whether properties are a parameter, or there are none.
pub open spec fn is_parameter(e: Option<ExprView>, name: Option<Seq<char>>) -> bool {
    match (e, name) {
        (Some(x), Some(n)) => x matches ExprView::Parameter { name: m, .. } && m == n,
        (None, None) => true,
        _ => false,
    }
}

/// The types that a relationship may have, with bars between them.
pub open spec fn type_list(types: Seq<Seq<char>>) -> Seq<TokenKindView>
    decreases types.len(),
{
    if types.len() == 0 {
        seq![]
    } else if types.len() == 1 {
        seq![named(types[0])]
    } else {
        seq![named(types[0]), TokenKindView::Pipe] + type_list(types.skip(1))
    }
}

pub open spec fn written_types(types: Seq<Seq<char>>) -> Seq<TokenKindView> {
    if types.len() == 0 {
        seq![]
    } else {
        seq![TokenKindView::Colon] + type_list(types)
    }
}

/// How a length is written: not at all, as any, as a number or between bounds.
pub enum Length {
    One,
    Any,
    Exactly(i64),
    Between(Option<i64>, Option<i64>),
}

pub open spec fn written_bound(bound: Option<i64>) -> Seq<TokenKindView> {
    match bound {
        Some(n) => seq![TokenKindView::Integer(n)],
        None => seq![],
    }
}

pub open spec fn written_length(length: Length) -> Seq<TokenKindView> {
    match length {
        Length::One => seq![],
        Length::Any => seq![TokenKindView::Star],
        Length::Exactly(n) => seq![TokenKindView::Star, TokenKindView::Integer(n)],
        Length::Between(min, max) => seq![TokenKindView::Star] + (written_bound(min) + (
        seq![TokenKindView::DotDot] + written_bound(max))),
    }
}

pub open spec fn bound_meant(bound: Option<i64>) -> Option<u64> {
    match bound {
        Some(n) => Some(n as u64),
        None => None,
    }
}

/// The bounds that a written length stands for.
pub open spec fn length_meant(length: Length) -> Option<VarLength> {
    match length {
        Length::One => None,
        Length::Any => Some(VarLength { min: None, max: None }),
        Length::Exactly(n) => Some(VarLength { min: Some(n as u64), max: Some(n as u64) }),
        Length::Between(min, max) => Some(
            VarLength { min: bound_meant(min), max: bound_meant(max) },
        ),
    }
}

pub open spec fn is_sound(length: Length) -> bool {
    match length {
        Length::Exactly(n) => n >= 0,
        Length::Between(min, max) => (min matches Some(n) ==> n >= 0) && (max matches Some(n) ==> n
            >= 0),
        _ => true,
    }
}

/// A relationship pattern as it is written.
pub struct RelForm {
    pub name: Option<Seq<char>>,
    pub types: Seq<Seq<char>>,
    pub length: Length,
    pub parameter: Option<Seq<char>>,
    pub direction: Direction,
}

pub open spec fn opening(direction: Direction) -> TokenKindView {
    if direction == Direction::In {
        TokenKindView::LArrow
    } else {
        TokenKindView::Minus
    }
}

pub open spec fn closing(direction: Direction) -> TokenKindView {
    if direction == Direction::Out {
        TokenKindView::Arrow
    } else {
        TokenKindView::Minus
    }
}

/// The tokens of a relationship pattern.
pub open spec fn written_rel(f: RelForm) -> Seq<TokenKindView> {
    seq![opening(f.direction), TokenKindView::LBracket] + (maybe_named(f.name) + (written_types(
        f.types,
    ) + (written_length(f.length) + (maybe_parameter(f.parameter) + seq![
        TokenKindView::RBracket,
        closing(f.direction),
    ]))))
}

/// The labels of a node, each behind a colon.
pub open spec fn written_labels(labels: Seq<Seq<char>>) -> Seq<TokenKindView>
    decreases labels.len(),
{
    if labels.len() == 0 {
        seq![]
    } else {
        seq![TokenKindView::Colon, named(labels[0])] + written_labels(labels.skip(1))
    }
}

/// The tokens of a node pattern.
pub open spec fn written_node(
    name: Option<Seq<char>>,
    labels: Seq<Seq<char>>,
    parameter: Option<Seq<char>>,
) -> Seq<TokenKindView> {
    seq![TokenKindView::LParen] + (maybe_named(name) + (written_labels(labels) + (maybe_parameter(
        parameter,
    ) + seq![TokenKindView::RParen])))
}

// --- Parts ------------------------------------------------------------------------------------------

proof fn lemma_variable(ts: Seq<TokenView>, p: nat, name: Option<Seq<char>>)
    requires
        stand_at(ts, p, maybe_named(name)),
        name is None ==> !grammar::is_name(ts, p),
    ensures
        grammar::variable_at(ts, p) == Ok::<_, ParseErrorView>((name, p + maybe_named(name).len())),
{
    if name is Some {
        grammar_laws::lemma_one(ts, p, maybe_named(name));
    }
}

proof fn lemma_type_list(ts: Seq<TokenView>, p: nat, types: Seq<Seq<char>>, before: Seq<Seq<char>>)
    requires
        types.len() > 0,
        stand_at(ts, p, type_list(types)),
        grammar::kind_at(ts, p + type_list(types).len()) != TokenKindView::Pipe,
    ensures
        grammar::types_at(ts, p, before) == Ok::<_, ParseErrorView>(
            (before + types, p + type_list(types).len()),
        ),
    decreases types.len(),
{
    if types.len() == 1 {
        grammar_laws::lemma_one(ts, p, type_list(types));
        assert(before + types =~= before.push(types[0]));
    } else {
        let first = seq![named(types[0]), TokenKindView::Pipe];
        let rest = types.skip(1);
        grammar_laws::lemma_split(ts, p, first, type_list(rest));
        grammar_laws::lemma_one(ts, p, first);
        lemma_type_list(ts, p + 2, rest, before.push(types[0]));
        assert(before.push(types[0]) + rest =~= before + types);
        assert(type_list(rest)[0] == named(rest[0]));
        grammar_laws::lemma_one(ts, p + 2, type_list(rest));
    }
}

proof fn lemma_types(ts: Seq<TokenView>, p: nat, types: Seq<Seq<char>>)
    requires
        stand_at(ts, p, written_types(types)),
        grammar::kind_at(ts, p + written_types(types).len()) != TokenKindView::Pipe,
        grammar::kind_at(ts, p + written_types(types).len()) != TokenKindView::Colon,
    ensures
        grammar::rel_types_at(ts, p) == Ok::<_, ParseErrorView>(
            (types, p + written_types(types).len()),
        ),
{
    if types.len() == 0 {
        assert(types =~= seq![]);
    } else {
        let colon = seq![TokenKindView::Colon];
        grammar_laws::lemma_split(ts, p, colon, type_list(types));
        grammar_laws::lemma_one(ts, p, colon);
        lemma_type_list(ts, p + 1, types, seq![]);
        assert(Seq::<Seq<char>>::empty() + types =~= types);
    }
}

proof fn lemma_bound(ts: Seq<TokenView>, p: nat, bound: Option<i64>)
    requires
        stand_at(ts, p, written_bound(bound)),
        bound is None ==> !(grammar::kind_at(ts, p) is Integer),
        bound matches Some(n) ==> n >= 0,
    ensures
        grammar::bound_at(ts, p) == Ok::<_, ParseErrorView>(
            (bound_meant(bound), p + written_bound(bound).len()),
        ),
{
    if bound is Some {
        grammar_laws::lemma_one(ts, p, written_bound(bound));
    }
}

proof fn lemma_length(ts: Seq<TokenView>, p: nat, length: Length)
    requires
        is_sound(length),
        stand_at(ts, p, written_length(length)),
        ({
            let k = grammar::kind_at(ts, p + written_length(length).len());
            k is Parameter || k is RBracket
        }),
    ensures
        grammar::rel_length_at(ts, p) == Ok::<_, ParseErrorView>(
            (length_meant(length), p + written_length(length).len()),
        ),
{
    match length {
        Length::One => {},
        Length::Any => {
            grammar_laws::lemma_one(ts, p, written_length(length));
        },
        Length::Exactly(n) => {
            grammar_laws::lemma_one(ts, p, written_length(length));
        },
        Length::Between(min, max) => {
            let star = seq![TokenKindView::Star];
            let dots = seq![TokenKindView::DotDot];
            let a = written_bound(min);
            let b = written_bound(max);
            grammar_laws::lemma_split(ts, p, star, a + (dots + b));
            grammar_laws::lemma_split(ts, p + 1, a, dots + b);
            grammar_laws::lemma_split(ts, p + 1 + a.len(), dots, b);
            grammar_laws::lemma_one(ts, p, star);
            grammar_laws::lemma_one(ts, p + 1 + a.len(), dots);
            lemma_bound(ts, p + 1, min);
            lemma_bound(ts, p + 2 + a.len(), max);
        },
    }
}

proof fn lemma_parameter(ts: Seq<TokenView>, p: nat, d: nat, name: Option<Seq<char>>)
    requires
        stand_at(ts, p, maybe_parameter(name)),
        name is None ==> ({
            let k = grammar::kind_at(ts, p);
            k is RBracket || k is RParen
        }),
    ensures
        grammar::properties_at(ts, p, d) matches Ok((e, q)) && is_parameter(e, name) && q == p
            + maybe_parameter(name).len(),
{
    if name is Some {
        grammar_laws::lemma_one(ts, p, maybe_parameter(name));
    }
}

/// Where the parts of a relationship pattern stand.
spec fn places(p: nat, f: RelForm) -> (nat, nat, nat, nat) {
    let types = p + 2 + maybe_named(f.name).len();
    let length = types + written_types(f.types).len();
    let parameter = length + written_length(f.length).len();
    (types, length, parameter, parameter + maybe_parameter(f.parameter).len())
}

proof fn lemma_parts(ts: Seq<TokenView>, p: nat, f: RelForm)
    requires
        stand_at(ts, p, written_rel(f)),
    ensures
        ({
            let (pb, pc, pe, pl) = places(p, f);
            let (kb, kc, ke) = (
                grammar::kind_at(ts, pb),
                grammar::kind_at(ts, pc),
                grammar::kind_at(ts, pe),
            );
            &&& grammar::kind_at(ts, p) == opening(f.direction)
            &&& grammar::next(ts, p) == p + 1
            &&& grammar::kind_at(ts, p + 1) == TokenKindView::LBracket
            &&& grammar::next(ts, p + 1) == p + 2
            &&& stand_at(ts, p + 2, maybe_named(f.name))
            &&& stand_at(ts, pb, written_types(f.types))
            &&& stand_at(ts, pc, written_length(f.length))
            &&& stand_at(ts, pe, maybe_parameter(f.parameter))
            &&& grammar::kind_at(ts, pl) == TokenKindView::RBracket
            &&& grammar::next(ts, pl) == pl + 1
            &&& grammar::kind_at(ts, pl + 1) == closing(f.direction)
            &&& grammar::next(ts, pl + 1) == pl + 2
            &&& ke is Parameter || ke is RBracket
            &&& f.parameter is None ==> ke is RBracket
            &&& kc is Star || kc is Parameter || kc is RBracket
            &&& kb is Colon || kb is Star || kb is Parameter || kb is RBracket
            &&& pl + 2 == p + written_rel(f).len()
        }),
{
    let first = seq![opening(f.direction), TokenKindView::LBracket];
    let (a, b) = (maybe_named(f.name), written_types(f.types));
    let (c, e) = (written_length(f.length), maybe_parameter(f.parameter));
    let last = seq![TokenKindView::RBracket, closing(f.direction)];
    let (pb, pc, pe, pl) = places(p, f);
    grammar_laws::lemma_split(ts, p, first, a + (b + (c + (e + last))));
    grammar_laws::lemma_split(ts, p + 2, a, b + (c + (e + last)));
    grammar_laws::lemma_split(ts, pb, b, c + (e + last));
    grammar_laws::lemma_split(ts, pc, c, e + last);
    grammar_laws::lemma_split(ts, pe, e, last);
    grammar_laws::lemma_one(ts, p, first);
    grammar_laws::lemma_one(ts, pl, last);
    grammar_laws::lemma_one(ts, pe, e + last);
    grammar_laws::lemma_one(ts, pc, c + (e + last));
    grammar_laws::lemma_one(ts, pb, b + (c + (e + last)));
}

proof fn lemma_detail(
    ts: Seq<TokenView>,
    p: nat,
    d: nat,
    name: Option<Seq<char>>,
    types: Seq<Seq<char>>,
    length: Option<VarLength>,
    parameter: Option<Seq<char>>,
    ps: (nat, nat, nat, nat),
)
    requires
        grammar::kind_at(ts, p) == TokenKindView::LBracket,
        grammar::next(ts, p) == p + 1,
        grammar::variable_at(ts, p + 1) == Ok::<_, ParseErrorView>((name, ps.0)),
        grammar::rel_types_at(ts, ps.0) == Ok::<_, ParseErrorView>((types, ps.1)),
        grammar::rel_length_at(ts, ps.1) == Ok::<_, ParseErrorView>((length, ps.2)),
        grammar::properties_at(ts, ps.2, d) matches Ok((e, q)) && is_parameter(e, parameter) && q
            == ps.3,
        grammar::kind_at(ts, ps.3) == TokenKindView::RBracket,
        grammar::next(ts, ps.3) == ps.3 + 1,
    ensures
        grammar::detail_at(ts, p, d) matches Ok((x, q)) && x.variable == name && x.types == types
            && x.var_length == length && is_parameter(x.properties, parameter) && q == ps.3 + 1,
{
}

/// A relationship pattern is read as it is written: its variable, its types, its length,
/// its properties and the way its arrow points.
pub proof fn a_relationship_is_read_back(ts: Seq<TokenView>, p: nat, d: nat, f: RelForm)
    requires
        stand_at(ts, p, written_rel(f)),
        is_sound(f.length),
    ensures
        grammar::rel_at(ts, p, d) matches Ok((rel, q)) && {
            &&& rel.variable == f.name
            &&& rel.types == f.types
            &&& rel.direction == f.direction
            &&& rel.var_length == length_meant(f.length)
            &&& is_parameter(rel.properties, f.parameter)
            &&& q == p + written_rel(f).len()
        },
{
    let ps = places(p, f);
    lemma_parts(ts, p, f);
    assert(f.name is None ==> ps.0 == p + 2);
    lemma_variable(ts, p + 2, f.name);
    lemma_types(ts, ps.0, f.types);
    lemma_length(ts, ps.1, f.length);
    lemma_parameter(ts, ps.2, d, f.parameter);
    lemma_detail(ts, p + 1, d, f.name, f.types, length_meant(f.length), f.parameter, ps);
    assert(grammar::rel_open_at(ts, p) == Ok::<nat, ParseErrorView>((p + 1) as nat));
    assert(grammar::rel_close_at(ts, ps.3 + 1) == Ok::<nat, ParseErrorView>((ps.3 + 2) as nat));
}

/// Arrows without brackets say just the direction.
pub proof fn a_bare_arrow_says_the_direction(
    ts: Seq<TokenView>,
    p: nat,
    d: nat,
    direction: Direction,
)
    requires
        stand_at(ts, p, seq![opening(direction), closing(direction)]),
    ensures
        grammar::rel_at(ts, p, d) matches Ok((rel, q)) && {
            &&& rel.direction == direction
            &&& rel.variable is None
            &&& rel.types.len() == 0
            &&& rel.var_length is None
            &&& rel.properties is None
            &&& q == p + 2
        },
{
    grammar_laws::lemma_one(ts, p, seq![opening(direction), closing(direction)]);
    assert(grammar::rel_open_at(ts, p) == Ok::<nat, ParseErrorView>((p + 1) as nat));
    assert(grammar::rel_close_at(ts, p + 1) == Ok::<nat, ParseErrorView>((p + 2) as nat));
}

pub(crate) proof fn lemma_labels(
    ts: Seq<TokenView>,
    p: nat,
    labels: Seq<Seq<char>>,
    before: Seq<Seq<char>>,
)
    requires
        stand_at(ts, p, written_labels(labels)),
        grammar::kind_at(ts, p + written_labels(labels).len()) != TokenKindView::Colon,
    ensures
        grammar::labels_at(ts, p, before) == Ok::<_, ParseErrorView>(
            (before + labels, p + written_labels(labels).len()),
        ),
    decreases labels.len(),
{
    if labels.len() == 0 {
        assert(before + labels =~= before);
    } else {
        let first = seq![TokenKindView::Colon, named(labels[0])];
        let rest = labels.skip(1);
        grammar_laws::lemma_split(ts, p, first, written_labels(rest));
        grammar_laws::lemma_one(ts, p, first);
        lemma_labels(ts, p + 2, rest, before.push(labels[0]));
        assert(before.push(labels[0]) + rest =~= before + labels);
    }
}

/// A node pattern is read as it is written: its variable, its labels and its properties.
pub proof fn a_node_is_read_back(
    ts: Seq<TokenView>,
    p: nat,
    d: nat,
    name: Option<Seq<char>>,
    labels: Seq<Seq<char>>,
    parameter: Option<Seq<char>>,
)
    requires
        stand_at(ts, p, written_node(name, labels, parameter)),
    ensures
        grammar::node_at(ts, p, d) matches Ok((node, q)) && {
            &&& node.variable == name
            &&& node.labels == labels
            &&& is_parameter(node.properties, parameter)
            &&& q == p + written_node(name, labels, parameter).len()
        },
{
    let first = seq![TokenKindView::LParen];
    let (a, b) = (maybe_named(name), written_labels(labels));
    let e = maybe_parameter(parameter);
    let last = seq![TokenKindView::RParen];
    let (pa, pb) = (p + 1, p + 1 + a.len());
    let (pe, pl) = (pb + b.len(), pb + b.len() + e.len());
    grammar_laws::lemma_split(ts, p, first, a + (b + (e + last)));
    grammar_laws::lemma_split(ts, pa, a, b + (e + last));
    grammar_laws::lemma_split(ts, pb, b, e + last);
    grammar_laws::lemma_split(ts, pe, e, last);
    grammar_laws::lemma_one(ts, p, first);
    grammar_laws::lemma_one(ts, pl, last);
    grammar_laws::lemma_one(ts, pe, e + last);
    grammar_laws::lemma_one(ts, pb, b + (e + last));
    let ke = grammar::kind_at(ts, pe);
    assert(ke is Parameter || ke is RParen);
    let kb = grammar::kind_at(ts, pb);
    assert(kb is Colon || kb is Parameter || kb is RParen);
    lemma_variable(ts, pa, name);
    lemma_labels(ts, pb, labels, seq![]);
    assert(Seq::<Seq<char>>::empty() + labels =~= labels);
    lemma_parameter(ts, pe, d, parameter);
}

// --- Clauses ----------------------------------------------------------------------------------------

/// `DESC` turns a sort round, `ASC` and nothing do not.
pub proof fn sort_directions_are_read(ts: Seq<TokenView>, p: nat, descending: bool)
    requires
        p + 1 < ts.len(),
        descending ==> grammar::is_kw(ts, p, "DESC"@) || grammar::is_kw(ts, p, "DESCENDING"@),
        !descending ==> grammar::is_kw(ts, p, "ASC"@) || grammar::is_kw(ts, p, "ASCENDING"@),
    ensures
        structure::direction_at(ts, p) == (descending, p + 1),
{
    reveal_strlit("DESC");
    reveal_strlit("DESCENDING");
    reveal_strlit("ASC");
    reveal_strlit("ASCENDING");
    if !descending {
        let name = grammar::kind_at(ts, p)->name;
        let w = if grammar::is_kw(ts, p, "ASC"@) {
            "ASC"@
        } else {
            "ASCENDING"@
        };
        grammar_laws::lemma_word(name, w);
        assert(text::ascii_lower(name[0]) == 'a');
        if grammar::is_kw(ts, p, "DESC"@) {
            grammar_laws::lemma_word(name, "DESC"@);
            assert(text::ascii_lower(name[0]) == 'd');
        }
        if grammar::is_kw(ts, p, "DESCENDING"@) {
            grammar_laws::lemma_word(name, "DESCENDING"@);
            assert(text::ascii_lower(name[0]) == 'd');
        }
    }
}

} // verus!
