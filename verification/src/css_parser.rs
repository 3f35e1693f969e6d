//! Recursive-descent parser for a subset of CSS.
//!
//! The grammar is specified by pure functions over `Seq<char>`
//! ([`spec_parse_css`] and its helpers), and every executable parsing
//! function is proved to return exactly what the specification says, for
//! every input.  Selector lists are sorted by specificity, highest first,
//! with ties keeping their source order (a stable sort); the sorted result
//! is itself pinned down by the specification [`spec_sort_desc`].
//!
//! A length value keeps its validated decimal literal text: the verified
//! core holds no floating-point numbers, and the literal converts to one
//! exactly wherever a consumer wants it.

use vstd::prelude::*;
use vstd::multiset::Multiset;

use crate::ParseError;
use crate::cursor::{CharClass, Cursor, run_len, spec_expect, is_identifier_char};

verus! {

broadcast use vstd::seq_lib::group_to_multiset_ensures, vstd::multiset::group_multiset_axioms;

/// A CSS stylesheet: a series of rules in source order.
#[derive(Debug)]
pub struct Stylesheet {
    pub rules: Vec<Rule>,
}

/// One or more comma-separated selectors followed by a brace-enclosed
/// series of declarations.
#[derive(Debug)]
pub struct Rule {
    pub selectors: Vec<Selector>,
    pub declarations: Vec<Declaration>,
}

/// How strongly a selector binds: `(id count, class count, tag count)`,
/// ordered lexicographically, id weight first.
pub type Specificity = (usize, usize, usize);

/// A selector; only simple selectors are implemented.
#[derive(Debug)]
pub enum Selector {
    Simple(SimpleSelector),
}

/// An optional tag name, an optional id and any number of class names.
#[derive(Debug)]
pub struct SimpleSelector {
    pub tag_name: Option<String>,
    pub id: Option<String>,
    pub class: Vec<String>,
}

/// A `name: value;` pair.
#[derive(Debug)]
pub struct Declaration {
    pub name: String,
    pub value: Value,
}

/// A declaration's value.
#[derive(Debug)]
pub enum Value {
    /// A bare identifier, such as `auto` or `red`.
    Keyword(String),
    /// A length: the text of its decimal literal (digits with at most one
    /// `.` among them) and its unit.
    Length(String, Unit),
    /// A color given as `#` and six hex digits.
    ColorValue(Color),
}

/// A length unit; only pixels are implemented.
#[derive(Debug, Clone, Copy, PartialEq, Eq, Structural)]
pub enum Unit {
    Px,
}

/// An RGBA color with 8-bit channels.
#[derive(Debug, Clone, Copy, PartialEq, Eq, Structural)]
pub struct Color {
    pub r: u8,
    pub g: u8,
    pub b: u8,
    pub a: u8,
}

/// The model of a simple selector.
#[verifier::ext_equal]
pub ghost struct SimpleSelectorV {
    pub tag_name: Option<Seq<char>>,
    pub id: Option<Seq<char>>,
    pub class: Seq<Seq<char>>,
}

/// The model of a selector.
#[verifier::ext_equal]
pub ghost enum SelectorV {
    Simple(SimpleSelectorV),
}

/// The model of a value.
#[verifier::ext_equal]
pub ghost enum ValueV {
    Keyword(Seq<char>),
    Length(Seq<char>, Unit),
    ColorValue(Color),
}

/// The model of a declaration.
#[verifier::ext_equal]
pub ghost struct DeclarationV {
    pub name: Seq<char>,
    pub value: ValueV,
}

/// The model of a rule.
#[verifier::ext_equal]
pub ghost struct RuleV {
    pub selectors: Seq<SelectorV>,
    pub declarations: Seq<DeclarationV>,
}

/// The model of a simple selector.
pub open spec fn simple_selector_view(ss: SimpleSelector) -> SimpleSelectorV {
    SimpleSelectorV {
        tag_name: match ss.tag_name {
            Some(t) => Some(t@),
            None => None,
        },
        id: match ss.id {
            Some(i) => Some(i@),
            None => None,
        },
        class: Seq::new(ss.class@.len(), |i: int| ss.class@[i]@),
    }
}

/// The model of a selector.
pub open spec fn selector_view(sel: Selector) -> SelectorV {
    match sel {
        Selector::Simple(ss) => SelectorV::Simple(simple_selector_view(ss)),
    }
}

/// The models of a sequence of selectors, in order.
pub open spec fn selectors_view(v: Seq<Selector>) -> Seq<SelectorV> {
    Seq::new(v.len(), |i: int| selector_view(v[i]))
}

/// The model of a value.
pub open spec fn value_view(v: Value) -> ValueV {
    match v {
        Value::Keyword(k) => ValueV::Keyword(k@),
        Value::Length(l, u) => ValueV::Length(l@, u),
        Value::ColorValue(c) => ValueV::ColorValue(c),
    }
}

/// The model of a declaration.
pub open spec fn declaration_view(d: Declaration) -> DeclarationV {
    DeclarationV { name: d.name@, value: value_view(d.value) }
}

/// The models of a sequence of declarations, in order.
pub open spec fn declarations_view(v: Seq<Declaration>) -> Seq<DeclarationV> {
    Seq::new(v.len(), |i: int| declaration_view(v[i]))
}

/// The model of a rule.
pub open spec fn rule_view(r: Rule) -> RuleV {
    RuleV {
        selectors: selectors_view(r.selectors@),
        declarations: declarations_view(r.declarations@),
    }
}

/// The models of a sequence of rules, in order.
pub open spec fn rules_view(v: Seq<Rule>) -> Seq<RuleV> {
    Seq::new(v.len(), |i: int| rule_view(v[i]))
}

/// The specificity of a selector's model: id count (0 or 1), class count,
/// tag count (0 or 1).
pub open spec fn spec_specificity(sel: SelectorV) -> (int, int, int) {
    match sel {
        SelectorV::Simple(ss) => (
            if ss.id is Some { 1int } else { 0int },
            ss.class.len() as int,
            if ss.tag_name is Some { 1int } else { 0int },
        ),
    }
}

/// Strict lexicographic order on specificities, id weight first: an id
/// beats any number of classes, classes beat a bare tag match.
pub open spec fn spec_gt(a: (int, int, int), b: (int, int, int)) -> bool {
    a.0 > b.0 || (a.0 == b.0 && (a.1 > b.1 || (a.1 == b.1 && a.2 > b.2)))
}

/// Non-strict lexicographic order on specificities.
pub open spec fn spec_ge(a: (int, int, int), b: (int, int, int)) -> bool {
    spec_gt(a, b) || a == b
}

/// Where a stable descending insertion puts `x`: after every element whose
/// specificity is at least that of `x`, before the first one it beats.
pub open spec fn spec_insert_desc(sorted: Seq<SelectorV>, x: SelectorV) -> Seq<SelectorV>
    decreases sorted.len(),
{
    if sorted.len() == 0 {
        seq![x]
    } else if spec_gt(spec_specificity(x), spec_specificity(sorted.first())) {
        seq![x] + sorted
    } else {
        seq![sorted.first()] + spec_insert_desc(sorted.drop_first(), x)
    }
}

/// The stable sort of a selector list by specificity, highest first:
/// selectors are inserted in source order, and an insertion never passes
/// an element of equal specificity, so ties keep their source order.
pub open spec fn spec_sort_desc(sels: Seq<SelectorV>) -> Seq<SelectorV>
    decreases sels.len(),
{
    if sels.len() == 0 {
        Seq::empty()
    } else {
        spec_insert_desc(spec_sort_desc(sels.drop_last()), sels.last())
    }
}

/// A selector list is sorted when specificity never increases from one
/// element to a later one.
pub open spec fn sorted_desc(v: Seq<SelectorV>) -> bool {
    forall|i: int, j: int|
        0 <= i < j < v.len() ==> spec_ge(spec_specificity(v[i]), spec_specificity(v[j]))
}

/// Inserting into a sorted list keeps it sorted and adds exactly the new
/// element.
pub proof fn lemma_insert_desc_sorted(sorted: Seq<SelectorV>, x: SelectorV)
    requires
        sorted_desc(sorted),
    ensures
        sorted_desc(spec_insert_desc(sorted, x)),
        spec_insert_desc(sorted, x).len() == sorted.len() + 1,
        spec_insert_desc(sorted, x).to_multiset() == sorted.to_multiset().insert(x),
    decreases sorted.len(),
{
    sorted.to_multiset_ensures();
    spec_insert_desc(sorted, x).to_multiset_ensures();
    if sorted.len() == 0 {
        assert(seq![x].drop_last() =~= Seq::<SelectorV>::empty());
        assert(seq![x].to_multiset() =~= sorted.to_multiset().insert(x));
    } else if spec_gt(spec_specificity(x), spec_specificity(sorted.first())) {
        let r = seq![x] + sorted;
        assert(r.drop_first() =~= sorted);
        assert forall|i: int, j: int|
            0 <= i < j < r.len() implies spec_ge(
            spec_specificity(r[i]),
            spec_specificity(r[j]),
        ) by {
            if i == 0 {
                assert(spec_ge(spec_specificity(sorted[0]), spec_specificity(sorted[j - 1])));
            }
        }
        vstd::seq_lib::lemma_multiset_commutative(seq![x], sorted);
        assert(seq![x].to_multiset() =~= Multiset::<SelectorV>::empty().insert(x));
        assert(r.to_multiset() =~= sorted.to_multiset().insert(x));
    } else {
        let rest = sorted.drop_first();
        assert(sorted_desc(rest)) by {
            assert forall|i: int, j: int|
                0 <= i < j < rest.len() implies spec_ge(
                spec_specificity(rest[i]),
                spec_specificity(rest[j]),
            ) by {
                assert(rest[i] == sorted[i + 1]);
                assert(rest[j] == sorted[j + 1]);
            }
        }
        lemma_insert_desc_sorted(rest, x);
        let sub = spec_insert_desc(rest, x);
        let r = seq![sorted.first()] + sub;
        assert forall|i: int, j: int|
            0 <= i < j < r.len() implies spec_ge(
            spec_specificity(r[i]),
            spec_specificity(r[j]),
        ) by {
            if i == 0 {
                // the head is at least every element of `sub`: those are
                // `x` (which it is not beaten by) and the rest of `sorted`
                assert(sub.to_multiset().contains(r[j]));
                sub.to_multiset_ensures();
                if r[j] == x {
                    assert(!spec_gt(spec_specificity(x), spec_specificity(sorted.first())));
                    assert(spec_ge(spec_specificity(sorted.first()), spec_specificity(x)));
                } else {
                    rest.to_multiset_ensures();
                    assert(rest.to_multiset().contains(r[j]));
                    let k = choose|k: int| 0 <= k < rest.len() && rest[k] == r[j];
                    assert(sorted[k + 1] == r[j]);
                    assert(spec_ge(
                        spec_specificity(sorted[0]),
                        spec_specificity(sorted[k + 1]),
                    ));
                }
            }
        }
        vstd::seq_lib::lemma_multiset_commutative(seq![sorted.first()], sub);
        assert(seq![sorted.first()].to_multiset() =~= Multiset::<SelectorV>::empty().insert(
            sorted.first(),
        ));
        assert(seq![sorted.first()] + rest =~= sorted);
        vstd::seq_lib::lemma_multiset_commutative(seq![sorted.first()], rest);
        assert(r.to_multiset() =~= sorted.to_multiset().insert(x));
    }
}

/// The sort yields a list that is sorted by specificity, highest first,
/// and holds exactly the selectors it was given.
pub proof fn lemma_sort_desc_sorted(sels: Seq<SelectorV>)
    ensures
        sorted_desc(spec_sort_desc(sels)),
        spec_sort_desc(sels).len() == sels.len(),
        spec_sort_desc(sels).to_multiset() == sels.to_multiset(),
    decreases sels.len(),
{
    sels.to_multiset_ensures();
    spec_sort_desc(sels).to_multiset_ensures();
    if sels.len() == 0 {
        assert(spec_sort_desc(sels).to_multiset() =~= sels.to_multiset());
    } else {
        lemma_sort_desc_sorted(sels.drop_last());
        lemma_insert_desc_sorted(spec_sort_desc(sels.drop_last()), sels.last());
        sels.drop_last().to_multiset_ensures();
        assert(sels.drop_last().push(sels.last()) =~= sels);
        sels.drop_last().push(sels.last()).to_multiset_ensures();
        assert(sels.to_multiset() =~= sels.drop_last().to_multiset().insert(sels.last()));
    }
}

impl Selector {
    /// The selector's specificity: id count, class count, tag count.
    pub fn specificity(&self) -> (r: Specificity)
        ensures
            (r.0 as int, r.1 as int, r.2 as int) == spec_specificity(selector_view(*self)),
    {
        let Selector::Simple(simple) = self;
        let a: usize = if simple.id.is_some() { 1 } else { 0 };
        let b: usize = simple.class.len();
        let c: usize = if simple.tag_name.is_some() { 1 } else { 0 };
        (a, b, c)
    }
}

/// Whether `a` has strictly higher specificity than `b`.
fn specificity_gt(a: Specificity, b: Specificity) -> (r: bool)
    ensures
        r == spec_gt((a.0 as int, a.1 as int, a.2 as int), (b.0 as int, b.1 as int, b.2 as int)),
{
    a.0 > b.0 || (a.0 == b.0 && (a.1 > b.1 || (a.1 == b.1 && a.2 > b.2)))
}

/// Pushing a selector onto a vector pushes its model onto the model
/// sequence.
pub proof fn lemma_selectors_view_push(v: Seq<Selector>, x: Selector)
    ensures
        selectors_view(v.push(x)) == selectors_view(v).push(selector_view(x)),
{
    assert(selectors_view(v.push(x)) =~= selectors_view(v).push(selector_view(x)));
}

/// Insert `x` into `v` just before the first element it beats, as the
/// specification [`spec_insert_desc`] says.
#[verifier::loop_isolation(false)]
fn insert_by_specificity(v: &mut Vec<Selector>, x: Selector)
    ensures
        selectors_view(final(v)@) == spec_insert_desc(selectors_view(old(v)@), selector_view(x)),
{
    let sx = x.specificity();
    let mut idx: usize = 0;
    while idx < v.len() && !specificity_gt(sx, v[idx].specificity())
        invariant
            idx <= v@.len(),
            forall|j: int|
                0 <= j < idx ==> !spec_gt(
                    spec_specificity(selector_view(x)),
                    spec_specificity(selectors_view(v@)[j]),
                ),
        decreases v@.len() - idx,
    {
        idx = idx + 1;
    }
    proof {
        lemma_insert_desc_split(selectors_view(v@), selector_view(x), idx as int);
    }
    v.insert(idx, x);
    proof {
        assert(selectors_view(v@) =~= selectors_view(old(v)@).take(idx as int) + seq![
            selector_view(x),
        ] + selectors_view(old(v)@).skip(idx as int));
    }
}

/// Where the first beaten element sits is where the insertion lands.
proof fn lemma_insert_desc_split(v: Seq<SelectorV>, x: SelectorV, idx: int)
    requires
        0 <= idx <= v.len(),
        forall|j: int| 0 <= j < idx ==> !spec_gt(spec_specificity(x), spec_specificity(v[j])),
        idx < v.len() ==> spec_gt(spec_specificity(x), spec_specificity(v[idx])),
    ensures
        spec_insert_desc(v, x) == v.take(idx) + seq![x] + v.skip(idx),
    decreases v.len(),
{
    if v.len() == 0 {
        assert(spec_insert_desc(v, x) =~= v.take(0) + seq![x] + v.skip(0));
    } else if idx == 0 {
        assert(spec_insert_desc(v, x) =~= v.take(0) + seq![x] + v.skip(0));
    } else {
        let rest = v.drop_first();
        assert(forall|j: int|
            0 <= j < idx - 1 ==> !spec_gt(spec_specificity(x), spec_specificity(#[trigger] rest[j])));
        assert(idx - 1 < rest.len() ==> spec_gt(spec_specificity(x), spec_specificity(rest[idx - 1])));
        lemma_insert_desc_split(rest, x, idx - 1);
        assert(seq![v.first()] + (rest.take(idx - 1) + seq![x] + rest.skip(idx - 1)) =~= v.take(
            idx,
        ) + seq![x] + v.skip(idx));
    }
}

/// Sort a selector list by specificity, highest first, keeping the source
/// order of ties.
#[verifier::loop_isolation(false)]
fn sort_by_specificity(v: Vec<Selector>) -> (r: Vec<Selector>)
    ensures
        selectors_view(r@) == spec_sort_desc(selectors_view(v@)),
{
    let ghost orig = v@;
    let mut v = v;
    let mut result: Vec<Selector> = Vec::new();
    let ghost k = 0int;
    proof {
        assert(selectors_view(orig.take(0)) =~= Seq::<SelectorV>::empty());
        assert(selectors_view(result@) =~= Seq::<SelectorV>::empty());
        assert(v@ =~= orig.skip(0));
    }
    // taking from the front keeps the source order of equal elements
    while v.len() > 0
        invariant
            0 <= k <= orig.len(),
            v@ == orig.skip(k),
            selectors_view(result@) == spec_sort_desc(selectors_view(orig.take(k))),
        decreases v@.len(),
    {
        let x = v.remove(0);
        proof {
            assert(orig.skip(k).remove(0) =~= orig.skip(k + 1));
            assert(x == orig[k]);
            assert(orig.take(k + 1).drop_last() =~= orig.take(k));
            assert(selectors_view(orig.take(k + 1)).drop_last() =~= selectors_view(
                orig.take(k),
            ));
            assert(selectors_view(orig.take(k + 1)).last() == selector_view(orig[k]));
            assert(selectors_view(orig.take(k + 1)) =~= selectors_view(orig.take(k)).push(
                selector_view(orig[k]),
            ));
        }
        insert_by_specificity(&mut result, x);
        proof {
            k = k + 1;
        }
    }
    proof {
        assert(orig.take(orig.len() as int) =~= orig);
        assert(v@.len() == 0);
        assert(k == orig.len());
    }
    result
}


/// An ASCII decimal digit.
pub open spec fn is_digit_char(c: char) -> bool {
    '0' as u32 <= c as u32 && c as u32 <= '9' as u32
}

/// An ASCII hexadecimal digit.
pub open spec fn is_hex_digit_char(c: char) -> bool {
    is_digit_char(c) || ('a' as u32 <= c as u32 && c as u32 <= 'f' as u32) || (
    'A' as u32 <= c as u32 && c as u32 <= 'F' as u32)
}

/// The value of a hexadecimal digit.
pub open spec fn spec_hex_val(c: char) -> int {
    if is_digit_char(c) {
        c as u32 - '0' as u32
    } else if 'a' as u32 <= c as u32 && c as u32 <= 'f' as u32 {
        c as u32 - 'a' as u32 + 10
    } else if 'A' as u32 <= c as u32 && c as u32 <= 'F' as u32 {
        c as u32 - 'A' as u32 + 10
    } else {
        0
    }
}

/// The number of `.` characters in `t`.
pub open spec fn count_dots(t: Seq<char>) -> nat
    decreases t.len(),
{
    if t.len() == 0 {
        0
    } else {
        count_dots(t.drop_last()) + if t.last() == '.' { 1nat } else { 0nat }
    }
}

/// Whether `t` holds at least one decimal digit.
pub open spec fn spec_has_digit(t: Seq<char>) -> bool {
    exists|i: int| 0 <= i < t.len() && is_digit_char(t[i])
}

/// Whether a run of digits and dots forms a valid decimal literal: at
/// least one digit and at most one dot.
pub open spec fn spec_valid_number(t: Seq<char>) -> bool {
    spec_has_digit(t) && count_dots(t) <= 1
}

/// Whether `u` equals `px`, ASCII case-insensitively.
pub open spec fn spec_is_px(u: Seq<char>) -> bool {
    u.len() == 2 && (u[0] == 'p' || u[0] == 'P') && (u[1] == 'x' || u[1] == 'X')
}

/// What parsing one simple selector yields, starting from the parts `sel`
/// already read: `#` reads an id, `.` adds a class, `*` is discarded, an
/// identifier character starts a tag name, and anything else (or the end
/// of the input) ends the selector without being consumed.  A repeated id
/// or tag name overwrites the earlier one.
pub open spec fn spec_parse_simple_selector(s: Seq<char>, pos: int, sel: SimpleSelectorV) -> (
    SimpleSelectorV,
    int,
)
    decreases s.len() - pos,
{
    if pos < 0 || pos >= s.len() {
        (sel, pos)
    } else {
        let c = s[pos];
        if c == '#' {
            let e = pos + 1 + run_len(s, pos + 1, CharClass::Identifier);
            proof {
                crate::cursor::lemma_run_len_bound(s, pos + 1, CharClass::Identifier);
            }
            spec_parse_simple_selector(
                s,
                e,
                SimpleSelectorV { id: Some(s.subrange(pos + 1, e)), ..sel },
            )
        } else if c == '.' {
            let e = pos + 1 + run_len(s, pos + 1, CharClass::Identifier);
            proof {
                crate::cursor::lemma_run_len_bound(s, pos + 1, CharClass::Identifier);
            }
            spec_parse_simple_selector(
                s,
                e,
                SimpleSelectorV { class: sel.class.push(s.subrange(pos + 1, e)), ..sel },
            )
        } else if c == '*' {
            spec_parse_simple_selector(s, pos + 1, sel)
        } else if is_identifier_char(c) {
            let e = pos + run_len(s, pos, CharClass::Identifier);
            proof {
                crate::cursor::lemma_run_len_bound(s, pos, CharClass::Identifier);
            }
            spec_parse_simple_selector(
                s,
                e,
                SimpleSelectorV { tag_name: Some(s.subrange(pos, e)), ..sel },
            )
        } else {
            (sel, pos)
        }
    }
}

/// The parts of a simple selector before anything is read.
pub open spec fn empty_simple_selector() -> SimpleSelectorV {
    SimpleSelectorV { tag_name: None, id: None, class: Seq::empty() }
}

/// What parsing a comma-separated selector list yields, appended to the
/// selectors `acc` already read: the list ends at `{` (not consumed) and
/// is sorted by specificity, highest first, ties keeping source order.
/// Any other character after a selector is an error.
pub open spec fn spec_parse_selectors(s: Seq<char>, pos: int, acc: Seq<SelectorV>) -> Result<
    (Seq<SelectorV>, int),
    ParseError,
>
    decreases s.len() - pos,
{
    let (ssv, p) = spec_parse_simple_selector(s, pos, empty_simple_selector());
    let acc2 = acc.push(SelectorV::Simple(ssv));
    let p2 = p + run_len(s, p, CharClass::Whitespace);
    if p2 >= s.len() {
        Err(ParseError::UnexpectedEndOfInput)
    } else if s[p2] == ',' {
        let p3 = p2 + 1 + run_len(s, p2 + 1, CharClass::Whitespace);
        if pos < p3 <= s.len() {
            spec_parse_selectors(s, p3, acc2)
        } else {
            // consuming the comma always advances; never taken
            Err(ParseError::UnexpectedEndOfInput)
        }
    } else if s[p2] == '{' {
        Ok((spec_sort_desc(acc2), p2))
    } else {
        Err(ParseError::UnexpectedCharacter)
    }
}

/// What parsing a unit yields: an identifier that must read `px`, ASCII
/// case-insensitively.
pub open spec fn spec_parse_unit(s: Seq<char>, pos: int) -> Result<(Unit, int), ParseError> {
    let e = pos + run_len(s, pos, CharClass::Identifier);
    if spec_is_px(s.subrange(pos, e)) {
        Ok((Unit::Px, e))
    } else {
        Err(ParseError::UnrecognizedUnit)
    }
}

/// What parsing a length yields: a decimal literal (at least one digit,
/// at most one dot) followed by a unit.
pub open spec fn spec_parse_length(s: Seq<char>, pos: int) -> Result<(ValueV, int), ParseError> {
    let e = pos + run_len(s, pos, CharClass::Number);
    let lit = s.subrange(pos, e);
    if !spec_valid_number(lit) {
        Err(ParseError::InvalidNumericLiteral)
    } else {
        match spec_parse_unit(s, e) {
            Err(err) => Err(err),
            Ok((u, q)) => Ok((ValueV::Length(lit, u), q)),
        }
    }
}

/// What parsing two hexadecimal digits yields: their value and the
/// position just past them.
pub open spec fn spec_parse_hex_pair(s: Seq<char>, pos: int) -> Result<(int, int), ParseError> {
    if pos + 2 > s.len() {
        Err(ParseError::UnexpectedEndOfInput)
    } else if !is_hex_digit_char(s[pos]) || !is_hex_digit_char(s[pos + 1]) {
        Err(ParseError::InvalidNumericLiteral)
    } else {
        Ok((16 * spec_hex_val(s[pos]) + spec_hex_val(s[pos + 1]), pos + 2))
    }
}

/// What parsing a color yields: `#` and three hex pairs for red, green
/// and blue, with alpha fixed at 255.
pub open spec fn spec_parse_color(s: Seq<char>, pos: int) -> Result<(ValueV, int), ParseError> {
    match spec_expect(s, pos, '#') {
        Err(e) => Err(e),
        Ok(p1) => match spec_parse_hex_pair(s, p1) {
            Err(e) => Err(e),
            Ok((r, p2)) => match spec_parse_hex_pair(s, p2) {
                Err(e) => Err(e),
                Ok((g, p3)) => match spec_parse_hex_pair(s, p3) {
                    Err(e) => Err(e),
                    Ok((b, p4)) => Ok((
                        ValueV::ColorValue(
                            Color { r: r as u8, g: g as u8, b: b as u8, a: 255 },
                        ),
                        p4,
                    )),
                },
            },
        },
    }
}

/// What parsing a value yields: a length after a digit, a color after
/// `#`, otherwise a keyword identifier.
pub open spec fn spec_parse_value(s: Seq<char>, pos: int) -> Result<(ValueV, int), ParseError> {
    if pos >= s.len() {
        Err(ParseError::UnexpectedEndOfInput)
    } else if is_digit_char(s[pos]) {
        spec_parse_length(s, pos)
    } else if s[pos] == '#' {
        spec_parse_color(s, pos)
    } else {
        let e = pos + run_len(s, pos, CharClass::Identifier);
        Ok((ValueV::Keyword(s.subrange(pos, e)), e))
    }
}

/// What parsing one `name: value;` declaration yields.
pub open spec fn spec_parse_declaration(s: Seq<char>, pos: int) -> Result<
    (DeclarationV, int),
    ParseError,
> {
    let name_end = pos + run_len(s, pos, CharClass::Identifier);
    let p1 = name_end + run_len(s, name_end, CharClass::Whitespace);
    match spec_expect(s, p1, ':') {
        Err(e) => Err(e),
        Ok(p2) => {
            let p3 = p2 + run_len(s, p2, CharClass::Whitespace);
            match spec_parse_value(s, p3) {
                Err(e) => Err(e),
                Ok((vv, p4)) => {
                    let p5 = p4 + run_len(s, p4, CharClass::Whitespace);
                    match spec_expect(s, p5, ';') {
                        Err(e) => Err(e),
                        Ok(p6) => Ok((
                            DeclarationV { name: s.subrange(pos, name_end), value: vv },
                            p6,
                        )),
                    }
                },
            }
        },
    }
}

/// What parsing the inside of a declaration block yields, appended to the
/// declarations `acc` already read: declarations follow one another until
/// the `}` that closes the block, which is consumed.
pub open spec fn spec_parse_declaration_list(
    s: Seq<char>,
    pos: int,
    acc: Seq<DeclarationV>,
) -> Result<(Seq<DeclarationV>, int), ParseError>
    decreases s.len() - pos,
{
    let p = pos + run_len(s, pos, CharClass::Whitespace);
    if p >= s.len() {
        Err(ParseError::UnexpectedEndOfInput)
    } else if s[p] == '}' {
        Ok((acc, p + 1))
    } else {
        match spec_parse_declaration(s, p) {
            Err(e) => Err(e),
            Ok((dv, q)) => {
                if p < q <= s.len() {
                    spec_parse_declaration_list(s, q, acc.push(dv))
                } else {
                    // a declaration always advances; never taken
                    Err(ParseError::UnexpectedEndOfInput)
                }
            },
        }
    }
}

/// What parsing a brace-enclosed declaration block yields.
pub open spec fn spec_parse_declarations(s: Seq<char>, pos: int) -> Result<
    (Seq<DeclarationV>, int),
    ParseError,
> {
    match spec_expect(s, pos, '{') {
        Err(e) => Err(e),
        Ok(p1) => spec_parse_declaration_list(s, p1, Seq::empty()),
    }
}

/// What parsing one rule yields: its selectors and its declarations.
pub open spec fn spec_parse_rule(s: Seq<char>, pos: int) -> Result<(RuleV, int), ParseError> {
    match spec_parse_selectors(s, pos, Seq::empty()) {
        Err(e) => Err(e),
        Ok((sels, p)) => match spec_parse_declarations(s, p) {
            Err(e) => Err(e),
            Ok((ds, q)) => Ok((RuleV { selectors: sels, declarations: ds }, q)),
        },
    }
}

/// What parsing a rule list yields, appended to the rules `acc` already
/// read: rules separated by optional whitespace until end-of-input.
pub open spec fn spec_parse_rules(s: Seq<char>, pos: int, acc: Seq<RuleV>) -> Result<
    (Seq<RuleV>, int),
    ParseError,
>
    decreases s.len() - pos,
{
    let p = pos + run_len(s, pos, CharClass::Whitespace);
    if p >= s.len() {
        Ok((acc, p))
    } else {
        match spec_parse_rule(s, p) {
            Err(e) => Err(e),
            Ok((rv, q)) => {
                if p < q <= s.len() {
                    spec_parse_rules(s, q, acc.push(rv))
                } else {
                    // a rule always advances; never taken
                    Err(ParseError::UnexpectedEndOfInput)
                }
            },
        }
    }
}

/// What parsing a whole stylesheet yields: its rules, in source order,
/// each with its selectors sorted by specificity.
pub open spec fn spec_parse_css(s: Seq<char>) -> Result<Seq<RuleV>, ParseError> {
    match spec_parse_rules(s, 0, Seq::empty()) {
        Err(e) => Err(e),
        Ok((rs, p)) => Ok(rs),
    }
}


/// Whether `c` may appear in an identifier: an ASCII letter or digit,
/// `-` or `_`.
pub fn valid_identifier_char(c: char) -> (r: bool)
    ensures
        r == is_identifier_char(c),
{
    crate::cursor::char_matches(CharClass::Identifier, c)
}

/// Parse a property name or keyword: the maximal identifier run.
pub fn parse_identifier(cur: &mut Cursor) -> (r: String)
    requires
        old(cur).wf(),
    ensures
        final(cur).wf(),
        final(cur).input == old(cur).input,
        final(cur).position == old(cur).position + run_len(
            final(cur).input@,
            old(cur).position as int,
            CharClass::Identifier,
        ),
        r@ == final(cur).input@.subrange(
            old(cur).position as int,
            final(cur).position as int,
        ),
{
    cur.consume_while(CharClass::Identifier)
}

/// Parse one simple selector, e.g. `type#id.class1.class2`.
pub fn parse_simple_selector(cur: &mut Cursor) -> (r: SimpleSelector)
    requires
        old(cur).wf(),
    ensures
        final(cur).wf(),
        final(cur).input == old(cur).input,
        old(cur).position <= final(cur).position,
        spec_parse_simple_selector(old(cur).input@, old(cur).position as int,
            empty_simple_selector()) == (simple_selector_view(r), final(cur).position as int),
{
    let ghost s = cur.input@;
    let ghost i0 = cur.input;
    let ghost p0 = cur.position as int;
    let mut selector = SimpleSelector { tag_name: None, id: None, class: Vec::new() };
    proof {
        assert(simple_selector_view(selector) =~~= empty_simple_selector());
    }
    loop
        invariant_except_break
            spec_parse_simple_selector(s, p0, empty_simple_selector())
                == spec_parse_simple_selector(
                s,
                cur.position as int,
                simple_selector_view(selector),
            ),
        invariant
            cur.wf(),
            cur.input == i0,
            cur.input@ == s,
            p0 <= cur.position,
        ensures
            cur.wf(),
            cur.input == i0,
            p0 <= cur.position,
            spec_parse_simple_selector(s, p0, empty_simple_selector()) == (
                simple_selector_view(selector),
                cur.position as int,
            ),
        decreases s.len() - cur.position,
    {
        let ghost ph = cur.position as int;
        let ghost selv = simple_selector_view(selector);
        if cur.eof() {
            break;
        }
        let c = cur.next_char();
        if c == '#' {
            let _ = cur.consume_char();
            let name = parse_identifier(cur);
            selector.id = Some(name);
            proof {
                assert(simple_selector_view(selector) =~~= (SimpleSelectorV {
                    id: Some(name@),
                    ..selv
                }));
            }
        } else if c == '.' {
            let _ = cur.consume_char();
            let name = parse_identifier(cur);
            selector.class.push(name);
            proof {
                assert(simple_selector_view(selector).class =~= selv.class.push(name@));
                assert(simple_selector_view(selector) =~~= (SimpleSelectorV {
                    class: selv.class.push(name@),
                    ..selv
                }));
            }
        } else if c == '*' {
            let _ = cur.consume_char();
        } else if valid_identifier_char(c) {
            let name = parse_identifier(cur);
            selector.tag_name = Some(name);
            proof {
                assert(run_len(s, ph, CharClass::Identifier) >= 1);
                assert(simple_selector_view(selector) =~~= (SimpleSelectorV {
                    tag_name: Some(name@),
                    ..selv
                }));
            }
        } else {
            break;
        }
    }
    selector
}

/// Pushing a declaration onto a vector pushes its model onto the model
/// sequence.
pub proof fn lemma_declarations_view_push(v: Seq<Declaration>, x: Declaration)
    ensures
        declarations_view(v.push(x)) == declarations_view(v).push(declaration_view(x)),
{
    assert(declarations_view(v.push(x)) =~= declarations_view(v).push(declaration_view(x)));
}

/// Pushing a rule onto a vector pushes its model onto the model sequence.
pub proof fn lemma_rules_view_push(v: Seq<Rule>, x: Rule)
    ensures
        rules_view(v.push(x)) == rules_view(v).push(rule_view(x)),
{
    assert(rules_view(v.push(x)) =~= rules_view(v).push(rule_view(x)));
}

/// Parse a comma-separated selector list, ending (without consuming) at
/// `{`; the result is sorted by specificity, highest first, ties keeping
/// their source order.
pub fn parse_selectors(cur: &mut Cursor) -> (r: Result<Vec<Selector>, ParseError>)
    requires
        old(cur).wf(),
    ensures
        final(cur).wf(),
        final(cur).input == old(cur).input,
        old(cur).position <= final(cur).position,
        match r {
            Ok(v) => spec_parse_selectors(old(cur).input@, old(cur).position as int,
                Seq::empty()) == Ok::<_, ParseError>((
                selectors_view(v@),
                final(cur).position as int,
            )),
            Err(e) => spec_parse_selectors(old(cur).input@, old(cur).position as int,
                Seq::empty()) == Err::<(Seq<SelectorV>, int), ParseError>(e),
        },
{
    let ghost s = cur.input@;
    let ghost i0 = cur.input;
    let ghost p0 = cur.position as int;
    let mut selectors: Vec<Selector> = Vec::new();
    let mut err: Option<ParseError> = None;
    proof {
        assert(selectors_view(selectors@) =~= Seq::<SelectorV>::empty());
    }
    loop
        invariant_except_break
            err is None,
            spec_parse_selectors(s, p0, Seq::empty()) == spec_parse_selectors(
                s,
                cur.position as int,
                selectors_view(selectors@),
            ),
        invariant
            cur.wf(),
            cur.input == i0,
            cur.input@ == s,
            p0 <= cur.position,
        ensures
            cur.wf(),
            cur.input == i0,
            p0 <= cur.position,
            match err {
                None => spec_parse_selectors(s, p0, Seq::empty()) == Ok::<_, ParseError>((
                    spec_sort_desc(selectors_view(selectors@)),
                    cur.position as int,
                )),
                Some(e) => spec_parse_selectors(s, p0, Seq::empty()) == Err::<
                    (Seq<SelectorV>, int),
                    ParseError,
                >(e),
            },
        decreases s.len() - cur.position,
    {
        let ghost ph = cur.position as int;
        let ghost accv = selectors_view(selectors@);
        let ss = parse_simple_selector(cur);
        proof {
            lemma_selectors_view_push(selectors@, Selector::Simple(ss));
        }
        selectors.push(Selector::Simple(ss));
        cur.consume_whitespace();
        if cur.eof() {
            err = Some(ParseError::UnexpectedEndOfInput);
            break;
        }
        let c = cur.next_char();
        if c == ',' {
            let _ = cur.consume_char();
            cur.consume_whitespace();
        } else if c == '{' {
            break;
        } else {
            err = Some(ParseError::UnexpectedCharacter);
            break;
        }
    }
    match err {
        Some(e) => Err(e),
        None => Ok(sort_by_specificity(selectors)),
    }
}

/// Parse a decimal literal: the maximal run of digits and dots, which
/// must hold at least one digit and at most one dot.
pub fn parse_float(cur: &mut Cursor) -> (r: Result<String, ParseError>)
    requires
        old(cur).wf(),
    ensures
        final(cur).wf(),
        final(cur).input == old(cur).input,
        final(cur).position == old(cur).position + run_len(
            final(cur).input@,
            old(cur).position as int,
            CharClass::Number,
        ),
        ({
            let lit = final(cur).input@.subrange(
                old(cur).position as int,
                final(cur).position as int,
            );
            match r {
                Ok(t) => t@ == lit && spec_valid_number(lit),
                Err(e) => e == ParseError::InvalidNumericLiteral && !spec_valid_number(lit),
            }
        }),
{
    let t = cur.consume_while(CharClass::Number);
    if is_valid_number(&t) {
        Ok(t)
    } else {
        Err(ParseError::InvalidNumericLiteral)
    }
}

/// Whether the text holds at least one digit and at most one dot.
#[verifier::loop_isolation(false)]
fn is_valid_number(t: &String) -> (r: bool)
    ensures
        r == spec_valid_number(t@),
{
    let n = t.as_str().unicode_len();
    let mut dots: usize = 0;
    let mut has_digit = false;
    let mut i: usize = 0;
    proof {
        assert(t@.take(0) =~= Seq::<char>::empty());
    }
    while i < n
        invariant
            i <= n,
            dots <= i,
            dots == count_dots(t@.take(i as int)),
            has_digit == spec_has_digit(t@.take(i as int)),
        decreases n - i,
    {
        let c = t.as_str().get_char(i);
        proof {
            assert(t@.take(i + 1).drop_last() =~= t@.take(i as int));
            assert(t@.take(i + 1).last() == t@[i as int]);
        }
        if c == '.' {
            dots = dots + 1;
        } else {
            let u = c as u32;
            if '0' as u32 <= u && u <= '9' as u32 {
                has_digit = true;
            }
        }
        proof {
            if spec_has_digit(t@.take(i + 1)) && !spec_has_digit(t@.take(i as int)) {
                let k = choose|k: int|
                    0 <= k < t@.take(i + 1).len() && is_digit_char(#[trigger] t@.take(i + 1)[k]);
                assert(k == i);
            }
            if is_digit_char(t@[i as int]) {
                assert(t@.take(i + 1)[i as int] == t@[i as int]);
            }
        }
        i = i + 1;
    }
    proof {
        assert(t@.take(n as int) =~= t@);
    }
    has_digit && dots <= 1
}

/// Parse a length's unit, which must read `px`, ASCII case-insensitively.
pub fn parse_unit(cur: &mut Cursor) -> (r: Result<Unit, ParseError>)
    requires
        old(cur).wf(),
    ensures
        final(cur).wf(),
        final(cur).input == old(cur).input,
        old(cur).position <= final(cur).position,
        match r {
            Ok(u) => spec_parse_unit(old(cur).input@, old(cur).position as int) == Ok::<
                _,
                ParseError,
            >((u, final(cur).position as int)),
            Err(e) => spec_parse_unit(old(cur).input@, old(cur).position as int) == Err::<
                (Unit, int),
                ParseError,
            >(e),
        },
{
    let u = parse_identifier(cur);
    let n = u.as_str().unicode_len();
    if n == 2 {
        let c0 = u.as_str().get_char(0);
        let c1 = u.as_str().get_char(1);
        if (c0 == 'p' || c0 == 'P') && (c1 == 'x' || c1 == 'X') {
            return Ok(Unit::Px);
        }
    }
    Err(ParseError::UnrecognizedUnit)
}

/// Parse a length: a decimal literal followed by its unit.
pub fn parse_length(cur: &mut Cursor) -> (r: Result<Value, ParseError>)
    requires
        old(cur).wf(),
    ensures
        final(cur).wf(),
        final(cur).input == old(cur).input,
        old(cur).position <= final(cur).position,
        match r {
            Ok(v) => spec_parse_length(old(cur).input@, old(cur).position as int) == Ok::<
                _,
                ParseError,
            >((value_view(v), final(cur).position as int)),
            Err(e) => spec_parse_length(old(cur).input@, old(cur).position as int) == Err::<
                (ValueV, int),
                ParseError,
            >(e),
        },
{
    let lit = match parse_float(cur) {
        Err(e) => return Err(e),
        Ok(t) => t,
    };
    match parse_unit(cur) {
        Err(e) => Err(e),
        Ok(u) => Ok(Value::Length(lit, u)),
    }
}

/// The value of one hexadecimal digit, if `c` is one.
fn hex_digit_value(c: char) -> (r: Option<u8>)
    ensures
        match r {
            Some(v) => is_hex_digit_char(c) && v as int == spec_hex_val(c) && v <= 15,
            None => !is_hex_digit_char(c),
        },
{
    let u = c as u32;
    if '0' as u32 <= u && u <= '9' as u32 {
        Some((u - '0' as u32) as u8)
    } else if 'a' as u32 <= u && u <= 'f' as u32 {
        Some((u - 'a' as u32 + 10) as u8)
    } else if 'A' as u32 <= u && u <= 'F' as u32 {
        Some((u - 'A' as u32 + 10) as u8)
    } else {
        None
    }
}

/// Parse two hexadecimal digits as one 8-bit channel value.
pub fn parse_hex_pair(cur: &mut Cursor) -> (r: Result<u8, ParseError>)
    requires
        old(cur).wf(),
    ensures
        final(cur).wf(),
        final(cur).input == old(cur).input,
        old(cur).position <= final(cur).position,
        match r {
            Ok(v) => spec_parse_hex_pair(old(cur).input@, old(cur).position as int) == Ok::<
                _,
                ParseError,
            >((v as int, final(cur).position as int)),
            Err(e) => spec_parse_hex_pair(old(cur).input@, old(cur).position as int) == Err::<
                (int, int),
                ParseError,
            >(e),
        },
{
    if cur.length - cur.position < 2 {
        return Err(ParseError::UnexpectedEndOfInput);
    }
    let c1 = cur.consume_char();
    let c2 = cur.consume_char();
    match (hex_digit_value(c1), hex_digit_value(c2)) {
        (Some(v1), Some(v2)) => Ok(16 * v1 + v2),
        _ => Err(ParseError::InvalidNumericLiteral),
    }
}

/// Parse a color: `#` and three hex pairs, alpha fixed at 255.
pub fn parse_color(cur: &mut Cursor) -> (r: Result<Value, ParseError>)
    requires
        old(cur).wf(),
    ensures
        final(cur).wf(),
        final(cur).input == old(cur).input,
        old(cur).position <= final(cur).position,
        match r {
            Ok(v) => spec_parse_color(old(cur).input@, old(cur).position as int) == Ok::<
                _,
                ParseError,
            >((value_view(v), final(cur).position as int)),
            Err(e) => spec_parse_color(old(cur).input@, old(cur).position as int) == Err::<
                (ValueV, int),
                ParseError,
            >(e),
        },
{
    if let Err(e) = cur.expect('#') {
        return Err(e);
    }
    let red = match parse_hex_pair(cur) {
        Err(e) => return Err(e),
        Ok(v) => v,
    };
    let green = match parse_hex_pair(cur) {
        Err(e) => return Err(e),
        Ok(v) => v,
    };
    let blue = match parse_hex_pair(cur) {
        Err(e) => return Err(e),
        Ok(v) => v,
    };
    Ok(Value::ColorValue(Color { r: red, g: green, b: blue, a: 255 }))
}

/// Parse a value: a length after a digit, a color after `#`, otherwise a
/// keyword.
pub fn parse_value(cur: &mut Cursor) -> (r: Result<Value, ParseError>)
    requires
        old(cur).wf(),
    ensures
        final(cur).wf(),
        final(cur).input == old(cur).input,
        old(cur).position <= final(cur).position,
        match r {
            Ok(v) => spec_parse_value(old(cur).input@, old(cur).position as int) == Ok::<
                _,
                ParseError,
            >((value_view(v), final(cur).position as int)),
            Err(e) => spec_parse_value(old(cur).input@, old(cur).position as int) == Err::<
                (ValueV, int),
                ParseError,
            >(e),
        },
{
    if cur.eof() {
        return Err(ParseError::UnexpectedEndOfInput);
    }
    let c = cur.next_char();
    let u = c as u32;
    if '0' as u32 <= u && u <= '9' as u32 {
        parse_length(cur)
    } else if c == '#' {
        parse_color(cur)
    } else {
        let k = parse_identifier(cur);
        Ok(Value::Keyword(k))
    }
}

/// Parse one `name: value;` declaration.
pub fn parse_declaration(cur: &mut Cursor) -> (r: Result<Declaration, ParseError>)
    requires
        old(cur).wf(),
    ensures
        final(cur).wf(),
        final(cur).input == old(cur).input,
        old(cur).position <= final(cur).position,
        match r {
            Ok(d) => spec_parse_declaration(old(cur).input@, old(cur).position as int) == Ok::<
                _,
                ParseError,
            >((declaration_view(d), final(cur).position as int)) && old(cur).position
                < final(cur).position,
            Err(e) => spec_parse_declaration(old(cur).input@, old(cur).position as int)
                == Err::<(DeclarationV, int), ParseError>(e),
        },
{
    let name = parse_identifier(cur);
    cur.consume_whitespace();
    if let Err(e) = cur.expect(':') {
        return Err(e);
    }
    cur.consume_whitespace();
    let value = match parse_value(cur) {
        Err(e) => return Err(e),
        Ok(v) => v,
    };
    cur.consume_whitespace();
    if let Err(e) = cur.expect(';') {
        return Err(e);
    }
    Ok(Declaration { name, value })
}

/// Parse a brace-enclosed declaration block.
pub fn parse_declarations(cur: &mut Cursor) -> (r: Result<Vec<Declaration>, ParseError>)
    requires
        old(cur).wf(),
    ensures
        final(cur).wf(),
        final(cur).input == old(cur).input,
        old(cur).position <= final(cur).position,
        match r {
            Ok(v) => spec_parse_declarations(old(cur).input@, old(cur).position as int)
                == Ok::<_, ParseError>((
                declarations_view(v@),
                final(cur).position as int,
            )) && old(cur).position < final(cur).position,
            Err(e) => spec_parse_declarations(old(cur).input@, old(cur).position as int)
                == Err::<(Seq<DeclarationV>, int), ParseError>(e),
        },
{
    if let Err(e) = cur.expect('{') {
        return Err(e);
    }
    let ghost s = cur.input@;
    let ghost i0 = cur.input;
    let ghost p1 = cur.position as int;
    let mut declarations: Vec<Declaration> = Vec::new();
    let mut err: Option<ParseError> = None;
    proof {
        assert(declarations_view(declarations@) =~= Seq::<DeclarationV>::empty());
    }
    loop
        invariant_except_break
            err is None,
            spec_parse_declaration_list(s, p1, Seq::empty()) == spec_parse_declaration_list(
                s,
                cur.position as int,
                declarations_view(declarations@),
            ),
        invariant
            cur.wf(),
            cur.input == i0,
            cur.input@ == s,
            p1 <= cur.position,
        ensures
            cur.wf(),
            cur.input == i0,
            p1 <= cur.position,
            match err {
                None => spec_parse_declaration_list(s, p1, Seq::empty()) == Ok::<
                    _,
                    ParseError,
                >((declarations_view(declarations@), cur.position as int)),
                Some(e) => spec_parse_declaration_list(s, p1, Seq::empty()) == Err::<
                    (Seq<DeclarationV>, int),
                    ParseError,
                >(e),
            },
        decreases s.len() - cur.position,
    {
        let ghost ph = cur.position as int;
        let ghost dsv = declarations_view(declarations@);
        cur.consume_whitespace();
        if cur.eof() {
            err = Some(ParseError::UnexpectedEndOfInput);
            break;
        }
        if cur.next_char() == '}' {
            let _ = cur.consume_char();
            break;
        }
        match parse_declaration(cur) {
            Err(e) => {
                err = Some(e);
                break;
            },
            Ok(d) => {
                proof {
                    lemma_declarations_view_push(declarations@, d);
                }
                declarations.push(d);
            },
        }
    }
    match err {
        Some(e) => Err(e),
        None => Ok(declarations),
    }
}

/// Parse one rule: `selectors { declarations }`.
pub fn parse_rule(cur: &mut Cursor) -> (r: Result<Rule, ParseError>)
    requires
        old(cur).wf(),
    ensures
        final(cur).wf(),
        final(cur).input == old(cur).input,
        old(cur).position <= final(cur).position,
        match r {
            Ok(rule) => spec_parse_rule(old(cur).input@, old(cur).position as int) == Ok::<
                _,
                ParseError,
            >((rule_view(rule), final(cur).position as int)) && old(cur).position < final(cur).position,
            Err(e) => spec_parse_rule(old(cur).input@, old(cur).position as int) == Err::<
                (RuleV, int),
                ParseError,
            >(e),
        },
{
    let selectors = match parse_selectors(cur) {
        Err(e) => return Err(e),
        Ok(v) => v,
    };
    let declarations = match parse_declarations(cur) {
        Err(e) => return Err(e),
        Ok(v) => v,
    };
    Ok(Rule { selectors, declarations })
}

/// Parse a list of rules separated by optional whitespace, until the end
/// of the input.
pub fn parse_rules(cur: &mut Cursor) -> (r: Result<Vec<Rule>, ParseError>)
    requires
        old(cur).wf(),
    ensures
        final(cur).wf(),
        final(cur).input == old(cur).input,
        old(cur).position <= final(cur).position,
        match r {
            Ok(v) => spec_parse_rules(old(cur).input@, old(cur).position as int, Seq::empty())
                == Ok::<_, ParseError>((rules_view(v@), final(cur).position as int)),
            Err(e) => spec_parse_rules(old(cur).input@, old(cur).position as int, Seq::empty())
                == Err::<(Seq<RuleV>, int), ParseError>(e),
        },
{
    let ghost s = cur.input@;
    let ghost i0 = cur.input;
    let ghost p0 = cur.position as int;
    let mut rules: Vec<Rule> = Vec::new();
    let mut err: Option<ParseError> = None;
    proof {
        assert(rules_view(rules@) =~= Seq::<RuleV>::empty());
    }
    loop
        invariant_except_break
            err is None,
            spec_parse_rules(s, p0, Seq::empty()) == spec_parse_rules(
                s,
                cur.position as int,
                rules_view(rules@),
            ),
        invariant
            cur.wf(),
            cur.input == i0,
            cur.input@ == s,
            p0 <= cur.position,
        ensures
            cur.wf(),
            cur.input == i0,
            p0 <= cur.position,
            match err {
                None => spec_parse_rules(s, p0, Seq::empty()) == Ok::<_, ParseError>((
                    rules_view(rules@),
                    cur.position as int,
                )),
                Some(e) => spec_parse_rules(s, p0, Seq::empty()) == Err::<
                    (Seq<RuleV>, int),
                    ParseError,
                >(e),
            },
        decreases s.len() - cur.position,
    {
        let ghost ph = cur.position as int;
        let ghost rsv = rules_view(rules@);
        cur.consume_whitespace();
        if cur.eof() {
            break;
        }
        match parse_rule(cur) {
            Err(e) => {
                err = Some(e);
                break;
            },
            Ok(rule) => {
                proof {
                    lemma_rules_view_push(rules@, rule);
                }
                rules.push(rule);
            },
        }
    }
    match err {
        Some(e) => Err(e),
        None => Ok(rules),
    }
}

/// Parse a whole CSS stylesheet.
pub fn parse(source: String) -> (r: Result<Stylesheet, ParseError>)
    ensures
        match r {
            Ok(sheet) => spec_parse_css(source@) == Ok::<_, ParseError>(rules_view(
                sheet.rules@,
            )),
            Err(e) => spec_parse_css(source@) == Err::<Seq<RuleV>, ParseError>(e),
        },
{
    let mut cur = Cursor::new(source);
    match parse_rules(&mut cur) {
        Err(e) => Err(e),
        Ok(rules) => Ok(Stylesheet { rules }),
    }
}


/// Whatever selector list a parse returns is sorted by specificity,
/// highest first.
pub proof fn lemma_parse_selectors_sorted(
    s: Seq<char>,
    pos: int,
    acc: Seq<SelectorV>,
    v: Seq<SelectorV>,
    p: int,
)
    requires
        spec_parse_selectors(s, pos, acc) == Ok::<(Seq<SelectorV>, int), ParseError>((v, p)),
    ensures
        sorted_desc(v),
    decreases s.len() - pos,
{
    let (ssv, q) = spec_parse_simple_selector(s, pos, empty_simple_selector());
    let acc2 = acc.push(SelectorV::Simple(ssv));
    let p2 = q + run_len(s, q, CharClass::Whitespace);
    if p2 < s.len() && s[p2] == ',' {
        let p3 = p2 + 1 + run_len(s, p2 + 1, CharClass::Whitespace);
        if pos < p3 <= s.len() {
            lemma_parse_selectors_sorted(s, p3, acc2, v, p);
        }
    } else if p2 < s.len() && s[p2] == '{' {
        lemma_sort_desc_sorted(acc2);
    }
}

/// Every rule of a parsed stylesheet has its selector list sorted by
/// specificity, highest first.
pub proof fn lemma_parse_rules_sorted(
    s: Seq<char>,
    pos: int,
    acc: Seq<RuleV>,
    rs: Seq<RuleV>,
    p: int,
)
    requires
        spec_parse_rules(s, pos, acc) == Ok::<(Seq<RuleV>, int), ParseError>((rs, p)),
        forall|i: int| 0 <= i < acc.len() ==> sorted_desc(#[trigger] acc[i].selectors),
    ensures
        forall|i: int| 0 <= i < rs.len() ==> sorted_desc(#[trigger] rs[i].selectors),
    decreases s.len() - pos,
{
    let q = pos + run_len(s, pos, CharClass::Whitespace);
    if q >= s.len() {
    } else {
        match spec_parse_rule(s, q) {
            Err(_) => {},
            Ok((rv, r)) => {
                match spec_parse_selectors(s, q, Seq::empty()) {
                    Err(_) => {},
                    Ok((sels, ps)) => {
                        lemma_parse_selectors_sorted(s, q, Seq::empty(), sels, ps);
                    },
                }
                if q < r <= s.len() {
                    assert(forall|i: int|
                        0 <= i < acc.push(rv).len() ==> sorted_desc(
                            #[trigger] acc.push(rv)[i].selectors,
                        ));
                    lemma_parse_rules_sorted(s, r, acc.push(rv), rs, p);
                }
            },
        }
    }
}

/// The law of selector order: in a parsed stylesheet, every rule's
/// selectors come sorted by specificity `(id count, class count, tag
/// count)`, lexicographically non-increasing.
pub proof fn lemma_stylesheet_selectors_sorted(s: Seq<char>, rs: Seq<RuleV>)
    requires
        spec_parse_css(s) == Ok::<Seq<RuleV>, ParseError>(rs),
    ensures
        forall|i: int| 0 <= i < rs.len() ==> sorted_desc(#[trigger] rs[i].selectors),
{
    let r = spec_parse_rules(s, 0, Seq::empty());
    match r {
        Err(_) => {},
        Ok((rs2, p)) => {
            lemma_parse_rules_sorted(s, 0, Seq::empty(), rs2, p);
        },
    }
}

} // verus!
