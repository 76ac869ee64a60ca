//! The single tagged value type manipulated by the language, together with
//! its mathematical model.

use vstd::prelude::*;
use crate::function::{Function, Op};

verus! {

/// Runtime value: a closed tagged union.
///
/// An `Array` is dual-purpose: a literal array of data, or a quoted block of
/// code later spliced onto the stack by the `eval` operation. A `Variable`
/// holds a name only; resolution is dynamic. A `Float` holds the bit pattern
/// of an IEEE 754 binary64 value, so that the type stays plain data.
#[derive(Debug, PartialEq)]
pub enum Element {
    Boolean(bool),
    Integer(i64),
    Float(u64),
    Char(char),
    Variable(String),
    Function(Function),
    Array(Vec<Element>),
}

/// Mathematical model of an [`Element`]: the same tree with sequences for
/// arrays and character sequences for names.
pub enum Val {
    Bool(bool),
    Int(i64),
    Float(u64),
    Char(char),
    Var(Seq<char>),
    Func(Op),
    Arr(Seq<Val>),
}

impl Element {
    /// The model of this element.
    pub open spec fn val(&self) -> Val
        decreases *self,
    {
        match self {
            Element::Boolean(b) => Val::Bool(*b),
            Element::Integer(i) => Val::Int(*i),
            Element::Float(bits) => Val::Float(*bits),
            Element::Char(c) => Val::Char(*c),
            Element::Variable(n) => Val::Var(n@),
            Element::Function(f) => Val::Func(f.op),
            Element::Array(v) => Val::Arr(deep_seq(v@)),
        }
    }
}

/// The models of a sequence of elements, in order.
pub open spec fn deep_seq(s: Seq<Element>) -> Seq<Val>
    decreases s,
{
    if s.len() == 0 {
        Seq::empty()
    } else {
        deep_seq(s.drop_last()).push(s.last().val())
    }
}

/// `deep_seq` is the pointwise model of its argument.
pub proof fn lemma_deep_seq(s: Seq<Element>)
    ensures
        deep_seq(s).len() == s.len(),
        forall|i: int| 0 <= i < s.len() ==> deep_seq(s)[i] == #[trigger] s[i].val(),
    decreases s.len(),
{
    if s.len() > 0 {
        lemma_deep_seq(s.drop_last());
        assert forall|i: int| 0 <= i < s.len() implies deep_seq(s)[i] == #[trigger] s[i].val() by {
            if i < s.len() - 1 {
                assert(s.drop_last()[i] == s[i]);
                assert(deep_seq(s.drop_last())[i] == s.drop_last()[i].val());
            } else {
                assert(s.last() == s[i]);
            }
        }
    }
}

/// Pointwise description of `deep_seq`, for every sequence at once.
pub proof fn lemma_deep_seq_auto()
    ensures
        forall|s: Seq<Element>| (#[trigger] deep_seq(s)).len() == s.len(),
        forall|s: Seq<Element>, i: int|
            0 <= i < s.len() ==> #[trigger] deep_seq(s)[i] == s[i].val(),
{
    assert forall|s: Seq<Element>| (#[trigger] deep_seq(s)).len() == s.len() by {
        lemma_deep_seq(s);
    }
    assert forall|s: Seq<Element>, i: int|
        0 <= i < s.len() implies #[trigger] deep_seq(s)[i] == s[i].val() by {
        lemma_deep_seq(s);
    }
}

/// An integer element.
pub(crate) fn int_el(x: i64) -> (r: Element)
    ensures
        r == Element::Integer(x),
{
    Element::Integer(x)
}

/// A floating-point element, from its bit pattern.
pub(crate) fn float_el(bits: u64) -> (r: Element)
    ensures
        r == Element::Float(bits),
{
    Element::Float(bits)
}

/// A boolean element.
pub(crate) fn bool_el(p: bool) -> (r: Element)
    ensures
        r == Element::Boolean(p),
{
    Element::Boolean(p)
}

/// A structural copy of an element; elements are value types, so a copy
/// shares no mutable state with the original.
pub fn dup_element(e: &Element) -> (r: Element)
    ensures
        r.val() == e.val(),
    decreases e, 0int,
{
    match e {
        Element::Boolean(b) => Element::Boolean(*b),
        Element::Integer(i) => Element::Integer(*i),
        Element::Float(bits) => Element::Float(*bits),
        Element::Char(c) => Element::Char(*c),
        Element::Variable(n) => Element::Variable(n.as_str().to_owned()),
        Element::Function(f) => Element::Function(*f),
        Element::Array(v) => {
            let c = dup_suffix(v, 0);
            proof {
                lemma_deep_seq(c@);
                lemma_deep_seq(v@);
                assert forall|j: int| 0 <= j < v@.len() implies deep_seq(c@)[j] == deep_seq(
                    v@,
                )[j] by {
                    assert(c@[j].val() == v@[0 + j].val());
                }
                assert(deep_seq(c@) =~= deep_seq(v@));
            }
            Element::Array(c)
        },
    }
}

/// Copies of the elements of `v` from position `i` on, in order.
fn dup_suffix(v: &Vec<Element>, i: usize) -> (r: Vec<Element>)
    requires
        i <= v@.len(),
    ensures
        r@.len() == v@.len() - i,
        forall|k: int| 0 <= k < r@.len() ==> r@[k].val() == v@[i + k].val(),
    decreases v, v@.len() - i,
{
    if i == v.len() {
        Vec::new()
    } else {
        let h = dup_element(&v[i]);
        let mut t = dup_suffix(v, i + 1);
        t.insert(0, h);
        t
    }
}

} // verus!
