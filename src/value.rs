//! Runtime values, expression nodes and evaluation errors.
use vstd::prelude::*;

verus! {

/// A value as the evaluator computes it.
#[derive(PartialEq, Debug, Clone)]
pub enum EvalDataType {
    String(String),
    Number(u128),
    Bool(bool),
}

/// An expression node: either a leaf holding a datum, or a group of nodes.
///
/// A group headed by an operator or keyword name (`"+"`, `"var"`, `"if"`, ...)
/// is an application of that form to the nodes that follow it; a leaf holding a
/// string is an operator or keyword name, a quoted string literal (`'text'`),
/// or a variable name.
#[derive(PartialEq, Debug)]
pub enum EvalType {
    Content(Vec<EvalType>),
    Value(EvalDataType),
}

/// The mathematical value behind an `EvalDataType`.
pub enum Datum {
    Str(Seq<char>),
    Num(u128),
    Bool(bool),
}

impl View for EvalDataType {
    type V = Datum;

    open spec fn view(&self) -> Datum {
        match self {
            EvalDataType::String(s) => Datum::Str(s@),
            EvalDataType::Number(n) => Datum::Num(*n),
            EvalDataType::Bool(b) => Datum::Bool(*b),
        }
    }
}

/// The mathematical value behind an `EvalType`: a datum, or a group of nodes.
pub enum Node {
    Leaf(Datum),
    Group(Seq<Node>),
}

/// The node that `t` stands for.
pub open spec fn node_of(t: EvalType) -> Node
    decreases t,
{
    match t {
        EvalType::Value(d) => Node::Leaf(d@),
        EvalType::Content(v) => Node::Group(
            Seq::new(
                v@.len(),
                |i: int|
                    if 0 <= i < v@.len() {
                        node_of(v@[i])
                    } else {
                        Node::Group(Seq::empty())
                    },
            ),
        ),
    }
}

impl View for EvalType {
    type V = Node;

    open spec fn view(&self) -> Node {
        node_of(*self)
    }
}

proof fn lemma_item_decreases(t: EvalType, i: int)
    requires
        t is Content,
        0 <= i < (t->Content_0)@.len(),
    ensures
        decreases_to!(t => (t->Content_0)@[i]),
{
    let v = t->Content_0;
    assert(decreases_to!(t => v));
    assert(decreases_to!(v => v@));
    assert(decreases_to!(v@ => v@[i]));
}

/// A copy of `t`, node for node.
pub fn copy_node(t: &EvalType) -> (r: EvalType)
    ensures
        r@ == t@,
    decreases t,
{
    match t {
        EvalType::Value(d) => EvalType::Value(copy_data(d)),
        EvalType::Content(items) => {
            let mut out: Vec<EvalType> = Vec::new();
            let mut i: usize = 0;
            while i < items.len()
                invariant
                    *t == EvalType::Content(*items),
                    i <= items@.len(),
                    out@.len() == i,
                    forall|k: int| 0 <= k < i ==> (#[trigger] out@[k])@ == items@[k]@,
                decreases items@.len() - i,
            {
                proof {
                    lemma_item_decreases(*t, i as int);
                }
                out.push(copy_node(&items[i]));
                i = i + 1;
            }
            let r = EvalType::Content(out);
            assert(r@ =~= t@) by {
                assert forall|k: int| 0 <= k < out@.len() implies (r@->Group_0)[k] == (t@->Group_0)[k] by {
                    assert(out@[k]@ == items@[k]@);
                }
                assert(r@->Group_0 =~= t@->Group_0);
            }
            r
        },
    }
}

/// Why an evaluation failed.
#[derive(PartialEq, Eq, Debug, Clone, Copy, Structural)]
pub enum EvalError {
    /// An operator or a condition met operand kinds that it does not support.
    TypeMismatch,
    /// A name was read that no frame of the environment chain holds.
    UnboundVariable,
    /// A name was assigned that no frame of the environment chain holds.
    UndeclaredAssignment,
    /// A form had the wrong number or shape of operands.
    MalformedStructure,
    /// A division had a zero divisor.
    DivisionByZero,
    /// A sum or product did not fit in a `u128`.
    Overflow,
    /// A declaration named something that is not an identifier.
    InvalidName,
    /// The evaluation ran out of its step budget.
    StepLimitExceeded,
}

/// A copy of `v` that is provably equal to it.
pub fn copy_data(v: &EvalDataType) -> (r: EvalDataType)
    ensures
        r == *v,
{
    match v {
        EvalDataType::String(s) => EvalDataType::String(s.clone()),
        EvalDataType::Number(n) => EvalDataType::Number(*n),
        EvalDataType::Bool(b) => EvalDataType::Bool(*b),
    }
}

} // verus!
