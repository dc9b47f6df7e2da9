use vstd::prelude::*;
use crate::ast::{
    block_clone, block_eq, idents_clone, idents_eq, idents_view, BlockStatement, BlockV,
    Identifier, IdentV,
};

verus! {

/// Runtime values. `Return` is a control-flow marker that never escapes a
/// call boundary or the top-level statement sequence unwrapped. A `Function`
/// captures its parameters, its body and the index of the environment frame
/// that was active when the literal was evaluated.
#[derive(Debug)]
pub enum Object {
    Integer(i32),
    String(String),
    Null,
    Boolean(bool),
    Return(Box<Object>),
    Function(Vec<Identifier>, BlockStatement, usize),
}

#[allow(dead_code)]
pub struct ReturnValue {
    value: Object,
}

/// Fatal evaluation outcomes: the language silently degrades most semantic
/// misuse to `Null`, but division by zero must be fatal, and this
/// implementation also reports integer overflow and exhaustion of the
/// explicit recursion-depth budget instead of aborting the host.
#[derive(Debug, Clone, Copy, PartialEq, Eq, Structural)]
pub enum EvalError {
    DivisionByZero,
    IntegerOverflow,
    DepthLimitExceeded,
}

/// Mathematical model of a runtime value.
pub enum ObjV {
    Integer(i32),
    String(Seq<char>),
    Null,
    Boolean(bool),
    Return(Box<ObjV>),
    Function(Seq<IdentV>, BlockV, int),
}

pub open spec fn obj_view(o: Object) -> ObjV
    decreases o,
{
    match o {
        Object::Integer(x) => ObjV::Integer(x),
        Object::String(s) => ObjV::String(s@),
        Object::Null => ObjV::Null,
        Object::Boolean(b) => ObjV::Boolean(b),
        Object::Return(inner) => ObjV::Return(Box::new(obj_view(*inner))),
        Object::Function(ps, body, env) => ObjV::Function(
            idents_view(ps@),
            body@,
            env as int,
        ),
    }
}

impl View for Object {
    type V = ObjV;

    open spec fn view(&self) -> ObjV {
        obj_view(*self)
    }
}

pub open spec fn objs_view(os: Seq<Object>) -> Seq<ObjV>
    decreases os,
{
    if os.len() == 0 {
        Seq::empty()
    } else {
        seq![obj_view(os[0])] + objs_view(os.subrange(1, os.len() as int))
    }
}

/// Element-by-element description of `objs_view`.
pub proof fn lemma_objs_view(os: Seq<Object>)
    ensures
        objs_view(os).len() == os.len(),
        forall|i: int| 0 <= i < os.len() ==> objs_view(os)[i] == obj_view(os[i]),
    decreases os,
{
    if os.len() > 0 {
        lemma_objs_view(os.subrange(1, os.len() as int));
    }
}

pub fn obj_eq(a: &Object, b: &Object) -> (r: bool)
    ensures
        r == (a@ == b@),
    decreases *a,
{
    match (a, b) {
        (Object::Integer(x), Object::Integer(y)) => *x == *y,
        (Object::String(x), Object::String(y)) => *x == *y,
        (Object::Null, Object::Null) => true,
        (Object::Boolean(x), Object::Boolean(y)) => *x == *y,
        (Object::Return(x), Object::Return(y)) => obj_eq(x, y),
        (Object::Function(p1, b1, e1), Object::Function(p2, b2, e2)) => idents_eq(p1, p2)
            && block_eq(b1, b2) && *e1 == *e2,
        _ => false,
    }
}

pub fn obj_clone(o: &Object) -> (r: Object)
    ensures
        r@ == o@,
    decreases *o,
{
    match o {
        Object::Integer(x) => Object::Integer(*x),
        Object::String(s) => Object::String(s.clone()),
        Object::Null => Object::Null,
        Object::Boolean(b) => Object::Boolean(*b),
        Object::Return(inner) => Object::Return(Box::new(obj_clone(inner))),
        Object::Function(ps, body, env) => Object::Function(
            idents_clone(ps),
            block_clone(body),
            *env,
        ),
    }
}

impl Clone for Object {
    fn clone(&self) -> (r: Object)
        ensures
            r@ == self@,
    {
        obj_clone(self)
    }
}

impl PartialEq for Object {
    fn eq(&self, other: &Object) -> (r: bool) {
        obj_eq(self, other)
    }
}

impl Eq for Object {}

impl vstd::std_specs::cmp::PartialEqSpecImpl for Object {
    open spec fn obeys_eq_spec() -> bool {
        true
    }

    open spec fn eq_spec(&self, other: &Object) -> bool {
        self@ == other@
    }
}

} // verus!
