use vstd::prelude::*;
use crate::ast::{
    block_clone, idents_clone, idents_view, lemma_stmts_view, stmts_view, BlockV, Expression,
    ExprV, IdentV, Statement, StmtV,
};
use crate::env::{env_lookup, Env, FrameV};
use crate::object::{lemma_objs_view, objs_view, EvalError, Object, ObjV};
use crate::token::{Token, TokenV};

verus! {

/// Model of the evaluator's state: the frame arena and the index of the
/// active frame.
pub struct EvalSt {
    pub frames: Seq<FrameV>,
    pub cur: int,
}

/// `Null` and `Boolean(false)` are false; every other value, including
/// `Integer(0)`, is true.
pub open spec fn is_truthy_v(o: ObjV) -> bool {
    !(o == ObjV::Null || o == ObjV::Boolean(false))
}

pub open spec fn abs_int(x: int) -> int {
    if x < 0 {
        -x
    } else {
        x
    }
}

/// Truncating integer division: the quotient of the magnitudes, negated when
/// the operand signs differ.
pub open spec fn trunc_div(a: int, b: int) -> int {
    if (a < 0) == (b < 0) {
        abs_int(a) / abs_int(b)
    } else {
        -(abs_int(a) / abs_int(b))
    }
}

/// An arithmetic result becomes an `Integer` when it fits; out-of-range
/// results are the fatal overflow condition.
pub open spec fn clamp_int(v: int) -> Result<ObjV, EvalError> {
    if i32::MIN <= v <= i32::MAX {
        Ok(ObjV::Integer(v as i32))
    } else {
        Err(EvalError::IntegerOverflow)
    }
}

/// The result of an infix operator on two integers: `+ - * /` produce an
/// `Integer` (division truncates and division by zero is fatal), the four
/// comparisons produce a `Boolean`, and any other operator yields `Null`.
pub open spec fn int_infix_v(op: TokenV, a: i32, b: i32) -> Result<ObjV, EvalError> {
    match op {
        TokenV::Plus => clamp_int(a + b),
        TokenV::Minus => clamp_int(a - b),
        TokenV::Asterisk => clamp_int(a * b),
        TokenV::Slash => if b == 0 {
            Err(EvalError::DivisionByZero)
        } else {
            clamp_int(trunc_div(a as int, b as int))
        },
        TokenV::Lt => Ok(ObjV::Boolean(a < b)),
        TokenV::Gt => Ok(ObjV::Boolean(a > b)),
        TokenV::Eq => Ok(ObjV::Boolean(a == b)),
        TokenV::NotEq => Ok(ObjV::Boolean(a != b)),
        _ => Ok(ObjV::Null),
    }
}

/// The result of a prefix operator: `!` negates a `Boolean`, `-` negates an
/// `Integer`; any other operand type degrades to `Null`.
pub open spec fn prefix_result(op: TokenV, v: ObjV) -> Result<ObjV, EvalError> {
    match op {
        TokenV::Minus => match v {
            ObjV::Integer(x) => clamp_int(-(x as int)),
            _ => Ok(ObjV::Null),
        },
        TokenV::Bang => match v {
            ObjV::Boolean(b) => Ok(ObjV::Boolean(!b)),
            _ => Ok(ObjV::Null),
        },
        _ => Ok(ObjV::Null),
    }
}

/// The result of an infix operator: integers as in `int_infix_v`, booleans
/// admit only `==` and `!=`, and any type mismatch yields `Null`.
pub open spec fn infix_result(op: TokenV, lv: ObjV, rv: ObjV) -> Result<ObjV, EvalError> {
    match (lv, rv) {
        (ObjV::Integer(a), ObjV::Integer(b)) => int_infix_v(op, a, b),
        (ObjV::Boolean(a), ObjV::Boolean(b)) => match op {
            TokenV::Eq => Ok(ObjV::Boolean(a == b)),
            TokenV::NotEq => Ok(ObjV::Boolean(a != b)),
            _ => Ok(ObjV::Null),
        },
        _ => Ok(ObjV::Null),
    }
}

pub open spec fn unwrap_return_v(v: ObjV) -> ObjV {
    match v {
        ObjV::Return(inner) => *inner,
        _ => v,
    }
}

/// Parameter binding for a call: parameters are paired with argument values
/// by position, stopping at the shorter sequence; a repeated parameter name
/// keeps the rightmost value.
pub open spec fn bind_prefix(ps: Seq<IdentV>, vals: Seq<ObjV>, k: int) -> Map<Seq<char>, ObjV>
    decreases k,
{
    if k <= 0 {
        Map::empty()
    } else {
        bind_prefix(ps, vals, k - 1).insert(ps[k - 1].name, vals[k - 1])
    }
}

pub open spec fn bind_params(ps: Seq<IdentV>, vals: Seq<ObjV>) -> Map<Seq<char>, ObjV> {
    if ps.len() <= vals.len() {
        bind_prefix(ps, vals, ps.len() as int)
    } else {
        bind_prefix(ps, vals, vals.len() as int)
    }
}

/// Binding a name in the active frame only; never an outer frame.
pub open spec fn st_set(st: EvalSt, name: Seq<char>, v: ObjV) -> EvalSt {
    if 0 <= st.cur < st.frames.len() {
        EvalSt {
            frames: st.frames.update(
                st.cur,
                FrameV {
                    map: st.frames[st.cur].map.insert(name, v),
                    outer: st.frames[st.cur].outer,
                },
            ),
            cur: st.cur,
        }
    } else {
        st
    }
}

/// Evaluation of one expression, with `fuel` bounding the nesting depth of
/// function calls.
pub open spec fn spec_eval_expr(st: EvalSt, e: ExprV, fuel: nat) -> (EvalSt, Result<
    ObjV,
    EvalError,
>)
    decreases fuel, e,
{
    match e {
        ExprV::EMPTY => (st, Ok(ObjV::Null)),
        ExprV::Null => (st, Ok(ObjV::Null)),
        ExprV::Integer(x) => (st, Ok(ObjV::Integer(x))),
        ExprV::Boolean(b) => (st, Ok(ObjV::Boolean(b))),
        ExprV::Ident(name) => (st, Ok(env_lookup(st.frames, st.cur, name))),
        ExprV::Prefix(op, inner) => {
            let (st1, r) = spec_eval_expr(st, *inner, fuel);
            match r {
                Ok(v) => (st1, prefix_result(op, v)),
                Err(er) => (st1, Err(er)),
            }
        },
        ExprV::Infix(op, l, r) => {
            let (st1, rl) = spec_eval_expr(st, *l, fuel);
            match rl {
                Err(er) => (st1, Err(er)),
                Ok(lv) => {
                    let (st2, rr) = spec_eval_expr(st1, *r, fuel);
                    match rr {
                        Err(er) => (st2, Err(er)),
                        Ok(rv) => (st2, infix_result(op, lv, rv)),
                    }
                },
            }
        },
        ExprV::If(c, cons, alt) => {
            let (st1, rc) = spec_eval_expr(st, *c, fuel);
            match rc {
                Err(er) => (st1, Err(er)),
                Ok(cv) => if is_truthy_v(cv) {
                    match cons {
                        Some(b) => spec_eval_block(st1, b.statements, fuel),
                        None => (st1, Ok(ObjV::Null)),
                    }
                } else {
                    match alt {
                        Some(b) => spec_eval_block(st1, b.statements, fuel),
                        None => (st1, Ok(ObjV::Null)),
                    }
                },
            }
        },
        ExprV::Function(ps, body) => match body {
            Some(b) => (st, Ok(ObjV::Function(ps, b, st.cur))),
            None => (st, Ok(ObjV::Null)),
        },
        ExprV::Call(f, args) => {
            let (st1, rf) = spec_eval_expr(st, *f, fuel);
            match rf {
                Err(er) => (st1, Err(er)),
                Ok(fv) => match fv {
                    ObjV::Function(ps, body, cenv) => {
                        let (st2, ra) = spec_eval_args(st1, args, fuel);
                        match ra {
                            Err(er) => (st2, Err(er)),
                            Ok(vals) => if !(0 <= cenv < st2.frames.len()) {
                                (st2, Ok(ObjV::Null))
                            } else if fuel == 0 {
                                (st2, Err(EvalError::DepthLimitExceeded))
                            } else {
                                let frame = FrameV {
                                    map: bind_params(ps, vals),
                                    outer: Some(cenv),
                                };
                                let st3 = EvalSt {
                                    frames: st2.frames.push(frame),
                                    cur: st2.frames.len() as int,
                                };
                                let (st4, rb) = spec_eval_block(
                                    st3,
                                    body.statements,
                                    (fuel - 1) as nat,
                                );
                                let st5 = EvalSt { frames: st4.frames, cur: st2.cur };
                                match rb {
                                    Err(er) => (st5, Err(er)),
                                    Ok(v) => (st5, Ok(unwrap_return_v(v))),
                                }
                            },
                        }
                    },
                    _ => (st1, Ok(ObjV::Null)),
                },
            }
        },
    }
}

/// Left-to-right evaluation of the argument expressions of a call.
pub open spec fn spec_eval_args(st: EvalSt, args: Seq<ExprV>, fuel: nat) -> (EvalSt, Result<
    Seq<ObjV>,
    EvalError,
>)
    decreases fuel, args,
{
    if args.len() == 0 {
        (st, Ok(Seq::empty()))
    } else {
        let (st1, r0) = spec_eval_expr(st, args[0], fuel);
        match r0 {
            Err(er) => (st1, Err(er)),
            Ok(v) => {
                let (st2, rr) = spec_eval_args(st1, args.subrange(1, args.len() as int), fuel);
                match rr {
                    Err(er) => (st2, Err(er)),
                    Ok(vs) => (st2, Ok(seq![v] + vs)),
                }
            },
        }
    }
}

/// Evaluation of the statements of a block: sequential, threading the result
/// forward, stopping at the first `Return` marker, which is the block's
/// result unopened.
pub open spec fn spec_eval_block(st: EvalSt, stmts: Seq<StmtV>, fuel: nat) -> (EvalSt, Result<
    ObjV,
    EvalError,
>)
    decreases fuel, stmts,
{
    if stmts.len() == 0 {
        (st, Ok(ObjV::Null))
    } else {
        let (st1, r0) = spec_eval_stmt(st, stmts[0], fuel);
        match r0 {
            Err(er) => (st1, Err(er)),
            Ok(v) => match v {
                ObjV::Return(inner) => (st1, Ok(ObjV::Return(inner))),
                _ => if stmts.len() == 1 {
                    (st1, Ok(v))
                } else {
                    spec_eval_block(st1, stmts.subrange(1, stmts.len() as int), fuel)
                },
            },
        }
    }
}

/// Evaluation of one statement.
pub open spec fn spec_eval_stmt(st: EvalSt, s: StmtV, fuel: nat) -> (EvalSt, Result<
    ObjV,
    EvalError,
>)
    decreases fuel, s,
{
    match s {
        StmtV::LetStatement(id, e) => {
            let (st1, r) = spec_eval_expr(st, e, fuel);
            match r {
                Err(er) => (st1, Err(er)),
                Ok(v) => (st_set(st1, id.name, v), Ok(v)),
            }
        },
        StmtV::ReturnStatement(e) => {
            let (st1, r) = spec_eval_expr(st, e, fuel);
            match r {
                Err(er) => (st1, Err(er)),
                Ok(v) => (st1, Ok(ObjV::Return(Box::new(unwrap_return_v(v))))),
            }
        },
        StmtV::ExpressionStatement(e) => spec_eval_expr(st, e, fuel),
    }
}

/// Evaluation of a top-level statement sequence: like a block, except that a
/// `Return` marker ends the sequence and is unwrapped to its inner value.
pub open spec fn spec_eval_stmts(st: EvalSt, stmts: Seq<StmtV>, fuel: nat) -> (EvalSt, Result<
    ObjV,
    EvalError,
>)
    decreases fuel, stmts,
{
    if stmts.len() == 0 {
        (st, Ok(ObjV::Null))
    } else {
        let (st1, r0) = spec_eval_stmt(st, stmts[0], fuel);
        match r0 {
            Err(er) => (st1, Err(er)),
            Ok(v) => match v {
                ObjV::Return(inner) => (st1, Ok(*inner)),
                _ => if stmts.len() == 1 {
                    (st1, Ok(v))
                } else {
                    spec_eval_stmts(st1, stmts.subrange(1, stmts.len() as int), fuel)
                },
            },
        }
    }
}

pub open spec fn res_view(r: Result<Object, EvalError>) -> Result<ObjV, EvalError> {
    match r {
        Ok(o) => Ok(o@),
        Err(e) => Err(e),
    }
}

pub open spec fn res_args_view(r: Result<Vec<Object>, EvalError>) -> Result<Seq<ObjV>, EvalError> {
    match r {
        Ok(v) => Ok(objs_view(v@)),
        Err(e) => Err(e),
    }
}

/// A tree-walking evaluator session: the frame arena and the active frame,
/// persisted across successive top-level evaluations so that a `let` in one
/// statement sequence is visible to later ones.
pub struct Evaluator {
    env: Env,
    cur: usize,
}

impl View for Evaluator {
    type V = EvalSt;

    closed spec fn view(&self) -> EvalSt {
        EvalSt { frames: self.env@, cur: self.cur as int }
    }
}

impl Evaluator {
    pub closed spec fn inv(&self) -> bool {
        &&& self.env.inv()
        &&& (self.cur as int) < self.env@.len()
    }

    /// A fresh session: one root frame, which is the active frame.
    pub fn new() -> (r: Evaluator)
        ensures
            r.inv(),
            r@.frames.len() == 1,
            r@.frames[0].map == Map::<Seq<char>, ObjV>::empty(),
            r@.frames[0].outer is None,
            r@.cur == 0,
    {
        Evaluator { env: Env::new(), cur: 0 }
    }

    /// Truthiness of a value for a conditional branch decision.
    pub fn is_truthy(obj: &Object) -> (r: bool)
        ensures
            r == is_truthy_v(obj@),
    {
        match obj {
            Object::Null => false,
            Object::Boolean(b) => *b,
            _ => true,
        }
    }

    /// The integer infix rules, with division by zero and out-of-range
    /// results as fatal errors.
    pub fn eval_int_infix(op: &Token, a: i32, b: i32) -> (r: Result<Object, EvalError>)
        ensures
            res_view(r) == int_infix_v(op@, a, b),
    {
        match op {
            Token::Plus => {
                let s: i64 = a as i64 + b as i64;
                if s < i32::MIN as i64 || s > i32::MAX as i64 {
                    Err(EvalError::IntegerOverflow)
                } else {
                    Ok(Object::Integer(s as i32))
                }
            },
            Token::Minus => {
                let s: i64 = a as i64 - b as i64;
                if s < i32::MIN as i64 || s > i32::MAX as i64 {
                    Err(EvalError::IntegerOverflow)
                } else {
                    Ok(Object::Integer(s as i32))
                }
            },
            Token::Asterisk => {
                proof {
                    assert((a as int) * (b as int) <= 0x4000_0000_0000_0000 && (a as int) * (
                    b as int) >= -0x4000_0000_0000_0000) by (nonlinear_arith)
                        requires
                            -0x8000_0000 <= a as int <= 0x7fff_ffff,
                            -0x8000_0000 <= b as int <= 0x7fff_ffff,
                    ;
                }
                let s: i64 = (a as i64) * (b as i64);
                if s < i32::MIN as i64 || s > i32::MAX as i64 {
                    Err(EvalError::IntegerOverflow)
                } else {
                    Ok(Object::Integer(s as i32))
                }
            },
            Token::Slash => {
                if b == 0 {
                    Err(EvalError::DivisionByZero)
                } else {
                    let ia: i64 = a as i64;
                    let ib: i64 = b as i64;
                    let ma: u64 = if ia < 0 {
                        (-ia) as u64
                    } else {
                        ia as u64
                    };
                    let mb: u64 = if ib < 0 {
                        (-ib) as u64
                    } else {
                        ib as u64
                    };
                    let q: u64 = ma / mb;
                    proof {
                        assert(ma / mb <= ma) by (nonlinear_arith)
                            requires
                                mb >= 1,
                        ;
                    }
                    if (a < 0) != (b < 0) {
                        let qi: i64 = -(q as i64);
                        Ok(Object::Integer(qi as i32))
                    } else {
                        if q > i32::MAX as u64 {
                            Err(EvalError::IntegerOverflow)
                        } else {
                            Ok(Object::Integer(q as i32))
                        }
                    }
                }
            },
            Token::Lt => Ok(Object::Boolean(a < b)),
            Token::Gt => Ok(Object::Boolean(a > b)),
            Token::Eq => Ok(Object::Boolean(a == b)),
            Token::NotEq => Ok(Object::Boolean(a != b)),
            _ => Ok(Object::Null),
        }
    }

    #[verifier::rlimit(100)]
    fn eval_expr(&mut self, expr: &Expression, fuel: u64) -> (r: Result<Object, EvalError>)
        requires
            old(self).inv(),
        ensures
            final(self).inv(),
            final(self)@ == spec_eval_expr(old(self)@, expr@, fuel as nat).0,
            res_view(r) == spec_eval_expr(old(self)@, expr@, fuel as nat).1,
        decreases fuel, *expr, 0int,
    {
        match expr {
            Expression::EMPTY => Ok(Object::Null),
            Expression::Null => Ok(Object::Null),
            Expression::Integer(x) => Ok(Object::Integer(*x)),
            Expression::Boolean(b) => Ok(Object::Boolean(*b)),
            Expression::Ident(name) => Ok(self.env.get(self.cur, name)),
            Expression::Prefix(op, inner) => {
                let r1 = match self.eval_expr(inner, fuel) {
                    Err(er) => Err(er),
                    Ok(v) => match op {
                        Token::Minus => match v {
                            Object::Integer(x) => {
                                if x == i32::MIN {
                                    Err(EvalError::IntegerOverflow)
                                } else {
                                    Ok(Object::Integer(-x))
                                }
                            },
                            _ => Ok(Object::Null),
                        },
                        Token::Bang => match v {
                            Object::Boolean(b) => Ok(Object::Boolean(!b)),
                            _ => Ok(Object::Null),
                        },
                        _ => Ok(Object::Null),
                    },
                };
                proof {
                    assert(res_view(r1) == spec_eval_expr(old(self)@, expr@, fuel as nat).1);
                    assert(self@ == spec_eval_expr(old(self)@, expr@, fuel as nat).0);
                }
                r1
            },
            Expression::Infix(op, l, r) => {
                let r1 = match self.eval_expr(l, fuel) {
                    Err(er) => Err(er),
                    Ok(lv) => match self.eval_expr(r, fuel) {
                        Err(er) => Err(er),
                        Ok(rv) => match (lv, rv) {
                            (Object::Integer(a), Object::Integer(b)) => Self::eval_int_infix(
                                op,
                                a,
                                b,
                            ),
                            (Object::Boolean(a), Object::Boolean(b)) => match op {
                                Token::Eq => Ok(Object::Boolean(a == b)),
                                Token::NotEq => Ok(Object::Boolean(a != b)),
                                _ => Ok(Object::Null),
                            },
                            _ => Ok(Object::Null),
                        },
                    },
                };
                proof {
                    assert(res_view(r1) == spec_eval_expr(old(self)@, expr@, fuel as nat).1);
                    assert(self@ == spec_eval_expr(old(self)@, expr@, fuel as nat).0);
                }
                r1
            },
            Expression::If(c, cons, alt) => {
                let r1 = match self.eval_expr(c, fuel) {
                    Err(er) => Err(er),
                    Ok(cv) => {
                        if Self::is_truthy(&cv) {
                            match cons {
                                Some(block) => {
                                    proof {
                                        assert(crate::ast::opt_block_view(*cons) == Some(
                                            crate::ast::block_view(*block),
                                        ));
                                        assert(crate::ast::block_view(*block).statements
                                            == stmts_view(block.statements@));
                                    }
                                    self.eval_block_statements(&block.statements, fuel)
                                },
                                None => Ok(Object::Null),
                            }
                        } else {
                            match alt {
                                Some(block) => {
                                    proof {
                                        assert(crate::ast::opt_block_view(*alt) == Some(
                                            crate::ast::block_view(*block),
                                        ));
                                        assert(crate::ast::block_view(*block).statements
                                            == stmts_view(block.statements@));
                                    }
                                    self.eval_block_statements(&block.statements, fuel)
                                },
                                None => Ok(Object::Null),
                            }
                        }
                    },
                };
                proof {
                    assert(res_view(r1) == spec_eval_expr(old(self)@, expr@, fuel as nat).1);
                    assert(self@ == spec_eval_expr(old(self)@, expr@, fuel as nat).0);
                }
                r1
            },
            Expression::Function(ps, body) => {
                let r1 = match body {
                    Some(block) => {
                        proof {
                            assert(crate::ast::opt_block_view(*body) == Some(
                                crate::ast::block_view(*block),
                            ));
                            assert(expr@ == ExprV::Function(
                                idents_view(ps@),
                                Some(crate::ast::block_view(*block)),
                            ));
                        }
                        Ok(Object::Function(idents_clone(ps), block_clone(block), self.cur))
                    },
                    None => Ok(Object::Null),
                };
                proof {
                    assert(res_view(r1) == spec_eval_expr(old(self)@, expr@, fuel as nat).1);
                    assert(self@ == spec_eval_expr(old(self)@, expr@, fuel as nat).0);
                }
                r1
            },
            Expression::Call(f, args) => {
                let r1 = match self.eval_expr(f, fuel) {
                    Err(er) => Err(er),
                    Ok(fv) => match fv {
                        Object::Function(ps, body, cenv) => {
                            proof {
                                assert(args@.subrange(0, args@.len() as int) =~= args@);
                                crate::ast::lemma_exprs_view(args@);
                                assert(crate::ast::exprs_view(args@).subrange(
                                    0,
                                    args@.len() as int,
                                ) =~= crate::ast::exprs_view(args@));
                            }
                            match self.eval_args_from(args, 0, fuel) {
                                Err(er) => Err(er),
                                Ok(vals) => {
                                    if !(cenv < self.env.frame_count()) {
                                        Ok(Object::Null)
                                    } else if fuel == 0 {
                                        Err(EvalError::DepthLimitExceeded)
                                    } else {
                                        self.call_function(ps, body, cenv, vals, fuel - 1)
                                    }
                                },
                            }
                        },
                        _ => Ok(Object::Null),
                    },
                };
                proof {
                    assert(res_view(r1) == spec_eval_expr(old(self)@, expr@, fuel as nat).1);
                    assert(self@ == spec_eval_expr(old(self)@, expr@, fuel as nat).0);
                }
                r1
            },
        }
    }

    /// Invokes a function value with the remaining depth budget `fuel`: binds
    /// the parameters in a fresh frame whose outer link is the captured
    /// environment, evaluates the body there, then restores the caller's
    /// active frame on every exit path, and unwraps a `Return` marker
    /// escaping the body.
    #[verifier::rlimit(60)]
    fn call_function(
        &mut self,
        ps: Vec<crate::ast::Identifier>,
        body: crate::ast::BlockStatement,
        cenv: usize,
        vals: Vec<Object>,
        fuel: u64,
    ) -> (r: Result<Object, EvalError>)
        requires
            old(self).inv(),
            cenv < old(self)@.frames.len(),
        ensures
            final(self).inv(),
            ({
                let frame = FrameV {
                    map: bind_params(idents_view(ps@), objs_view(vals@)),
                    outer: Some(cenv as int),
                };
                let st3 = EvalSt {
                    frames: old(self)@.frames.push(frame),
                    cur: old(self)@.frames.len() as int,
                };
                let (st4, rb) = spec_eval_block(st3, body@.statements, fuel as nat);
                let st5 = EvalSt { frames: st4.frames, cur: old(self)@.cur };
                final(self)@ == st5 && res_view(r) == (match rb {
                    Err(er) => Err(er),
                    Ok(v) => Ok(unwrap_return_v(v)),
                })
            }),
        decreases fuel, body, 2int,
    {
        let ghost psv = idents_view(ps@);
        let ghost valsv = objs_view(vals@);
        proof {
            lemma_objs_view(vals@);
        }
        let saved = self.cur;
        let newf = self.env.new_closure(cenv);
        let m: usize = if ps.len() < vals.len() {
            ps.len()
        } else {
            vals.len()
        };
        let ghost frames1 = self@.frames;
        let mut i: usize = 0;
        while i < m
            invariant
                self.env.inv(),
                self.cur == saved,
                newf == frames1.len() - 1,
                m <= ps@.len(),
                m <= vals@.len(),
                m == if ps@.len() < vals@.len() {
                    ps@.len() as int
                } else {
                    vals@.len() as int
                },
                i <= m,
                psv == idents_view(ps@),
                valsv == objs_view(vals@),
                valsv.len() == vals@.len(),
                forall|j: int| 0 <= j < vals@.len() ==> valsv[j] == vals@[j]@,
                self.env@ == frames1.update(
                    newf as int,
                    FrameV { map: bind_prefix(psv, valsv, i as int), outer: Some(cenv as int) },
                ),
            decreases m - i,
        {
            self.env.set(newf, &ps[i].value, vals[i].clone());
            proof {
                assert(psv[i as int] == crate::ast::ident_view(ps@[i as int]));
                assert(self.env@ =~= frames1.update(
                    newf as int,
                    FrameV {
                        map: bind_prefix(psv, valsv, i as int + 1),
                        outer: Some(cenv as int),
                    },
                ));
            }
            i += 1;
        }
        let ghost st3 = EvalSt {
            frames: old(self)@.frames.push(
                FrameV { map: bind_params(psv, valsv), outer: Some(cenv as int) },
            ),
            cur: old(self)@.frames.len() as int,
        };
        proof {
            assert(frames1.update(
                newf as int,
                FrameV { map: bind_prefix(psv, valsv, m as int), outer: Some(cenv as int) },
            ) =~= old(self)@.frames.push(
                FrameV { map: bind_params(psv, valsv), outer: Some(cenv as int) },
            ));
        }
        self.cur = newf;
        proof {
            assert(self@ == st3);
        }
        let rb = self.eval_block_statements(&body.statements, fuel);
        proof {
            lemma_eval_block_grows(st3, stmts_view(body.statements@), fuel as nat);
        }
        self.cur = saved;
        match rb {
            Err(er) => Err(er),
            Ok(v) => match v {
                Object::Return(inner) => Ok(*inner),
                _ => Ok(v),
            },
        }
    }

    #[verifier::rlimit(60)]
    fn eval_args_from(&mut self, args: &Vec<Expression>, i: usize, fuel: u64) -> (r: Result<
        Vec<Object>,
        EvalError,
    >)
        requires
            old(self).inv(),
            i <= args@.len(),
        ensures
            final(self).inv(),
            final(self)@ == spec_eval_args(
                old(self)@,
                crate::ast::exprs_view(args@).subrange(i as int, args@.len() as int),
                fuel as nat,
            ).0,
            res_args_view(r) == spec_eval_args(
                old(self)@,
                crate::ast::exprs_view(args@).subrange(i as int, args@.len() as int),
                fuel as nat,
            ).1,
        decreases fuel, args@.subrange(i as int, args@.len() as int), 0int,
    {
        proof {
            crate::ast::lemma_exprs_view(args@);
        }
        let ghost tail = crate::ast::exprs_view(args@).subrange(i as int, args@.len() as int);
        if i == args.len() {
            proof {
                assert(tail =~= Seq::<ExprV>::empty());
            }
            Ok(Vec::new())
        } else {
            proof {
                assert(args@.subrange(i as int, args@.len() as int)[0] == args@[i as int]);
                assert(tail[0] == crate::ast::expr_view(args@[i as int]));
            }
            match self.eval_expr(&args[i], fuel) {
                Err(er) => {
                    proof {
                        assert(tail != Seq::<ExprV>::empty());
                    }
                    Err(er)
                },
                Ok(v) => {
                    proof {
                        assert(args@.subrange(i as int, args@.len() as int).subrange(
                            1,
                            args@.subrange(i as int, args@.len() as int).len() as int,
                        ) =~= args@.subrange(i as int + 1, args@.len() as int));
                        assert(tail.subrange(1, tail.len() as int) =~= crate::ast::exprs_view(
                            args@,
                        ).subrange(i as int + 1, args@.len() as int));
                    }
                    match self.eval_args_from(args, i + 1, fuel) {
                        Err(er) => Err(er),
                        Ok(mut rest) => {
                            let ghost restv = objs_view(rest@);
                            proof {
                                lemma_objs_view(rest@);
                            }
                            rest.insert(0, v);
                            proof {
                                lemma_objs_view(rest@);
                                assert(objs_view(rest@) =~= seq![v@] + restv);
                            }
                            Ok(rest)
                        },
                    }
                },
            }
        }
    }

    /// Evaluates the statements of a block in sequence; a statement producing
    /// a `Return` marker stops the block at once and the marker is the
    /// block's result, so later statements are never evaluated.
    pub fn eval_block_statements(&mut self, block: &Vec<Statement>, fuel: u64) -> (r: Result<
        Object,
        EvalError,
    >)
        requires
            old(self).inv(),
        ensures
            final(self).inv(),
            final(self)@ == spec_eval_block(old(self)@, stmts_view(block@), fuel as nat).0,
            res_view(r) == spec_eval_block(old(self)@, stmts_view(block@), fuel as nat).1,
        decreases fuel, block@, 1int,
    {
        proof {
            lemma_stmts_view(block@);
            assert(stmts_view(block@).subrange(0, block@.len() as int) =~= stmts_view(block@));
            assert(block@.subrange(0, block@.len() as int) =~= block@);
        }
        self.eval_block_from(block, 0, fuel)
    }

    #[verifier::rlimit(60)]
    fn eval_block_from(&mut self, block: &Vec<Statement>, i: usize, fuel: u64) -> (r: Result<
        Object,
        EvalError,
    >)
        requires
            old(self).inv(),
            i <= block@.len(),
        ensures
            final(self).inv(),
            final(self)@ == spec_eval_block(
                old(self)@,
                stmts_view(block@).subrange(i as int, block@.len() as int),
                fuel as nat,
            ).0,
            res_view(r) == spec_eval_block(
                old(self)@,
                stmts_view(block@).subrange(i as int, block@.len() as int),
                fuel as nat,
            ).1,
        decreases fuel, block@.subrange(i as int, block@.len() as int), 0int,
    {
        proof {
            lemma_stmts_view(block@);
        }
        let ghost tail = stmts_view(block@).subrange(i as int, block@.len() as int);
        if i == block.len() {
            proof {
                assert(tail =~= Seq::<StmtV>::empty());
            }
            Ok(Object::Null)
        } else {
            proof {
                assert(block@.subrange(i as int, block@.len() as int)[0] == block@[i as int]);
                assert(tail[0] == crate::ast::stmt_view(block@[i as int]));
            }
            match self.eval_statement(&block[i], fuel) {
                Err(er) => Err(er),
                Ok(v) => match v {
                    Object::Return(inner) => Ok(Object::Return(inner)),
                    other => {
                        if i + 1 == block.len() {
                            proof {
                                assert(tail.len() == 1);
                            }
                            Ok(other)
                        } else {
                            proof {
                                assert(block@.subrange(i as int, block@.len() as int).subrange(
                                    1,
                                    block@.subrange(i as int, block@.len() as int).len() as int,
                                ) =~= block@.subrange(i as int + 1, block@.len() as int));
                                assert(tail.subrange(1, tail.len() as int) =~= stmts_view(
                                    block@,
                                ).subrange(i as int + 1, block@.len() as int));
                            }
                            self.eval_block_from(block, i + 1, fuel)
                        }
                    },
                },
            }
        }
    }

    /// Evaluates one statement: `let` binds in the active frame and yields
    /// the bound value, `return` wraps its value in the control marker, and
    /// an expression statement yields its expression's value.
    pub fn eval_statement(&mut self, stmt: &Statement, fuel: u64) -> (r: Result<Object, EvalError>)
        requires
            old(self).inv(),
        ensures
            final(self).inv(),
            final(self)@ == spec_eval_stmt(old(self)@, stmt@, fuel as nat).0,
            res_view(r) == spec_eval_stmt(old(self)@, stmt@, fuel as nat).1,
        decreases fuel, *stmt, 0int,
    {
        match stmt {
            Statement::LetStatement(id, e) => {
                match self.eval_expr(e, fuel) {
                    Err(er) => Err(er),
                    Ok(v) => {
                        self.env.set(self.cur, &id.value, v.clone());
                        Ok(v)
                    },
                }
            },
            Statement::ReturnStatement(e) => {
                match self.eval_expr(e, fuel) {
                    Err(er) => Err(er),
                    // A marker already produced inside the expression (a
                    // `return` in a nested block) is not wrapped a second
                    // time: markers never nest.
                    Ok(v) => match v {
                        Object::Return(inner) => Ok(Object::Return(inner)),
                        other => Ok(Object::Return(Box::new(other))),
                    },
                }
            },
            Statement::ExpressionStatement(e) => self.eval_expr(e, fuel),
        }
    }

    /// Evaluates a top-level statement sequence; a `Return` marker ends the
    /// sequence early and is unwrapped to its inner value.
    pub fn eval_statements(&mut self, statements: &Vec<Statement>, fuel: u64) -> (r: Result<
        Object,
        EvalError,
    >)
        requires
            old(self).inv(),
        ensures
            final(self).inv(),
            final(self)@ == spec_eval_stmts(old(self)@, stmts_view(statements@), fuel as nat).0,
            res_view(r) == spec_eval_stmts(old(self)@, stmts_view(statements@), fuel as nat).1,
        decreases fuel, statements@, 1int,
    {
        proof {
            lemma_stmts_view(statements@);
            assert(stmts_view(statements@).subrange(0, statements@.len() as int) =~= stmts_view(
                statements@,
            ));
            assert(statements@.subrange(0, statements@.len() as int) =~= statements@);
        }
        self.eval_stmts_from(statements, 0, fuel)
    }

    #[verifier::rlimit(60)]
    fn eval_stmts_from(&mut self, statements: &Vec<Statement>, i: usize, fuel: u64) -> (r: Result<
        Object,
        EvalError,
    >)
        requires
            old(self).inv(),
            i <= statements@.len(),
        ensures
            final(self).inv(),
            final(self)@ == spec_eval_stmts(
                old(self)@,
                stmts_view(statements@).subrange(i as int, statements@.len() as int),
                fuel as nat,
            ).0,
            res_view(r) == spec_eval_stmts(
                old(self)@,
                stmts_view(statements@).subrange(i as int, statements@.len() as int),
                fuel as nat,
            ).1,
        decreases fuel, statements@.subrange(i as int, statements@.len() as int), 0int,
    {
        proof {
            lemma_stmts_view(statements@);
        }
        let ghost tail = stmts_view(statements@).subrange(i as int, statements@.len() as int);
        if i == statements.len() {
            proof {
                assert(tail =~= Seq::<StmtV>::empty());
            }
            Ok(Object::Null)
        } else {
            proof {
                assert(statements@.subrange(i as int, statements@.len() as int)[0] == statements@[
                    i as int
                ]);
                assert(tail[0] == crate::ast::stmt_view(statements@[i as int]));
            }
            match self.eval_statement(&statements[i], fuel) {
                Err(er) => Err(er),
                Ok(v) => match v {
                    Object::Return(inner) => Ok(*inner),
                    other => {
                        if i + 1 == statements.len() {
                            proof {
                                assert(tail.len() == 1);
                            }
                            Ok(other)
                        } else {
                            proof {
                                assert(statements@.subrange(
                                    i as int,
                                    statements@.len() as int,
                                ).subrange(
                                    1,
                                    statements@.subrange(
                                        i as int,
                                        statements@.len() as int,
                                    ).len() as int,
                                ) =~= statements@.subrange(i as int + 1, statements@.len() as int));
                                assert(tail.subrange(1, tail.len() as int) =~= stmts_view(
                                    statements@,
                                ).subrange(i as int + 1, statements@.len() as int));
                            }
                            self.eval_stmts_from(statements, i + 1, fuel)
                        }
                    },
                },
            }
        }
    }
}

// ---------------------------------------------------------------------------
// Evaluation never discards a frame, and it leaves the active frame where it
// found it: the arena only grows, and every call restores the caller's frame
// on every exit path.
// ---------------------------------------------------------------------------

pub proof fn lemma_eval_expr_grows(st: EvalSt, e: ExprV, fuel: nat)
    ensures
        spec_eval_expr(st, e, fuel).0.frames.len() >= st.frames.len(),
        spec_eval_expr(st, e, fuel).0.cur == st.cur,
    decreases fuel, e,
{
    match e {
        ExprV::Prefix(op, inner) => {
            lemma_eval_expr_grows(st, *inner, fuel);
        },
        ExprV::Infix(op, l, r) => {
            lemma_eval_expr_grows(st, *l, fuel);
            let (st1, rl) = spec_eval_expr(st, *l, fuel);
            if rl is Ok {
                lemma_eval_expr_grows(st1, *r, fuel);
            }
        },
        ExprV::If(c, cons, alt) => {
            lemma_eval_expr_grows(st, *c, fuel);
            let (st1, rc) = spec_eval_expr(st, *c, fuel);
            if rc is Ok {
                match cons {
                    Some(b) => lemma_eval_block_grows(st1, b.statements, fuel),
                    None => (),
                }
                match alt {
                    Some(b) => lemma_eval_block_grows(st1, b.statements, fuel),
                    None => (),
                }
            }
        },
        ExprV::Call(f, args) => {
            lemma_eval_expr_grows(st, *f, fuel);
            let (st1, rf) = spec_eval_expr(st, *f, fuel);
            match rf {
                Ok(fv) => match fv {
                    ObjV::Function(ps, body, cenv) => {
                        lemma_eval_args_grows(st1, args, fuel);
                        let (st2, ra) = spec_eval_args(st1, args, fuel);
                        if ra is Ok && 0 <= cenv < st2.frames.len() && fuel > 0 {
                            let frame = FrameV {
                                map: bind_params(ps, spec_eval_args(st1, args, fuel).1->Ok_0),
                                outer: Some(cenv),
                            };
                            let st3 = EvalSt {
                                frames: st2.frames.push(frame),
                                cur: st2.frames.len() as int,
                            };
                            lemma_eval_block_grows(st3, body.statements, (fuel - 1) as nat);
                        }
                    },
                    _ => (),
                },
                Err(_) => (),
            }
        },
        _ => (),
    }
}

pub proof fn lemma_eval_args_grows(st: EvalSt, args: Seq<ExprV>, fuel: nat)
    ensures
        spec_eval_args(st, args, fuel).0.frames.len() >= st.frames.len(),
        spec_eval_args(st, args, fuel).0.cur == st.cur,
    decreases fuel, args,
{
    if args.len() > 0 {
        lemma_eval_expr_grows(st, args[0], fuel);
        let (st1, r0) = spec_eval_expr(st, args[0], fuel);
        if r0 is Ok {
            lemma_eval_args_grows(st1, args.subrange(1, args.len() as int), fuel);
        }
    }
}

pub proof fn lemma_eval_block_grows(st: EvalSt, stmts: Seq<StmtV>, fuel: nat)
    ensures
        spec_eval_block(st, stmts, fuel).0.frames.len() >= st.frames.len(),
        spec_eval_block(st, stmts, fuel).0.cur == st.cur,
    decreases fuel, stmts,
{
    if stmts.len() > 0 {
        lemma_eval_stmt_grows(st, stmts[0], fuel);
        let (st1, r0) = spec_eval_stmt(st, stmts[0], fuel);
        match r0 {
            Ok(v) => {
                if !(v is Return) && stmts.len() > 1 {
                    lemma_eval_block_grows(st1, stmts.subrange(1, stmts.len() as int), fuel);
                }
            },
            Err(_) => (),
        }
    }
}

pub proof fn lemma_eval_stmt_grows(st: EvalSt, s: StmtV, fuel: nat)
    ensures
        spec_eval_stmt(st, s, fuel).0.frames.len() >= st.frames.len(),
        spec_eval_stmt(st, s, fuel).0.cur == st.cur,
    decreases fuel, s,
{
    match s {
        StmtV::LetStatement(id, e) => {
            lemma_eval_expr_grows(st, e, fuel);
        },
        StmtV::ReturnStatement(e) => {
            lemma_eval_expr_grows(st, e, fuel);
        },
        StmtV::ExpressionStatement(e) => {
            lemma_eval_expr_grows(st, e, fuel);
        },
    }
}

// ---------------------------------------------------------------------------
// Laws of the evaluation rules.
// ---------------------------------------------------------------------------

/// A `Return` marker short-circuits a block: when the first statement yields
/// the marker, it is the whole block's result and the remaining statements
/// are never evaluated.
pub proof fn lemma_block_return_short_circuit(st: EvalSt, stmts: Seq<StmtV>, fuel: nat)
    requires
        stmts.len() >= 1,
        spec_eval_stmt(st, stmts[0], fuel).1 is Ok,
        spec_eval_stmt(st, stmts[0], fuel).1->Ok_0 is Return,
    ensures
        spec_eval_block(st, stmts, fuel) == spec_eval_stmt(st, stmts[0], fuel),
{
}

/// At the top-level statement sequence a `Return` marker also ends evaluation
/// at once, unwrapped to its inner value.
pub proof fn lemma_stmts_return_short_circuit(st: EvalSt, stmts: Seq<StmtV>, fuel: nat, v: ObjV)
    requires
        stmts.len() >= 1,
        spec_eval_stmt(st, stmts[0], fuel).1 == Ok::<ObjV, EvalError>(ObjV::Return(Box::new(v))),
    ensures
        spec_eval_stmts(st, stmts, fuel) == (spec_eval_stmt(st, stmts[0], fuel).0, Ok::<
            ObjV,
            EvalError,
        >(v)),
{
}

/// A function literal captures the frame that is active at the moment it is
/// evaluated — by index, never by copy — and changes nothing else.
pub proof fn lemma_closure_captures_defining_frame(
    st: EvalSt,
    ps: Seq<IdentV>,
    b: BlockV,
    fuel: nat,
)
    ensures
        spec_eval_expr(st, ExprV::Function(ps, Some(b)), fuel) == (
            st,
            Ok::<ObjV, EvalError>(ObjV::Function(ps, b, st.cur)),
        ),
{
}

/// Invoking a function value runs its body in a fresh frame whose outer link
/// is the function's captured frame — not the caller's active frame — and the
/// caller's active frame is restored on every exit path, fatal ones included.
pub proof fn lemma_call_runs_in_captured_frame(
    st: EvalSt,
    f: ExprV,
    args: Seq<ExprV>,
    fuel: nat,
)
    requires
        fuel >= 1,
        spec_eval_expr(st, f, fuel).1 is Ok,
        spec_eval_expr(st, f, fuel).1->Ok_0 is Function,
        spec_eval_args(spec_eval_expr(st, f, fuel).0, args, fuel).1 is Ok,
        0 <= spec_eval_expr(st, f, fuel).1->Ok_0->Function_2 < spec_eval_args(
            spec_eval_expr(st, f, fuel).0,
            args,
            fuel,
        ).0.frames.len(),
    ensures
        ({
            let (st1, rf) = spec_eval_expr(st, f, fuel);
            let cenv = rf->Ok_0->Function_2;
            let body = rf->Ok_0->Function_1;
            let ps = rf->Ok_0->Function_0;
            let (st2, ra) = spec_eval_args(st1, args, fuel);
            let frame = FrameV { map: bind_params(ps, ra->Ok_0), outer: Some(cenv) };
            let st3 = EvalSt { frames: st2.frames.push(frame), cur: st2.frames.len() as int };
            let (st4, rb) = spec_eval_block(st3, body.statements, (fuel - 1) as nat);
            spec_eval_expr(st, ExprV::Call(Box::new(f), args), fuel).0 == EvalSt {
                frames: st4.frames,
                cur: st2.cur,
            }
        }),
{
}

/// On two booleans only `==` and `!=` are defined; every other operator
/// degrades to `Null`.
pub proof fn lemma_boolean_infix_only_equality(op: TokenV, a: bool, b: bool)
    ensures
        infix_result(op, ObjV::Boolean(a), ObjV::Boolean(b)) == (match op {
            TokenV::Eq => Ok::<ObjV, EvalError>(ObjV::Boolean(a == b)),
            TokenV::NotEq => Ok::<ObjV, EvalError>(ObjV::Boolean(a != b)),
            _ => Ok::<ObjV, EvalError>(ObjV::Null),
        }),
{
}

pub proof fn lemma_eval_stmts_grows(st: EvalSt, stmts: Seq<StmtV>, fuel: nat)
    ensures
        spec_eval_stmts(st, stmts, fuel).0.frames.len() >= st.frames.len(),
        spec_eval_stmts(st, stmts, fuel).0.cur == st.cur,
    decreases fuel, stmts,
{
    if stmts.len() > 0 {
        lemma_eval_stmt_grows(st, stmts[0], fuel);
        let (st1, r0) = spec_eval_stmt(st, stmts[0], fuel);
        match r0 {
            Ok(v) => {
                if !(v is Return) && stmts.len() > 1 {
                    lemma_eval_stmts_grows(st1, stmts.subrange(1, stmts.len() as int), fuel);
                }
            },
            Err(_) => (),
        }
    }
}

} // verus!
