use vstd::prelude::*;
use crate::token::{Token, TokenV};

verus! {

/// A raw name together with the identifier token it was read from.
#[derive(Debug)]
pub struct Identifier {
    pub token: Token,
    pub value: String,
}

/// Expression nodes: pure value trees, immutable once constructed.
#[derive(Debug)]
pub enum Expression {
    EMPTY,
    Ident(String),
    Integer(i32),
    /// Operator token and operand.
    Prefix(Token, Box<Expression>),
    /// Operator token, left operand, right operand.
    Infix(Token, Box<Expression>, Box<Expression>),
    Boolean(bool),
    Null,
    /// Condition, consequence block, optional alternative block.
    If(Box<Expression>, Option<BlockStatement>, Option<BlockStatement>),
    /// Parameters and optional body block.
    Function(Vec<Identifier>, Option<BlockStatement>),
    /// Callee expression and ordered argument expressions.
    Call(Box<Expression>, Vec<Expression>),
}

#[derive(Debug)]
pub enum Statement {
    LetStatement(Identifier, Expression),
    ReturnStatement(Expression),
    ExpressionStatement(Expression),
}

#[derive(Debug)]
pub struct BlockStatement {
    pub statements: Vec<Statement>,
}

/// The parse root.
#[derive(Debug)]
pub struct Program {
    pub statements: Vec<Statement>,
}

/// Binding power of an operator token, used only as a comparison during
/// precedence climbing.
#[derive(Debug, Clone, Copy, PartialEq, Eq, Structural)]
pub enum Sticky {
    LOWEST,
    EQUALS,
    LESSGREATER,
    SUM,
    PRODUCT,
    PREFIX,
    CALL,
}

/// Numeric rank of a binding power; the ranking is strictly ordered
/// `LOWEST < EQUALS < LESSGREATER < SUM < PRODUCT < PREFIX < CALL`.
pub open spec fn sticky_rank(s: Sticky) -> int {
    match s {
        Sticky::LOWEST => 0,
        Sticky::EQUALS => 1,
        Sticky::LESSGREATER => 2,
        Sticky::SUM => 3,
        Sticky::PRODUCT => 4,
        Sticky::PREFIX => 5,
        Sticky::CALL => 6,
    }
}

/// Compares two binding powers; `r` holds exactly when `a` binds strictly
/// weaker than `b`.
pub fn sticky_lt(a: Sticky, b: Sticky) -> (r: bool)
    ensures
        r == (sticky_rank(a) < sticky_rank(b)),
{
    let ra: u8 = match a {
        Sticky::LOWEST => 0,
        Sticky::EQUALS => 1,
        Sticky::LESSGREATER => 2,
        Sticky::SUM => 3,
        Sticky::PRODUCT => 4,
        Sticky::PREFIX => 5,
        Sticky::CALL => 6,
    };
    let rb: u8 = match b {
        Sticky::LOWEST => 0,
        Sticky::EQUALS => 1,
        Sticky::LESSGREATER => 2,
        Sticky::SUM => 3,
        Sticky::PRODUCT => 4,
        Sticky::PREFIX => 5,
        Sticky::CALL => 6,
    };
    ra < rb
}

// ---------------------------------------------------------------------------
// Mathematical models of the tree types.
// ---------------------------------------------------------------------------

pub struct IdentV {
    pub token: TokenV,
    pub name: Seq<char>,
}

pub enum ExprV {
    EMPTY,
    Ident(Seq<char>),
    Integer(i32),
    Prefix(TokenV, Box<ExprV>),
    Infix(TokenV, Box<ExprV>, Box<ExprV>),
    Boolean(bool),
    Null,
    If(Box<ExprV>, Option<BlockV>, Option<BlockV>),
    Function(Seq<IdentV>, Option<BlockV>),
    Call(Box<ExprV>, Seq<ExprV>),
}

pub enum StmtV {
    LetStatement(IdentV, ExprV),
    ReturnStatement(ExprV),
    ExpressionStatement(ExprV),
}

pub struct BlockV {
    pub statements: Seq<StmtV>,
}

pub struct ProgramV {
    pub statements: Seq<StmtV>,
}

pub open spec fn ident_view(i: Identifier) -> IdentV {
    IdentV { token: i.token@, name: i.value@ }
}

pub open spec fn idents_view(is: Seq<Identifier>) -> Seq<IdentV> {
    is.map_values(|i: Identifier| ident_view(i))
}

pub open spec fn expr_view(e: Expression) -> ExprV
    decreases e,
{
    match e {
        Expression::EMPTY => ExprV::EMPTY,
        Expression::Ident(s) => ExprV::Ident(s@),
        Expression::Integer(x) => ExprV::Integer(x),
        Expression::Prefix(op, inner) => ExprV::Prefix(op@, Box::new(expr_view(*inner))),
        Expression::Infix(op, l, r) => ExprV::Infix(
            op@,
            Box::new(expr_view(*l)),
            Box::new(expr_view(*r)),
        ),
        Expression::Boolean(b) => ExprV::Boolean(b),
        Expression::Null => ExprV::Null,
        Expression::If(c, cons, alt) => ExprV::If(
            Box::new(expr_view(*c)),
            opt_block_view(cons),
            opt_block_view(alt),
        ),
        Expression::Function(ps, body) => ExprV::Function(idents_view(ps@), opt_block_view(body)),
        Expression::Call(f, args) => ExprV::Call(Box::new(expr_view(*f)), exprs_view(args@)),
    }
}

pub open spec fn opt_block_view(o: Option<BlockStatement>) -> Option<BlockV>
    decreases o,
{
    match o {
        Some(b) => Some(block_view(b)),
        None => None,
    }
}

pub open spec fn exprs_view(es: Seq<Expression>) -> Seq<ExprV>
    decreases es,
{
    if es.len() == 0 {
        Seq::empty()
    } else {
        seq![expr_view(es[0])] + exprs_view(es.subrange(1, es.len() as int))
    }
}

pub open spec fn stmt_view(s: Statement) -> StmtV
    decreases s,
{
    match s {
        Statement::LetStatement(i, e) => StmtV::LetStatement(ident_view(i), expr_view(e)),
        Statement::ReturnStatement(e) => StmtV::ReturnStatement(expr_view(e)),
        Statement::ExpressionStatement(e) => StmtV::ExpressionStatement(expr_view(e)),
    }
}

pub open spec fn stmts_view(ss: Seq<Statement>) -> Seq<StmtV>
    decreases ss,
{
    if ss.len() == 0 {
        Seq::empty()
    } else {
        seq![stmt_view(ss[0])] + stmts_view(ss.subrange(1, ss.len() as int))
    }
}

pub open spec fn block_view(b: BlockStatement) -> BlockV
    decreases b,
{
    BlockV { statements: stmts_view(b.statements@) }
}

impl View for Identifier {
    type V = IdentV;

    open spec fn view(&self) -> IdentV {
        ident_view(*self)
    }
}

impl View for Expression {
    type V = ExprV;

    open spec fn view(&self) -> ExprV {
        expr_view(*self)
    }
}

impl View for Statement {
    type V = StmtV;

    open spec fn view(&self) -> StmtV {
        stmt_view(*self)
    }
}

impl View for BlockStatement {
    type V = BlockV;

    open spec fn view(&self) -> BlockV {
        block_view(*self)
    }
}

impl View for Program {
    type V = ProgramV;

    open spec fn view(&self) -> ProgramV {
        ProgramV { statements: stmts_view(self.statements@) }
    }
}

/// Element-by-element description of `exprs_view`.
pub proof fn lemma_exprs_view(es: Seq<Expression>)
    ensures
        exprs_view(es).len() == es.len(),
        forall|i: int| 0 <= i < es.len() ==> exprs_view(es)[i] == expr_view(es[i]),
    decreases es,
{
    if es.len() > 0 {
        lemma_exprs_view(es.subrange(1, es.len() as int));
    }
}

/// Element-by-element description of `stmts_view`.
pub proof fn lemma_stmts_view(ss: Seq<Statement>)
    ensures
        stmts_view(ss).len() == ss.len(),
        forall|i: int| 0 <= i < ss.len() ==> stmts_view(ss)[i] == stmt_view(ss[i]),
    decreases ss,
{
    if ss.len() > 0 {
        lemma_stmts_view(ss.subrange(1, ss.len() as int));
    }
}

// ---------------------------------------------------------------------------
// Structural equality, stated over the models.
// ---------------------------------------------------------------------------

pub fn ident_eq(a: &Identifier, b: &Identifier) -> (r: bool)
    ensures
        r == (a@ == b@),
{
    a.token == b.token && a.value == b.value
}

pub(crate) fn idents_eq(a: &Vec<Identifier>, b: &Vec<Identifier>) -> (r: bool)
    ensures
        r == (idents_view(a@) == idents_view(b@)),
{
    if a.len() != b.len() {
        return false;
    }
    let mut i: usize = 0;
    while i < a.len()
        invariant
            a@.len() == b@.len(),
            i <= a@.len(),
            forall|j: int| 0 <= j < i ==> ident_view(a@[j]) == ident_view(b@[j]),
        decreases a@.len() - i,
    {
        if !ident_eq(&a[i], &b[i]) {
            assert(idents_view(a@)[i as int] != idents_view(b@)[i as int]);
            return false;
        }
        i += 1;
    }
    assert(idents_view(a@) =~= idents_view(b@));
    true
}

pub fn expr_eq(a: &Expression, b: &Expression) -> (r: bool)
    ensures
        r == (a@ == b@),
    decreases *a,
{
    match (a, b) {
        (Expression::EMPTY, Expression::EMPTY) => true,
        (Expression::Ident(x), Expression::Ident(y)) => *x == *y,
        (Expression::Integer(x), Expression::Integer(y)) => *x == *y,
        (Expression::Prefix(o1, e1), Expression::Prefix(o2, e2)) => *o1 == *o2 && expr_eq(
            e1,
            e2,
        ),
        (Expression::Infix(o1, l1, r1), Expression::Infix(o2, l2, r2)) => *o1 == *o2 && expr_eq(
            l1,
            l2,
        ) && expr_eq(r1, r2),
        (Expression::Boolean(x), Expression::Boolean(y)) => *x == *y,
        (Expression::Null, Expression::Null) => true,
        (Expression::If(c1, t1, a1), Expression::If(c2, t2, a2)) => expr_eq(c1, c2)
            && opt_block_eq(t1, t2) && opt_block_eq(a1, a2),
        (Expression::Function(p1, b1), Expression::Function(p2, b2)) => idents_eq(p1, p2)
            && opt_block_eq(b1, b2),
        (Expression::Call(f1, a1), Expression::Call(f2, a2)) => expr_eq(f1, f2) && exprs_eq(
            a1,
            a2,
        ),
        _ => false,
    }
}

fn exprs_eq(a: &Vec<Expression>, b: &Vec<Expression>) -> (r: bool)
    ensures
        r == (exprs_view(a@) == exprs_view(b@)),
    decreases a@,
{
    proof {
        lemma_exprs_view(a@);
        lemma_exprs_view(b@);
    }
    if a.len() != b.len() {
        return false;
    }
    let mut i: usize = 0;
    while i < a.len()
        invariant
            a@.len() == b@.len(),
            i <= a@.len(),
            exprs_view(a@).len() == a@.len(),
            exprs_view(b@).len() == b@.len(),
            forall|j: int| 0 <= j < a@.len() ==> exprs_view(a@)[j] == expr_view(a@[j]),
            forall|j: int| 0 <= j < b@.len() ==> exprs_view(b@)[j] == expr_view(b@[j]),
            forall|j: int| 0 <= j < i ==> expr_view(a@[j]) == expr_view(b@[j]),
        decreases a@.len() - i,
    {
        if !expr_eq(&a[i], &b[i]) {
            assert(exprs_view(a@)[i as int] != exprs_view(b@)[i as int]);
            return false;
        }
        i += 1;
    }
    assert(exprs_view(a@) =~= exprs_view(b@));
    true
}

fn opt_block_eq(a: &Option<BlockStatement>, b: &Option<BlockStatement>) -> (r: bool)
    ensures
        r == (opt_block_view(*a) == opt_block_view(*b)),
    decreases *a,
{
    match (a, b) {
        (Some(x), Some(y)) => block_eq(x, y),
        (None, None) => true,
        _ => false,
    }
}

pub fn block_eq(a: &BlockStatement, b: &BlockStatement) -> (r: bool)
    ensures
        r == (a@ == b@),
    decreases *a,
{
    stmts_eq(&a.statements, &b.statements)
}

fn stmts_eq(a: &Vec<Statement>, b: &Vec<Statement>) -> (r: bool)
    ensures
        r == (stmts_view(a@) == stmts_view(b@)),
    decreases a@,
{
    proof {
        lemma_stmts_view(a@);
        lemma_stmts_view(b@);
    }
    if a.len() != b.len() {
        return false;
    }
    let mut i: usize = 0;
    while i < a.len()
        invariant
            a@.len() == b@.len(),
            i <= a@.len(),
            stmts_view(a@).len() == a@.len(),
            stmts_view(b@).len() == b@.len(),
            forall|j: int| 0 <= j < a@.len() ==> stmts_view(a@)[j] == stmt_view(a@[j]),
            forall|j: int| 0 <= j < b@.len() ==> stmts_view(b@)[j] == stmt_view(b@[j]),
            forall|j: int| 0 <= j < i ==> stmt_view(a@[j]) == stmt_view(b@[j]),
        decreases a@.len() - i,
    {
        if !stmt_eq(&a[i], &b[i]) {
            assert(stmts_view(a@)[i as int] != stmts_view(b@)[i as int]);
            return false;
        }
        i += 1;
    }
    assert(stmts_view(a@) =~= stmts_view(b@));
    true
}

pub fn stmt_eq(a: &Statement, b: &Statement) -> (r: bool)
    ensures
        r == (a@ == b@),
    decreases *a,
{
    match (a, b) {
        (Statement::LetStatement(i1, e1), Statement::LetStatement(i2, e2)) => ident_eq(i1, i2)
            && expr_eq(e1, e2),
        (Statement::ReturnStatement(e1), Statement::ReturnStatement(e2)) => expr_eq(e1, e2),
        (Statement::ExpressionStatement(e1), Statement::ExpressionStatement(e2)) => expr_eq(
            e1,
            e2,
        ),
        _ => false,
    }
}

impl PartialEq for Identifier {
    fn eq(&self, other: &Identifier) -> (r: bool) {
        ident_eq(self, other)
    }
}

impl Eq for Identifier {}

impl vstd::std_specs::cmp::PartialEqSpecImpl for Identifier {
    open spec fn obeys_eq_spec() -> bool {
        true
    }

    open spec fn eq_spec(&self, other: &Identifier) -> bool {
        self@ == other@
    }
}

impl PartialEq for Expression {
    fn eq(&self, other: &Expression) -> (r: bool) {
        expr_eq(self, other)
    }
}

impl Eq for Expression {}

impl vstd::std_specs::cmp::PartialEqSpecImpl for Expression {
    open spec fn obeys_eq_spec() -> bool {
        true
    }

    open spec fn eq_spec(&self, other: &Expression) -> bool {
        self@ == other@
    }
}

impl PartialEq for Statement {
    fn eq(&self, other: &Statement) -> (r: bool) {
        stmt_eq(self, other)
    }
}

impl Eq for Statement {}

impl vstd::std_specs::cmp::PartialEqSpecImpl for Statement {
    open spec fn obeys_eq_spec() -> bool {
        true
    }

    open spec fn eq_spec(&self, other: &Statement) -> bool {
        self@ == other@
    }
}

impl PartialEq for BlockStatement {
    fn eq(&self, other: &BlockStatement) -> (r: bool) {
        block_eq(self, other)
    }
}

impl Eq for BlockStatement {}

impl vstd::std_specs::cmp::PartialEqSpecImpl for BlockStatement {
    open spec fn obeys_eq_spec() -> bool {
        true
    }

    open spec fn eq_spec(&self, other: &BlockStatement) -> bool {
        self@ == other@
    }
}

// ---------------------------------------------------------------------------
// Cloning, preserving the model exactly.
// ---------------------------------------------------------------------------

impl Clone for Identifier {
    fn clone(&self) -> (r: Identifier)
        ensures
            r@ == self@,
    {
        Identifier { token: self.token.clone(), value: self.value.clone() }
    }
}

pub fn idents_clone(v: &Vec<Identifier>) -> (r: Vec<Identifier>)
    ensures
        idents_view(r@) == idents_view(v@),
{
    let mut out: Vec<Identifier> = Vec::new();
    let mut i: usize = 0;
    while i < v.len()
        invariant
            i <= v@.len(),
            out@.len() == i,
            forall|j: int| 0 <= j < i ==> ident_view(out@[j]) == ident_view(v@[j]),
        decreases v@.len() - i,
    {
        out.push(v[i].clone());
        i += 1;
    }
    assert(idents_view(out@) =~= idents_view(v@));
    out
}

pub fn expr_clone(e: &Expression) -> (r: Expression)
    ensures
        r@ == e@,
    decreases *e,
{
    match e {
        Expression::EMPTY => Expression::EMPTY,
        Expression::Ident(s) => Expression::Ident(s.clone()),
        Expression::Integer(x) => Expression::Integer(*x),
        Expression::Prefix(op, inner) => Expression::Prefix(
            op.clone(),
            Box::new(expr_clone(inner)),
        ),
        Expression::Infix(op, l, r) => Expression::Infix(
            op.clone(),
            Box::new(expr_clone(l)),
            Box::new(expr_clone(r)),
        ),
        Expression::Boolean(b) => Expression::Boolean(*b),
        Expression::Null => Expression::Null,
        Expression::If(c, cons, alt) => Expression::If(
            Box::new(expr_clone(c)),
            opt_block_clone(cons),
            opt_block_clone(alt),
        ),
        Expression::Function(ps, body) => Expression::Function(
            idents_clone(ps),
            opt_block_clone(body),
        ),
        Expression::Call(f, args) => Expression::Call(Box::new(expr_clone(f)), exprs_clone(args)),
    }
}

fn exprs_clone(v: &Vec<Expression>) -> (r: Vec<Expression>)
    ensures
        exprs_view(r@) == exprs_view(v@),
    decreases v@,
{
    proof {
        lemma_exprs_view(v@);
    }
    let mut out: Vec<Expression> = Vec::new();
    let mut i: usize = 0;
    while i < v.len()
        invariant
            i <= v@.len(),
            out@.len() == i,
            forall|j: int| 0 <= j < i ==> expr_view(out@[j]) == expr_view(v@[j]),
        decreases v@.len() - i,
    {
        out.push(expr_clone(&v[i]));
        i += 1;
    }
    proof {
        lemma_exprs_view(out@);
        lemma_exprs_view(v@);
        assert(exprs_view(out@) =~= exprs_view(v@));
    }
    out
}

fn opt_block_clone(o: &Option<BlockStatement>) -> (r: Option<BlockStatement>)
    ensures
        opt_block_view(r) == opt_block_view(*o),
    decreases *o,
{
    match o {
        Some(b) => Some(block_clone(b)),
        None => None,
    }
}

pub fn block_clone(b: &BlockStatement) -> (r: BlockStatement)
    ensures
        r@ == b@,
    decreases *b,
{
    BlockStatement { statements: stmts_clone(&b.statements) }
}

fn stmts_clone(v: &Vec<Statement>) -> (r: Vec<Statement>)
    ensures
        stmts_view(r@) == stmts_view(v@),
    decreases v@,
{
    proof {
        lemma_stmts_view(v@);
    }
    let mut out: Vec<Statement> = Vec::new();
    let mut i: usize = 0;
    while i < v.len()
        invariant
            i <= v@.len(),
            out@.len() == i,
            forall|j: int| 0 <= j < i ==> stmt_view(out@[j]) == stmt_view(v@[j]),
        decreases v@.len() - i,
    {
        out.push(stmt_clone(&v[i]));
        i += 1;
    }
    proof {
        lemma_stmts_view(out@);
        lemma_stmts_view(v@);
        assert(stmts_view(out@) =~= stmts_view(v@));
    }
    out
}

pub fn stmt_clone(s: &Statement) -> (r: Statement)
    ensures
        r@ == s@,
    decreases *s,
{
    match s {
        Statement::LetStatement(i, e) => Statement::LetStatement(i.clone(), expr_clone(e)),
        Statement::ReturnStatement(e) => Statement::ReturnStatement(expr_clone(e)),
        Statement::ExpressionStatement(e) => Statement::ExpressionStatement(expr_clone(e)),
    }
}

impl Clone for Expression {
    fn clone(&self) -> (r: Expression)
        ensures
            r@ == self@,
    {
        expr_clone(self)
    }
}

impl Clone for Statement {
    fn clone(&self) -> (r: Statement)
        ensures
            r@ == self@,
    {
        stmt_clone(self)
    }
}

impl Clone for BlockStatement {
    fn clone(&self) -> (r: BlockStatement)
        ensures
            r@ == self@,
    {
        block_clone(self)
    }
}

} // verus!
