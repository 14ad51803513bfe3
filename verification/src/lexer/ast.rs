//! The abstract syntax of MYPS programs.
//!
//! MYPS numbers are floating point. Their values stay outside this library: every node
//! that holds a number literal is generic over a [`Literal`] type that the caller supplies.
use vstd::prelude::*;

verus! {

/// The number type of MYPS literals, and the few computations that translation makes on
/// literals. Nothing is assumed of these computations.
pub trait Literal: Copy + Sized + core::fmt::Debug {
    /// The literal of an integer.
    fn from_int(n: i64) -> Self;

    /// The literal `1`.
    fn one() -> Self;

    /// The value of `l op r` (relations and logical operators give 1 or 0).
    fn fold(op: BinaryOp, l: Self, r: Self) -> Self;

    /// The value of `op x`.
    fn fold_unary(op: UnaryOp, x: Self) -> Self;

    /// Whether the literal is not zero (true, as a condition).
    fn is_nonzero(self) -> bool;

    /// The literal as a device index.
    fn to_device(self) -> u64;

    /// The literal as a device hash.
    fn to_hash(self) -> i64;
}

/// Integer node: a literal or a variable.
#[derive(Clone, PartialEq, Debug)]
pub enum Int {
    Lit(i64),
    Var(String),
}

/// Number node: a literal or a variable.
#[derive(PartialEq, Debug)]
pub enum Num<L> {
    Lit(L),
    Var(String),
}

/// Device node.
#[derive(PartialEq, Debug)]
pub enum Dev<L> {
    Lit(Box<RValue<L>>),
    Net(Box<RValue<L>>),
    Var(String),
    DB,
}

/// Batch read mode.
#[derive(Clone, Copy, PartialEq, Eq, Debug, Structural)]
pub enum Mode {
    Avg,
    Sum,
    Min,
    Max,
}

/// R-value functions.
#[derive(Clone, Copy, PartialEq, Eq, Debug, Structural)]
pub enum RVFunc {
    // Nullary
    Peek,
    Pop,
    Rand,
    // Unary
    Abs,
    Acos,
    Asin,
    Atan,
    Ceil,
    Cos,
    Exp,
    Floor,
    Ln,
    Round,
    Sin,
    Sqrt,
    Tan,
    Trunc,
    // Binary
    Max,
    Min,
}

/// R-value node.
#[derive(PartialEq, Debug)]
pub enum RValue<L> {
    Num(Num<L>),
    Dev(Dev<L>),
    DevParam(Dev<L>, String),
    NetParam(Dev<L>, Mode, String),
    DevSlot(Dev<L>, Int, String),
    Expr(Box<Expr<L>>),
    Func(RVFunc, Vec<RValue<L>>),
    Var(String),
}

/// L-value node. A variable's flag marks it fixed (`var_fix`).
#[derive(PartialEq, Debug)]
pub enum LValue<L> {
    Param(Dev<L>, String),
    Var(String, bool),
}

/// Unary operators.
#[derive(Clone, Copy, PartialEq, Eq, Debug, Structural)]
pub enum UnaryOp {
    Inv,
    Not,
}

/// Binary operators.
#[derive(Clone, Copy, PartialEq, Eq, Debug, Structural)]
pub enum BinaryOp {
    // Numerical
    Add,
    Sub,
    Mul,
    Div,
    Rem,
    // Logical
    And,
    Or,
    Xor,
    // Relational
    EQ,
    GE,
    GT,
    LE,
    LT,
    NE,
}

/// Expression node.
#[derive(PartialEq, Debug)]
pub enum Expr<L> {
    RValue(RValue<L>),
    Unary { op: UnaryOp, rhs: Box<Expr<L>> },
    Binary { op: BinaryOp, lhs: Box<Expr<L>>, rhs: Box<Expr<L>> },
    Ternary { cond: Box<Expr<L>>, if_t: Box<Expr<L>>, if_f: Box<Expr<L>> },
}

/// A call of a function as a statement of its own.
#[derive(Debug)]
pub enum FunctionCall<L> {
    Nullary(String),
    Unary(String, RValue<L>),
    User(String),
}

/// Statement node.
#[derive(Debug)]
pub enum Statement<L> {
    AssignValue(Vec<LValue<L>>, Vec<RValue<L>>),
    AssignSelf(BinaryOp, LValue<L>, RValue<L>),
    FunctionCall(FunctionCall<L>),
    Empty,
}

/// Block headers. `If`, `Elif` and `Else` carry the index of the if-elif-else chain they
/// are part of.
#[derive(Debug)]
pub enum Branch<L> {
    Program,
    Loop,
    If(usize, Expr<L>),
    Elif(usize, Expr<L>),
    Else(usize),
    While(Expr<L>),
    For(String, Expr<L>, Expr<L>, Option<Expr<L>>),
    Def(String),
    Function(String),
}

/// A block: a header and the items nested under it.
#[derive(Debug)]
pub struct Block<L> {
    pub branch: Branch<L>,
    pub items: Vec<Item<L>>,
}

/// What an item holds.
#[derive(Debug)]
pub enum ItemInner<L> {
    Stmt(Statement<L>),
    Block(Block<L>),
}

/// A statement or a block, with the comment of its line.
#[derive(Debug)]
pub struct Item<L> {
    pub comment: Option<String>,
    pub item_inner: ItemInner<L>,
}


// ------------------------------------------------------------------------------------------
// Copies of nodes
// ------------------------------------------------------------------------------------------

impl Int {
    pub fn copy(&self) -> (r: Self)
        ensures
            r == *self,
    {
        match self {
            Int::Lit(n) => Int::Lit(*n),
            Int::Var(k) => Int::Var(k.clone()),
        }
    }
}

impl<L: Literal> Num<L> {
    pub fn copy(&self) -> (r: Self)
        ensures
            r == *self,
    {
        match self {
            Num::Lit(n) => Num::Lit(*n),
            Num::Var(k) => Num::Var(k.clone()),
        }
    }
}

/// Two device nodes are the same: equal, but for vectors of r-values, which are compared
/// by their elements.
pub open spec fn same_dev<L>(a: Dev<L>, b: Dev<L>) -> bool
    decreases a,
{
    match (a, b) {
        (Dev::Lit(x), Dev::Lit(y)) => same_rv(*x, *y),
        (Dev::Net(x), Dev::Net(y)) => same_rv(*x, *y),
        _ => a == b,
    }
}

/// Two r-value nodes are the same: equal, but for vectors of r-values, which are compared
/// by their elements.
pub open spec fn same_rv<L>(a: RValue<L>, b: RValue<L>) -> bool
    decreases a,
{
    match (a, b) {
        (RValue::Dev(x), RValue::Dev(y)) => same_dev(x, y),
        (RValue::DevParam(x, p), RValue::DevParam(y, q)) => same_dev(x, y) && p == q,
        (RValue::NetParam(x, m, p), RValue::NetParam(y, n, q)) => same_dev(x, y) && m == n && p == q,
        (RValue::DevSlot(x, i, p), RValue::DevSlot(y, j, q)) => same_dev(x, y) && i == j && p == q,
        (RValue::Expr(x), RValue::Expr(y)) => same_expr(*x, *y),
        (RValue::Func(f, v), RValue::Func(g, w)) => f == g && v@.len() == w@.len() && forall|i: int|
            0 <= i < v@.len() ==> same_rv(#[trigger] v@[i], w@[i]),
        _ => a == b,
    }
}

/// Two expression nodes are the same: equal, but for vectors of r-values, which are
/// compared by their elements.
pub open spec fn same_expr<L>(a: Expr<L>, b: Expr<L>) -> bool
    decreases a,
{
    match (a, b) {
        (Expr::RValue(x), Expr::RValue(y)) => same_rv(x, y),
        (Expr::Unary { op: o, rhs: x }, Expr::Unary { op: p, rhs: y }) => o == p && same_expr(*x, *y),
        (Expr::Binary { op: o, lhs: x1, rhs: x2 }, Expr::Binary { op: p, lhs: y1, rhs: y2 }) => o
            == p && same_expr(*x1, *y1) && same_expr(*x2, *y2),
        (
            Expr::Ternary { cond: x1, if_t: x2, if_f: x3 },
            Expr::Ternary { cond: y1, if_t: y2, if_f: y3 },
        ) => same_expr(*x1, *y1) && same_expr(*x2, *y2) && same_expr(*x3, *y3),
        _ => false,
    }
}

impl<L: Literal> Dev<L> {
    pub fn copy(&self) -> (r: Self)
        ensures
            same_dev(*self, r),
        decreases self,
    {
        match self {
            Dev::Lit(rv) => Dev::Lit(Box::new(rv.copy())),
            Dev::Net(rv) => Dev::Net(Box::new(rv.copy())),
            Dev::Var(k) => Dev::Var(k.clone()),
            Dev::DB => Dev::DB,
        }
    }
}

impl<L: Literal> RValue<L> {
    pub fn copy(&self) -> (r: Self)
        ensures
            same_rv(*self, r),
        decreases self,
    {
        match self {
            RValue::Num(n) => RValue::Num(n.copy()),
            RValue::Dev(d) => RValue::Dev(d.copy()),
            RValue::DevParam(d, p) => RValue::DevParam(d.copy(), p.clone()),
            RValue::NetParam(d, m, p) => RValue::NetParam(d.copy(), *m, p.clone()),
            RValue::DevSlot(d, i, p) => RValue::DevSlot(d.copy(), i.copy(), p.clone()),
            RValue::Expr(e) => RValue::Expr(Box::new(e.copy())),
            RValue::Func(f, rvs) => {
                let mut v: Vec<RValue<L>> = Vec::new();
                let mut i: usize = 0;
                while i < rvs.len()
                    invariant
                        *self == RValue::Func(*f, *rvs),
                        i <= rvs.len(),
                        v@.len() == i,
                        forall|j: int| 0 <= j < i ==> same_rv(#[trigger] rvs@[j], v@[j]),
                    decreases rvs.len() - i,
                {
                    proof {
                        assert(decreases_to!(*self => (*self)->Func_1));
                        assert(decreases_to!(*rvs => rvs[i as int]));
                        assert(decreases_to!(*self => rvs[i as int]));
                    }
                    v.push(rvs[i].copy());
                    i = i + 1;
                }
                RValue::Func(*f, v)
            },
            RValue::Var(k) => RValue::Var(k.clone()),
        }
    }
}

impl<L: Literal> Expr<L> {
    pub fn copy(&self) -> (r: Self)
        ensures
            same_expr(*self, r),
        decreases self,
    {
        match self {
            Expr::RValue(rv) => Expr::RValue(rv.copy()),
            Expr::Unary { op, rhs } => Expr::Unary { op: *op, rhs: Box::new(rhs.copy()) },
            Expr::Binary { op, lhs, rhs } => Expr::Binary {
                op: *op,
                lhs: Box::new(lhs.copy()),
                rhs: Box::new(rhs.copy()),
            },
            Expr::Ternary { cond, if_t, if_f } => Expr::Ternary {
                cond: Box::new(cond.copy()),
                if_t: Box::new(if_t.copy()),
                if_f: Box::new(if_f.copy()),
            },
        }
    }
}

// ------------------------------------------------------------------------------------------
// Node helpers
// ------------------------------------------------------------------------------------------

impl<L: Literal> LValue<L> {
    pub fn as_var(&self) -> (r: Option<&String>)
        ensures
            r == (match *self {
                LValue::Var(k, _) => Some(&k),
                _ => None,
            }),
    {
        match self {
            LValue::Var(k, _) => Some(k),
            _ => None,
        }
    }

    /// The r-value that reads this l-value: a device parameter or a number variable.
    /// A parameter of a device network cannot be read this way.
    pub fn as_rvalue(&self) -> (r: RValue<L>)
        requires
            !(*self matches LValue::Param(Dev::Net(_), _)),
        ensures
            match *self {
                LValue::Param(dev, param) => same_rv(RValue::DevParam(dev, param), r),
                LValue::Var(k, _) => r == RValue::<L>::Num(Num::Var(k)),
            },
    {
        match self {
            LValue::Param(dev, param) => RValue::DevParam(dev.copy(), param.clone()),
            LValue::Var(k, _) => RValue::Num(Num::Var(k.clone())),
        }
    }
}

/// Is `e` a literal number.
pub open spec fn is_lit<L>(e: Expr<L>) -> bool {
    e matches Expr::RValue(RValue::Num(Num::Lit(_)))
}

impl<L: Literal> Expr<L> {
    /// New rvalue.
    pub fn rvalue(x: RValue<L>) -> (e: Expr<L>)
        ensures
            e == Expr::RValue(x),
    {
        Expr::RValue(x)
    }

    /// New rvalue literal.
    pub fn lit(x: L) -> (e: Expr<L>)
        ensures
            e == Expr::RValue(RValue::Num(Num::Lit(x))),
    {
        Expr::RValue(RValue::Num(Num::Lit(x)))
    }

    /// New unary expression.
    pub fn unary(op: UnaryOp, rhs: Expr<L>) -> (e: Self)
        ensures
            e == (Expr::Unary { op, rhs: Box::new(rhs) }),
    {
        let rhs = Box::new(rhs);
        Self::Unary { op, rhs }
    }

    /// New binary expression.
    pub fn binary(op: BinaryOp, lhs: Expr<L>, rhs: Expr<L>) -> (e: Self)
        ensures
            e == (Expr::Binary { op, lhs: Box::new(lhs), rhs: Box::new(rhs) }),
    {
        let lhs = Box::new(lhs);
        let rhs = Box::new(rhs);
        Self::Binary { op, lhs, rhs }
    }

    /// New ternary expression.
    pub fn ternary(cond: Expr<L>, if_t: Expr<L>, if_f: Expr<L>) -> (e: Self)
        ensures
            e == (Expr::Ternary { cond: Box::new(cond), if_t: Box::new(if_t), if_f: Box::new(if_f) }),
    {
        let cond = Box::new(cond);
        let if_t = Box::new(if_t);
        let if_f = Box::new(if_f);
        Self::Ternary { cond, if_t, if_f }
    }

    /// Simplifies one level of an expression: an operator on literal operands becomes the
    /// literal it computes, a ternary on literals becomes the chosen branch's literal, and an
    /// expression wrapped as an r-value is unwrapped. Anything else is returned unchanged.
    pub fn simplify(self) -> (e: Expr<L>)
        ensures
            (self matches Expr::Unary { rhs, .. } && is_lit(*rhs)) ==> is_lit(e),
            (self matches Expr::Binary { lhs, rhs, .. } && is_lit(*lhs) && is_lit(*rhs)) ==> is_lit(e),
            self matches Expr::Ternary { cond, if_t, if_f } ==> (is_lit(*cond) && is_lit(*if_t)
                && is_lit(*if_f) ==> (e == *if_t || e == *if_f)),
            self matches Expr::RValue(RValue::Expr(inner)) ==> e == *inner,
            !((self matches Expr::Unary { rhs, .. } && is_lit(*rhs))
                || (self matches Expr::Binary { lhs, rhs, .. } && is_lit(*lhs) && is_lit(*rhs))
                || (self matches Expr::Ternary { cond, if_t, if_f } && is_lit(*cond) && is_lit(*if_t)
                && is_lit(*if_f))
                || (self matches Expr::RValue(RValue::Expr(_)))) ==> e == self,
    {
        match self {
            Expr::Unary { op, rhs } => match *rhs {
                Expr::RValue(RValue::Num(Num::Lit(n))) => Self::lit(L::fold_unary(op, n)),
                other => Expr::Unary { op, rhs: Box::new(other) },
            },
            Expr::Binary { op, lhs, rhs } => {
                let l = match &*lhs {
                    Expr::RValue(RValue::Num(Num::Lit(l))) => Some(*l),
                    _ => None,
                };
                let r = match &*rhs {
                    Expr::RValue(RValue::Num(Num::Lit(r))) => Some(*r),
                    _ => None,
                };
                match (l, r) {
                    (Some(l), Some(r)) => Self::lit(L::fold(op, l, r)),
                    _ => Expr::Binary { op, lhs, rhs },
                }
            },
            Expr::Ternary { cond, if_t, if_f } => {
                let c = match &*cond {
                    Expr::RValue(RValue::Num(Num::Lit(c))) => Some(*c),
                    _ => None,
                };
                let t = match &*if_t {
                    Expr::RValue(RValue::Num(Num::Lit(t))) => Some(*t),
                    _ => None,
                };
                let f = match &*if_f {
                    Expr::RValue(RValue::Num(Num::Lit(f))) => Some(*f),
                    _ => None,
                };
                match (c, t, f) {
                    (Some(c), Some(t), Some(f)) => if c.is_nonzero() {
                        Self::lit(t)
                    } else {
                        Self::lit(f)
                    },
                    _ => Expr::Ternary { cond, if_t, if_f },
                }
            },
            Expr::RValue(RValue::Expr(e)) => *e,
            other => other,
        }
    }
}

impl<L: Literal> Branch<L> {
    /// Is this an `if` or `elif` header.
    pub fn is_if(&self) -> (b: bool)
        ensures
            b <==> (*self is If || *self is Elif),
    {
        match self {
            Branch::If(..) | Branch::Elif(..) => true,
            _ => false,
        }
    }
}

impl<L: Literal> ItemInner<L> {
    /// Is this an `if` or `elif` block.
    pub fn is_if(&self) -> (b: bool)
        ensures
            b <==> (*self matches ItemInner::Block(block) && (block.branch is If
                || block.branch is Elif)),
    {
        match self {
            ItemInner::Block(block) => block.branch.is_if(),
            _ => false,
        }
    }
}

/// The index of the if-elif-else chain of an item, if it is such a block.
pub open spec fn chain_index<L>(item: Item<L>) -> Option<usize> {
    match item.item_inner {
        ItemInner::Block(Block { branch: Branch::If(id, _), .. }) => Some(id),
        ItemInner::Block(Block { branch: Branch::Elif(id, _), .. }) => Some(id),
        ItemInner::Block(Block { branch: Branch::Else(id), .. }) => Some(id),
        _ => None,
    }
}

impl<L: Literal> Item<L> {
    pub fn new(item_inner: ItemInner<L>, comment: Option<String>) -> (i: Self)
        ensures
            i == (Item { comment, item_inner }),
    {
        Self { comment, item_inner }
    }

    pub fn is_if(&self) -> (b: bool)
        ensures
            b <==> (self.item_inner matches ItemInner::Block(block) && (block.branch is If
                || block.branch is Elif)),
    {
        self.item_inner.is_if()
    }

    pub fn if_elif_else_index(&self) -> (r: Option<usize>)
        ensures
            r == chain_index(*self),
    {
        match &self.item_inner {
            ItemInner::Block(Block { branch: Branch::If(id, ..), .. }) => Some(*id),
            ItemInner::Block(Block { branch: Branch::Elif(id, ..), .. }) => Some(*id),
            ItemInner::Block(Block { branch: Branch::Else(id, ..), .. }) => Some(*id),
            _ => None,
        }
    }

    pub fn block(block: Block<L>, comment: Option<String>) -> (i: Self)
        ensures
            i == (Item { comment, item_inner: ItemInner::Block(block) }),
    {
        Self::new(ItemInner::Block(block), comment)
    }

    pub fn statement(stmt: Statement<L>, comment: Option<String>) -> (i: Self)
        ensures
            i == (Item { comment, item_inner: ItemInner::Stmt(stmt) }),
    {
        Self::new(ItemInner::Stmt(stmt), comment)
    }
}

impl<L: Literal> Block<L> {
    pub fn new(branch: Branch<L>, items: Vec<Item<L>>) -> (b: Self)
        ensures
            b == (Block { branch, items }),
    {
        Self { branch, items }
    }

    pub fn program() -> (b: Self)
        ensures
            b.branch is Program,
            b.items@.len() == 0,
    {
        Self::new(Branch::Program, Vec::new())
    }
}

} // verus!
