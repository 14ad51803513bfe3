//! From parse-tree nodes to syntax-tree nodes.
//!
//! Each node kind of the syntax tree has a relation `*_is(n, v)`: `v` is what the parse-tree
//! node `n` gives. Building a node succeeds exactly when some value is related to it, and
//! gives such a value.
use vstd::prelude::*;

use super::ast::{
    BinaryOp, Branch, Dev, Expr, FunctionCall, Int, LValue, Literal, Mode, Num, RVFunc, RValue,
    Statement, UnaryOp,
};
use super::program::{Line, LineItem};
use super::error::{AstError, MypsLexerError, MypsLexerResult};
use super::tree::{i64_text, parse_i64, PairTree, Rule};

verus! {

// ------------------------------------------------------------------------------------------
// Integers, numbers and batch modes
// ------------------------------------------------------------------------------------------

/// The integer node that `n` gives.
pub open spec fn spec_int<L>(n: PairTree<L>) -> Option<Int>
    decreases n,
{
    match n.rule {
        Rule::integer => if n.inner@.len() == 1 {
            spec_int(n.inner@[0])
        } else {
            None
        },
        Rule::int_lit => match i64_text(n.text@) {
            Some(x) => Some(Int::Lit(x)),
            None => None,
        },
        Rule::var => Some(Int::Var(n.text)),
        _ => None,
    }
}

/// The number node that `n` gives.
pub open spec fn spec_num<L>(n: PairTree<L>) -> Option<Num<L>>
    decreases n,
{
    match n.rule {
        Rule::num | Rule::integer => if n.inner@.len() == 1 {
            spec_num(n.inner@[0])
        } else {
            None
        },
        Rule::num_lit | Rule::int_lit => match n.value {
            Some(x) => Some(Num::Lit(x)),
            None => None,
        },
        Rule::var => Some(Num::Var(n.text)),
        _ => None,
    }
}

/// The batch mode that a rule names.
pub open spec fn spec_mode(r: Rule) -> Option<Mode> {
    match r {
        Rule::batch_avg => Some(Mode::Avg),
        Rule::batch_sum => Some(Mode::Sum),
        Rule::batch_min => Some(Mode::Min),
        Rule::batch_max => Some(Mode::Max),
        _ => None,
    }
}

impl Int {
    pub fn try_from_pair<L>(pair: &PairTree<L>) -> (r: MypsLexerResult<Int>)
        ensures
            r is Ok <==> spec_int(*pair) is Some,
            r matches Ok(v) ==> spec_int(*pair) == Some(v),
        decreases pair,
    {
        match pair.as_rule() {
            Rule::integer => match pair.only_inner() {
                Ok(c) => Int::try_from_pair(c),
                Err(e) => Err(e),
            },
            Rule::int_lit => match parse_i64(&pair.text) {
                Ok(x) => Ok(Int::Lit(x)),
                Err(e) => Err(e),
            },
            Rule::var => Ok(Int::Var(pair.text.clone())),
            _ => Err(MypsLexerError::wrong_rule("an integer or variable")),
        }
    }
}

impl<L: Literal> Num<L> {
    pub fn try_from_pair(pair: &PairTree<L>) -> (r: MypsLexerResult<Num<L>>)
        ensures
            r is Ok <==> spec_num(*pair) is Some,
            r matches Ok(v) ==> spec_num(*pair) == Some(v),
        decreases pair,
    {
        match pair.as_rule() {
            Rule::num | Rule::integer => match pair.only_inner() {
                Ok(c) => Num::try_from_pair(c),
                Err(e) => Err(e),
            },
            Rule::num_lit | Rule::int_lit => match pair.value {
                Some(x) => Ok(Num::Lit(x)),
                None => Err(MypsLexerError::ParseNum(pair.text.clone())),
            },
            Rule::var => Ok(Num::Var(pair.text.clone())),
            _ => Err(MypsLexerError::wrong_rule("a number or variable")),
        }
    }
}

impl Mode {
    pub fn try_from_pair<L>(pair: &PairTree<L>) -> (r: MypsLexerResult<Mode>)
        ensures
            r is Ok <==> spec_mode(pair.rule) is Some,
            r matches Ok(v) ==> spec_mode(pair.rule) == Some(v),
            r matches Ok(v) ==> mode_name(v) == mode_rule_name(pair.rule),
    {
        proof {
            lemma_mode_is_its_name(pair.rule);
        }
        match pair.as_rule() {
            Rule::batch_avg => Ok(Mode::Avg),
            Rule::batch_sum => Ok(Mode::Sum),
            Rule::batch_min => Ok(Mode::Min),
            Rule::batch_max => Ok(Mode::Max),
            _ => Err(MypsLexerError::wrong_rule("a batch mode")),
        }
    }
}

// ------------------------------------------------------------------------------------------
// Operators and functions
// ------------------------------------------------------------------------------------------

/// The unary operator that a rule names.
pub open spec fn spec_unary_op(r: Rule) -> Option<UnaryOp> {
    match r {
        Rule::op_inv => Some(UnaryOp::Inv),
        Rule::op_not => Some(UnaryOp::Not),
        _ => None,
    }
}

/// The precedence of a binary operator rule (higher binds tighter), or 0 for a rule that
/// is no binary operator. All binary operators associate to the left.
pub open spec fn op_prec(r: Rule) -> int {
    match r {
        Rule::op_or => 1,
        Rule::op_xor => 2,
        Rule::op_and => 3,
        Rule::op_eq => 4,
        Rule::op_ge => 5,
        Rule::op_gt => 6,
        Rule::op_le => 7,
        Rule::op_lt => 8,
        Rule::op_ne => 9,
        Rule::op_add => 10,
        Rule::op_sub => 11,
        Rule::op_rem => 12,
        Rule::op_div => 13,
        Rule::op_mul => 14,
        _ => 0,
    }
}

/// The binary operator that a rule names.
pub open spec fn spec_binary_op(r: Rule) -> Option<BinaryOp> {
    match r {
        Rule::op_or => Some(BinaryOp::Or),
        Rule::op_xor => Some(BinaryOp::Xor),
        Rule::op_and => Some(BinaryOp::And),
        Rule::op_eq => Some(BinaryOp::EQ),
        Rule::op_ge => Some(BinaryOp::GE),
        Rule::op_gt => Some(BinaryOp::GT),
        Rule::op_le => Some(BinaryOp::LE),
        Rule::op_lt => Some(BinaryOp::LT),
        Rule::op_ne => Some(BinaryOp::NE),
        Rule::op_add => Some(BinaryOp::Add),
        Rule::op_sub => Some(BinaryOp::Sub),
        Rule::op_rem => Some(BinaryOp::Rem),
        Rule::op_div => Some(BinaryOp::Div),
        Rule::op_mul => Some(BinaryOp::Mul),
        _ => None,
    }
}

/// The text that an operator rule reads in MYPS source.
pub open spec fn op_rule_text(r: Rule) -> Seq<char> {
    match r {
        Rule::op_inv => seq!['-'],
        Rule::op_not => seq!['!'],
        Rule::op_or => seq!['o', 'r'],
        Rule::op_xor => seq!['x', 'o', 'r'],
        Rule::op_and => seq!['a', 'n', 'd'],
        Rule::op_eq => seq!['=', '='],
        Rule::op_ge => seq!['>', '='],
        Rule::op_gt => seq!['>'],
        Rule::op_le => seq!['<', '='],
        Rule::op_lt => seq!['<'],
        Rule::op_ne => seq!['!', '='],
        Rule::op_add => seq!['+'],
        Rule::op_sub => seq!['-'],
        Rule::op_rem => seq!['%'],
        Rule::op_div => seq!['/'],
        Rule::op_mul => seq!['*'],
        _ => Seq::empty(),
    }
}

/// The symbol by which MYPS writes a binary operator.
pub open spec fn binary_op_symbol(op: BinaryOp) -> Seq<char> {
    match op {
        BinaryOp::Add => seq!['+'],
        BinaryOp::Sub => seq!['-'],
        BinaryOp::Mul => seq!['*'],
        BinaryOp::Div => seq!['/'],
        BinaryOp::Rem => seq!['%'],
        BinaryOp::And => seq!['a', 'n', 'd'],
        BinaryOp::Or => seq!['o', 'r'],
        BinaryOp::Xor => seq!['x', 'o', 'r'],
        BinaryOp::EQ => seq!['=', '='],
        BinaryOp::GE => seq!['>', '='],
        BinaryOp::GT => seq!['>'],
        BinaryOp::LE => seq!['<', '='],
        BinaryOp::LT => seq!['<'],
        BinaryOp::NE => seq!['!', '='],
    }
}

/// The symbol by which MYPS writes a unary operator.
pub open spec fn unary_op_symbol(op: UnaryOp) -> Seq<char> {
    match op {
        UnaryOp::Inv => seq!['-'],
        UnaryOp::Not => seq!['!'],
    }
}

/// The operator that a rule names is the one written by the rule's text: `>` is greater
/// than, `<` less than, `+` addition, and so on; every binary operator rule names one.
pub proof fn lemma_binary_op_is_its_text(r: Rule)
    ensures
        spec_binary_op(r) matches Some(op) ==> binary_op_symbol(op) == op_rule_text(r),
        spec_binary_op(r) is Some <==> op_prec(r) > 0,
{
}

/// The unary operator that a rule names is the one written by the rule's text.
pub proof fn lemma_unary_op_is_its_text(r: Rule)
    ensures
        spec_unary_op(r) matches Some(op) ==> unary_op_symbol(op) == op_rule_text(r),
        spec_unary_op(r) is Some <==> (r is op_inv || r is op_not),
{
}

/// The r-value function that a function-name node names, given the kind of its name
/// (`rv_func_nullary`, `rv_func_unary` or `rv_func_binary`).
pub open spec fn spec_rv_func(kind: Rule, name: Rule) -> Option<RVFunc> {
    match (kind, name) {
        (Rule::rv_func_nullary, Rule::f_peek) => Some(RVFunc::Peek),
        (Rule::rv_func_nullary, Rule::f_pop) => Some(RVFunc::Pop),
        (Rule::rv_func_unary, Rule::f_abs) => Some(RVFunc::Abs),
        (Rule::rv_func_unary, Rule::f_acos) => Some(RVFunc::Acos),
        (Rule::rv_func_unary, Rule::f_asin) => Some(RVFunc::Asin),
        (Rule::rv_func_unary, Rule::f_atan) => Some(RVFunc::Atan),
        (Rule::rv_func_unary, Rule::f_ceil) => Some(RVFunc::Ceil),
        (Rule::rv_func_unary, Rule::f_cos) => Some(RVFunc::Cos),
        (Rule::rv_func_unary, Rule::f_exp) => Some(RVFunc::Exp),
        (Rule::rv_func_unary, Rule::f_floor) => Some(RVFunc::Floor),
        (Rule::rv_func_unary, Rule::f_ln) => Some(RVFunc::Ln),
        (Rule::rv_func_unary, Rule::f_rand) => Some(RVFunc::Rand),
        (Rule::rv_func_unary, Rule::f_round) => Some(RVFunc::Round),
        (Rule::rv_func_unary, Rule::f_sin) => Some(RVFunc::Sin),
        (Rule::rv_func_unary, Rule::f_sqrt) => Some(RVFunc::Sqrt),
        (Rule::rv_func_unary, Rule::f_tan) => Some(RVFunc::Tan),
        (Rule::rv_func_unary, Rule::f_trunc) => Some(RVFunc::Trunc),
        (Rule::rv_func_binary, Rule::f_max) => Some(RVFunc::Max),
        (Rule::rv_func_binary, Rule::f_min) => Some(RVFunc::Min),
        _ => None,
    }
}

/// The name that a function-name rule reads in MYPS source.
pub open spec fn func_rule_name(r: Rule) -> Seq<char> {
    match r {
        Rule::f_peek => "peek"@,
        Rule::f_pop => "pop"@,
        Rule::f_rand => "rand"@,
        Rule::f_abs => "abs"@,
        Rule::f_acos => "acos"@,
        Rule::f_asin => "asin"@,
        Rule::f_atan => "atan"@,
        Rule::f_ceil => "ceil"@,
        Rule::f_cos => "cos"@,
        Rule::f_exp => "exp"@,
        Rule::f_floor => "floor"@,
        Rule::f_ln => "ln"@,
        Rule::f_round => "round"@,
        Rule::f_sin => "sin"@,
        Rule::f_sqrt => "sqrt"@,
        Rule::f_tan => "tan"@,
        Rule::f_trunc => "trunc"@,
        Rule::f_max => "max"@,
        Rule::f_min => "min"@,
        _ => Seq::empty(),
    }
}

/// The name by which MYPS calls an r-value function.
pub open spec fn rv_func_name(f: RVFunc) -> Seq<char> {
    match f {
        RVFunc::Peek => "peek"@,
        RVFunc::Pop => "pop"@,
        RVFunc::Rand => "rand"@,
        RVFunc::Abs => "abs"@,
        RVFunc::Acos => "acos"@,
        RVFunc::Asin => "asin"@,
        RVFunc::Atan => "atan"@,
        RVFunc::Ceil => "ceil"@,
        RVFunc::Cos => "cos"@,
        RVFunc::Exp => "exp"@,
        RVFunc::Floor => "floor"@,
        RVFunc::Ln => "ln"@,
        RVFunc::Round => "round"@,
        RVFunc::Sin => "sin"@,
        RVFunc::Sqrt => "sqrt"@,
        RVFunc::Tan => "tan"@,
        RVFunc::Trunc => "trunc"@,
        RVFunc::Max => "max"@,
        RVFunc::Min => "min"@,
    }
}

/// The function that a function-name node names is the one called by the name it reads.
pub proof fn lemma_rv_func_is_its_name(kind: Rule, name: Rule)
    ensures
        spec_rv_func(kind, name) matches Some(f) ==> rv_func_name(f) == func_rule_name(name),
{
}

/// The word that a batch-mode rule reads in MYPS source.
pub open spec fn mode_rule_name(r: Rule) -> Seq<char> {
    match r {
        Rule::batch_avg => "avg"@,
        Rule::batch_sum => "sum"@,
        Rule::batch_min => "min"@,
        Rule::batch_max => "max"@,
        _ => Seq::empty(),
    }
}

/// The word by which MYPS names a batch mode.
pub open spec fn mode_name(m: Mode) -> Seq<char> {
    match m {
        Mode::Avg => "avg"@,
        Mode::Sum => "sum"@,
        Mode::Min => "min"@,
        Mode::Max => "max"@,
    }
}

/// The batch mode that a rule names is the one its word names.
pub proof fn lemma_mode_is_its_name(r: Rule)
    ensures
        spec_mode(r) matches Some(m) ==> mode_name(m) == mode_rule_name(r),
        spec_mode(r) is Some <==> mode_rule_name(r).len() > 0,
{
    reveal_strlit("avg");
    reveal_strlit("sum");
    reveal_strlit("min");
    reveal_strlit("max");
}

/// The number of arguments of a function-name kind.
pub open spec fn func_arity(kind: Rule) -> int {
    match kind {
        Rule::rv_func_nullary => 0,
        Rule::rv_func_unary => 1,
        _ => 2,
    }
}

// ------------------------------------------------------------------------------------------
// Binary expressions
// ------------------------------------------------------------------------------------------
//
// The inner nodes of a binary expression alternate operands and operators: operand `j` is
// inner node `2j`, and operator `k` (between operands `k - 1` and `k`) is inner node
// `2k - 1`. Reading stops at the first operator position whose node is no operator.

/// The number of operators read from operator `k` on.
pub open spec fn ops_run<L>(c: Seq<PairTree<L>>, k: int) -> int
    decreases c.len() - k,
{
    if 1 <= k && 2 * k - 1 < c.len() && op_prec(c[2 * k - 1].rule) > 0 {
        1 + ops_run(c, k + 1)
    } else {
        0
    }
}

/// The operator at which operands `lo..=hi` split: the last of those with the lowest
/// precedence among operators `lo + 1..=hi`.
pub open spec fn split<L>(c: Seq<PairTree<L>>, lo: int, hi: int) -> int
    decreases hi - lo,
{
    if hi <= lo + 1 {
        hi
    } else {
        let k = split(c, lo, hi - 1);
        if op_prec(c[2 * hi - 1].rule) <= op_prec(c[2 * k - 1].rule) {
            hi
        } else {
            k
        }
    }
}

pub proof fn lemma_split_between<L>(c: Seq<PairTree<L>>, lo: int, hi: int)
    requires
        lo < hi,
    ensures
        lo < split(c, lo, hi) <= hi,
    decreases hi - lo,
{
    if hi > lo + 1 {
        lemma_split_between(c, lo, hi - 1);
    }
}

// ------------------------------------------------------------------------------------------
// Devices, r-values and expressions
// ------------------------------------------------------------------------------------------

/// `v` is the device node that `n` gives.
pub open spec fn dev_is<L>(n: PairTree<L>, v: Dev<L>) -> bool
    decreases n, 1int, 0int,
{
    let c = n.inner@;
    match n.rule {
        Rule::dev_lit => c.len() == 1 && dev_is(c[0], v),
        Rule::dev_self => v is DB,
        Rule::dev_base => c.len() == 1 && (v matches Dev::Lit(b) && rvalue_is(c[0], *b)),
        Rule::dev_net => c.len() == 1 && (v matches Dev::Net(b) && rvalue_is(c[0], *b)),
        Rule::integer => v matches Dev::Net(b) && (*b matches RValue::Num(x) && spec_num(n) == Some(x)),
        Rule::var => v == Dev::<L>::Var(n.text),
        _ => false,
    }
}

/// `v` is the r-value node that `n` gives.
pub open spec fn rvalue_is<L>(n: PairTree<L>, v: RValue<L>) -> bool
    decreases n, 2int, 0int,
{
    let c = n.inner@;
    match n.rule {
        Rule::rv => c.len() == 1 && rvalue_is(c[0], v),
        Rule::dev_lit => v matches RValue::Dev(d) && dev_is(n, d),
        Rule::rv_net_param => c.len() == 3 && (v matches RValue::NetParam(d, m, p) && dev_is(c[0], d)
            && spec_mode(c[1].rule) == Some(m) && p == c[2].text),
        Rule::rv_dev_param => c.len() == 2 && (v matches RValue::DevParam(d, p) && dev_is(c[0], d)
            && p == c[1].text),
        Rule::rv_dev_slot => c.len() == 3 && (v matches RValue::DevSlot(d, i, p) && dev_is(c[0], d)
            && spec_int(c[1]) == Some(i) && p == c[2].text),
        Rule::expr_unary | Rule::expr_binary | Rule::expr_ternary => v matches RValue::Expr(e)
            && expr_is(n, *e),
        Rule::rv_func => v matches RValue::Func(f, args) && func_is(n, f, args@),
        Rule::integer | Rule::int_lit | Rule::num | Rule::num_lit => v matches RValue::Num(x)
            && spec_num(n) == Some(x),
        Rule::var => v == RValue::<L>::Var(n.text),
        _ => false,
    }
}

/// `f` applied to `args` is the function call that `n` (an `rv_func` node: a function name,
/// then the arguments) gives.
pub open spec fn func_is<L>(n: PairTree<L>, f: RVFunc, args: Seq<RValue<L>>) -> bool
    decreases n, 1int, 0int,
{
    let c = n.inner@;
    &&& c.len() >= 1
    &&& args.len() == c.len() - 1
    &&& forall|i: int| 0 <= i < args.len() ==> rvalue_is(c[i + 1], #[trigger] args[i])
    &&& args.len() == func_arity(c[0].rule)
    &&& c[0].inner@.len() == 1
    &&& spec_rv_func(c[0].rule, c[0].inner@[0].rule) == Some(f)
}

/// `e` is the expression node that `n` gives.
pub open spec fn expr_is<L>(n: PairTree<L>, e: Expr<L>) -> bool
    decreases n, 1int, 0int,
{
    let c = n.inner@;
    match n.rule {
        Rule::expr_unary => c.len() == 2 && (e matches Expr::Unary { op, rhs } && spec_unary_op(
            c[0].rule,
        ) == Some(op) && expr_is(c[1], *rhs)),
        Rule::expr_binary => {
            let m = ops_run(c, 1);
            c.len() >= 1 && 2 * m < c.len() && climb_is(n, 0, m, e)
        },
        Rule::expr_ternary => c.len() == 3 && (e matches Expr::Ternary { cond, if_t, if_f }
            && expr_is(c[0], *cond) && expr_is(c[1], *if_t) && expr_is(c[2], *if_f)),
        Rule::rv => c.len() == 1 && (e matches Expr::RValue(v) && rvalue_is(c[0], v)),
        _ => false,
    }
}

/// `e` is the expression of operands `lo..=hi` of the binary expression `n`.
pub open spec fn climb_is<L>(n: PairTree<L>, lo: int, hi: int, e: Expr<L>) -> bool
    decreases n, 0int, hi - lo,
{
    let c = n.inner@;
    if hi <= lo {
        0 <= 2 * lo < c.len() && expr_is(c[2 * lo], e)
    } else {
        let k = split(c, lo, hi);
        proof {
            lemma_split_between(c, lo, hi);
        }
        e matches Expr::Binary { op, lhs, rhs } && spec_binary_op(c[2 * k - 1].rule) == Some(op)
            && climb_is(n, lo, k - 1, *lhs) && climb_is(n, k, hi, *rhs)
    }
}

/// Operators `lo + 1..=hi` of `c` are operators.
pub open spec fn ops_between<L>(c: Seq<PairTree<L>>, lo: int, hi: int) -> bool {
    forall|k: int| lo < k <= hi ==> 2 * k - 1 < c.len() && op_prec(#[trigger] c[2 * k - 1].rule) > 0
}

proof fn lemma_ops_run<L>(c: Seq<PairTree<L>>, k: int)
    requires
        1 <= k,
    ensures
        ops_run(c, k) >= 0,
        ops_between(c, k - 1, k - 1 + ops_run(c, k)),
    decreases c.len() - k,
{
    if 2 * k - 1 < c.len() && op_prec(c[2 * k - 1].rule) > 0 {
        lemma_ops_run(c, k + 1);
    }
}

fn op_prec_of(r: Rule) -> (p: u8)
    ensures
        p == op_prec(r),
{
    match r {
        Rule::op_or => 1,
        Rule::op_xor => 2,
        Rule::op_and => 3,
        Rule::op_eq => 4,
        Rule::op_ge => 5,
        Rule::op_gt => 6,
        Rule::op_le => 7,
        Rule::op_lt => 8,
        Rule::op_ne => 9,
        Rule::op_add => 10,
        Rule::op_sub => 11,
        Rule::op_rem => 12,
        Rule::op_div => 13,
        Rule::op_mul => 14,
        _ => 0,
    }
}

impl BinaryOp {
    /// The binary operator that a node names.
    pub fn try_from_pair<L>(pair: &PairTree<L>) -> (r: MypsLexerResult<BinaryOp>)
        ensures
            r is Ok <==> spec_binary_op(pair.rule) is Some,
            r matches Ok(op) ==> spec_binary_op(pair.rule) == Some(op),
            r matches Ok(op) ==> binary_op_symbol(op) == op_rule_text(pair.rule),
    {
        proof {
            lemma_binary_op_is_its_text(pair.rule);
        }
        match pair.as_rule() {
            Rule::op_or => Ok(BinaryOp::Or),
            Rule::op_xor => Ok(BinaryOp::Xor),
            Rule::op_and => Ok(BinaryOp::And),
            Rule::op_eq => Ok(BinaryOp::EQ),
            Rule::op_ge => Ok(BinaryOp::GE),
            Rule::op_gt => Ok(BinaryOp::GT),
            Rule::op_le => Ok(BinaryOp::LE),
            Rule::op_lt => Ok(BinaryOp::LT),
            Rule::op_ne => Ok(BinaryOp::NE),
            Rule::op_add => Ok(BinaryOp::Add),
            Rule::op_sub => Ok(BinaryOp::Sub),
            Rule::op_rem => Ok(BinaryOp::Rem),
            Rule::op_div => Ok(BinaryOp::Div),
            Rule::op_mul => Ok(BinaryOp::Mul),
            _ => Err(MypsLexerError::wrong_rule("a binary operator")),
        }
    }
}

impl UnaryOp {
    /// The unary operator that a node names.
    pub fn try_from_pair<L>(pair: &PairTree<L>) -> (r: MypsLexerResult<UnaryOp>)
        ensures
            r is Ok <==> spec_unary_op(pair.rule) is Some,
            r matches Ok(op) ==> spec_unary_op(pair.rule) == Some(op),
            r matches Ok(op) ==> unary_op_symbol(op) == op_rule_text(pair.rule),
    {
        proof {
            lemma_unary_op_is_its_text(pair.rule);
        }
        match pair.as_rule() {
            Rule::op_inv => Ok(UnaryOp::Inv),
            Rule::op_not => Ok(UnaryOp::Not),
            _ => Err(MypsLexerError::wrong_rule("a unary operator")),
        }
    }
}

/// The operator at which operands `lo..=hi` split.
fn split_at<L>(pair: &PairTree<L>, lo: usize, hi: usize) -> (k: usize)
    requires
        lo < hi,
        2 * hi < pair.inner@.len(),
    ensures
        k == split(pair.inner@, lo as int, hi as int),
        lo < k <= hi,
{
    let ghost c = pair.inner@;
    let len = pair.inner.len();
    let mut best: usize = lo + 1;
    let mut j: usize = lo + 1;
    proof {
        lemma_split_between(c, lo as int, j as int);
    }
    while j < hi
        invariant
            c == pair.inner@,
            len == c.len(),
            lo < j <= hi,
            2 * hi < len,
            best == split(c, lo as int, j as int),
            lo < best <= j,
        decreases hi - j,
    {
        j = j + 1;
        if op_prec_of(pair.inner[2 * j - 1].rule) <= op_prec_of(pair.inner[2 * best - 1].rule) {
            best = j;
        }
    }
    best
}

impl<L: Literal> Dev<L> {
    pub fn try_from_pair(pair: &PairTree<L>) -> (r: MypsLexerResult<Dev<L>>)
        ensures
            r matches Ok(v) ==> dev_is(*pair, v),
            r is Err ==> forall|v: Dev<L>| !dev_is(*pair, v),
        decreases pair, 1int, 0int,
    {
        match pair.as_rule() {
            Rule::dev_lit => {
                let c = pair.only_inner()?;
                match Dev::try_from_pair(c) {
                    Ok(d) => Ok(d),
                    Err(e) => {
                        assert forall|v: Dev<L>| !dev_is(*pair, v) by {
                            if dev_is(*pair, v) {
                                assert(dev_is(*c, v));
                            }
                        }
                        Err(e)
                    },
                }
            },
            Rule::dev_self => Ok(Dev::DB),
            Rule::dev_base | Rule::dev_net => {
                let c = pair.only_inner()?;
                match RValue::try_from_pair(c) {
                    Ok(rv) => if pair.rule == Rule::dev_base {
                        Ok(Dev::Lit(Box::new(rv)))
                    } else {
                        Ok(Dev::Net(Box::new(rv)))
                    },
                    Err(e) => {
                        assert forall|v: Dev<L>| !dev_is(*pair, v) by {
                            if dev_is(*pair, v) {
                                match v {
                                    Dev::Lit(b) => assert(rvalue_is(*c, *b)),
                                    Dev::Net(b) => assert(rvalue_is(*c, *b)),
                                    _ => {},
                                }
                            }
                        }
                        Err(e)
                    },
                }
            },
            Rule::integer => {
                let x = Num::try_from_pair(pair)?;
                Ok(Dev::Net(Box::new(RValue::Num(x))))
            },
            Rule::var => Ok(Dev::Var(pair.text.clone())),
            _ => Err(MypsLexerError::wrong_rule("a device")),
        }
    }
}

impl<L: Literal> RValue<L> {
    pub fn try_from_pair(pair: &PairTree<L>) -> (r: MypsLexerResult<RValue<L>>)
        ensures
            r matches Ok(v) ==> rvalue_is(*pair, v),
            r is Err ==> forall|v: RValue<L>| !rvalue_is(*pair, v),
        decreases pair, 2int, 0int,
    {
        match pair.as_rule() {
            Rule::rv => {
                let c = pair.only_inner()?;
                match RValue::try_from_pair(c) {
                    Ok(v) => Ok(v),
                    Err(e) => {
                        assert forall|v: RValue<L>| !rvalue_is(*pair, v) by {
                            if rvalue_is(*pair, v) {
                                assert(rvalue_is(*c, v));
                            }
                        }
                        Err(e)
                    },
                }
            },
            Rule::dev_lit => match Dev::try_from_pair(pair) {
                Ok(d) => Ok(RValue::Dev(d)),
                Err(e) => {
                    assert forall|v: RValue<L>| !rvalue_is(*pair, v) by {
                        if rvalue_is(*pair, v) {
                            assert(dev_is(*pair, v->Dev_0));
                        }
                    }
                    Err(e)
                },
            },
            Rule::rv_net_param | Rule::rv_dev_param | Rule::rv_dev_slot => {
                let c0 = pair.nth_inner(0)?;
                let dev = match Dev::try_from_pair(c0) {
                    Ok(d) => d,
                    Err(e) => {
                        assert forall|v: RValue<L>| !rvalue_is(*pair, v) by {
                            if rvalue_is(*pair, v) {
                                match v {
                                    RValue::NetParam(d, _, _) => assert(dev_is(*c0, d)),
                                    RValue::DevParam(d, _) => assert(dev_is(*c0, d)),
                                    RValue::DevSlot(d, _, _) => assert(dev_is(*c0, d)),
                                    _ => {},
                                }
                            }
                        }
                        return Err(e);
                    },
                };
                if pair.rule == Rule::rv_net_param {
                    let mode = Mode::try_from_pair(pair.nth_inner(1)?)?;
                    let param = pair.final_inner(2)?.text.clone();
                    Ok(RValue::NetParam(dev, mode, param))
                } else if pair.rule == Rule::rv_dev_param {
                    let param = pair.final_inner(1)?.text.clone();
                    Ok(RValue::DevParam(dev, param))
                } else {
                    let slot = Int::try_from_pair(pair.nth_inner(1)?)?;
                    let param = pair.final_inner(2)?.text.clone();
                    Ok(RValue::DevSlot(dev, slot, param))
                }
            },
            Rule::expr_unary | Rule::expr_binary | Rule::expr_ternary => match Expr::try_from_pair(
                pair,
            ) {
                Ok(e) => Ok(RValue::Expr(Box::new(e))),
                Err(e) => {
                    assert forall|v: RValue<L>| !rvalue_is(*pair, v) by {
                        if rvalue_is(*pair, v) {
                            assert(expr_is(*pair, *v->Expr_0));
                        }
                    }
                    Err(e)
                },
            },
            Rule::rv_func => match RVFunc::try_from_pair(pair) {
                Ok((f, args)) => Ok(RValue::Func(f, args)),
                Err(e) => {
                    assert forall|v: RValue<L>| !rvalue_is(*pair, v) by {
                        if rvalue_is(*pair, v) {
                            assert(func_is(*pair, v->Func_0, v->Func_1@));
                        }
                    }
                    Err(e)
                },
            },
            Rule::integer | Rule::int_lit | Rule::num | Rule::num_lit => Ok(
                RValue::Num(Num::try_from_pair(pair)?),
            ),
            Rule::var => Ok(RValue::Var(pair.text.clone())),
            _ => Err(MypsLexerError::wrong_rule("an r-value")),
        }
    }
}

impl RVFunc {
    /// A function call: the function that the first inner node names, and the arguments
    /// that the others give.
    pub fn try_from_pair<L: Literal>(pair: &PairTree<L>) -> (r: MypsLexerResult<(RVFunc, Vec<RValue<L>>)>)
        ensures
            r matches Ok((f, args)) ==> func_is(*pair, f, args@),
            r matches Ok((f, _)) ==> rv_func_name(f) == func_rule_name(pair.inner@[0].inner@[0].rule),
            r is Err ==> forall|f: RVFunc, args: Seq<RValue<L>>| !func_is(*pair, f, args),
            pair.inner@.len() >= 1 && (pair.inner@[0].rule is rv_func_nullary || pair.inner@[0].rule is rv_func_unary
                || pair.inner@[0].rule is rv_func_binary) && pair.inner@.len() - 1 != func_arity(pair.inner@[0].rule)
                && (forall|i: int| 1 <= i < pair.inner@.len() ==> exists|a: RValue<L>| rvalue_is(#[trigger] pair.inner@[i], a))
                ==> (r matches Err(MypsLexerError::WrongNumArgs(_, x, found)) && x == func_arity(pair.inner@[0].rule)
                && found == pair.inner@.len() - 1),
        decreases pair, 1int, 0int,
    {
        let ghost c = pair.inner@;
        proof {
            lemma_rv_func_is_its_name(c[0].rule, c[0].inner@[0].rule);
        }
        let name = pair.nth_inner(0)?;
        let mut args: Vec<RValue<L>> = Vec::new();
        let mut i: usize = 1;
        while i < pair.inner.len()
            invariant
                c == pair.inner@,
                *name == c[0],
                1 <= i <= c.len(),
                args@.len() == i - 1,
                forall|j: int| 0 <= j < args@.len() ==> rvalue_is(c[j + 1], #[trigger] args@[j]),
            decreases c.len() - i,
        {
            let a = match RValue::try_from_pair(&pair.inner[i]) {
                Ok(a) => a,
                Err(e) => {
                    proof {
                        assert forall|f: RVFunc, xs: Seq<RValue<L>>| !func_is(*pair, f, xs) by {
                            if func_is(*pair, f, xs) {
                                assert(rvalue_is(c[(i - 1) + 1], xs[i - 1]));
                            }
                        }
                    }
                    return Err(e);
                },
            };
            args.push(a);
            i = i + 1;
        }
        let n_args = args.len();
        let f = match name.as_rule() {
            Rule::rv_func_nullary => {
                if n_args != 0 {
                    return Err(MypsLexerError::wrong_num_args("Nullary", 0, n_args));
                }
                match name.only_inner()?.as_rule() {
                    Rule::f_peek => RVFunc::Peek,
                    Rule::f_pop => RVFunc::Pop,
                    _ => return Err(MypsLexerError::wrong_rule("r-value nullary function name")),
                }
            },
            Rule::rv_func_unary => {
                if n_args != 1 {
                    return Err(MypsLexerError::wrong_num_args("Unary", 1, n_args));
                }
                match name.only_inner()?.as_rule() {
                    Rule::f_abs => RVFunc::Abs,
                    Rule::f_acos => RVFunc::Acos,
                    Rule::f_asin => RVFunc::Asin,
                    Rule::f_atan => RVFunc::Atan,
                    Rule::f_ceil => RVFunc::Ceil,
                    Rule::f_cos => RVFunc::Cos,
                    Rule::f_exp => RVFunc::Exp,
                    Rule::f_floor => RVFunc::Floor,
                    Rule::f_ln => RVFunc::Ln,
                    Rule::f_rand => RVFunc::Rand,
                    Rule::f_round => RVFunc::Round,
                    Rule::f_sin => RVFunc::Sin,
                    Rule::f_sqrt => RVFunc::Sqrt,
                    Rule::f_tan => RVFunc::Tan,
                    Rule::f_trunc => RVFunc::Trunc,
                    _ => return Err(MypsLexerError::wrong_rule("r-value unary function name")),
                }
            },
            Rule::rv_func_binary => {
                if n_args != 2 {
                    return Err(MypsLexerError::wrong_num_args("Binary", 2, n_args));
                }
                match name.only_inner()?.as_rule() {
                    Rule::f_max => RVFunc::Max,
                    Rule::f_min => RVFunc::Min,
                    _ => return Err(MypsLexerError::wrong_rule("r-value binary function name")),
                }
            },
            _ => return Err(MypsLexerError::wrong_rule("r-value function name")),
        };
        Ok((f, args))
    }
}

impl<L: Literal> Expr<L> {
    pub fn try_from_pair(pair: &PairTree<L>) -> (r: MypsLexerResult<Expr<L>>)
        ensures
            r matches Ok(e) ==> expr_is(*pair, e),
            r is Err ==> forall|e: Expr<L>| !expr_is(*pair, e),
        decreases pair, 1int, 0int,
    {
        let ghost c = pair.inner@;
        match pair.as_rule() {
            Rule::expr_unary => {
                let op = UnaryOp::try_from_pair(pair.nth_inner(0)?)?;
                let c1 = pair.final_inner(1)?;
                match Expr::try_from_pair(c1) {
                    Ok(rhs) => Ok(Expr::unary(op, rhs)),
                    Err(e) => {
                        assert forall|x: Expr<L>| !expr_is(*pair, x) by {
                            if expr_is(*pair, x) {
                                assert(expr_is(*c1, *x->Unary_rhs));
                            }
                        }
                        Err(e)
                    },
                }
            },
            Rule::expr_binary => expr_climb(pair),
            Rule::expr_ternary => {
                let c0 = pair.nth_inner(0)?;
                let c1 = pair.nth_inner(1)?;
                let c2 = pair.final_inner(2)?;
                let cond = match Expr::try_from_pair(c0) {
                    Ok(x) => x,
                    Err(e) => {
                        assert forall|x: Expr<L>| !expr_is(*pair, x) by {
                            if expr_is(*pair, x) {
                                assert(expr_is(*c0, *x->cond));
                            }
                        }
                        return Err(e);
                    },
                };
                let if_t = match Expr::try_from_pair(c1) {
                    Ok(x) => x,
                    Err(e) => {
                        assert forall|x: Expr<L>| !expr_is(*pair, x) by {
                            if expr_is(*pair, x) {
                                assert(expr_is(*c1, *x->if_t));
                            }
                        }
                        return Err(e);
                    },
                };
                let if_f = match Expr::try_from_pair(c2) {
                    Ok(x) => x,
                    Err(e) => {
                        assert forall|x: Expr<L>| !expr_is(*pair, x) by {
                            if expr_is(*pair, x) {
                                assert(expr_is(*c2, *x->if_f));
                            }
                        }
                        return Err(e);
                    },
                };
                Ok(Expr::ternary(cond, if_t, if_f))
            },
            Rule::rv => {
                let c0 = pair.only_inner()?;
                match RValue::try_from_pair(c0) {
                    Ok(v) => Ok(Expr::RValue(v)),
                    Err(e) => {
                        assert forall|x: Expr<L>| !expr_is(*pair, x) by {
                            if expr_is(*pair, x) {
                                assert(rvalue_is(*c0, x->RValue_0));
                            }
                        }
                        Err(e)
                    },
                }
            },
            _ => Err(MypsLexerError::wrong_rule("an r-value expression")),
        }
    }
}

/// Reads a binary expression: its operands and operators, grouped by the operators'
/// precedence (operators of one precedence group to the left).
pub fn expr_climb<L: Literal>(pair: &PairTree<L>) -> (r: MypsLexerResult<Expr<L>>)
    requires
        pair.rule == Rule::expr_binary,
    ensures
        r matches Ok(e) ==> expr_is(*pair, e),
        r is Err ==> forall|e: Expr<L>| !expr_is(*pair, e),
    decreases pair, 0int, pair.inner@.len(),
{
    let ghost c = pair.inner@;
    let len = pair.inner.len();
    if len == 0 {
        return Err(MypsLexerError::AstError(AstError::InsufficientPairs));
    }
    let mut m: usize = 0;
    while 2 * m < len - 1 && op_prec_of(pair.inner[2 * m + 1].rule) > 0
        invariant
            c == pair.inner@,
            len == c.len(),
            len >= 1,
            2 * m <= len,
            ops_run(c, 1) == m + ops_run(c, m + 1),
        decreases len - 2 * m,
    {
        m = m + 1;
    }
    proof {
        lemma_ops_run(c, 1);
    }
    if 2 * m >= len {
        return Err(MypsLexerError::AstError(AstError::InsufficientPairs));
    }
    match climb(pair, 0, m) {
        Ok(x) => Ok(x),
        Err(e) => {
            assert forall|x: Expr<L>| !expr_is(*pair, x) by {
                if expr_is(*pair, x) {
                    assert(climb_is(*pair, 0, m as int, x));
                }
            }
            Err(e)
        },
    }
}

/// The expression of operands `lo..=hi` of a binary expression.
fn climb<L: Literal>(pair: &PairTree<L>, lo: usize, hi: usize) -> (r: MypsLexerResult<Expr<L>>)
    requires
        lo <= hi,
        2 * hi < pair.inner@.len(),
        ops_between(pair.inner@, lo as int, hi as int),
    ensures
        r matches Ok(e) ==> climb_is(*pair, lo as int, hi as int, e),
        r is Err ==> forall|e: Expr<L>| !climb_is(*pair, lo as int, hi as int, e),
    decreases pair, 0int, hi - lo,
{
    let ghost c = pair.inner@;
    let len = pair.inner.len();
    if lo == hi {
        let c0 = &pair.inner[2 * lo];
        return match Expr::try_from_pair(c0) {
            Ok(x) => Ok(x),
            Err(e) => {
                assert forall|x: Expr<L>| !climb_is(*pair, lo as int, hi as int, x) by {
                    if climb_is(*pair, lo as int, hi as int, x) {
                        assert(expr_is(*c0, x));
                    }
                }
                Err(e)
            },
        };
    }
    let k = split_at(pair, lo, hi);
    let lhs = match climb(pair, lo, k - 1) {
        Ok(x) => x,
        Err(e) => {
            assert forall|x: Expr<L>| !climb_is(*pair, lo as int, hi as int, x) by {
                if climb_is(*pair, lo as int, hi as int, x) {
                    assert(climb_is(*pair, lo as int, k - 1, *x->Binary_lhs));
                }
            }
            return Err(e);
        },
    };
    let rhs = match climb(pair, k, hi) {
        Ok(x) => x,
        Err(e) => {
            assert forall|x: Expr<L>| !climb_is(*pair, lo as int, hi as int, x) by {
                if climb_is(*pair, lo as int, hi as int, x) {
                    assert(climb_is(*pair, k as int, hi as int, *x->Binary_rhs));
                }
            }
            return Err(e);
        },
    };
    let op = BinaryOp::try_from_pair(&pair.inner[2 * k - 1])?;
    Ok(Expr::binary(op, lhs, rhs))
}
// ------------------------------------------------------------------------------------------
// L-values and statements
// ------------------------------------------------------------------------------------------

/// `v` is the l-value node that `n` gives.
pub open spec fn lvalue_is<L>(n: PairTree<L>, v: LValue<L>) -> bool
    decreases n,
{
    let c = n.inner@;
    match n.rule {
        Rule::lv => c.len() >= 1 && lvalue_is(c[0], v),
        Rule::lv_param => c.len() >= 2 && (v matches LValue::Param(d, p) && dev_is(c[0], d) && p
            == c[1].text),
        Rule::var_fix => c.len() >= 1 && v == LValue::<L>::Var(c[0].text, true),
        Rule::var => v == LValue::<L>::Var(n.text, false),
        _ => false,
    }
}

/// The nodes of `c` of rule `lv`, in order.
pub open spec fn lv_nodes<L>(c: Seq<PairTree<L>>) -> Seq<PairTree<L>>
    decreases c.len(),
{
    if c.len() == 0 {
        Seq::empty()
    } else if c.last().rule == Rule::lv {
        lv_nodes(c.drop_last()).push(c.last())
    } else {
        lv_nodes(c.drop_last())
    }
}

/// The nodes of `c` of any other rule, in order.
pub open spec fn rv_nodes<L>(c: Seq<PairTree<L>>) -> Seq<PairTree<L>>
    decreases c.len(),
{
    if c.len() == 0 {
        Seq::empty()
    } else if c.last().rule != Rule::lv {
        rv_nodes(c.drop_last()).push(c.last())
    } else {
        rv_nodes(c.drop_last())
    }
}

/// The nodes that a prefix of `c` picks are a prefix of those that `c` picks.
proof fn lemma_nodes_prefix<L>(c: Seq<PairTree<L>>, j: int)
    requires
        0 <= j <= c.len(),
    ensures
        lv_nodes(c.take(j)).len() <= lv_nodes(c).len(),
        lv_nodes(c).take(lv_nodes(c.take(j)).len() as int) == lv_nodes(c.take(j)),
        rv_nodes(c.take(j)).len() <= rv_nodes(c).len(),
        rv_nodes(c).take(rv_nodes(c.take(j)).len() as int) == rv_nodes(c.take(j)),
    decreases c.len(),
{
    if j == c.len() {
        assert(c.take(j) == c);
        assert(lv_nodes(c).take(lv_nodes(c).len() as int) == lv_nodes(c));
        assert(rv_nodes(c).take(rv_nodes(c).len() as int) == rv_nodes(c));
    } else {
        let d = c.drop_last();
        assert(c.take(j) == d.take(j));
        lemma_nodes_prefix(d, j);
        let a = lv_nodes(d.take(j)).len() as int;
        let b = rv_nodes(d.take(j)).len() as int;
        assert(lv_nodes(c).take(a) == lv_nodes(d).take(a));
        assert(rv_nodes(c).take(b) == rv_nodes(d).take(b));
    }
}

/// The operator of a self-assignment: `+=`, `-=`, `*=`, `/=` or `%=`.
pub open spec fn self_op(t: Seq<char>) -> Option<BinaryOp> {
    if t.len() != 2 || t[1] != '=' {
        None
    } else if t[0] == '+' {
        Some(BinaryOp::Add)
    } else if t[0] == '-' {
        Some(BinaryOp::Sub)
    } else if t[0] == '*' {
        Some(BinaryOp::Mul)
    } else if t[0] == '/' {
        Some(BinaryOp::Div)
    } else if t[0] == '%' {
        Some(BinaryOp::Rem)
    } else {
        None
    }
}

/// `s` is the statement node that `n` gives.
pub open spec fn statement_is<L>(n: PairTree<L>, s: Statement<L>) -> bool
    decreases n,
{
    let c = n.inner@;
    match n.rule {
        Rule::stmt => c.len() == 1 && statement_is(c[0], s),
        Rule::stmt_assign_value => {
            let ls = lv_nodes(c);
            let rs = rv_nodes(c);
            &&& ls.len() == rs.len()
            &&& s matches Statement::AssignValue(lvs, rvs)
            &&& lvs@.len() == ls.len()
            &&& rvs@.len() == rs.len()
            &&& forall|i: int| 0 <= i < ls.len() ==> lvalue_is(ls[i], #[trigger] lvs@[i])
            &&& forall|i: int| 0 <= i < rs.len() ==> rvalue_is(rs[i], #[trigger] rvs@[i])
        },
        Rule::stmt_assign_self => c.len() >= 3 && (s matches Statement::AssignSelf(op, lv, rv)
            && lvalue_is(c[0], lv) && self_op(c[1].text@) == Some(op) && rvalue_is(c[2], rv)),
        Rule::stmt_func_nullary => c.len() == 1 && s == Statement::<L>::FunctionCall(
            FunctionCall::Nullary(c[0].text),
        ),
        Rule::stmt_func_unary => c.len() == 2 && (s matches Statement::FunctionCall(
            FunctionCall::Unary(name, rv),
        ) && name == c[0].text && rvalue_is(c[1], rv)),
        Rule::stmt_func_user => c.len() == 1 && s == Statement::<L>::FunctionCall(
            FunctionCall::User(c[0].text),
        ),
        _ => false,
    }
}

impl<L: Literal> LValue<L> {
    pub fn try_from_pair(pair: &PairTree<L>) -> (r: MypsLexerResult<LValue<L>>)
        ensures
            r matches Ok(v) ==> lvalue_is(*pair, v),
            r is Err ==> forall|v: LValue<L>| !lvalue_is(*pair, v),
        decreases pair,
    {
        match pair.as_rule() {
            Rule::lv => {
                let c0 = pair.nth_inner(0)?;
                match LValue::try_from_pair(c0) {
                    Ok(v) => Ok(v),
                    Err(e) => {
                        assert forall|v: LValue<L>| !lvalue_is(*pair, v) by {
                            if lvalue_is(*pair, v) {
                                assert(lvalue_is(*c0, v));
                            }
                        }
                        Err(e)
                    },
                }
            },
            Rule::lv_param => {
                let c0 = pair.nth_inner(0)?;
                let c1 = pair.nth_inner(1)?;
                match Dev::try_from_pair(c0) {
                    Ok(dev) => Ok(LValue::Param(dev, c1.text.clone())),
                    Err(e) => {
                        assert forall|v: LValue<L>| !lvalue_is(*pair, v) by {
                            if lvalue_is(*pair, v) {
                                assert(dev_is(*c0, v->Param_0));
                            }
                        }
                        Err(e)
                    },
                }
            },
            Rule::var_fix => Ok(LValue::Var(pair.nth_inner(0)?.text.clone(), true)),
            Rule::var => Ok(LValue::Var(pair.text.clone(), false)),
            _ => Err(MypsLexerError::wrong_rule("an l-value")),
        }
    }
}

/// The operator of a self-assignment.
fn self_op_of(t: &String) -> (r: Option<BinaryOp>)
    ensures
        r == self_op(t@),
{
    let s = t.as_str();
    if s.unicode_len() != 2 {
        return None;
    }
    let c0 = s.get_char(0);
    let c1 = s.get_char(1);
    if c1 != '=' {
        None
    } else if c0 == '+' {
        Some(BinaryOp::Add)
    } else if c0 == '-' {
        Some(BinaryOp::Sub)
    } else if c0 == '*' {
        Some(BinaryOp::Mul)
    } else if c0 == '/' {
        Some(BinaryOp::Div)
    } else if c0 == '%' {
        Some(BinaryOp::Rem)
    } else {
        None
    }
}

impl<L: Literal> Statement<L> {
    pub fn try_from_pair(pair: &PairTree<L>) -> (r: MypsLexerResult<Statement<L>>)
        ensures
            r matches Ok(s) ==> statement_is(*pair, s),
            r is Err ==> forall|s: Statement<L>| !statement_is(*pair, s),
        decreases pair,
    {
        let ghost c = pair.inner@;
        match pair.as_rule() {
            Rule::stmt => {
                let c0 = pair.only_inner()?;
                match Statement::try_from_pair(c0) {
                    Ok(s) => Ok(s),
                    Err(e) => {
                        assert forall|s: Statement<L>| !statement_is(*pair, s) by {
                            if statement_is(*pair, s) {
                                assert(statement_is(*c0, s));
                            }
                        }
                        Err(e)
                    },
                }
            },
            Rule::stmt_assign_value => {
                let mut lvs: Vec<LValue<L>> = Vec::new();
                let mut rvs: Vec<RValue<L>> = Vec::new();
                let mut i: usize = 0;
                while i < pair.inner.len()
                    invariant
                        c == pair.inner@,
                        pair.rule == Rule::stmt_assign_value,
                        i <= c.len(),
                        lvs@.len() == lv_nodes(c.take(i as int)).len(),
                        rvs@.len() == rv_nodes(c.take(i as int)).len(),
                        forall|k: int|
                            0 <= k < lvs@.len() ==> lvalue_is(lv_nodes(c.take(i as int))[k], #[trigger] lvs@[k]),
                        forall|k: int|
                            0 <= k < rvs@.len() ==> rvalue_is(rv_nodes(c.take(i as int))[k], #[trigger] rvs@[k]),
                    decreases c.len() - i,
                {
                    let x = &pair.inner[i];
                    proof {
                        assert(c.take(i + 1).drop_last() == c.take(i as int));
                        assert(c.take(i + 1).last() == c[i as int]);
                        lemma_nodes_prefix(c, i + 1);
                    }
                    if x.rule == Rule::lv {
                        match LValue::try_from_pair(x) {
                            Ok(v) => lvs.push(v),
                            Err(e) => {
                                assert forall|s: Statement<L>| !statement_is(*pair, s) by {
                                    if statement_is(*pair, s) {
                                        let k = lv_nodes(c.take(i as int)).len() as int;
                                        let t = c.take(i + 1);
                                        assert(lv_nodes(t) == lv_nodes(c.take(i as int)).push(c[i as int]));
                                        assert(lv_nodes(c).take(k + 1)[k] == lv_nodes(c)[k]);
                                        assert(lv_nodes(c)[k] == c[i as int]);
                                        assert(lvalue_is(*x, s->AssignValue_0@[k]));
                                    }
                                }
                                return Err(e);
                            },
                        }
                    } else {
                        match RValue::try_from_pair(x) {
                            Ok(v) => rvs.push(v),
                            Err(e) => {
                                assert forall|s: Statement<L>| !statement_is(*pair, s) by {
                                    if statement_is(*pair, s) {
                                        let k = rv_nodes(c.take(i as int)).len() as int;
                                        let t = c.take(i + 1);
                                        assert(rv_nodes(t) == rv_nodes(c.take(i as int)).push(c[i as int]));
                                        assert(rv_nodes(c).take(k + 1)[k] == rv_nodes(c)[k]);
                                        assert(rv_nodes(c)[k] == c[i as int]);
                                        assert(rvalue_is(*x, s->AssignValue_1@[k]));
                                    }
                                }
                                return Err(e);
                            },
                        }
                    }
                    i = i + 1;
                }
                proof {
                    assert(c.take(c.len() as int) == c);
                }
                if lvs.len() != rvs.len() {
                    return Err(MypsLexerError::wrong_rule("as many r-values as l-values"));
                }
                Ok(Statement::AssignValue(lvs, rvs))
            },
            Rule::stmt_assign_self => {
                let c0 = pair.nth_inner(0)?;
                let c1 = pair.nth_inner(1)?;
                let c2 = pair.nth_inner(2)?;
                let lv = match LValue::try_from_pair(c0) {
                    Ok(v) => v,
                    Err(e) => {
                        assert forall|s: Statement<L>| !statement_is(*pair, s) by {
                            if statement_is(*pair, s) {
                                assert(lvalue_is(*c0, s->AssignSelf_1));
                            }
                        }
                        return Err(e);
                    },
                };
                let rv = match RValue::try_from_pair(c2) {
                    Ok(v) => v,
                    Err(e) => {
                        assert forall|s: Statement<L>| !statement_is(*pair, s) by {
                            if statement_is(*pair, s) {
                                assert(rvalue_is(*c2, s->AssignSelf_2));
                            }
                        }
                        return Err(e);
                    },
                };
                match self_op_of(&c1.text) {
                    Some(op) => Ok(Statement::AssignSelf(op, lv, rv)),
                    None => Err(MypsLexerError::wrong_rule("an assignment operator")),
                }
            },
            Rule::stmt_func_nullary => {
                let name = pair.only_inner()?.text.clone();
                Ok(Statement::FunctionCall(FunctionCall::Nullary(name)))
            },
            Rule::stmt_func_unary => {
                let name = pair.nth_inner(0)?.text.clone();
                let c1 = pair.final_inner(1)?;
                match RValue::try_from_pair(c1) {
                    Ok(rv) => Ok(Statement::FunctionCall(FunctionCall::Unary(name, rv))),
                    Err(e) => {
                        assert forall|s: Statement<L>| !statement_is(*pair, s) by {
                            if statement_is(*pair, s) {
                                assert(rvalue_is(*c1, s->FunctionCall_0->Unary_1));
                            }
                        }
                        Err(e)
                    },
                }
            },
            Rule::stmt_func_user => {
                let name = pair.only_inner()?.text.clone();
                Ok(Statement::FunctionCall(FunctionCall::User(name)))
            },
            _ => Err(MypsLexerError::wrong_rule("a statement")),
        }
    }
}

// ------------------------------------------------------------------------------------------
// Block headers and lines
// ------------------------------------------------------------------------------------------

/// `b` is the block header that `n` gives. The chain index of `if`, `elif` and `else` is
/// left 0; lexing the program numbers the chains.
pub open spec fn branch_is<L>(n: PairTree<L>, b: Branch<L>) -> bool
    decreases n,
{
    let c = n.inner@;
    match n.rule {
        Rule::branch => c.len() == 1 && branch_is(c[0], b),
        Rule::b_loop => b is Loop,
        Rule::b_if => c.len() == 1 && (b matches Branch::If(i, e) && i == 0 && expr_is(c[0], e)),
        Rule::b_elif => c.len() == 1 && (b matches Branch::Elif(i, e) && i == 0 && expr_is(c[0], e)),
        Rule::b_else => b == Branch::<L>::Else(0),
        Rule::b_while => c.len() == 1 && (b matches Branch::While(e) && expr_is(c[0], e)),
        Rule::b_for => (c.len() == 3 || c.len() == 4) && (b matches Branch::For(i, s, e, step) && i
            == c[0].text && expr_is(c[1], s) && expr_is(c[2], e) && if c.len() == 4 {
            step matches Some(x) && expr_is(c[3], x)
        } else {
            step is None
        }),
        Rule::b_def => c.len() == 1 && b == Branch::<L>::Def(c[0].text),
        _ => false,
    }
}

impl<L: Literal> Branch<L> {
    pub fn try_from_pair(pair: &PairTree<L>) -> (r: MypsLexerResult<Branch<L>>)
        ensures
            r matches Ok(b) ==> branch_is(*pair, b),
            r is Err ==> forall|b: Branch<L>| !branch_is(*pair, b),
        decreases pair,
    {
        let ghost c = pair.inner@;
        match pair.as_rule() {
            Rule::branch => {
                let c0 = pair.only_inner()?;
                match Branch::try_from_pair(c0) {
                    Ok(b) => Ok(b),
                    Err(e) => {
                        assert forall|b: Branch<L>| !branch_is(*pair, b) by {
                            if branch_is(*pair, b) {
                                assert(branch_is(*c0, b));
                            }
                        }
                        Err(e)
                    },
                }
            },
            Rule::b_loop => Ok(Branch::Loop),
            Rule::b_if | Rule::b_elif | Rule::b_while => {
                let c0 = pair.only_inner()?;
                match Expr::try_from_pair(c0) {
                    Ok(e) => if pair.rule == Rule::b_if {
                        Ok(Branch::If(0, e))
                    } else if pair.rule == Rule::b_elif {
                        Ok(Branch::Elif(0, e))
                    } else {
                        Ok(Branch::While(e))
                    },
                    Err(err) => {
                        assert forall|b: Branch<L>| !branch_is(*pair, b) by {
                            if branch_is(*pair, b) {
                                match b {
                                    Branch::If(_, e) => assert(expr_is(*c0, e)),
                                    Branch::Elif(_, e) => assert(expr_is(*c0, e)),
                                    Branch::While(e) => assert(expr_is(*c0, e)),
                                    _ => {},
                                }
                            }
                        }
                        Err(err)
                    },
                }
            },
            Rule::b_else => Ok(Branch::Else(0)),
            Rule::b_for => {
                let name = pair.nth_inner(0)?.text.clone();
                let c1 = pair.nth_inner(1)?;
                let c2 = pair.nth_inner(2)?;
                let s = match Expr::try_from_pair(c1) {
                    Ok(x) => x,
                    Err(e) => {
                        assert forall|b: Branch<L>| !branch_is(*pair, b) by {
                            if branch_is(*pair, b) {
                                assert(expr_is(*c1, b->For_1));
                            }
                        }
                        return Err(e);
                    },
                };
                let e = match Expr::try_from_pair(c2) {
                    Ok(x) => x,
                    Err(e) => {
                        assert forall|b: Branch<L>| !branch_is(*pair, b) by {
                            if branch_is(*pair, b) {
                                assert(expr_is(*c2, b->For_2));
                            }
                        }
                        return Err(e);
                    },
                };
                let step = if pair.inner.len() > 3 {
                    let c3 = &pair.inner[3];
                    match Expr::try_from_pair(c3) {
                        Ok(x) => Some(x),
                        Err(err) => {
                            assert forall|b: Branch<L>| !branch_is(*pair, b) by {
                                if branch_is(*pair, b) {
                                    assert(expr_is(*c3, b->For_3->0));
                                }
                            }
                            return Err(err);
                        },
                    }
                } else {
                    None
                };
                if pair.inner.len() > 4 {
                    return Err(MypsLexerError::AstError(AstError::ExcessPairs));
                }
                Ok(Branch::For(name, s, e, step))
            },
            Rule::b_def => {
                let name = pair.only_inner()?.text.clone();
                Ok(Branch::Def(name))
            },
            _ => Err(MypsLexerError::wrong_rule("a branch")),
        }
    }
}

/// Reads the inner nodes `c` of a line, front to back. `None` if a node is of no kind that
/// a line holds, or an item node does not hold exactly one node; else whether an `empty`
/// node was met (which ends the reading), the number of indents, the node in the last
/// item and the text of the last comment.
pub open spec fn line_scan<L>(c: Seq<PairTree<L>>) -> Option<(bool, int, Option<PairTree<L>>, Option<String>)>
    decreases c.len(),
{
    if c.len() == 0 {
        Some((false, 0, None, None))
    } else {
        match line_scan(c.drop_last()) {
            None => None,
            Some((done, k, it, cm)) => if done {
                Some((done, k, it, cm))
            } else {
                let x = c.last();
                match x.rule {
                    Rule::indent => Some((false, k + 1, it, cm)),
                    Rule::item => if x.inner@.len() == 1 {
                        Some((false, k, Some(x.inner@[0]), cm))
                    } else {
                        None
                    },
                    Rule::comment => Some((false, k, it, Some(x.text))),
                    Rule::empty => Some((true, k, it, cm)),
                    _ => None,
                }
            },
        }
    }
}

/// What a node of a program gives: `None` when it is no line (or a malformed one);
/// `Some(None)` for an empty line or the end of input; else the line's indent, the node of
/// its item and its comment.
pub open spec fn spec_line<L>(n: PairTree<L>) -> Option<Option<(int, PairTree<L>, Option<String>)>> {
    match n.rule {
        Rule::line => match line_scan(n.inner@) {
            Some((done, k, it, cm)) => if done {
                Some(None)
            } else {
                match it {
                    Some(x) => Some(Some((k, x, cm))),
                    None => None,
                }
            },
            None => None,
        },
        Rule::EOI => Some(None),
        _ => None,
    }
}

/// The indent, item node and comment of a line node; `None` for an empty line or the end
/// of input.
pub fn parse_line_pair<L>(pair: &PairTree<L>) -> (r: MypsLexerResult<Option<(usize, &PairTree<L>, Option<String>)>>)
    ensures
        r is Ok <==> spec_line(*pair) is Some,
        r matches Ok(None) ==> spec_line(*pair) == Some(None::<(int, PairTree<L>, Option<String>)>),
        r matches Ok(Some((k, x, cm))) ==> spec_line(*pair) == Some(Some((k as int, *x, cm))),
{
    match pair.as_rule() {
        Rule::line => {
            let ghost c = pair.inner@;
            let mut indent: usize = 0;
            let mut item: Option<&PairTree<L>> = None;
            let mut comment: Option<String> = None;
            let mut i: usize = 0;
            while i < pair.inner.len()
                invariant
                    c == pair.inner@,
                    pair.rule == Rule::line,
                    i <= c.len(),
                    indent <= i,
                    line_scan(c.take(i as int)) == Some((false, indent as int, match item {
                        Some(x) => Some(*x),
                        None => None::<PairTree<L>>,
                    }, comment)),
                decreases c.len() - i,
            {
                let x = &pair.inner[i];
                proof {
                    assert(c.take(i + 1).drop_last() == c.take(i as int));
                    assert(c.take(i + 1).last() == c[i as int]);
                }
                match x.as_rule() {
                    Rule::indent => {
                        indent = indent + 1;
                    },
                    Rule::item => {
                        match x.only_inner() {
                            Ok(y) => {
                                item = Some(y);
                            },
                            Err(e) => {
                                proof {
                                    lemma_scan_failed(c, i as int + 1);
                                    assert(c.take(c.len() as int) == c);
                                }
                                return Err(e);
                            },
                        }
                    },
                    Rule::comment => {
                        comment = Some(x.text.clone());
                    },
                    Rule::empty => {
                        proof {
                            lemma_scan_done(c, i as int + 1);
                            assert(c.take(c.len() as int) == c);
                        }
                        return Ok(None);
                    },
                    _ => {
                        proof {
                            lemma_scan_failed(c, i as int + 1);
                            assert(c.take(c.len() as int) == c);
                        }
                        return Err(MypsLexerError::wrong_rule("an indent, item or comment"));
                    },
                }
                i = i + 1;
            }
            proof {
                assert(c.take(c.len() as int) == c);
            }
            match item {
                Some(x) => Ok(Some((indent, x, comment))),
                None => Err(MypsLexerError::AstError(AstError::InsufficientPairs)),
            }
        },
        Rule::EOI => Ok(None),
        _ => Err(MypsLexerError::wrong_rule("a line")),
    }
}

/// Once the reading of a line stops at an `empty` node, the rest is not read.
proof fn lemma_scan_done<L>(c: Seq<PairTree<L>>, j: int)
    requires
        0 <= j <= c.len(),
        line_scan(c.take(j)) matches Some((done, _, _, _)) && done,
    ensures
        line_scan(c) == line_scan(c.take(j)),
    decreases c.len() - j,
{
    if j < c.len() {
        assert(c.take(j + 1).drop_last() == c.take(j));
        lemma_scan_done(c, j + 1);
    } else {
        assert(c.take(j) == c);
    }
}

/// Once the reading of a line fails, it stays failed.
proof fn lemma_scan_failed<L>(c: Seq<PairTree<L>>, j: int)
    requires
        0 <= j <= c.len(),
        line_scan(c.take(j)) is None,
    ensures
        line_scan(c) is None,
    decreases c.len() - j,
{
    if j < c.len() {
        assert(c.take(j + 1).drop_last() == c.take(j));
        lemma_scan_failed(c, j + 1);
    } else {
        assert(c.take(j) == c);
    }
}

/// The lines of the inner nodes `c` of a program: what [`spec_line`] gives of each, empty
/// lines left out; `None` if a node is no line.
pub open spec fn program_heads<L>(c: Seq<PairTree<L>>) -> Option<Seq<(int, PairTree<L>, Option<String>)>>
    decreases c.len(),
{
    if c.len() == 0 {
        Some(Seq::empty())
    } else {
        match program_heads(c.drop_last()) {
            None => None,
            Some(hs) => match spec_line(c.last()) {
                None => None,
                Some(None) => Some(hs),
                Some(Some(h)) => Some(hs.push(h)),
            },
        }
    }
}

/// `it` is what the item node `n` of a line gives: a block header or a statement, or an
/// error when no value is built from it.
pub open spec fn line_item_is<L>(n: PairTree<L>, it: LineItem<L>) -> bool {
    match it {
        LineItem::Branch(b) => n.rule == Rule::branch && branch_is(n, b),
        LineItem::Stmt(s) => n.rule == Rule::stmt && statement_is(n, s),
        LineItem::Failed(_) => if n.rule == Rule::branch {
            forall|b: Branch<L>| !branch_is(n, b)
        } else if n.rule == Rule::stmt {
            forall|s: Statement<L>| !statement_is(n, s)
        } else {
            true
        },
    }
}

/// The lines `ls` are the lines `hs`: same indents and comments, and items read from the
/// item nodes.
pub open spec fn lines_match<L>(ls: Seq<Line<L>>, hs: Seq<(int, PairTree<L>, Option<String>)>) -> bool {
    &&& ls.len() == hs.len()
    &&& forall|i: int|
        0 <= i < ls.len() ==> (#[trigger] ls[i]).indent == hs[i].0 && ls[i].comment == hs[i].2
            && line_item_is(hs[i].1, ls[i].item)
}

/// Reads the item of a line.
pub fn read_item<L: Literal>(pair: &PairTree<L>) -> (it: LineItem<L>)
    ensures
        line_item_is(*pair, it),
{
    match pair.as_rule() {
        Rule::branch => match Branch::try_from_pair(pair) {
            Ok(b) => LineItem::Branch(b),
            Err(e) => LineItem::Failed(e),
        },
        Rule::stmt => match Statement::try_from_pair(pair) {
            Ok(s) => LineItem::Stmt(s),
            Err(e) => LineItem::Failed(e),
        },
        _ => LineItem::Failed(MypsLexerError::wrong_rule("a block or statement")),
    }
}

proof fn lemma_heads_failed<L>(c: Seq<PairTree<L>>, j: int)
    requires
        0 <= j <= c.len(),
        program_heads(c.take(j)) is None,
    ensures
        program_heads(c) is None,
    decreases c.len() - j,
{
    if j < c.len() {
        assert(c.take(j + 1).drop_last() == c.take(j));
        lemma_heads_failed(c, j + 1);
    } else {
        assert(c.take(j) == c);
    }
}

/// Reads the lines of a program node, in order, leaving out empty lines.
pub fn read_lines<L: Literal>(program: &PairTree<L>) -> (r: MypsLexerResult<Vec<Line<L>>>)
    ensures
        r is Ok <==> program_heads(program.inner@) is Some,
        r matches Ok(ls) ==> lines_match(ls@, program_heads(program.inner@)->0),
{
    let ghost c = program.inner@;
    let mut lines: Vec<Line<L>> = Vec::new();
    let mut i: usize = 0;
    while i < program.inner.len()
        invariant
            c == program.inner@,
            i <= c.len(),
            program_heads(c.take(i as int)) is Some,
            lines_match(lines@, program_heads(c.take(i as int))->0),
        decreases c.len() - i,
    {
        let x = &program.inner[i];
        proof {
            assert(c.take(i + 1).drop_last() == c.take(i as int));
            assert(c.take(i + 1).last() == c[i as int]);
        }
        match parse_line_pair(x) {
            Ok(None) => {},
            Ok(Some((indent, node, comment))) => {
                let item = read_item(node);
                let ghost hs = program_heads(c.take(i as int))->0;
                lines.push(Line { indent, item, comment });
                proof {
                    let hs2 = program_heads(c.take(i + 1))->0;
                    assert(hs2 == hs.push((indent as int, *node, comment)));
                    assert forall|k: int| 0 <= k < lines@.len() implies (#[trigger] lines@[k]).indent
                        == hs2[k].0 && lines@[k].comment == hs2[k].2 && line_item_is(hs2[k].1, lines@[k].item) by {
                        if k < hs.len() {
                            assert(hs2[k] == hs[k]);
                        }
                    }
                }
            },
            Err(e) => {
                proof {
                    lemma_heads_failed(c, i + 1);
                }
                return Err(e);
            },
        }
        i = i + 1;
    }
    proof {
        assert(c.take(c.len() as int) == c);
    }
    Ok(lines)
}

} // verus!
