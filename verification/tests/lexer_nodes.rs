use myps::lexer::ast::{
    BinaryOp, Branch, Dev, Expr, FunctionCall, Int, ItemInner, LValue, Literal, Mode, Num, RVFunc,
    RValue, Statement, UnaryOp,
};
use myps::lexer::error::{AstError, MypsLexerError};
use myps::lexer::nodes::{expr_climb, parse_line_pair, read_item, read_lines};
use myps::lexer::program::{lex_program_pair, LineItem};
use myps::lexer::tree::{parse_i64, PairTree, Rule};
use myps::translator::units::TranslatorConf;
use myps::translator::Translator;

#[derive(Clone, Copy, Debug, PartialEq)]
struct F(f64);

impl Literal for F {
    fn from_int(n: i64) -> Self {
        F(n as f64)
    }
    fn one() -> Self {
        F(1.0)
    }
    fn fold(_op: BinaryOp, l: Self, _r: Self) -> Self {
        l
    }
    fn fold_unary(_op: UnaryOp, x: Self) -> Self {
        x
    }
    fn is_nonzero(self) -> bool {
        self.0 != 0.0
    }
    fn to_device(self) -> u64 {
        self.0 as u64
    }
    fn to_hash(self) -> i64 {
        self.0 as i64
    }
}

fn node(rule: Rule, text: &str, inner: Vec<PairTree<F>>) -> PairTree<F> {
    PairTree { rule, text: text.to_string(), value: None, inner }
}

fn leaf(rule: Rule, text: &str) -> PairTree<F> {
    node(rule, text, Vec::new())
}

fn num(text: &str) -> PairTree<F> {
    PairTree { rule: Rule::num_lit, text: text.to_string(), value: Some(F(text.parse().unwrap())), inner: Vec::new() }
}

fn var(name: &str) -> PairTree<F> {
    leaf(Rule::var, name)
}

fn rv(inner: PairTree<F>) -> PairTree<F> {
    let text = inner.text.clone();
    node(Rule::rv, &text, vec![inner])
}

fn rv_var(name: &str) -> Expr<F> {
    Expr::RValue(RValue::Var(name.to_string()))
}

#[test]
fn int_literals() {
    assert_eq!(parse_i64(&"42".to_string()).unwrap(), 42);
    assert_eq!(parse_i64(&"+7".to_string()).unwrap(), 7);
    assert_eq!(parse_i64(&"-9223372036854775808".to_string()).unwrap(), i64::MIN);
    assert_eq!(parse_i64(&"9223372036854775807".to_string()).unwrap(), i64::MAX);
    assert!(matches!(parse_i64(&"9223372036854775808".to_string()), Err(MypsLexerError::ParseInt(ref t)) if t == "9223372036854775808"));
    assert!(parse_i64(&"".to_string()).is_err());
    assert!(parse_i64(&"-".to_string()).is_err());
    assert!(parse_i64(&"1a".to_string()).is_err());
    assert!(parse_i64(&"1.5".to_string()).is_err());
}

#[test]
fn int_and_num_nodes() {
    let i = node(Rule::integer, "12", vec![leaf(Rule::int_lit, "12")]);
    assert_eq!(Int::try_from_pair(&i).unwrap(), Int::Lit(12));
    assert_eq!(Int::try_from_pair(&var("k")).unwrap(), Int::Var("k".to_string()));
    assert!(matches!(Int::try_from_pair(&leaf(Rule::num_lit, "1.5")), Err(MypsLexerError::WrongRule(_))));
    assert_eq!(Num::try_from_pair(&num("1.5")).unwrap(), Num::Lit(F(1.5)));
    assert!(matches!(Num::try_from_pair(&leaf(Rule::num_lit, "1.5")), Err(MypsLexerError::ParseNum(ref t)) if t == "1.5"));
    let empty = node(Rule::num, "", Vec::new());
    assert!(matches!(Num::try_from_pair(&empty), Err(MypsLexerError::AstError(AstError::InsufficientPairs))));
    let two = node(Rule::num, "", vec![num("1"), num("2")]);
    assert!(matches!(Num::try_from_pair(&two), Err(MypsLexerError::AstError(AstError::ExcessPairs))));
    assert_eq!(Mode::try_from_pair(&leaf(Rule::batch_sum, "1")).unwrap(), Mode::Sum);
    assert!(Mode::try_from_pair(&leaf(Rule::var, "x")).is_err());
}

#[test]
fn device_nodes() {
    let d0 = node(Rule::dev_lit, "d0", vec![node(Rule::dev_base, "d0", vec![num("0")])]);
    assert_eq!(Dev::try_from_pair(&d0).unwrap(), Dev::Lit(Box::new(RValue::Num(Num::Lit(F(0.0))))));
    let hash = node(Rule::integer, "-128473777", vec![num("-128473777")]);
    assert_eq!(Dev::try_from_pair(&hash).unwrap(), Dev::Net(Box::new(RValue::Num(Num::Lit(F(-128473777.0))))));
    assert_eq!(Dev::try_from_pair(&leaf(Rule::dev_self, "db")).unwrap(), Dev::DB);
    assert_eq!(Dev::try_from_pair(&var("Light")).unwrap(), Dev::Var("Light".to_string()));
    assert!(Dev::try_from_pair(&leaf(Rule::param, "x")).is_err());
}

#[test]
fn r_value_nodes() {
    let hash = node(Rule::integer, "-128473777", vec![num("-128473777")]);
    let net = node(Rule::rv_net_param, "-128473777.sum.Setting", vec![hash, leaf(Rule::batch_sum, "sum"), leaf(Rule::param, "Setting")]);
    assert_eq!(
        RValue::try_from_pair(&net).unwrap(),
        RValue::NetParam(Dev::Net(Box::new(RValue::Num(Num::Lit(F(-128473777.0))))), Mode::Sum, "Setting".to_string())
    );
    let param = node(Rule::rv_dev_param, "sensor.Vertical", vec![var("sensor"), leaf(Rule::param, "Vertical")]);
    assert_eq!(RValue::try_from_pair(&param).unwrap(), RValue::DevParam(Dev::Var("sensor".to_string()), "Vertical".to_string()));
    let slot = node(Rule::rv_dev_slot, "d.2.Occupied", vec![var("d"), node(Rule::integer, "2", vec![leaf(Rule::int_lit, "2")]), leaf(Rule::param, "Occupied")]);
    assert_eq!(RValue::try_from_pair(&slot).unwrap(), RValue::DevSlot(Dev::Var("d".to_string()), Int::Lit(2), "Occupied".to_string()));
    let extra = node(Rule::rv_dev_param, "", vec![var("s"), leaf(Rule::param, "P"), leaf(Rule::param, "Q")]);
    assert!(matches!(RValue::try_from_pair(&extra), Err(MypsLexerError::AstError(AstError::ExcessPairs))));
    assert_eq!(RValue::try_from_pair(&rv(var("x"))).unwrap(), RValue::Var("x".to_string()));
    assert_eq!(RValue::try_from_pair(&rv(num("5"))).unwrap(), RValue::Num(Num::Lit(F(5.0))));
}

#[test]
fn function_nodes() {
    let abs = node(Rule::rv_func, "abs(x)", vec![node(Rule::rv_func_unary, "abs", vec![leaf(Rule::f_abs, "abs")]), rv(var("x"))]);
    let (f, args) = RVFunc::try_from_pair(&abs).unwrap();
    assert_eq!(f, RVFunc::Abs);
    assert_eq!(args, vec![RValue::Var("x".to_string())]);
    let peek = node(Rule::rv_func, "peek()", vec![node(Rule::rv_func_nullary, "peek", vec![leaf(Rule::f_peek, "peek")])]);
    assert_eq!(RValue::try_from_pair(&peek).unwrap(), RValue::Func(RVFunc::Peek, Vec::new()));
    let max = node(Rule::rv_func, "max(a)", vec![node(Rule::rv_func_binary, "max", vec![leaf(Rule::f_max, "max")]), rv(var("a"))]);
    assert!(matches!(RVFunc::try_from_pair(&max), Err(MypsLexerError::WrongNumArgs(ref k, 2, 1)) if k == "Binary"));
    let bad = node(Rule::rv_func, "pop(x)", vec![node(Rule::rv_func_unary, "pop", vec![leaf(Rule::f_pop, "pop")]), rv(var("x"))]);
    assert!(matches!(RVFunc::try_from_pair(&bad), Err(MypsLexerError::WrongRule(_))));
    let rand = node(Rule::rv_func, "rand(x)", vec![node(Rule::rv_func_unary, "rand", vec![leaf(Rule::f_rand, "rand")]), rv(var("x"))]);
    assert_eq!(RVFunc::try_from_pair(&rand).unwrap().0, RVFunc::Rand);
}

fn binary(items: Vec<PairTree<F>>) -> PairTree<F> {
    node(Rule::expr_binary, "", items)
}

#[test]
fn binary_expressions_follow_precedence() {
    // a - b + c: operators of one level group to the left.
    let e = binary(vec![rv(var("a")), leaf(Rule::op_sub, "-"), rv(var("b")), leaf(Rule::op_add, "+"), rv(var("c"))]);
    assert_eq!(
        Expr::try_from_pair(&e).unwrap(),
        Expr::binary(BinaryOp::Add, Expr::binary(BinaryOp::Sub, rv_var("a"), rv_var("b")), rv_var("c"))
    );
    assert_eq!(
        expr_climb(&e).unwrap(),
        Expr::binary(BinaryOp::Add, Expr::binary(BinaryOp::Sub, rv_var("a"), rv_var("b")), rv_var("c"))
    );
    // a + b * c: multiplication binds tighter.
    let e = binary(vec![rv(var("a")), leaf(Rule::op_add, "+"), rv(var("b")), leaf(Rule::op_mul, "*"), rv(var("c"))]);
    assert_eq!(
        Expr::try_from_pair(&e).unwrap(),
        Expr::binary(BinaryOp::Add, rv_var("a"), Expr::binary(BinaryOp::Mul, rv_var("b"), rv_var("c")))
    );
    // a / b * c: division binds looser than multiplication.
    let e = binary(vec![rv(var("a")), leaf(Rule::op_div, "/"), rv(var("b")), leaf(Rule::op_mul, "*"), rv(var("c"))]);
    assert_eq!(
        Expr::try_from_pair(&e).unwrap(),
        Expr::binary(BinaryOp::Div, rv_var("a"), Expr::binary(BinaryOp::Mul, rv_var("b"), rv_var("c")))
    );
    // a or b and c == d
    let e = binary(vec![
        rv(var("a")), leaf(Rule::op_or, "or"), rv(var("b")), leaf(Rule::op_and, "and"), rv(var("c")),
        leaf(Rule::op_eq, "=="), rv(var("d")),
    ]);
    assert_eq!(
        Expr::try_from_pair(&e).unwrap(),
        Expr::binary(
            BinaryOp::Or,
            rv_var("a"),
            Expr::binary(BinaryOp::And, rv_var("b"), Expr::binary(BinaryOp::EQ, rv_var("c"), rv_var("d")))
        )
    );
    // Reading stops at the first operator position that holds no operator.
    let e = binary(vec![rv(var("a")), leaf(Rule::op_add, "+"), rv(var("b")), var("junk"), rv(var("c"))]);
    assert_eq!(Expr::try_from_pair(&e).unwrap(), Expr::binary(BinaryOp::Add, rv_var("a"), rv_var("b")));
    // An operator without a right operand is an error.
    let e = binary(vec![rv(var("a")), leaf(Rule::op_add, "+")]);
    assert!(Expr::try_from_pair(&e).is_err());
    assert!(Expr::try_from_pair(&binary(Vec::new())).is_err());
}

#[test]
fn unary_and_ternary_expressions() {
    let e = node(Rule::expr_unary, "-x", vec![leaf(Rule::op_inv, "-"), rv(var("x"))]);
    assert_eq!(Expr::try_from_pair(&e).unwrap(), Expr::unary(UnaryOp::Inv, rv_var("x")));
    let t = node(Rule::expr_ternary, "c ? a : b", vec![rv(var("c")), rv(var("a")), rv(var("b"))]);
    assert_eq!(Expr::try_from_pair(&t).unwrap(), Expr::ternary(rv_var("c"), rv_var("a"), rv_var("b")));
    let r = node(Rule::expr_unary, "-x", vec![leaf(Rule::op_inv, "-"), rv(var("x"))]);
    assert_eq!(RValue::try_from_pair(&r).unwrap(), RValue::Expr(Box::new(Expr::unary(UnaryOp::Inv, rv_var("x")))));
    let bad = node(Rule::expr_unary, "", vec![leaf(Rule::op_add, "+"), rv(var("x"))]);
    assert!(Expr::try_from_pair(&bad).is_err());
}

#[test]
fn l_value_nodes() {
    let lv = node(Rule::lv, "x", vec![var("x")]);
    assert_eq!(LValue::try_from_pair(&lv).unwrap(), LValue::Var("x".to_string(), false));
    let fix = node(Rule::var_fix, "fix y", vec![var("y")]);
    assert_eq!(LValue::try_from_pair(&fix).unwrap(), LValue::Var("y".to_string(), true));
    let p = node(Rule::lv_param, "d0.On", vec![node(Rule::dev_lit, "d0", vec![node(Rule::dev_base, "d0", vec![num("0")])]), leaf(Rule::param, "On")]);
    assert_eq!(
        LValue::try_from_pair(&p).unwrap(),
        LValue::Param(Dev::Lit(Box::new(RValue::Num(Num::Lit(F(0.0))))), "On".to_string())
    );
}

#[test]
fn statement_nodes() {
    let assign = node(Rule::stmt, "x, y = 1, z", vec![node(Rule::stmt_assign_value, "", vec![
        node(Rule::lv, "x", vec![var("x")]),
        node(Rule::lv, "y", vec![var("y")]),
        rv(num("1")),
        rv(var("z")),
    ])]);
    match Statement::try_from_pair(&assign).unwrap() {
        Statement::AssignValue(lvs, rvs) => {
            assert_eq!(lvs, vec![LValue::Var("x".to_string(), false), LValue::Var("y".to_string(), false)]);
            assert_eq!(rvs, vec![RValue::Num(Num::Lit(F(1.0))), RValue::Var("z".to_string())]);
        },
        s => panic!("{:?}", s),
    }
    let uneven = node(Rule::stmt_assign_value, "", vec![node(Rule::lv, "x", vec![var("x")])]);
    assert!(Statement::try_from_pair(&uneven).is_err());
    let add = node(Rule::stmt_assign_self, "x += 2", vec![node(Rule::lv, "x", vec![var("x")]), leaf(Rule::var, "+="), rv(num("2"))]);
    assert!(matches!(Statement::try_from_pair(&add).unwrap(), Statement::AssignSelf(BinaryOp::Add, _, _)));
    let rem = node(Rule::stmt_assign_self, "x %= 2", vec![node(Rule::lv, "x", vec![var("x")]), leaf(Rule::var, "%="), rv(num("2"))]);
    assert!(matches!(Statement::try_from_pair(&rem).unwrap(), Statement::AssignSelf(BinaryOp::Rem, _, _)));
    let odd = node(Rule::stmt_assign_self, "x %/ 2", vec![node(Rule::lv, "x", vec![var("x")]), leaf(Rule::var, "%/"), rv(num("2"))]);
    assert!(Statement::try_from_pair(&odd).is_err());
    let call = node(Rule::stmt_func_nullary, "yield()", vec![leaf(Rule::var, "yield")]);
    assert!(matches!(Statement::try_from_pair(&call).unwrap(), Statement::FunctionCall(FunctionCall::Nullary(ref n)) if n == "yield"));
    let sleep = node(Rule::stmt_func_unary, "sleep(1)", vec![leaf(Rule::var, "sleep"), rv(num("1"))]);
    assert!(matches!(Statement::try_from_pair(&sleep).unwrap(), Statement::FunctionCall(FunctionCall::Unary(ref n, RValue::Num(Num::Lit(F(x))))) if n == "sleep" && x == 1.0));
    let user = node(Rule::stmt_func_user, "f()", vec![leaf(Rule::var, "f")]);
    assert!(matches!(Statement::try_from_pair(&user).unwrap(), Statement::FunctionCall(FunctionCall::User(ref n)) if n == "f"));
}

#[test]
fn branch_nodes() {
    let b = node(Rule::branch, "if x:", vec![node(Rule::b_if, "if x:", vec![rv(var("x"))])]);
    assert!(matches!(Branch::try_from_pair(&b).unwrap(), Branch::If(0, Expr::RValue(RValue::Var(ref v))) if v == "x"));
    let f3 = node(Rule::b_for, "", vec![var("i"), rv(num("0")), rv(num("10"))]);
    assert!(matches!(Branch::try_from_pair(&f3).unwrap(), Branch::For(ref i, _, _, None) if i == "i"));
    let f4 = node(Rule::b_for, "", vec![var("i"), rv(num("0")), rv(num("10")), rv(num("2"))]);
    assert!(matches!(Branch::try_from_pair(&f4).unwrap(), Branch::For(_, _, _, Some(_))));
    let f5 = node(Rule::b_for, "", vec![var("i"), rv(num("0")), rv(num("10")), rv(num("2")), rv(num("3"))]);
    assert!(matches!(Branch::try_from_pair(&f5), Err(MypsLexerError::AstError(AstError::ExcessPairs))));
    let d = node(Rule::b_def, "def f:", vec![var("f")]);
    assert!(matches!(Branch::try_from_pair(&d).unwrap(), Branch::Def(ref n) if n == "f"));
    assert!(matches!(Branch::try_from_pair(&leaf(Rule::b_else, "else:")).unwrap(), Branch::Else(0)));
    assert!(matches!(Branch::try_from_pair(&leaf(Rule::b_loop, "loop:")).unwrap(), Branch::Loop));
}

fn stmt_yield() -> PairTree<F> {
    node(Rule::stmt, "yield()", vec![node(Rule::stmt_func_nullary, "yield()", vec![leaf(Rule::var, "yield")])])
}

#[test]
fn line_nodes() {
    let line = node(Rule::line, "", vec![
        leaf(Rule::indent, "    "),
        leaf(Rule::indent, "    "),
        node(Rule::item, "yield()", vec![stmt_yield()]),
        leaf(Rule::comment, "# wait"),
    ]);
    let (indent, item, comment) = parse_line_pair(&line).unwrap().unwrap();
    assert_eq!(indent, 2);
    assert_eq!(item.rule, Rule::stmt);
    assert_eq!(comment, Some("# wait".to_string()));
    assert!(matches!(read_item(item), LineItem::Stmt(_)));
    assert!(parse_line_pair(&node(Rule::line, "", vec![leaf(Rule::empty, "")])).unwrap().is_none());
    assert!(parse_line_pair(&leaf(Rule::EOI, "")).unwrap().is_none());
    assert!(parse_line_pair(&node(Rule::line, "", vec![leaf(Rule::indent, "")])).is_err());
    assert!(parse_line_pair(&node(Rule::line, "", vec![var("x")])).is_err());
    assert!(parse_line_pair(&var("x")).is_err());
}

fn program() -> PairTree<F> {
    node(Rule::program, "", vec![
        node(Rule::line, "", vec![node(Rule::item, "loop:", vec![node(Rule::branch, "loop:", vec![leaf(Rule::b_loop, "loop:")])])]),
        node(Rule::line, "", vec![leaf(Rule::indent, "    "), node(Rule::item, "yield()", vec![stmt_yield()])]),
        node(Rule::line, "", vec![leaf(Rule::empty, "")]),
        leaf(Rule::EOI, ""),
    ])
}

#[test]
fn program_nodes() {
    let lines = read_lines(&program()).unwrap();
    assert_eq!(lines.len(), 2);
    assert!(matches!(lines[0].item, LineItem::Branch(Branch::Loop)));
    assert_eq!(lines[1].indent, 1);
    let (item, functions) = lex_program_pair(&program()).unwrap();
    assert!(functions.is_empty());
    match item.item_inner {
        ItemInner::Block(block) => {
            assert!(matches!(block.branch, Branch::Program));
            assert_eq!(block.items.len(), 1);
            match &block.items[0].item_inner {
                ItemInner::Block(inner) => {
                    assert!(matches!(inner.branch, Branch::Loop));
                    assert_eq!(inner.items.len(), 1);
                },
                _ => panic!("expected the loop block"),
            }
        },
        _ => panic!("expected the program block"),
    }
    let bad = node(Rule::program, "", vec![var("x")]);
    assert!(lex_program_pair(&bad).is_err());
}

#[test]
fn unreadable_statement_fails_at_its_line() {
    let bad_stmt = node(Rule::stmt, "", vec![node(Rule::stmt_func_user, "", Vec::new())]);
    let p = node(Rule::program, "", vec![node(Rule::line, "", vec![node(Rule::item, "", vec![bad_stmt])])]);
    let lines = read_lines(&p).unwrap();
    assert!(matches!(lines[0].item, LineItem::Failed(MypsLexerError::AstError(AstError::InsufficientPairs))));
    assert!(matches!(lex_program_pair(&p), Err(MypsLexerError::AstError(AstError::InsufficientPairs))));
}

#[test]
fn translate_program_tree() {
    let conf = TranslatorConf { show_empty: false, show_comments: false, show_empty_comments: false };
    let t = Translator::parse_lex_and_translate(conf, &program()).unwrap();
    assert!(!t.units.is_empty());
}

fn lit_expr(x: f64) -> Expr<F> {
    Expr::RValue(RValue::Num(Num::Lit(F(x))))
}

#[test]
fn binary_expr() {
    // "(1 + (2 - 3 * 4) / 5) * 6": each parenthesized expression is a binary expression node.
    let inner = binary(vec![rv(num("2")), leaf(Rule::op_sub, "-"), rv(num("3")), leaf(Rule::op_mul, "*"), rv(num("4"))]);
    let middle = binary(vec![rv(num("1")), leaf(Rule::op_add, "+"), inner, leaf(Rule::op_div, "/"), rv(num("5"))]);
    let outer = binary(vec![middle, leaf(Rule::op_mul, "*"), rv(num("6"))]);
    let ast = Expr::try_from_pair(&outer).unwrap();
    let ans = Expr::binary(
        BinaryOp::Mul,
        Expr::binary(
            BinaryOp::Add,
            lit_expr(1.0),
            Expr::binary(
                BinaryOp::Div,
                Expr::binary(BinaryOp::Sub, lit_expr(2.0), Expr::binary(BinaryOp::Mul, lit_expr(3.0), lit_expr(4.0))),
                lit_expr(5.0),
            ),
        ),
        lit_expr(6.0),
    );
    assert_eq!(ast, ans);
}

fn call_line(name: &str) -> PairTree<F> {
    node(Rule::line, "", vec![node(Rule::item, name, vec![node(Rule::stmt, name, vec![
        node(Rule::stmt_func_nullary, name, vec![leaf(Rule::var, name)]),
    ])])])
}

#[test]
fn program_of_calls_translates_to_those_instructions() {
    let p = node(Rule::program, "", vec![call_line("yield"), call_line("hcf"), leaf(Rule::EOI, "")]);
    let conf = TranslatorConf { show_empty: false, show_comments: false, show_empty_comments: false };
    let t = Translator::parse_lex_and_translate(conf, &p).unwrap();
    let names: Vec<String> = t.units.iter().map(|u| format!("{:?}", u.unit_expr)).collect();
    assert_eq!(names, vec!["Yield([])".to_string(), "Hcf([])".to_string()]);
}
