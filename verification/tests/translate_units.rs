use myps::lexer::ast::{
    BinaryOp, Block, Branch, Dev, Expr, FunctionCall, Item, LValue, Literal, Num, RValue, Statement,
    UnaryOp,
};
use myps::lexer::error::MypsLexerError;
use myps::translator::optimize::registers::var_to_reg_optimizer_map;
use myps::translator::units::{TranslatorConf, Unit, UnitArg, UnitDevNet, UnitExpr, UnitNum, UnitVar};
use myps::translator::Translator;

#[derive(Clone, Copy, Debug, PartialEq)]
struct F(f64);

fn flag(b: bool) -> F {
    if b {
        F(1.0)
    } else {
        F(0.0)
    }
}

impl Literal for F {
    fn from_int(n: i64) -> Self {
        F(n as f64)
    }
    fn one() -> Self {
        F(1.0)
    }
    fn fold(op: BinaryOp, l: Self, r: Self) -> Self {
        match op {
            BinaryOp::Add => F(l.0 + r.0),
            BinaryOp::Sub => F(l.0 - r.0),
            BinaryOp::Mul => F(l.0 * r.0),
            BinaryOp::Div => F(l.0 / r.0),
            BinaryOp::Rem => F(l.0.rem_euclid(r.0)),
            BinaryOp::EQ => flag(l.0 == r.0),
            BinaryOp::GE => flag(l.0 >= r.0),
            BinaryOp::GT => flag(l.0 > r.0),
            BinaryOp::LE => flag(l.0 <= r.0),
            BinaryOp::LT => flag(l.0 < r.0),
            BinaryOp::NE => flag(l.0 != r.0),
            BinaryOp::And => flag(l.0 != 0.0 && r.0 != 0.0),
            BinaryOp::Or => flag(l.0 != 0.0 || r.0 != 0.0),
            BinaryOp::Xor => flag((l.0 != 0.0) != (r.0 != 0.0)),
        }
    }
    fn fold_unary(op: UnaryOp, x: Self) -> Self {
        match op {
            UnaryOp::Inv => F(-x.0),
            UnaryOp::Not => flag(x.0 == 0.0),
        }
    }
    fn is_nonzero(self) -> bool {
        self.0 != 0.0
    }
    fn to_device(self) -> u64 {
        self.0 as u64
    }
    fn to_hash(self) -> i64 {
        self.0 as i64
    }
}

fn lit(x: f64) -> RValue<F> {
    RValue::Num(Num::Lit(F(x)))
}

fn stmt(s: Statement<F>) -> Item<F> {
    Item::statement(s, None)
}

fn assign(name: &str, fix: bool, rv: RValue<F>) -> Item<F> {
    stmt(Statement::AssignValue(vec![LValue::Var(name.to_string(), fix)], vec![rv]))
}

fn nullary(name: &str) -> Item<F> {
    stmt(Statement::FunctionCall(FunctionCall::Nullary(name.to_string())))
}

fn block(branch: Branch<F>, items: Vec<Item<F>>) -> Item<F> {
    Item::block(Block::new(branch, items), None)
}

fn program(items: Vec<Item<F>>) -> Item<F> {
    block(Branch::Program, items)
}

fn dev_param(index: f64, param: &str) -> RValue<F> {
    RValue::DevParam(Dev::Lit(Box::new(lit(index))), param.to_string())
}

fn translate(items: Vec<Item<F>>) -> Translator<F> {
    Translator::translate(TranslatorConf::default(), program(items), Vec::new()).unwrap()
}

fn unit_strings(t: &Translator<F>) -> Vec<String> {
    t.units.iter().map(|u| format!("{:?}", u.unit_expr)).collect()
}

#[test]
fn assign_literal_is_an_alias() {
    let t = translate(vec![assign("x", false, lit(5.0))]);
    assert!(t.units.is_empty());
    assert_eq!(t.var_next_id, 1);
    let last = t.aliases.last().unwrap();
    assert_eq!(format!("{:?}", last), "(String(\"x\"), Num(Lit(F(5.0))))");
}

#[test]
fn assign_fixed_literal_moves() {
    let t = translate(vec![assign("x", true, lit(5.0))]);
    assert_eq!(unit_strings(&t), vec!["Move([UnitVar(UnitVar(0)), UnitNum(Lit(F(5.0)))])"]);
    assert_eq!(t.vars_fixed, vec![0]);
}

#[test]
fn assign_folds_literals() {
    let sum = RValue::Expr(Box::new(Expr::binary(
        BinaryOp::Add,
        Expr::RValue(lit(2.0)),
        Expr::RValue(lit(3.0)),
    )));
    let t = translate(vec![assign("x", false, sum)]);
    assert!(t.units.is_empty());
    assert_eq!(format!("{:?}", t.aliases.last().unwrap()), "(String(\"x\"), Num(Lit(F(5.0))))");
}

#[test]
fn loop_jumps_back_over_its_body() {
    let t = translate(vec![block(Branch::Loop, vec![nullary("yield")])]);
    assert_eq!(unit_strings(&t), vec!["Yield([])", "Jr([UnitLine(Lit(-1))])"]);
}

#[test]
fn if_on_device_parameter_branches_on_zero() {
    let cond = Expr::RValue(dev_param(0.0, "On"));
    let t = translate(vec![block(Branch::If(0, cond), vec![nullary("yield")])]);
    assert_eq!(
        unit_strings(&t),
        vec![
            "L([UnitVar(UnitVar(0)), UnitDev(Lit(0)), String(\"On\")])",
            "Breqz([UnitNum(Var(UnitVar(0))), UnitLine(Lit(2))])",
            "Yield([])",
        ]
    );
}

#[test]
fn if_on_comparison_branches_on_the_negation() {
    let cond = Expr::binary(BinaryOp::GT, Expr::RValue(RValue::Var("x".to_string())), Expr::RValue(lit(1.0)));
    let t = translate(vec![assign("x", true, lit(5.0)), block(Branch::If(0, cond), vec![nullary("yield")])]);
    assert_eq!(
        unit_strings(&t),
        vec![
            "Move([UnitVar(UnitVar(0)), UnitNum(Lit(F(5.0)))])",
            "Brle([UnitNum(Var(UnitVar(0))), UnitNum(Lit(F(1.0))), UnitLine(Lit(2))])",
            "Yield([])",
        ]
    );
}

#[test]
fn user_function_call_jumps_to_its_line() {
    let f = Block::new(Branch::Function("f".to_string()), vec![nullary("yield")]);
    let call = stmt(Statement::FunctionCall(FunctionCall::User("f".to_string())));
    let t = Translator::translate(TranslatorConf::default(), program(vec![call]), vec![("f".to_string(), f, None)])
        .unwrap();
    assert_eq!(unit_strings(&t), vec!["Jal([UnitLine(Lit(1))])", "Yield([])", "J([UnitLine(RA)])"]);
    for u in &t.units {
        assert!(!format!("{:?}", u.unit_expr).contains("Indexed"));
    }
}

#[test]
fn undefined_user_function_is_a_statement_error() {
    let call = stmt(Statement::FunctionCall(FunctionCall::User("g".to_string())));
    let r = Translator::translate(TranslatorConf::default(), program(vec![call]), Vec::new());
    match r {
        Err(MypsLexerError::StmtError(_, e)) => {
            assert!(matches!(*e, MypsLexerError::UndefinedFunction(ref s) if s == "g"))
        }
        _ => panic!("expected an undefined function"),
    }
}

#[test]
fn unary_expression_is_unsupported() {
    let neg = RValue::Expr(Box::new(Expr::unary(UnaryOp::Not, Expr::RValue(lit(1.0)))));
    let r = Translator::translate(TranslatorConf::default(), program(vec![assign("x", false, neg)]), Vec::new());
    match r {
        Err(MypsLexerError::StmtError(_, e)) => assert!(matches!(*e, MypsLexerError::Unsupported(_))),
        _ => panic!("expected an unsupported construct"),
    }
}

#[test]
fn instructions_by_name() {
    let r = UnitExpr::<F>::try_from_pair("add".to_string(), vec![UnitArg::UnitVar(UnitVar(0))]);
    assert!(matches!(r, Err(MypsLexerError::WrongNumArgs(ref k, 3, 1)) if k == "add"));
    let r = UnitExpr::<F>::try_from_pair("foo".to_string(), vec![]);
    assert!(matches!(r, Err(MypsLexerError::UndefinedFunction(ref k)) if k == "foo"));
    assert!(matches!(UnitExpr::<F>::try_from_pair("empty".to_string(), vec![]), Ok(UnitExpr::Empty)));
    assert!(matches!(UnitExpr::<F>::try_from_pair("yield".to_string(), vec![]), Ok(UnitExpr::Yield(_))));
    let r = UnitExpr::<F>::try_from_pair("push".to_string(), vec![UnitArg::UnitNum(UnitNum::Lit(F(2.0)))]);
    assert_eq!(format!("{:?}", r.unwrap()), "Push([UnitNum(Lit(F(2.0)))])");
}

#[test]
fn overlapping_lifetimes_get_different_registers() {
    let lifetimes = vec![(0, 2), (1, 3), (4, 5)];
    let map = var_to_reg_optimizer_map(3, &lifetimes, &vec![]).unwrap();
    assert_eq!(map.len(), 3);
    assert_ne!(map[&0], map[&1]);
    assert!(map.values().all(|r| *r < 2));
}

#[test]
fn fixed_variables_keep_their_registers() {
    let lifetimes = vec![(0, 5), (1, 3), (2, 4)];
    let map = var_to_reg_optimizer_map(3, &lifetimes, &vec![0]).unwrap();
    assert_eq!(map[&0], 0);
    assert_ne!(map[&1], 0);
    assert_ne!(map[&2], 0);
    assert_ne!(map[&1], map[&2]);
}

#[test]
fn fixed_variables_not_first_are_coloured() {
    let lifetimes = vec![(0, 4), (1, 4), (2, 4)];
    let map = var_to_reg_optimizer_map(3, &lifetimes, &vec![1]).unwrap();
    assert_eq!(map.len(), 3);
    assert_eq!(map[&1], 1);
    let mut free = vec![map[&0], map[&2]];
    free.sort();
    assert_eq!(free, vec![0, 2]);
}

#[test]
fn touching_lifetimes_share_a_register() {
    let map = var_to_reg_optimizer_map(2, &vec![(0, 1), (1, 2)], &vec![]).unwrap();
    assert_eq!(map.len(), 2);
    assert_eq!(map[&0], 0);
    assert_eq!(map[&1], 0);
}

#[test]
fn disjoint_lifetimes_use_one_register() {
    let map = var_to_reg_optimizer_map(4, &vec![(0, 1), (2, 3), (4, 5), (6, 7)], &vec![3]).unwrap();
    assert_eq!(map[&3], 3);
    assert_eq!(map[&0], 0);
    assert_eq!(map[&1], 0);
    assert_eq!(map[&2], 0);
}

#[test]
fn optimize_registers_shares_registers() {
    let mut t = translate(vec![assign("a", false, dev_param(0.0, "On")), assign("b", false, dev_param(1.0, "On"))]);
    assert_eq!(
        unit_strings(&t),
        vec![
            "L([UnitVar(UnitVar(0)), UnitDev(Lit(0)), String(\"On\")])",
            "L([UnitVar(UnitVar(1)), UnitDev(Lit(1)), String(\"On\")])",
        ]
    );
    t.optimize_registers().unwrap();
    assert_eq!(
        unit_strings(&t),
        vec![
            "L([UnitVar(UnitVar(0)), UnitDev(Lit(0)), String(\"On\")])",
            "L([UnitVar(UnitVar(0)), UnitDev(Lit(1)), String(\"On\")])",
        ]
    );
}

#[test]
fn chain_tail_lies_depth_past_the_last_unit() {
    let cond = Expr::RValue(dev_param(0.0, "On"));
    let t = translate(vec![
        block(Branch::If(0, cond), vec![nullary("yield")]),
        block(Branch::Else(0), vec![nullary("yield")]),
    ]);
    // The if block leaves 3 units and records 3 + 3; the else block leaves 5 and records 5 + 2.
    assert_eq!(t.units.len(), 5);
    assert_eq!(t.branch_tails, vec![7]);
}

#[test]
fn arguments_change_in_place() {
    let mut unit = Unit::new(UnitExpr::new_add(UnitVar(0), UnitNum::Var(UnitVar(1)), UnitNum::Lit(F(2.0))), None);
    assert_eq!(unit.iter_args().len(), 3);
    if let Some(args) = unit.iter_args_mut() {
        args[0] = UnitArg::UnitVar(UnitVar(4));
    }
    assert_eq!(format!("{:?}", unit.unit_expr), "Add([UnitVar(UnitVar(4)), UnitNum(Var(UnitVar(1))), UnitNum(Lit(F(2.0)))])");
    if let Some(last) = unit.unit_expr.last_mut() {
        *last = UnitArg::UnitNum(UnitNum::Lit(F(3.0)));
    }
    assert_eq!(format!("{:?}", unit.unit_expr.last()), "Some(UnitNum(Lit(F(3.0))))");
    assert!(UnitExpr::<F>::Empty.last().is_none());
    let mut empty: Unit<F> = Unit::new(UnitExpr::Empty, None);
    assert!(empty.iter_args_mut().is_none());
    assert!(empty.iter_args().is_empty());
}

#[test]
fn for_loop_counts_up_to_its_end() {
    let for_branch = Branch::For("i".to_string(), Expr::RValue(lit(0.0)), Expr::RValue(lit(10.0)), None);
    let t = translate(vec![block(for_branch, vec![nullary("yield")])]);
    assert_eq!(
        unit_strings(&t),
        vec![
            "Move([UnitVar(UnitVar(0)), UnitNum(Lit(F(0.0)))])",
            "Yield([])",
            "Add([UnitVar(UnitVar(0)), UnitNum(Var(UnitVar(0))), UnitNum(Lit(F(1.0)))])",
            "Brlt([UnitNum(Var(UnitVar(0))), UnitNum(Lit(F(10.0))), UnitLine(Lit(-2))])",
        ]
    );
    assert_eq!(t.vars_fixed, vec![0]);
}

#[test]
fn if_on_equality_branches_when_not_equal() {
    let cond = Expr::binary(BinaryOp::EQ, Expr::RValue(RValue::Var("x".to_string())), Expr::RValue(lit(5.0)));
    let t = translate(vec![assign("x", true, lit(1.0)), block(Branch::If(0, cond), vec![nullary("yield")])]);
    assert_eq!(
        unit_strings(&t),
        vec![
            "Move([UnitVar(UnitVar(0)), UnitNum(Lit(F(1.0)))])",
            "Brne([UnitNum(Var(UnitVar(0))), UnitNum(Lit(F(5.0))), UnitLine(Lit(2))])",
            "Yield([])",
        ]
    );
}

#[test]
fn or_is_the_logical_instruction() {
    let v = UnitVar(0);
    let or = UnitExpr::<F>::new_or(v, UnitNum::Var(v), UnitNum::Lit(F(1.0)));
    assert!(or.is_logical());
    assert!(or.is_logical_or_select());
    let seq = UnitExpr::<F>::new_seq(v, UnitNum::Var(v), UnitNum::Lit(F(1.0)));
    assert!(!seq.is_logical());
    assert!(seq.is_logical_or_select());
    let add = UnitExpr::<F>::new_add(v, UnitNum::Var(v), UnitNum::Lit(F(1.0)));
    assert!(!add.is_logical());
}

#[test]
fn map_vars_renames_a_network_number() {
    let mut e = UnitExpr::<F>::new_sb(UnitDevNet::Num(UnitNum::Var(UnitVar(3))), "On".to_string(), UnitNum::Var(UnitVar(3)));
    let mut map = std::collections::HashMap::new();
    map.insert(3usize, 0usize);
    e.map_vars(&map);
    assert_eq!(
        format!("{:?}", e),
        "Sb([UnitDevNet(Num(Var(UnitVar(0)))), String(\"On\"), UnitNum(Var(UnitVar(0)))])"
    );
}

#[test]
fn binary_of_a_variable_and_a_literal_adds_them() {
    let sum = RValue::Expr(Box::new(Expr::binary(
        BinaryOp::Add,
        Expr::RValue(RValue::Var("x".to_string())),
        Expr::RValue(lit(1.0)),
    )));
    let t = translate(vec![assign("x", true, lit(5.0)), assign("y", false, sum)]);
    assert_eq!(
        unit_strings(&t),
        vec![
            "Move([UnitVar(UnitVar(0)), UnitNum(Lit(F(5.0)))])",
            "Add([UnitVar(UnitVar(1)), UnitNum(Var(UnitVar(0))), UnitNum(Lit(F(1.0)))])",
        ]
    );
}

#[test]
fn if_on_a_variable_skips_its_body_when_zero() {
    let cond = Expr::RValue(RValue::Num(Num::Var("x".to_string())));
    let t = translate(vec![
        assign("x", true, lit(5.0)),
        block(Branch::If(0, cond), vec![nullary("yield"), nullary("yield")]),
    ]);
    assert_eq!(
        unit_strings(&t),
        vec![
            "Move([UnitVar(UnitVar(0)), UnitNum(Lit(F(5.0)))])",
            "Breqz([UnitNum(Var(UnitVar(0))), UnitLine(Lit(3))])",
            "Yield([])",
            "Yield([])",
        ]
    );
}

#[test]
fn failed_if_branches_into_its_else() {
    let cond = Expr::RValue(RValue::Num(Num::Var("x".to_string())));
    let t = translate(vec![
        assign("x", true, lit(5.0)),
        block(Branch::If(0, cond), vec![nullary("yield")]),
        block(Branch::Else(0), vec![nullary("hcf")]),
    ]);
    let units = unit_strings(&t);
    assert_eq!(units.len(), 5);
    assert_eq!(units[1], "Breqz([UnitNum(Var(UnitVar(0))), UnitLine(Lit(3))])");
    assert_eq!(units[2], "Yield([])");
    assert!(units[3].starts_with("Jr("));
    assert_eq!(units[4], "Hcf([])");
}

#[test]
fn self_assignment_operates_on_its_variable() {
    let t = translate(vec![
        assign("x", true, lit(5.0)),
        stmt(Statement::AssignSelf(BinaryOp::Sub, LValue::Var("x".to_string(), false), lit(2.0))),
    ]);
    assert_eq!(
        unit_strings(&t),
        vec![
            "Move([UnitVar(UnitVar(0)), UnitNum(Lit(F(5.0)))])",
            "Sub([UnitVar(UnitVar(0)), UnitNum(Var(UnitVar(0))), UnitNum(Lit(F(2.0)))])",
        ]
    );
}

#[test]
fn store_to_the_housing_writes_the_value() {
    let t = translate(vec![stmt(Statement::AssignValue(
        vec![LValue::Param(Dev::DB, "Setting".to_string())],
        vec![lit(3.0)],
    ))]);
    assert_eq!(unit_strings(&t), vec!["S([UnitDev(DB), String(\"Setting\"), UnitNum(Lit(F(3.0)))])"]);
}

#[test]
fn chains_keep_clear_of_function_tails() {
    let f = Block::new(Branch::Function("f".to_string()), vec![nullary("yield")]);
    let call = stmt(Statement::FunctionCall(FunctionCall::User("f".to_string())));
    let cond = Expr::RValue(RValue::Num(Num::Lit(F(1.0))));
    let items = vec![block(Branch::If(0, cond), vec![nullary("yield")]), call];
    let t = Translator::translate(TranslatorConf::default(), program(items), vec![("f".to_string(), f, None)]).unwrap();
    let units = unit_strings(&t);
    assert_eq!(units[2], "Jal([UnitLine(Lit(3))])");
    assert_eq!(units[3], "Yield([])");
    assert_eq!(units[4], "J([UnitLine(RA)])");
    assert_eq!(t.branch_tails.len(), 2);
    assert_eq!(t.branch_tails[0], 3);
}

#[test]
fn while_loop_tests_then_jumps_back() {
    let cond = Expr::RValue(RValue::Num(Num::Var("x".to_string())));
    let t = translate(vec![assign("x", true, lit(1.0)), block(Branch::While(cond), vec![nullary("yield")])]);
    assert_eq!(
        unit_strings(&t),
        vec![
            "Move([UnitVar(UnitVar(0)), UnitNum(Lit(F(1.0)))])",
            "Breqz([UnitNum(Var(UnitVar(0))), UnitLine(Lit(3))])",
            "Yield([])",
            "Jr([UnitLine(Lit(-2))])",
        ]
    );
}

#[test]
fn folded_literals_add_no_depth() {
    let sum = RValue::Expr(Box::new(Expr::binary(
        BinaryOp::Add,
        Expr::RValue(lit(1.0)),
        Expr::RValue(lit(2.0)),
    )));
    let t = translate(vec![block(Branch::Loop, vec![assign("x", false, sum), nullary("yield")])]);
    assert_eq!(unit_strings(&t), vec!["Yield([])", "Jr([UnitLine(Lit(-1))])"]);
}

#[test]
fn a_load_takes_the_pending_comment() {
    let conf = TranslatorConf { show_comments: true, ..TranslatorConf::default() };
    let load = Item::statement(
        Statement::AssignValue(vec![LValue::Var("x".to_string(), false)], vec![dev_param(0.0, "On")]),
        Some("# c".to_string()),
    );
    let t = Translator::translate(conf, program(vec![load]), Vec::new()).unwrap();
    assert_eq!(t.units.len(), 1);
    assert_eq!(t.units[0].comment, Some("# c".to_string()));
}

#[test]
fn each_call_jumps_to_the_first_line_of_its_function() {
    let f = Block::new(Branch::Function("f".to_string()), vec![nullary("yield")]);
    let g = Block::new(Branch::Function("g".to_string()), vec![nullary("yield"), nullary("yield")]);
    let call_g = stmt(Statement::FunctionCall(FunctionCall::User("g".to_string())));
    let call_f = stmt(Statement::FunctionCall(FunctionCall::User("f".to_string())));
    let fs = vec![("f".to_string(), f, None), ("g".to_string(), g, None)];
    let t = Translator::translate(TranslatorConf::default(), program(vec![call_g, call_f]), fs).unwrap();
    assert_eq!(
        unit_strings(&t),
        vec![
            "Jal([UnitLine(Lit(4))])",
            "Jal([UnitLine(Lit(2))])",
            "Yield([])",
            "J([UnitLine(RA)])",
            "Yield([])",
            "Yield([])",
            "J([UnitLine(RA)])",
        ]
    );
}

#[test]
fn else_jump_takes_the_recorded_chain_tail() {
    let cond = Expr::RValue(lit(0.0));
    let t = translate(vec![
        block(Branch::If(0, cond), vec![nullary("yield")]),
        block(Branch::Else(0), vec![nullary("yield")]),
    ]);
    // The if block skips its body and the else block's jump; the else block records its
    // tail as 4 units plus its depth of 2, which the relative jump takes as it is.
    assert_eq!(
        unit_strings(&t),
        vec![
            "Breqz([UnitNum(Lit(F(0.0))), UnitLine(Lit(3))])",
            "Yield([])",
            "Jr([UnitLine(Lit(6))])",
            "Yield([])",
        ]
    );
}

#[test]
fn an_expression_unit_ends_the_lifetimes_it_uses() {
    let sum = RValue::Expr(Box::new(Expr::binary(
        BinaryOp::Add,
        Expr::RValue(RValue::Var("x".to_string())),
        Expr::RValue(lit(1.0)),
    )));
    let t = translate(vec![assign("x", true, lit(5.0)), assign("y", true, sum)]);
    assert_eq!(unit_strings(&t)[1], "Add([UnitVar(UnitVar(1)), UnitNum(Var(UnitVar(0))), UnitNum(Lit(F(1.0)))])");
    assert_eq!(t.var_lifetimes, vec![(0, 1), (1, 1)]);
}
