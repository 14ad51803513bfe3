use myps::lexer::ast::{Block, Branch, Expr, FunctionCall, Item, ItemInner, Literal, BinaryOp, UnaryOp, Num, RValue, Statement};
use myps::lexer::error::MypsLexerError;
use myps::lexer::program::{check_program, compile_program_item, lex_lines, Line, LineItem};

#[derive(Clone, Copy, Debug, PartialEq)]
struct F(f64);

impl Literal for F {
    fn from_int(n: i64) -> Self {
        F(n as f64)
    }
    fn one() -> Self {
        F(1.0)
    }
    fn fold(_op: BinaryOp, l: Self, _r: Self) -> Self {
        l
    }
    fn fold_unary(_op: UnaryOp, x: Self) -> Self {
        x
    }
    fn is_nonzero(self) -> bool {
        self.0 != 0.0
    }
    fn to_device(self) -> u64 {
        self.0 as u64
    }
    fn to_hash(self) -> i64 {
        self.0 as i64
    }
}

fn call_line(indent: usize, name: &str) -> Line<F> {
    Line {
        indent,
        item: LineItem::Stmt(Statement::FunctionCall(FunctionCall::Nullary(name.to_string()))),
        comment: None,
    }
}

fn user_call_line(indent: usize, name: &str) -> Line<F> {
    Line {
        indent,
        item: LineItem::Stmt(Statement::FunctionCall(FunctionCall::User(name.to_string()))),
        comment: None,
    }
}

fn branch_line(indent: usize, branch: Branch<F>) -> Line<F> {
    Line { indent, item: LineItem::Branch(branch), comment: None }
}

fn one() -> Expr<F> {
    Expr::RValue(RValue::Num(Num::Lit(F(1.0))))
}

fn program_items(item: &Item<F>) -> &Vec<Item<F>> {
    match &item.item_inner {
        ItemInner::Block(Block { branch: Branch::Program, items }) => items,
        _ => panic!("not a program block"),
    }
}

#[test]
fn flat_lines_stay_in_order() {
    let lines = vec![call_line(0, "yield"), call_line(0, "hcf")];
    let (item, functions) = compile_program_item(lines).unwrap();
    assert!(functions.is_empty());
    let items = program_items(&item);
    assert_eq!(items.len(), 2);
    assert!(format!("{:?}", items[0]).contains("yield"));
    assert!(format!("{:?}", items[1]).contains("hcf"));
}

#[test]
fn indented_lines_nest_under_their_header() {
    let lines = vec![
        branch_line(0, Branch::Loop),
        call_line(4, "yield"),
        call_line(4, "hcf"),
        call_line(0, "yield"),
    ];
    let (item, _) = compile_program_item(lines).unwrap();
    let items = program_items(&item);
    assert_eq!(items.len(), 2);
    match &items[0].item_inner {
        ItemInner::Block(Block { branch: Branch::Loop, items }) => assert_eq!(items.len(), 2),
        _ => panic!("expected a loop block"),
    }
}

#[test]
fn if_elif_else_share_the_chain_index() {
    let lines = vec![
        branch_line(0, Branch::If(9, one())),
        call_line(1, "yield"),
        branch_line(0, Branch::Elif(9, one())),
        call_line(1, "yield"),
        branch_line(0, Branch::Else(9)),
        call_line(1, "yield"),
        branch_line(0, Branch::If(9, one())),
        call_line(1, "yield"),
    ];
    let (item, _) = compile_program_item(lines).unwrap();
    let ids: Vec<Option<usize>> = program_items(&item).iter().map(|i| i.if_elif_else_index()).collect();
    assert_eq!(ids, vec![Some(0), Some(0), Some(0), Some(1)]);
}

#[test]
fn else_takes_the_chain_it_follows() {
    let lines = vec![
        branch_line(0, Branch::If(9, one())),
        call_line(1, "yield"),
        branch_line(0, Branch::If(9, one())),
        call_line(1, "yield"),
        branch_line(0, Branch::Elif(9, one())),
        call_line(1, "yield"),
        branch_line(0, Branch::Else(9)),
        call_line(1, "yield"),
    ];
    let (item, _) = compile_program_item(lines).unwrap();
    let ids: Vec<Option<usize>> = program_items(&item).iter().map(|i| i.if_elif_else_index()).collect();
    assert_eq!(ids, vec![Some(0), Some(1), Some(1), Some(1)]);
}

#[test]
fn missing_indent_is_an_error() {
    let lines = vec![branch_line(0, Branch::Loop), call_line(0, "yield")];
    assert!(matches!(compile_program_item(lines), Err(MypsLexerError::ExpectedIndent(1))));
}

#[test]
fn unknown_indent_is_an_error() {
    let lines = vec![branch_line(0, Branch::Loop), call_line(4, "yield"), call_line(2, "yield")];
    assert!(matches!(compile_program_item(lines), Err(MypsLexerError::WrongIndent(0, 2))));
}

#[test]
fn misplaced_elif_and_else_are_errors() {
    let lines = vec![call_line(0, "yield"), branch_line(0, Branch::Elif(0, one())), call_line(1, "yield")];
    assert!(matches!(compile_program_item(lines), Err(MypsLexerError::MisplacedElif)));
    let lines = vec![branch_line(0, Branch::Else(0)), call_line(1, "yield")];
    assert!(matches!(compile_program_item(lines), Err(MypsLexerError::MisplacedElse)));
}

#[test]
fn functions_are_taken_out() {
    let lines = vec![
        branch_line(0, Branch::Def("f".to_string())),
        call_line(1, "yield"),
        user_call_line(0, "f"),
    ];
    let (item, functions) = lex_lines(lines).unwrap();
    assert_eq!(program_items(&item).len(), 1);
    assert_eq!(functions.len(), 1);
    assert_eq!(functions[0].0, "f");
    assert!(matches!(&functions[0].1.branch, Branch::Function(name) if name == "f"));
}

#[test]
fn redefined_and_nested_functions_are_errors() {
    let lines = vec![
        branch_line(0, Branch::Def("f".to_string())),
        call_line(1, "yield"),
        branch_line(0, Branch::Def("f".to_string())),
        call_line(1, "yield"),
    ];
    assert!(matches!(compile_program_item(lines), Err(MypsLexerError::RedefinedFunction(ref s)) if s == "f"));
    let lines = vec![
        branch_line(0, Branch::Loop),
        branch_line(1, Branch::Def("g".to_string())),
        call_line(2, "yield"),
    ];
    assert!(matches!(compile_program_item(lines), Err(MypsLexerError::NestedFunction(ref s)) if s == "g"));
}

#[test]
fn function_block_lines_are_refused() {
    let lines = vec![branch_line(0, Branch::Function("f".to_string()))];
    assert!(matches!(compile_program_item(lines), Err(MypsLexerError::WrongRule(_))));
}

#[test]
fn calls_of_undefined_functions_are_refused() {
    let lines = vec![user_call_line(0, "f")];
    assert!(matches!(lex_lines(lines), Err(MypsLexerError::UndefinedFunction(ref s)) if s == "f"));
    let lines = vec![
        branch_line(0, Branch::Def("f".to_string())),
        user_call_line(1, "g"),
        user_call_line(0, "f"),
    ];
    assert!(matches!(lex_lines(lines), Err(MypsLexerError::UndefinedFunction(ref s)) if s == "g"));
}

#[test]
fn reading_a_name_is_refused() {
    let read = Statement::AssignValue(
        vec![myps::lexer::ast::LValue::<F>::Var("x".to_string(), false)],
        vec![RValue::Var("y".to_string())],
    );
    let item: Item<F> = Item::block(Block::new(Branch::Program, vec![Item::statement(read, None)]), None);
    assert!(matches!(check_program(&item, &Vec::new()), Err(MypsLexerError::UndefinedAlias(ref s)) if s == "y"));
}

#[test]
fn functions_reached_through_functions_are_checked() {
    let lines = vec![
        branch_line(0, Branch::Def("f".to_string())),
        user_call_line(1, "g"),
        branch_line(0, Branch::Def("g".to_string())),
        user_call_line(1, "h"),
        user_call_line(0, "f"),
    ];
    assert!(matches!(lex_lines(lines), Err(MypsLexerError::UndefinedFunction(ref s)) if s == "h"));
    let lines = vec![
        branch_line(0, Branch::Def("f".to_string())),
        user_call_line(1, "g"),
        branch_line(0, Branch::Def("g".to_string())),
        user_call_line(1, "f"),
        user_call_line(0, "f"),
    ];
    let (_, functions) = lex_lines(lines).unwrap();
    assert_eq!(functions.len(), 2);
}
