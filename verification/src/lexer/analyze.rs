//! Checks that the names a MYPS program reads are defined aliases, and collects the user
//! functions it calls.
use vstd::prelude::*;

use super::ast::{Block, Branch, Dev, Expr, FunctionCall, Item, ItemInner, Literal, Num, RValue, Statement};
use super::error::{MypsLexerError, MypsLexerResult};

verus! {

/// `k` is one of the names in `names`.
pub open spec fn defined(names: Seq<String>, k: Seq<char>) -> bool {
    exists|i: int| 0 <= i < names.len() && (#[trigger] names[i])@ == k
}

/// Whether `names` holds `k`.
pub fn contains_name(names: &Vec<String>, k: &String) -> (b: bool)
    ensures
        b == defined(names@, k@),
{
    let mut i: usize = 0;
    while i < names.len()
        invariant
            i <= names.len(),
            forall|j: int| 0 <= j < i ==> (#[trigger] names@[j])@ != k@,
        decreases names.len() - i,
    {
        if names[i] == *k {
            return true;
        }
        i = i + 1;
    }
    false
}

/// Adds `k` to `names` unless it is there already.
pub fn insert_name(names: &mut Vec<String>, k: &String)
    ensures
        forall|x: Seq<char>| defined(final(names)@, x) <==> (defined(old(names)@, x) || x == k@),
{
    if !contains_name(names, k) {
        names.push(k.clone());
        assert forall|x: Seq<char>| (defined(old(names)@, x) || x == k@) implies defined(
            final(names)@,
            x,
        ) by {
            if x == k@ {
                assert(final(names)@[final(names)@.len() - 1]@ == k@);
            } else if defined(old(names)@, x) {
                let i = choose|i: int| 0 <= i < old(names)@.len() && (#[trigger] old(names)@[i])@ == x;
                assert(final(names)@[i] == old(names)@[i]);
            }
        }
        assert forall|x: Seq<char>| defined(final(names)@, x) implies (defined(old(names)@, x) || x
            == k@) by {
            let i = choose|i: int| 0 <= i < final(names)@.len() && (#[trigger] final(names)@[i])@ == x;
            if i < old(names)@.len() {
                assert(old(names)@[i] == final(names)@[i]);
            }
        }
    }
}

pub open spec fn num_ok<L>(n: Num<L>, names: Seq<String>) -> bool {
    n matches Num::Var(k) ==> defined(names, k@)
}

pub open spec fn dev_ok<L>(d: Dev<L>, names: Seq<String>) -> bool {
    d matches Dev::Var(k) ==> defined(names, k@)
}

/// Every name that an r-value reads is defined (the index of a literal or network device
/// is not looked into).
pub open spec fn rv_ok<L>(rv: RValue<L>, names: Seq<String>) -> bool
    decreases rv,
{
    match rv {
        RValue::Num(n) => num_ok(n, names),
        RValue::Dev(d) => dev_ok(d, names),
        RValue::DevParam(d, _) => dev_ok(d, names),
        RValue::NetParam(d, _, _) => dev_ok(d, names),
        RValue::DevSlot(d, _, _) => dev_ok(d, names),
        RValue::Expr(e) => expr_ok(*e, names),
        RValue::Func(_, v) => forall|i: int| 0 <= i < v@.len() ==> rv_ok(#[trigger] v@[i], names),
        RValue::Var(k) => defined(names, k@),
    }
}

/// Every name that an expression reads is defined.
pub open spec fn expr_ok<L>(e: Expr<L>, names: Seq<String>) -> bool
    decreases e,
{
    match e {
        Expr::RValue(rv) => rv_ok(rv, names),
        Expr::Unary { rhs, .. } => expr_ok(*rhs, names),
        Expr::Binary { lhs, rhs, .. } => expr_ok(*lhs, names) && expr_ok(*rhs, names),
        Expr::Ternary { cond, if_t, if_f } => expr_ok(*cond, names) && expr_ok(*if_t, names)
            && expr_ok(*if_f, names),
    }
}

/// Every name that a block header reads is defined (a `for` step is not looked into).
pub open spec fn branch_ok<L>(b: Branch<L>, names: Seq<String>) -> bool {
    match b {
        Branch::If(_, e) => expr_ok(e, names),
        Branch::Elif(_, e) => expr_ok(e, names),
        Branch::While(e) => expr_ok(e, names),
        Branch::For(_, s, e, _) => expr_ok(s, names) && expr_ok(e, names),
        _ => true,
    }
}

/// Every name that a statement reads is defined (l-values are not looked into).
pub open spec fn stmt_ok<L>(s: Statement<L>, names: Seq<String>) -> bool {
    match s {
        Statement::AssignValue(_, rvs) => forall|i: int|
            0 <= i < rvs@.len() ==> rv_ok(#[trigger] rvs@[i], names),
        Statement::AssignSelf(_, _, rv) => rv_ok(rv, names),
        _ => true,
    }
}

/// Every name that an item reads is defined.
pub open spec fn item_ok<L>(item: Item<L>, names: Seq<String>) -> bool
    decreases item,
{
    match item.item_inner {
        ItemInner::Stmt(s) => stmt_ok(s, names),
        ItemInner::Block(b) => branch_ok(b.branch, names) && forall|i: int|
            0 <= i < b.items@.len() ==> item_ok(#[trigger] b.items@[i], names),
    }
}

/// The user function `k` is called in `item`.
pub open spec fn calls<L>(item: Item<L>, k: Seq<char>) -> bool
    decreases item,
{
    match item.item_inner {
        ItemInner::Stmt(Statement::FunctionCall(FunctionCall::User(name))) => name@ == k,
        ItemInner::Stmt(_) => false,
        ItemInner::Block(b) => exists|i: int|
            0 <= i < b.items@.len() && calls(#[trigger] b.items@[i], k),
    }
}

fn check_name(names: &Vec<String>, k: &String) -> (r: MypsLexerResult<()>)
    ensures
        r is Ok <==> defined(names@, k@),
        r matches Err(e) ==> (e matches MypsLexerError::UndefinedAlias(s) && s@ == k@),
{
    if contains_name(names, k) {
        Ok(())
    } else {
        Err(MypsLexerError::undefined_alias(k))
    }
}

impl<L: Literal> Num<L> {
    /// Checks that a number variable is a defined alias.
    pub fn analyze(&self, aliases: &Vec<String>) -> (r: MypsLexerResult<()>)
        ensures
            r is Ok <==> num_ok(*self, aliases@),
            r matches Err(e) ==> e is UndefinedAlias,
    {
        match self {
            Num::Var(k) => check_name(aliases, k),
            _ => Ok(()),
        }
    }
}

impl<L: Literal> Dev<L> {
    /// Checks that a device variable is a defined alias.
    pub fn analyze(&self, aliases: &Vec<String>) -> (r: MypsLexerResult<()>)
        ensures
            r is Ok <==> dev_ok(*self, aliases@),
            r matches Err(e) ==> e is UndefinedAlias,
    {
        match self {
            Dev::Var(k) => check_name(aliases, k),
            _ => Ok(()),
        }
    }
}

impl<L: Literal> RValue<L> {
    /// Checks that every name the r-value reads is a defined alias.
    pub fn analyze(&self, aliases: &Vec<String>) -> (r: MypsLexerResult<()>)
        ensures
            r is Ok <==> rv_ok(*self, aliases@),
            r matches Err(e) ==> e is UndefinedAlias,
        decreases self,
    {
        match self {
            RValue::Num(num) => num.analyze(aliases),
            RValue::Dev(dev) => dev.analyze(aliases),
            RValue::DevParam(dev, ..) => dev.analyze(aliases),
            RValue::NetParam(dev, ..) => dev.analyze(aliases),
            RValue::DevSlot(dev, ..) => dev.analyze(aliases),
            RValue::Expr(expr) => expr.analyze(aliases),
            RValue::Func(_, r_values) => {
                let mut i: usize = 0;
                while i < r_values.len()
                    invariant
                        *self == RValue::Func(self->Func_0, *r_values),
                        i <= r_values.len(),
                        forall|j: int| 0 <= j < i ==> rv_ok(#[trigger] r_values@[j], aliases@),
                    decreases r_values.len() - i,
                {
                    proof {
                        assert(decreases_to!(*self => (*self)->Func_1));
                        assert(decreases_to!(*r_values => r_values[i as int]));
                    }
                    let r = r_values[i].analyze(aliases);
                    if r.is_err() {
                        return r;
                    }
                    i = i + 1;
                }
                Ok(())
            },
            RValue::Var(k) => check_name(aliases, k),
        }
    }
}

impl<L: Literal> Expr<L> {
    /// Checks that every name the expression reads is a defined alias.
    pub fn analyze(&self, aliases: &Vec<String>) -> (r: MypsLexerResult<()>)
        ensures
            r is Ok <==> expr_ok(*self, aliases@),
            r matches Err(e) ==> e is UndefinedAlias,
        decreases self,
    {
        match self {
            Expr::Unary { rhs, .. } => rhs.analyze(aliases),
            Expr::Binary { lhs, rhs, .. } => {
                lhs.analyze(aliases)?;
                rhs.analyze(aliases)
            },
            Expr::Ternary { cond, if_t, if_f } => {
                cond.analyze(aliases)?;
                if_t.analyze(aliases)?;
                if_f.analyze(aliases)
            },
            Expr::RValue(rv) => rv.analyze(aliases),
        }
    }
}

impl<L: Literal> Branch<L> {
    /// Checks that every name the header reads is a defined alias.
    pub fn analyze(&self, aliases: &Vec<String>) -> (r: MypsLexerResult<()>)
        ensures
            r is Ok <==> branch_ok(*self, aliases@),
            r matches Err(e) ==> e is UndefinedAlias,
    {
        match self {
            Branch::If(_, expr) => expr.analyze(aliases),
            Branch::Elif(_, expr) => expr.analyze(aliases),
            Branch::While(expr) => expr.analyze(aliases),
            Branch::For(_, s_expr, e_expr, _) => {
                s_expr.analyze(aliases)?;
                e_expr.analyze(aliases)
            },
            _ => Ok(()),
        }
    }
}

impl<L: Literal> Statement<L> {
    /// Checks that every name the statement reads is a defined alias, and adds the user
    /// function it calls, if any, to `called_functions`.
    pub fn analyze(&self, aliases: &Vec<String>, called_functions: &mut Vec<String>) -> (r:
        MypsLexerResult<()>)
        ensures
            r is Ok <==> stmt_ok(*self, aliases@),
            r matches Err(e) ==> e is UndefinedAlias,
            forall|k: Seq<char>|
                defined(final(called_functions)@, k) <==> (defined(old(called_functions)@, k) || (
                *self matches Statement::FunctionCall(FunctionCall::User(name)) && name@ == k)),
    {
        match self {
            Statement::AssignValue(_, r_values) => {
                let mut i: usize = 0;
                while i < r_values.len()
                    invariant
                        *self == Statement::AssignValue(self->AssignValue_0, *r_values),
                        *called_functions == *old(called_functions),
                        i <= r_values.len(),
                        forall|j: int| 0 <= j < i ==> rv_ok(#[trigger] r_values@[j], aliases@),
                    decreases r_values.len() - i,
                {
                    let r = r_values[i].analyze(aliases);
                    if r.is_err() {
                        assert(!rv_ok(r_values@[i as int], aliases@));
                        assert((*self)->AssignValue_1 == *r_values);
                        assert(!rv_ok((*self)->AssignValue_1@[i as int], aliases@));
                        assert(!stmt_ok(*self, aliases@));
                        return r;
                    }
                    i = i + 1;
                }
                Ok(())
            },
            Statement::AssignSelf(_, _, r_value) => r_value.analyze(aliases),
            Statement::FunctionCall(FunctionCall::User(name)) => {
                insert_name(called_functions, name);
                Ok(())
            },
            _ => Ok(()),
        }
    }
}


impl<L: Literal> Block<L> {
    /// Checks every item of the block, then its header; collects the user functions called.
    pub fn analyze(&self, aliases: &Vec<String>, called_functions: &mut Vec<String>) -> (r:
        MypsLexerResult<()>)
        ensures
            r is Ok <==> item_ok(Item { comment: None, item_inner: ItemInner::Block(*self) }, aliases@),
            r matches Err(e) ==> e is UndefinedAlias,
            r is Ok ==> forall|k: Seq<char>|
                defined(final(called_functions)@, k) <==> (defined(old(called_functions)@, k)
                    || calls(Item { comment: None, item_inner: ItemInner::Block(*self) }, k)),
        decreases self, 0int,
    {
        let ghost whole = Item { comment: None, item_inner: ItemInner::Block(*self) };
        let mut i: usize = 0;
        while i < self.items.len()
            invariant
                whole == (Item { comment: None, item_inner: ItemInner::Block(*self) }),
                i <= self.items.len(),
                forall|j: int| 0 <= j < i ==> item_ok(#[trigger] self.items@[j], aliases@),
                forall|k: Seq<char>|
                    defined(called_functions@, k) <==> (defined(old(called_functions)@, k) || exists|j: int|
                        0 <= j < i && calls(#[trigger] self.items@[j], k)),
            decreases self.items.len() - i,
        {
            proof {
                assert(decreases_to!(*self => self.items));
                assert(decreases_to!(self.items => self.items[i as int]));
            }
            let r = self.items[i].analyze(aliases, called_functions);
            if r.is_err() {
                assert(!item_ok(whole, aliases@));
                return r;
            }
            proof {
                assert forall|k: Seq<char>| defined(called_functions@, k) <==> (defined(
                    old(called_functions)@,
                    k,
                ) || exists|j: int| 0 <= j < i + 1 && calls(#[trigger] self.items@[j], k)) by {
                    if exists|j: int| 0 <= j < i + 1 && calls(#[trigger] self.items@[j], k) {
                        let j = choose|j: int| 0 <= j < i + 1 && calls(#[trigger] self.items@[j], k);
                        if j < i {
                        }
                    }
                }
            }
            i = i + 1;
        }
        let r = self.branch.analyze(aliases);
        proof {
            assert forall|k: Seq<char>| calls(whole, k) <==> exists|j: int|
                0 <= j < self.items@.len() && calls(#[trigger] self.items@[j], k) by {}
        }
        r
    }
}

impl<L: Literal> Item<L> {
    /// Checks the item; collects the user functions it calls.
    pub fn analyze(&self, aliases: &Vec<String>, called_functions: &mut Vec<String>) -> (r:
        MypsLexerResult<()>)
        ensures
            r is Ok <==> item_ok(*self, aliases@),
            r matches Err(e) ==> e is UndefinedAlias,
            r is Ok ==> forall|k: Seq<char>|
                defined(final(called_functions)@, k) <==> (defined(old(called_functions)@, k)
                    || calls(*self, k)),
        decreases self, 1int,
    {
        match &self.item_inner {
            ItemInner::Block(block) => {
                proof {
                    assert(decreases_to!(*self => self.item_inner));
                    assert(decreases_to!(self.item_inner => *block));
                }
                block.analyze(aliases, called_functions)
            },
            ItemInner::Stmt(stmt) => stmt.analyze(aliases, called_functions),
        }
    }
}

} // verus!
