//! Translation of MYPS items into IC10 units.
pub mod units;
pub mod optimize;

use vstd::prelude::*;

use crate::lexer::error::{MypsLexerError, MypsLexerResult};
use crate::lexer::nodes::{program_heads, statement_is};
use crate::lexer::program::{flat_heads, lex_program_pair, stmt_accepted, Functions};
use crate::lexer::tree::{PairTree, Rule};
use crate::lexer::ast::{
    BinaryOp, Block, Branch, Dev, Expr, FunctionCall, Int, Item, ItemInner, Literal, LValue, Num,
    RVFunc, RValue, Statement,
};
use optimize::registers::{allocates, fewest, lowest_free, reuses, var_to_reg_optimizer_map};
use units::{
    all_resolvable, name_code, code_arity, TranslatorConf, Unit, UnitAlias, UnitAliasKey, UnitArg, UnitDev, UnitDevNet, UnitExpr, UnitLine,
    UnitNum, UnitReturn, UnitVar,
};

verus! {

/// An alias key as a mathematical value: a variable number or a name.
pub enum KeyView {
    Var(usize),
    Name(Seq<char>),
}

pub open spec fn key_view(k: UnitAliasKey) -> KeyView {
    match k {
        UnitAliasKey::Var(x) => KeyView::Var(x.0),
        UnitAliasKey::String(s) => KeyView::Name(s@),
    }
}

/// The alias of `k`: the one inserted last under that key.
pub open spec fn find_alias<L>(aliases: Seq<(UnitAliasKey, UnitAlias<L>)>, k: KeyView) -> Option<
    UnitAlias<L>,
>
    decreases aliases.len(),
{
    if aliases.len() == 0 {
        None
    } else if key_view(aliases.last().0) == k {
        Some(aliases.last().1)
    } else {
        find_alias(aliases.drop_last(), k)
    }
}

/// Whether two alias keys are the same.
fn keys_equal(a: &UnitAliasKey, b: &UnitAliasKey) -> (r: bool)
    ensures
        r == (key_view(*a) == key_view(*b)),
{
    match (a, b) {
        (UnitAliasKey::Var(x), UnitAliasKey::Var(y)) => x.0 == y.0,
        (UnitAliasKey::String(s), UnitAliasKey::String(t)) => *s == *t,
        _ => false,
    }
}

/// `a + b`, or an error where it does not fit.
fn add_depth(a: usize, b: usize) -> (r: MypsLexerResult<usize>)
    ensures
        r matches Ok(x) ==> x == a + b,
        r is Err <==> a + b > usize::MAX,
        r matches Err(e) ==> e is DepthOverflow,
{
    if a <= usize::MAX - b {
        Ok(a + b)
    } else {
        Err(MypsLexerError::DepthOverflow)
    }
}

/// The state of translation: the units so far, the aliases in scope, the variables handed
/// out with their lifetimes (the first and last unit index that uses each), the variables
/// that keep their register, the tail line of each if-elif-else chain and function, and the
/// index of each function among those tails.
#[derive(Debug)]
pub struct Translator<L> {
    pub units: Vec<Unit<L>>,
    pub aliases: Vec<(UnitAliasKey, UnitAlias<L>)>,
    pub var_next_id: usize,
    pub var_lifetimes: Vec<(usize, usize)>,
    pub vars_fixed: Vec<usize>,
    pub branch_tails: Vec<usize>,
    pub line_lookup: Vec<(String, usize)>,
    pub conf: TranslatorConf,
}

impl<L: Literal> Translator<L> {
    /// Each handed-out variable has a lifetime, which starts no later than it ends and ends
    /// no later than the units so far.
    pub open spec fn wf(&self) -> bool {
        &&& self.var_lifetimes@.len() == self.var_next_id
        &&& forall|i: int|
            0 <= i < self.var_lifetimes@.len() ==> (#[trigger] self.var_lifetimes@[i]).0
                <= self.var_lifetimes@[i].1 <= self.units@.len()
    }

    /// A translation step of statements or items from `old`: the state stays well formed,
    /// the units before stay as they were (others may follow), and the function lookup and
    /// configuration stay.
    pub open spec fn progresses(&self, old: &Self) -> bool {
        &&& self.wf()
        &&& old.units@.len() <= self.units@.len()
        &&& forall|i: int| 0 <= i < old.units@.len() ==> #[trigger] self.units@[i] == old.units@[i]
        &&& self.line_lookup == old.line_lookup
        &&& self.conf == old.conf
        &&& old.branch_tails@.len() <= self.branch_tails@.len()
    }

    /// Whether a variable can be had for the name `k`: a fixed one, or one that `k` does
    /// not alias yet, is new, so one must be left; an aliased one must be handed out.
    pub open spec fn var_available(&self, k: Seq<char>, fix: bool) -> bool {
        if fix || !(self.alias(KeyView::Name(k)) matches Some(UnitAlias::Var(_))) {
            self.var_next_id < usize::MAX
        } else {
            self.alias(KeyView::Name(k))->0->Var_0.0 < self.var_next_id
        }
    }

    /// The alias of `k` now.
    pub open spec fn alias(&self, k: KeyView) -> Option<UnitAlias<L>> {
        find_alias(self.aliases@, k)
    }

    /// The aliases, the fixed variables, the tails, the function lookup and the
    /// configuration are as in `old`.
    pub open spec fn same_scope(&self, old: &Self) -> bool {
        &&& self.aliases == old.aliases
        &&& self.vars_fixed == old.vars_fixed
        &&& self.branch_tails == old.branch_tails
        &&& self.line_lookup == old.line_lookup
        &&& self.conf == old.conf
    }

    /// The units of `old` are still there, and others may follow them; no variable was
    /// given back.
    pub open spec fn appends(&self, old: &Self) -> bool {
        &&& old.units@.len() <= self.units@.len()
        &&& forall|i: int| 0 <= i < old.units@.len() ==> #[trigger] self.units@[i] == old.units@[i]
        &&& old.var_next_id <= self.var_next_id
    }

    /// A translation step of an r-value or expression from `old`: the state stays well
    /// formed, in the same scope, and units are only appended.
    pub open spec fn evolves(&self, old: &Self) -> bool {
        &&& self.wf()
        &&& self.same_scope(old)
        &&& self.appends(old)
    }

    /// The units added since `old`.
    pub open spec fn added(&self, old: &Self) -> int {
        self.units@.len() - old.units@.len()
    }

    /// A translator with nothing translated yet.
    pub fn new(conf: TranslatorConf) -> (t: Self)
        ensures
            t.wf(),
            t.units@.len() == 0,
            t.aliases@.len() == 0,
            t.var_next_id == 0,
            t.vars_fixed@.len() == 0,
            t.branch_tails@.len() == 0,
            t.line_lookup@.len() == 0,
            t.conf == conf,
    {
        Self {
            units: Vec::new(),
            aliases: Vec::new(),
            var_next_id: 0,
            var_lifetimes: Vec::new(),
            vars_fixed: Vec::new(),
            branch_tails: Vec::new(),
            line_lookup: Vec::new(),
            conf,
        }
    }

    /// Appends a unit; its comment only where comments are shown.
    fn push_unit(&mut self, unit_expr: UnitExpr<L>, comment: Option<String>)
        requires
            old(self).wf(),
        ensures
            final(self).wf(),
            final(self).appends(old(self)),
            final(self).units@.len() == old(self).units@.len() + 1,
            final(self).units@.drop_last() == old(self).units@,
            final(self).units@.last().unit_expr == unit_expr,
            final(self).units@.last().comment == (if old(self).conf.show_comments {
                comment
            } else {
                None
            }),
            final(self).aliases == old(self).aliases,
            final(self).var_next_id == old(self).var_next_id,
            final(self).var_lifetimes == old(self).var_lifetimes,
            final(self).vars_fixed == old(self).vars_fixed,
            final(self).branch_tails == old(self).branch_tails,
            final(self).line_lookup == old(self).line_lookup,
            final(self).conf == old(self).conf,
    {
        if self.conf.show_comments {
            self.units.push(Unit::new(unit_expr, comment));
        } else {
            self.units.push(Unit::new(unit_expr, None));
        }
        assert(self.units@.drop_last() == old(self).units@);
    }

    /// Hands out a new variable, whose lifetime starts and ends at the next unit.
    fn next_var(&mut self) -> (v: UnitVar)
        requires
            old(self).wf(),
            old(self).var_next_id < usize::MAX,
        ensures
            final(self).wf(),
            v.0 == old(self).var_next_id,
            final(self).var_next_id == old(self).var_next_id + 1,
            final(self).var_lifetimes@ == old(self).var_lifetimes@.push(
                (old(self).units@.len() as usize, old(self).units@.len() as usize),
            ),
            final(self).units == old(self).units,
            final(self).aliases == old(self).aliases,
            final(self).vars_fixed == old(self).vars_fixed,
            final(self).branch_tails == old(self).branch_tails,
            final(self).line_lookup == old(self).line_lookup,
            final(self).conf == old(self).conf,
    {
        let var = UnitVar(self.var_next_id);
        let line = self.units.len();
        self.var_lifetimes.push((line, line));
        self.var_next_id = self.var_next_id + 1;
        var
    }

    /// Gives back the last variable handed out.
    fn delete_last_var(&mut self)
        requires
            old(self).wf(),
            old(self).var_next_id > 0,
        ensures
            final(self).wf(),
            final(self).var_next_id == old(self).var_next_id - 1,
            final(self).var_lifetimes@ == old(self).var_lifetimes@.drop_last(),
            final(self).units == old(self).units,
            final(self).aliases == old(self).aliases,
            final(self).vars_fixed == old(self).vars_fixed,
            final(self).branch_tails == old(self).branch_tails,
            final(self).line_lookup == old(self).line_lookup,
            final(self).conf == old(self).conf,
    {
        self.var_next_id = self.var_next_id - 1;
        self.var_lifetimes.pop();
    }

    /// Extends the lifetime of `var` to the next unit. A variable that was given back has no
    /// lifetime: that is an error.
    fn update_lifetime(&mut self, var: UnitVar) -> (r: MypsLexerResult<()>)
        requires
            old(self).wf(),
        ensures
            final(self).wf(),
            r is Ok <==> var.0 < old(self).var_next_id,
            r matches Err(e) ==> e == MypsLexerError::UndefinedVar(var.0),
            r is Ok ==> final(self).var_lifetimes@ == old(self).var_lifetimes@.update(
                var.0 as int,
                (old(self).var_lifetimes@[var.0 as int].0, old(self).units@.len() as usize),
            ),
            r is Err ==> final(self).var_lifetimes == old(self).var_lifetimes,
            final(self).var_next_id == old(self).var_next_id,
            final(self).units == old(self).units,
            final(self).aliases == old(self).aliases,
            final(self).vars_fixed == old(self).vars_fixed,
            final(self).branch_tails == old(self).branch_tails,
            final(self).line_lookup == old(self).line_lookup,
            final(self).conf == old(self).conf,
    {
        if var.0 < self.var_lifetimes.len() {
            let start = self.var_lifetimes[var.0].0;
            let line = self.units.len();
            self.var_lifetimes.set(var.0, (start, line));
            Ok(())
        } else {
            Err(MypsLexerError::UndefinedVar(var.0))
        }
    }

    /// Extends the lifetime of the variable of `num`, if it is one.
    fn update_num_lifetime(&mut self, num: UnitNum<L>) -> (r: MypsLexerResult<()>)
        requires
            old(self).wf(),
        ensures
            final(self).wf(),
            r is Err <==> (num matches UnitNum::Var(v) && v.0 >= old(self).var_next_id),
            r is Ok ==> (num matches UnitNum::Var(v) ==> final(self).var_lifetimes@ == old(self).var_lifetimes@.update(
                v.0 as int,
                (old(self).var_lifetimes@[v.0 as int].0, old(self).units@.len() as usize),
            )),
            num is Lit ==> final(self).var_lifetimes == old(self).var_lifetimes,
            final(self).var_next_id == old(self).var_next_id,
            final(self).units == old(self).units,
            final(self).aliases == old(self).aliases,
            final(self).vars_fixed == old(self).vars_fixed,
            final(self).branch_tails == old(self).branch_tails,
            final(self).line_lookup == old(self).line_lookup,
            final(self).conf == old(self).conf,
    {
        match num {
            UnitNum::Var(var) => self.update_lifetime(var),
            UnitNum::Lit(_) => Ok(()),
        }
    }

    /// The given variable (its lifetime extended), or else a new one.
    fn unwrap_var(&mut self, unit_var: Option<UnitVar>) -> (r: MypsLexerResult<UnitVar>)
        requires
            old(self).wf(),
        ensures
            final(self).wf(),
            match unit_var {
                Some(v) => (r is Ok <==> v.0 < old(self).var_next_id) && (r matches Ok(w) ==> w
                    == v) && final(self).var_next_id == old(self).var_next_id,
                None => (r is Ok <==> old(self).var_next_id < usize::MAX) && (r matches Ok(w) ==> w.0
                    == old(self).var_next_id && final(self).var_next_id == old(self).var_next_id
                    + 1),
            },
            r is Err ==> final(self).var_next_id == old(self).var_next_id,
            r matches Ok(w) ==> final(self).var_lifetimes@[w.0 as int].1 == old(self).units@.len() as usize,
            old(self).var_next_id <= final(self).var_next_id,
            final(self).units == old(self).units,
            final(self).aliases == old(self).aliases,
            final(self).vars_fixed == old(self).vars_fixed,
            final(self).branch_tails == old(self).branch_tails,
            final(self).line_lookup == old(self).line_lookup,
            final(self).conf == old(self).conf,
    {
        match unit_var {
            Some(unit_var) => {
                self.update_lifetime(unit_var)?;
                Ok(unit_var)
            },
            None => {
                if self.var_next_id == usize::MAX {
                    return Err(MypsLexerError::DepthOverflow);
                }
                Ok(self.next_var())
            },
        }
    }

    /// Sets the alias of `k`.
    fn insert_alias(&mut self, k: UnitAliasKey, alias: UnitAlias<L>)
        requires
            old(self).wf(),
        ensures
            final(self).wf(),
            final(self).aliases@ == old(self).aliases@.push((k, alias)),
            forall|k2: KeyView| #[trigger] final(self).alias(k2) == if key_view(k) == k2 {
                Some(alias)
            } else {
                old(self).alias(k2)
            },
            final(self).var_next_id == old(self).var_next_id,
            final(self).var_lifetimes == old(self).var_lifetimes,
            final(self).units == old(self).units,
            final(self).vars_fixed == old(self).vars_fixed,
            final(self).branch_tails == old(self).branch_tails,
            final(self).line_lookup == old(self).line_lookup,
            final(self).conf == old(self).conf,
    {
        self.aliases.push((k, alias));
        assert(self.aliases@.drop_last() == old(self).aliases@);
    }

    /// The alias of `k`, if any.
    fn find(&self, k: &UnitAliasKey) -> (r: Option<UnitAlias<L>>)
        ensures
            r == self.alias(key_view(*k)),
    {
        let mut i: usize = self.aliases.len();
        assert(self.aliases@.take(i as int) == self.aliases@);
        while i > 0
            invariant
                i <= self.aliases@.len(),
                find_alias(self.aliases@, key_view(*k)) == find_alias(self.aliases@.take(i as int), key_view(*k)),
            decreases i,
        {
            let ghost s = self.aliases@.take(i as int);
            assert(s.drop_last() == self.aliases@.take(i - 1));
            if keys_equal(&self.aliases[i - 1].0, k) {
                return Some(self.aliases[i - 1].1);
            }
            i = i - 1;
        }
        None
    }

    /// The alias of the name `k`; the lifetime of an aliased variable is extended.
    fn lookup_alias(&mut self, k: &String) -> (r: MypsLexerResult<UnitAlias<L>>)
        requires
            old(self).wf(),
        ensures
            final(self).wf(),
            final(self).same_scope(old(self)),
            final(self).units == old(self).units,
            final(self).var_next_id == old(self).var_next_id,
            match old(self).alias(KeyView::Name(k@)) {
                None => r matches Err(MypsLexerError::UndefinedAlias(s)) && s@ == k@,
                Some(UnitAlias::Var(v)) => (r is Ok <==> v.0 < old(self).var_next_id) && (r is Ok
                    ==> r == Ok::<UnitAlias<L>, MypsLexerError>(UnitAlias::Var(v))),
                Some(a) => r == Ok::<UnitAlias<L>, MypsLexerError>(a),
            },
    {
        let key = UnitAliasKey::String(k.clone());
        match self.find(&key) {
            None => Err(MypsLexerError::undefined_alias(k)),
            Some(alias) => {
                if let UnitAlias::Var(unit_var) = alias {
                    self.update_lifetime(unit_var)?;
                }
                Ok(alias)
            },
        }
    }

    /// The number that the name `k` aliases.
    fn lookup_num(&mut self, k: &String) -> (r: MypsLexerResult<UnitNum<L>>)
        requires
            old(self).wf(),
        ensures
            final(self).wf(),
            final(self).same_scope(old(self)),
            final(self).units == old(self).units,
            final(self).var_next_id == old(self).var_next_id,
            r is Ok <==> (old(self).alias(KeyView::Name(k@)) matches Some(a) && alias_num(a) is Some
                && alias_defined(a, old(self).var_next_id)),
            r matches Ok(n) ==> Some(n) == alias_num(old(self).alias(KeyView::Name(k@))->0),
    {
        let alias = self.lookup_alias(k)?;
        match alias {
            UnitAlias::Num(unit_num) => Ok(unit_num),
            UnitAlias::Var(var) => Ok(UnitNum::Var(var)),
            _ => Err(MypsLexerError::failed_conversion("an aliased unit number")),
        }
    }

    /// The device that the name `k` aliases.
    fn lookup_dev(&mut self, k: &String) -> (r: MypsLexerResult<UnitDev>)
        requires
            old(self).wf(),
        ensures
            final(self).wf(),
            final(self).same_scope(old(self)),
            final(self).units == old(self).units,
            final(self).var_next_id == old(self).var_next_id,
            r is Ok <==> (old(self).alias(KeyView::Name(k@)) matches Some(a) && alias_dev(a) is Some
                && alias_defined(a, old(self).var_next_id)),
            r matches Ok(d) ==> Some(d) == alias_dev(old(self).alias(KeyView::Name(k@))->0),
    {
        let alias = self.lookup_alias(k)?;
        match alias {
            UnitAlias::Dev(unit_dev) => Ok(unit_dev),
            UnitAlias::Var(var) => Ok(UnitDev::Var(var)),
            _ => Err(MypsLexerError::failed_conversion("an aliased unit device")),
        }
    }

    /// The network that the name `k` aliases.
    fn lookup_dev_net(&mut self, k: &String) -> (r: MypsLexerResult<UnitDevNet<L>>)
        requires
            old(self).wf(),
        ensures
            final(self).wf(),
            final(self).same_scope(old(self)),
            final(self).units == old(self).units,
            final(self).var_next_id == old(self).var_next_id,
            r is Ok <==> (old(self).alias(KeyView::Name(k@)) matches Some(a) && alias_net(a) is Some
                && alias_defined(a, old(self).var_next_id)),
            r matches Ok(d) ==> Some(d) == alias_net(old(self).alias(KeyView::Name(k@))->0),
    {
        let alias = self.lookup_alias(k)?;
        match alias {
            UnitAlias::Net(unit_dev_net) => Ok(unit_dev_net),
            UnitAlias::Var(var) => Ok(UnitDevNet::Var(var)),
            _ => Err(MypsLexerError::failed_conversion("an aliased unit network device")),
        }
    }

    /// The variable that the name `k` aliases.
    fn lookup_var(&mut self, k: &String) -> (r: MypsLexerResult<UnitVar>)
        requires
            old(self).wf(),
        ensures
            final(self).wf(),
            final(self).same_scope(old(self)),
            final(self).units == old(self).units,
            final(self).var_next_id == old(self).var_next_id,
            r is Ok <==> (old(self).alias(KeyView::Name(k@)) matches Some(UnitAlias::Var(v)) && v.0
                < old(self).var_next_id),
            r matches Ok(v) ==> old(self).alias(KeyView::Name(k@)) == Some(UnitAlias::<L>::Var(v)),
    {
        let alias = self.lookup_alias(k)?;
        match alias {
            UnitAlias::Var(unit_var) => Ok(unit_var),
            _ => Err(MypsLexerError::failed_conversion("an aliased unit var")),
        }
    }

    /// The variable for a name that is assigned: a new, fixed one if `fix`; else the variable
    /// the name aliases, or a new one.
    fn get_var(&mut self, k: &String, fix: bool) -> (r: MypsLexerResult<UnitVar>)
        requires
            old(self).wf(),
        ensures
            final(self).wf(),
            final(self).aliases == old(self).aliases,
            final(self).branch_tails == old(self).branch_tails,
            final(self).line_lookup == old(self).line_lookup,
            final(self).conf == old(self).conf,
            final(self).units == old(self).units,
            old(self).var_next_id <= final(self).var_next_id,
            r is Ok <==> old(self).var_available(k@, fix),
            r matches Ok(v) ==> v.0 < final(self).var_next_id,
            r matches Ok(v) ==> if fix || !(old(self).alias(KeyView::Name(k@)) matches Some(UnitAlias::Var(_))) {
                v.0 == old(self).var_next_id && final(self).var_next_id == old(self).var_next_id + 1
            } else {
                old(self).alias(KeyView::Name(k@)) == Some(UnitAlias::<L>::Var(v))
                    && final(self).var_next_id == old(self).var_next_id
            },
            r is Ok ==> final(self).vars_fixed@ == if fix {
                old(self).vars_fixed@.push(r->Ok_0.0)
            } else {
                old(self).vars_fixed@
            },
            r is Err ==> final(self).vars_fixed == old(self).vars_fixed,
    {
        let unit_var = if fix {
            if self.var_next_id == usize::MAX {
                return Err(MypsLexerError::DepthOverflow);
            }
            self.next_var()
        } else {
            let key = UnitAliasKey::String(k.clone());
            let uv = match self.find(&key) {
                Some(alias) => alias.try_as_var(),
                None => None,
            };
            self.unwrap_var(uv)?
        };
        self.update_lifetime(unit_var)?;
        if fix {
            self.vars_fixed.push(unit_var.0);
        }
        Ok(unit_var)
    }

    /// Translates an integer node to a number.
    fn translate_int(&mut self, int_node: Int) -> (r: MypsLexerResult<UnitNum<L>>)
        requires
            old(self).wf(),
        ensures
            final(self).wf(),
            final(self).same_scope(old(self)),
            final(self).units == old(self).units,
            final(self).var_next_id == old(self).var_next_id,
            int_node is Lit ==> r is Ok,
            match int_node {
                Int::Lit(_) => true,
                Int::Var(k) => (r is Ok <==> (old(self).alias(KeyView::Name(k@)) matches Some(a)
                    && alias_num(a) is Some && alias_defined(a, old(self).var_next_id))) && (r matches Ok(n)
                    ==> Some(n) == alias_num(old(self).alias(KeyView::Name(k@))->0)),
            },
    {
        match int_node {
            Int::Lit(n) => Ok(UnitNum::Lit(L::from_int(n))),
            Int::Var(k) => self.lookup_num(&k),
        }
    }

    /// Translates a device node (not a network) to a device.
    fn translate_dev(&mut self, dev: Dev<L>) -> (r: MypsLexerResult<(UnitDev, usize)>)
        requires
            old(self).wf(),
        ensures
            final(self).evolves(old(self)),
            r matches Ok((_, depth)) ==> depth == final(self).added(old(self)),
            dev is DB ==> r == Ok::<(UnitDev, usize), MypsLexerError>((UnitDev::DB, 0usize)) && *final(self) == *old(self),
            dev is Var ==> final(self).var_next_id == old(self).var_next_id,
            dev is Net ==> r is Err,
            dev matches Dev::Var(k) ==> (r is Ok <==> (old(self).alias(KeyView::Name(k@)) matches Some(a)
                && alias_dev(a) is Some && alias_defined(a, old(self).var_next_id))) && (r matches Ok((d, depth))
                ==> Some(d) == alias_dev(old(self).alias(KeyView::Name(k@))->0) && depth == 0),
        decreases dev, 1nat,
    {
        match dev {
            Dev::Lit(id_r_value) => {
                let mut none: Option<String> = None;
                let (rtn, num_depth) = self.translate_r_value(*id_r_value, None, &mut none)?;
                let unit_dev = match rtn {
                    UnitReturn::Num(UnitNum::Lit(n)) => UnitDev::Lit(n.to_device()),
                    UnitReturn::Num(UnitNum::Var(v)) => UnitDev::Var(v),
                    UnitReturn::Var(v) => UnitDev::Var(v),
                    _ => {
                        return Err(MypsLexerError::failed_conversion("a unit number variant unit return"));
                    },
                };
                Ok((unit_dev, num_depth))
            },
            Dev::Var(k) => {
                let d = self.lookup_dev(&k)?;
                Ok((d, 0))
            },
            Dev::DB => Ok((UnitDev::DB, 0)),
            Dev::Net(_) => Err(MypsLexerError::unsupported("a network where a device is expected")),
        }
    }

    /// Translates a network device node to a network.
    fn translate_dev_net(&mut self, dev: Dev<L>) -> (r: MypsLexerResult<(UnitDevNet<L>, usize)>)
        requires
            old(self).wf(),
        ensures
            final(self).evolves(old(self)),
            r matches Ok((_, depth)) ==> depth == final(self).added(old(self)),
            (dev is DB || dev is Lit) ==> r is Err,
            dev matches Dev::Var(k) ==> (r is Ok <==> (old(self).alias(KeyView::Name(k@)) matches Some(a)
                && alias_net(a) is Some && alias_defined(a, old(self).var_next_id))) && (r matches Ok((d, depth))
                ==> Some(d) == alias_net(old(self).alias(KeyView::Name(k@))->0) && depth == 0),
        decreases dev, 1nat,
    {
        match dev {
            Dev::Net(hash_r_value) => {
                let mut none: Option<String> = None;
                let (rtn, num_depth) = self.translate_r_value(*hash_r_value, None, &mut none)?;
                let unit_dev_net = match rtn {
                    UnitReturn::Num(UnitNum::Lit(n)) => UnitDevNet::Lit(n.to_hash()),
                    UnitReturn::Num(UnitNum::Var(v)) => UnitDevNet::Var(v),
                    UnitReturn::Var(v) => UnitDevNet::Var(v),
                    _ => {
                        return Err(MypsLexerError::failed_conversion("a unit number variant unit return"));
                    },
                };
                Ok((unit_dev_net, num_depth))
            },
            Dev::Var(k) => {
                let d = self.lookup_dev_net(&k)?;
                Ok((d, 0))
            },
            _ => Err(MypsLexerError::unsupported("a device where a network is expected")),
        }
    }

    /// Translates an r-value: reads of devices and functions become units that load into
    /// `unit_var` (or a new variable); numbers, devices and aliases are returned as they are.
    /// The first unit pushed takes the comment.
    fn translate_r_value(&mut self, r_value: RValue<L>, unit_var: Option<UnitVar>, comment: &mut Option<
        String,
    >) -> (r: MypsLexerResult<(UnitReturn<L>, usize)>)
        requires
            old(self).wf(),
        ensures
            final(self).evolves(old(self)),
            r matches Ok((_, depth)) ==> depth == final(self).added(old(self)),
            *final(comment) is None || *final(comment) == *old(comment),
            r_value matches RValue::Num(Num::Lit(n)) ==> r == Ok::<(UnitReturn<L>, usize), MypsLexerError>(
                (UnitReturn::Num(UnitNum::Lit(n)), 0usize)) && *final(self) == *old(self) && *final(comment) == *old(comment),
            r_value matches RValue::Num(Num::Var(k)) ==> (r is Ok <==> (old(self).alias(KeyView::Name(k@)) matches Some(a)
                && alias_num(a) is Some && alias_defined(a, old(self).var_next_id))) && (r matches Ok((ret, depth))
                ==> Some(ret) == ret_num(alias_num(old(self).alias(KeyView::Name(k@))->0)) && depth == 0
                && final(self).var_next_id == old(self).var_next_id),
            r_value matches RValue::Dev(Dev::DB) ==> r == Ok::<(UnitReturn<L>, usize), MypsLexerError>(
                (UnitReturn::Dev(UnitDev::DB), 0usize)),
            r_value matches RValue::Var(k) ==> (r is Ok <==> (old(self).alias(KeyView::Name(k@)) matches Some(a)
                && alias_defined(a, old(self).var_next_id))) && (r matches Ok((ret, depth))
                ==> ret == alias_return(old(self).alias(KeyView::Name(k@))->0) && depth == 0
                && final(self).var_next_id == old(self).var_next_id),
            r_value matches RValue::Var(k) ==> (old(self).alias(KeyView::Name(k@)) is None ==> (r matches Err(
                MypsLexerError::UndefinedAlias(s)) && s@ == k@ && final(self).units == old(self).units
                && final(self).var_next_id == old(self).var_next_id)),
            loads(r_value) ==> (r matches Ok((ret, depth)) ==> ret matches UnitReturn::Var(w) && var_target(
                w,
                unit_var,
                old(self).var_next_id,
            ) && final(self).added(old(self)) >= 1 && load_instr(r_value, final(self).units@.last().unit_expr)
                && final(self).units@.last().unit_expr.args()[0] == UnitArg::<L>::UnitVar(w)),
            (r_value is NetParam || r_value is DevParam || r_value is DevSlot) ==> (r is Ok ==> *final(comment) is None
                && final(self).units@.last().comment == (if old(self).conf.show_comments {
                *old(comment)
            } else {
                None
            })),
            r_value matches RValue::DevParam(dev, _) ==> (dev_leaf(old(self), dev) is Some && (dev matches Dev::Var(k)
                ==> alias_defined(old(self).alias(KeyView::Name(k@))->0, old(self).var_next_id)) ==> (r is Ok <==> (
            unit_var matches Some(v) ==> v.0 < old(self).var_next_id) && (unit_var is None ==> old(self).var_next_id
                < usize::MAX)) && (r matches Ok((ret, depth)) ==> depth == 1 && ret == UnitReturn::<L>::Var(
                match unit_var {
                    Some(v) => v,
                    None => UnitVar(old(self).var_next_id),
                },
            ))),
            r_value matches RValue::DevParam(dev, param) ==> (r is Ok ==> final(self).units@.last().unit_expr.args().len()
                == 3 && final(self).units@.last().unit_expr.args()[2] == UnitArg::<L>::String(param) && (dev_leaf(
                old(self),
                dev,
            ) matches Some(d) ==> final(self).units@.last().unit_expr.args()[1] == UnitArg::<L>::UnitDev(d))),
        decreases r_value, 2nat,
    {
        match r_value {
            RValue::Num(num) => {
                let num = match num {
                    Num::Lit(n) => UnitNum::Lit(n),
                    Num::Var(k) => self.lookup_num(&k)?,
                };
                Ok((UnitReturn::Num(num), 0))
            },
            RValue::Dev(dev) => match dev {
                Dev::Lit(id_r_value) => {
                    let (id_rtn, depth) = self.translate_r_value(*id_r_value, None, comment)?;
                    let unit_dev = match id_rtn {
                        UnitReturn::Num(UnitNum::Lit(n)) => UnitDev::Lit(n.to_device()),
                        UnitReturn::Num(UnitNum::Var(v)) => UnitDev::Var(v),
                        _ => {
                            return Err(MypsLexerError::failed_conversion("a device index"));
                        },
                    };
                    Ok((UnitReturn::Dev(unit_dev), depth))
                },
                Dev::Net(hash_r_value) => {
                    let (hash_rtn, depth) = self.translate_r_value(*hash_r_value, None, comment)?;
                    let unit_dev_net = match hash_rtn {
                        UnitReturn::Num(UnitNum::Lit(n)) => UnitDevNet::Lit(n.to_hash()),
                        UnitReturn::Num(UnitNum::Var(v)) => UnitDevNet::Var(v),
                        _ => {
                            return Err(MypsLexerError::failed_conversion("a network hash"));
                        },
                    };
                    Ok((UnitReturn::Net(unit_dev_net), depth))
                },
                Dev::DB => Ok((UnitReturn::Dev(UnitDev::DB), 0)),
                Dev::Var(k) => {
                    let alias = self.lookup_alias(&k)?;
                    let unit_return = match alias {
                        UnitAlias::Dev(unit_dev) => UnitReturn::Dev(unit_dev),
                        UnitAlias::Net(unit_dev_net) => UnitReturn::Net(unit_dev_net),
                        _ => {
                            return Err(MypsLexerError::failed_conversion("an aliased device"));
                        },
                    };
                    Ok((unit_return, 0))
                },
            },
            RValue::NetParam(dev, mode, param) => {
                let (dev, dev_depth) = self.translate_dev_net(dev)?;
                let var = self.unwrap_var(unit_var)?;
                let unit_expr = UnitExpr::new_lb(var, dev, param, mode);
                self.push_unit(unit_expr, comment.take());
                let depth = add_depth(1, dev_depth)?;
                Ok((UnitReturn::Var(var), depth))
            },
            RValue::DevParam(dev, param) => {
                let (dev, dev_depth) = self.translate_dev(dev)?;
                let var = self.unwrap_var(unit_var)?;
                let unit_expr = UnitExpr::new_l(var, dev, param);
                self.push_unit(unit_expr, comment.take());
                let depth = add_depth(1, dev_depth)?;
                Ok((UnitReturn::Var(var), depth))
            },
            RValue::DevSlot(dev, slot, param) => {
                let (dev, dev_depth) = self.translate_dev(dev)?;
                let slot = self.translate_int(slot)?;
                let var = self.unwrap_var(unit_var)?;
                let unit_expr = UnitExpr::new_ls(var, dev, slot, param);
                self.push_unit(unit_expr, comment.take());
                let depth = add_depth(1, dev_depth)?;
                Ok((UnitReturn::Var(var), depth))
            },
            RValue::Expr(expr) => {
                let (unit_num, depth) = self.translate_expr(*expr, unit_var, comment)?;
                Ok((UnitReturn::Num(unit_num), depth))
            },
            RValue::Func(rv_func, r_values) => {
                let mut arg_returns: Vec<UnitReturn<L>> = Vec::new();
                let mut depth: usize = 0;
                let mut rest = r_values;
                let ghost all = rest@;
                let mut i: usize = 0;
                while rest.len() > 0
                    invariant
                        self.evolves(old(self)),
                        depth == self.added(old(self)),
                        *comment is None || *comment == *old(comment),
                        rest@ == all.skip(i as int),
                        i <= all.len(),
                        r_value == RValue::Func(rv_func, r_values),
                        all == r_values@,
                        all.len() == r_values.len(),
                    decreases rest.len(),
                {
                    proof {
                        assert(decreases_to!(r_value => r_value->Func_1));
                        assert(decreases_to!(r_values => r_values[i as int]));
                    }
                    let arg = rest.remove(0);
                    assert(arg == all[i as int]);
                    let (ret, d) = self.translate_r_value(arg, None, comment)?;
                    arg_returns.push(ret);
                    depth = add_depth(depth, d)?;
                    i = i + 1;
                }
                let r = self.unwrap_var(unit_var)?;
                let unit_expr = match rv_func {
                    RVFunc::Trunc => {
                        let a = match arg_returns.pop() {
                            Some(ret) => ret_to_num(ret)?,
                            None => {
                                return Err(MypsLexerError::Dummy);
                            },
                        };
                        UnitExpr::new_trunc(r, a)
                    },
                    _ => {
                        return Err(MypsLexerError::unsupported("a function other than trunc"));
                    },
                };
                self.push_unit(unit_expr, comment.take());
                let depth = add_depth(depth, 1)?;
                Ok((UnitReturn::Var(r), depth))
            },
            RValue::Var(k) => {
                let unit_alias = self.lookup_alias(&k)?;
                let unit_return = match unit_alias {
                    UnitAlias::Num(unit_num) => UnitReturn::Num(unit_num),
                    UnitAlias::Dev(unit_dev) => UnitReturn::Dev(unit_dev),
                    UnitAlias::Net(unit_dev_net) => UnitReturn::Net(unit_dev_net),
                    UnitAlias::Var(unit_var) => UnitReturn::Var(unit_var),
                };
                Ok((unit_return, 0))
            },
        }
    }

    /// Translates an expression to a number: a binary operation on two literals is folded,
    /// any other becomes a unit that stores into `unit_var` (or a new variable).
    fn translate_expr(&mut self, expr: Expr<L>, unit_var: Option<UnitVar>, comment: &mut Option<String>) -> (r:
        MypsLexerResult<(UnitNum<L>, usize)>)
        requires
            old(self).wf(),
        ensures
            final(self).evolves(old(self)),
            r matches Ok((_, depth)) ==> depth == final(self).added(old(self)),
            *final(comment) is None || *final(comment) == *old(comment),
            (expr is Unary || expr is Ternary) ==> r is Err,
            expr matches Expr::RValue(RValue::Num(Num::Lit(n))) ==> r == Ok::<(UnitNum<L>, usize), MypsLexerError>(
                (UnitNum::Lit(n), 0usize)) && *final(self) == *old(self),
            expr matches Expr::RValue(RValue::Num(Num::Var(k))) ==> (r is Ok <==> (old(self).alias(KeyView::Name(k@)) matches Some(a)
                && alias_num(a) is Some && alias_defined(a, old(self).var_next_id))) && (r matches Ok((n, depth))
                ==> Some(n) == alias_num(old(self).alias(KeyView::Name(k@))->0) && depth == 0
                && final(self).var_next_id == old(self).var_next_id),
            expr matches Expr::RValue(RValue::Var(k)) ==> (r is Ok <==> (old(self).alias(KeyView::Name(k@)) matches Some(a)
                && alias_num(a) is Some && alias_defined(a, old(self).var_next_id))) && (r matches Ok((_, depth))
                ==> depth == 0 && final(self).var_next_id == old(self).var_next_id),
            expr matches Expr::Binary { op, lhs, rhs } ==> (leaf_ok(old(self), *lhs) && leaf_ok(old(self), *rhs) ==> (
            r is Ok <==> if leaf_num(old(self), *lhs)->0 is Lit && leaf_num(old(self), *rhs)->0 is Lit {
                folds(op)
            } else {
                has_instr(op) && var_free(old(self), unit_var)
            }) && (r matches Ok((_, depth)) ==> depth == if leaf_num(old(self), *lhs)->0 is Lit && leaf_num(
                old(self),
                *rhs,
            )->0 is Lit {
                0usize
            } else {
                1usize
            })),
            expr matches Expr::Binary { op, .. } ==> (r matches Ok((UnitNum::Var(w), depth)) ==> (var_target(
                w,
                unit_var,
                old(self).var_next_id,
            ) && final(self).added(old(self)) >= 1 && op_instr(op, final(self).units@.last().unit_expr)
                && final(self).units@.last().unit_expr.args()[0] == UnitArg::<L>::UnitVar(w))),
            expr matches Expr::Binary { op, .. } ==> (r matches Ok((UnitNum::Lit(_), _)) ==> folds(op)
                && *final(comment) == *old(comment)),
            expr is Binary ==> (r matches Ok((UnitNum::Var(w), _)) ==> final(self).var_lifetimes@[w.0 as int].1
                == (final(self).units@.len() - 1) as usize && (final(self).units@.last().unit_expr.args()[1] matches UnitArg::UnitNum(
                UnitNum::Var(v)) ==> final(self).var_lifetimes@[v.0 as int].1 == (final(self).units@.len() - 1) as usize) && (
            final(self).units@.last().unit_expr.args()[2] matches UnitArg::UnitNum(UnitNum::Var(v))
                ==> final(self).var_lifetimes@[v.0 as int].1 == (final(self).units@.len() - 1) as usize)),
            expr is Binary ==> (r matches Ok((UnitNum::Var(_), _)) ==> *final(comment) is None
                && final(self).units@.last().comment == (if old(self).conf.show_comments {
                *old(comment)
            } else {
                None
            })),
            expr matches Expr::Binary { lhs, rhs, .. } ==> (r matches Ok((UnitNum::Var(_), _)) ==> (
            final(self).units@.last().unit_expr.args().len() == 3 && (leaf_num(old(self), *lhs) matches Some(x)
                ==> final(self).units@.last().unit_expr.args()[1] == UnitArg::<L>::UnitNum(x)) && (leaf_num(
                old(self),
                *rhs,
            ) matches Some(x) ==> final(self).units@.last().unit_expr.args()[2] == UnitArg::<L>::UnitNum(x)))),
            expr matches Expr::RValue(RValue::Var(k)) ==> (r matches Ok((n, _)) ==> (old(self).alias(KeyView::Name(k@))
                matches Some(a) && alias_num(a) == Some(n))),
        decreases expr, 0nat,
    {
        match expr {
            Expr::Unary { .. } => Err(MypsLexerError::unsupported("a unary expression")),
            Expr::Ternary { .. } => Err(MypsLexerError::unsupported("a ternary expression")),
            Expr::Binary { op, lhs, rhs } => {
                let ghost start = *self;
                let ghost leaves = leaf_ok(&start, *lhs) && leaf_ok(&start, *rhs);
                let mut none: Option<String> = None;
                let (a, d_a) = self.translate_expr(*lhs, None, &mut none)?;
                proof {
                    if leaves {
                        assert(Some(a) == leaf_num(&start, *lhs));
                        assert(a matches UnitNum::Var(v) ==> v.0 < start.var_next_id);
                        assert(leaf_ok(self, *rhs));
                    }
                }
                let mut none: Option<String> = None;
                let (b, d_b) = self.translate_expr(*rhs, None, &mut none)?;
                proof {
                    if leaves {
                        assert(Some(b) == leaf_num(&start, *rhs));
                        assert(b matches UnitNum::Var(v) ==> v.0 < start.var_next_id);
                        assert(self.var_next_id == start.var_next_id);
                    }
                }
                let depth = add_depth(d_a, d_b)?;
                match (a, b) {
                    (UnitNum::Lit(l), UnitNum::Lit(r)) => {
                        if !folds_exec(op) {
                            return Err(MypsLexerError::unsupported("a logical operator on literals"));
                        }
                        Ok((UnitNum::Lit(L::fold(op, l, r)), depth))
                    },
                    _ => {
                        let r = self.unwrap_var(unit_var)?;
                        let ghost after_target = *self;
                        self.update_num_lifetime(a)?;
                        let ghost after_a = *self;
                        self.update_num_lifetime(b)?;
                        let ghost after_b = *self;
                        proof {
                            let k = after_target.units@.len() as usize;
                            assert(after_a.var_lifetimes@[r.0 as int].1 == k);
                            assert(a matches UnitNum::Var(v) ==> after_a.var_lifetimes@[v.0 as int].1 == k);
                            assert(after_b.var_lifetimes@[r.0 as int].1 == k);
                            assert(a matches UnitNum::Var(v) ==> after_b.var_lifetimes@[v.0 as int].1 == k);
                            assert(b matches UnitNum::Var(v) ==> after_b.var_lifetimes@[v.0 as int].1 == k);
                        }
                        let unit_expr = match op {
                            BinaryOp::Add => UnitExpr::new_add(r, a, b),
                            BinaryOp::Sub => UnitExpr::new_sub(r, a, b),
                            BinaryOp::Mul => UnitExpr::new_mul(r, a, b),
                            BinaryOp::Div => UnitExpr::new_div(r, a, b),
                            BinaryOp::Rem => UnitExpr::new_mod(r, a, b),
                            BinaryOp::EQ => UnitExpr::new_seq(r, a, b),
                            BinaryOp::GT => UnitExpr::new_sgt(r, a, b),
                            BinaryOp::LT => UnitExpr::new_slt(r, a, b),
                            BinaryOp::NE => UnitExpr::new_sne(r, a, b),
                            BinaryOp::Or => UnitExpr::new_or(r, a, b),
                            _ => {
                                return Err(MypsLexerError::unsupported("an operator with no IC10 instruction"));
                            },
                        };
                        self.push_unit(unit_expr, comment.take());
                        let depth = add_depth(depth, 1)?;
                        Ok((UnitNum::Var(r), depth))
                    },
                }
            },
            Expr::RValue(rv) => {
                let (rv_rtn, depth) = self.translate_r_value(rv, unit_var, comment)?;
                match rv_rtn {
                    UnitReturn::Num(num) => Ok((num, depth)),
                    UnitReturn::Var(unit_var) => {
                        self.update_lifetime(unit_var)?;
                        Ok((UnitNum::Var(unit_var), depth))
                    },
                    _ => Err(MypsLexerError::failed_conversion("a number")),
                }
            },
        }
    }

    /// Translates the condition of an `if`, `elif` or `while` header. Unless its last unit
    /// is a select (set-if) instruction, a placeholder unit follows, which takes the comment.
    /// Gives the index of that last unit, the number the condition computes, and the depth.
    fn translate_condition(&mut self, cond: Expr<L>, comment: Option<String>) -> (r: MypsLexerResult<
        (usize, UnitNum<L>, usize),
    >)
        requires
            old(self).wf(),
        ensures
            final(self).evolves(old(self)),
            r matches Ok((i, _, depth)) ==> depth == final(self).added(old(self)) && depth >= 1
                && i + 1 == final(self).units@.len() && (final(self).units@[i as int].unit_expr is Dummy
                || is_select(final(self).units@[i as int].unit_expr)),
            r matches Ok((i, _, _)) ==> (final(self).units@[i as int].unit_expr is Dummy
                ==> final(self).units@[i as int].comment == if old(self).conf.show_comments {
                comment
            } else {
                None
            }),
            (cond is Unary || cond is Ternary) ==> r is Err,
            cond matches Expr::RValue(RValue::Num(Num::Lit(n))) ==> r == Ok::<(usize, UnitNum<L>, usize), MypsLexerError>(
                (old(self).units@.len() as usize, UnitNum::Lit(n), 1usize)) && final(self).units@.drop_last()
                == old(self).units@ && final(self).units@.last().unit_expr is Dummy,
            cond matches Expr::RValue(RValue::Num(Num::Var(k))) ==> (r is Ok <==> (old(self).alias(KeyView::Name(k@)) matches Some(a)
                && alias_num(a) is Some && alias_defined(a, old(self).var_next_id))) && (r matches Ok((i, n, depth))
                ==> i == old(self).units@.len() && Some(n) == alias_num(old(self).alias(KeyView::Name(k@))->0)
                && depth == 1 && final(self).units@.drop_last() == old(self).units@
                && final(self).units@.last().unit_expr is Dummy),
    {
        let mut none: Option<String> = None;
        let (num, depth) = self.translate_expr(cond, None, &mut none)?;
        let ends_select = self.units.len() > 0 && self.units[self.units.len() - 1].is_select();
        let depth = if depth == 0 || !ends_select {
            self.push_unit(UnitExpr::Dummy, comment);
            add_depth(depth, 1)?
        } else {
            depth
        };
        let i = self.units.len() - 1;
        Ok((i, num, depth))
    }

    /// Turns the last unit of a condition (a select instruction or a placeholder) into the
    /// branch that skips `body_depth` units when the condition fails: `seq` becomes `brne`,
    /// `sne` becomes `breq`,
    /// `sgt` becomes `brle`, `slt` becomes `brge`, and any other becomes `breqz` on `num`.
    fn transform_condition(&mut self, i: usize, num: UnitNum<L>, body_depth: usize) -> (r: MypsLexerResult<()>)
        requires
            old(self).wf(),
            i < old(self).units@.len(),
        ensures
            final(self).wf(),
            final(self).same_scope(old(self)),
            final(self).var_next_id == old(self).var_next_id,
            final(self).var_lifetimes == old(self).var_lifetimes,
            final(self).units@.len() == old(self).units@.len(),
            forall|j: int| 0 <= j < old(self).units@.len() && j != i ==> #[trigger] final(self).units@[j]
                == old(self).units@[j],
            r is Ok ==> final(self).units@[i as int].comment == old(self).units@[i as int].comment
                && negated_branch(old(self).units@[i as int].unit_expr, num, body_depth as int,
                final(self).units@[i as int].unit_expr),
            r is Ok ==> forall|x: int, y: int| #[trigger] branch_taken(final(self).units@[i as int].unit_expr, x, y)
                == if is_select_expr(old(self).units@[i as int].unit_expr) {
                !select_holds(old(self).units@[i as int].unit_expr, x, y)
            } else {
                x == 0
            },
            r is Err ==> final(self).units == old(self).units,
            r is Ok <==> (body_depth + 1 <= usize::MAX && body_depth + 1 <= i64::MAX && branchable(
                old(self).units@[i as int].unit_expr,
            )),
    {
        let skip = add_depth(body_depth, 1)?;
        let c = UnitLine::Lit(line_offset(skip)?);
        let cond_expr = match &self.units[i].unit_expr {
            UnitExpr::SEq(args) => {
                let (a, b) = select_operands(args)?;
                assert(args@.subrange(1, 3).push(UnitArg::UnitLine(c)) =~= seq![
                    UnitArg::UnitNum(a),
                    UnitArg::UnitNum(b),
                    UnitArg::UnitLine(c),
                ]);
                UnitExpr::new_brne(a, b, c)
            },
            UnitExpr::Sne(args) => {
                let (a, b) = select_operands(args)?;
                assert(args@.subrange(1, 3).push(UnitArg::UnitLine(c)) =~= seq![
                    UnitArg::UnitNum(a),
                    UnitArg::UnitNum(b),
                    UnitArg::UnitLine(c),
                ]);
                UnitExpr::new_breq(a, b, c)
            },
            UnitExpr::Sgt(args) => {
                let (a, b) = select_operands(args)?;
                assert(args@.subrange(1, 3).push(UnitArg::UnitLine(c)) =~= seq![
                    UnitArg::UnitNum(a),
                    UnitArg::UnitNum(b),
                    UnitArg::UnitLine(c),
                ]);
                UnitExpr::new_brle(a, b, c)
            },
            UnitExpr::Slt(args) => {
                let (a, b) = select_operands(args)?;
                assert(args@.subrange(1, 3).push(UnitArg::UnitLine(c)) =~= seq![
                    UnitArg::UnitNum(a),
                    UnitArg::UnitNum(b),
                    UnitArg::UnitLine(c),
                ]);
                UnitExpr::new_brge(a, b, c)
            },
            _ => UnitExpr::new_breqz(num, c),
        };
        let ghost cond = self.units@[i as int].unit_expr;
        self.units[i].unit_expr = cond_expr;
        proof {
            lemma_branch_skips_when_false(cond, num, body_depth as int, self.units@[i as int].unit_expr);
        }
        Ok(())
    }

    /// The device that an r-value gives: a number is a device index.
    fn get_dev(&mut self, r_value: RValue<L>) -> (r: MypsLexerResult<(UnitDev, usize)>)
        requires
            old(self).wf(),
        ensures
            final(self).evolves(old(self)),
            r matches Ok((_, depth)) ==> depth == final(self).added(old(self)),
            r_value matches RValue::Num(Num::Lit(_)) ==> (r matches Ok((d, depth)) && d is Lit && depth == 0)
                && *final(self) == *old(self),
            r_value matches RValue::Dev(Dev::DB) ==> r == Ok::<(UnitDev, usize), MypsLexerError>(
                (UnitDev::DB, 0usize)),
            r_value matches RValue::Num(Num::Var(k)) ==> (r is Ok <==> (old(self).alias(KeyView::Name(k@)) matches Some(a)
                && alias_num(a) is Some && alias_defined(a, old(self).var_next_id))) && (r matches Ok((d, depth))
                ==> depth == 0 && dev_from_ret(d, UnitReturn::Num(alias_num(old(self).alias(KeyView::Name(k@))->0)->0))),
            r_value matches RValue::Var(k) ==> (r is Ok <==> (old(self).alias(KeyView::Name(k@)) matches Some(a)
                && alias_defined(a, old(self).var_next_id) && !(alias_return(a) is Net))) && (r matches Ok((d, depth))
                ==> depth == 0 && dev_from_ret(d, alias_return(old(self).alias(KeyView::Name(k@))->0))),
            loads(r_value) ==> (r matches Ok((d, _)) ==> d matches UnitDev::Var(w) && var_target(
                w,
                None,
                old(self).var_next_id,
            ) && final(self).added(old(self)) >= 1 && load_instr(r_value, final(self).units@.last().unit_expr)
                && final(self).units@.last().unit_expr.args()[0] == UnitArg::<L>::UnitVar(w)),
    {
        let mut none: Option<String> = None;
        let (rv_rtn, rv_depth) = self.translate_r_value(r_value, None, &mut none)?;
        let unit_dev = match rv_rtn {
            UnitReturn::Num(UnitNum::Lit(n)) => UnitDev::Lit(n.to_device()),
            UnitReturn::Num(UnitNum::Var(unit_var)) => UnitDev::Var(unit_var),
            UnitReturn::Dev(unit_dev) => unit_dev,
            UnitReturn::Net(_) => {
                return Err(MypsLexerError::Dummy);
            },
            UnitReturn::Var(unit_var) => UnitDev::Var(unit_var),
        };
        Ok((unit_dev, rv_depth))
    }

    /// Translates an assignment. To a name: a device or network becomes its alias (with an
    /// `alias` unit when fixed); a number becomes its alias, or, when fixed, is moved into
    /// the name's own variable. To a device parameter: a store unit.
    fn translate_assignment(&mut self, l_value: LValue<L>, r_value: RValue<L>, comment: &mut Option<String>) -> (r:
        MypsLexerResult<usize>)
        requires
            old(self).wf(),
        ensures
            final(self).progresses(old(self)),
            r matches Ok(depth) ==> depth == final(self).added(old(self)),
            *final(comment) is None || *final(comment) == *old(comment),
            assigns(old(self), final(self), l_value, r_value, *old(comment), *final(comment), r),
    {
        reveal(assigns);
        let mut depth: usize = 0;
        match l_value {
            LValue::Var(k, fix) => {
                let unit_var = self.get_var(&k, fix)?;
                let ghost after_var = *self;
                let (rv_return, rv_depth) = self.translate_r_value(r_value, Some(unit_var), comment)?;
                depth = rv_depth;
                match rv_return {
                    UnitReturn::Dev(unit_dev) => {
                        if fix {
                            let unit_expr = UnitExpr::new_alias(k.clone(), unit_dev);
                            self.push_unit(unit_expr, comment.take());
                            depth = add_depth(depth, 1)?;
                        }
                        self.insert_alias(UnitAliasKey::String(k), UnitAlias::Dev(unit_dev));
                        self.delete_last_var();
                    },
                    UnitReturn::Net(unit_dev_net) => {
                        self.insert_alias(UnitAliasKey::String(k), UnitAlias::Net(unit_dev_net));
                    },
                    UnitReturn::Num(_) | UnitReturn::Var(_) => {
                        let unit_num = match rv_return {
                            UnitReturn::Var(v) => UnitNum::Var(v),
                            UnitReturn::Num(n) => n,
                            _ => UnitNum::Var(unit_var),
                        };
                        if fix {
                            let unit_expr = UnitExpr::new_move(unit_var, unit_num);
                            self.push_unit(unit_expr, comment.take());
                            self.insert_alias(UnitAliasKey::Var(unit_var), UnitAlias::Num(unit_num));
                            self.insert_alias(UnitAliasKey::String(k), UnitAlias::Var(unit_var));
                            depth = add_depth(depth, 1)?;
                        } else {
                            self.insert_alias(UnitAliasKey::String(k), UnitAlias::Num(unit_num));
                        }
                    },
                }
            },
            LValue::Param(dev, param) => {
                let (rv_return, rv_depth) = self.translate_r_value(r_value, None, comment)?;
                depth = rv_depth;
                let unit_num = match rv_return {
                    UnitReturn::Num(n) => n,
                    UnitReturn::Var(v) => UnitNum::Var(v),
                    _ => {
                        return Err(MypsLexerError::failed_conversion("a number to store"));
                    },
                };
                let unit_expr = match dev {
                    Dev::Lit(id_rv) => {
                        let (unit_dev, d) = self.get_dev(*id_rv)?;
                        depth = add_depth(depth, d)?;
                        UnitExpr::new_s(unit_dev, param, unit_num)
                    },
                    Dev::Net(hash_rv) => {
                        let mut none: Option<String> = None;
                        let (rtn, d) = self.translate_r_value(*hash_rv, None, &mut none)?;
                        let unit_dev_net = match rtn {
                            UnitReturn::Net(n) => n,
                            _ => {
                                return Err(MypsLexerError::failed_conversion(
                                    "a unit network device variant unit return",
                                ));
                            },
                        };
                        depth = add_depth(depth, d)?;
                        UnitExpr::new_sb(unit_dev_net, param, unit_num)
                    },
                    Dev::Var(k) => {
                        let key = UnitAliasKey::String(k);
                        match self.find(&key) {
                            Some(UnitAlias::Dev(unit_dev)) => UnitExpr::new_s(unit_dev, param, unit_num),
                            Some(UnitAlias::Net(unit_dev_net)) => UnitExpr::new_sb(unit_dev_net, param, unit_num),
                            Some(UnitAlias::Num(hash)) => UnitExpr::new_sb(UnitDevNet::Num(hash), param, unit_num),
                            _ => {
                                return Err(MypsLexerError::failed_conversion("an aliased device"));
                            },
                        }
                    },
                    Dev::DB => UnitExpr::new_s(UnitDev::DB, param, unit_num),
                };
                self.push_unit(unit_expr, comment.take());
                depth = add_depth(depth, 1)?;
            },
        }
        Ok(depth)
    }

    /// The tail index reserved for the function `name`.
    fn find_line(&self, name: &String) -> (r: Option<usize>)
        ensures
            r == find_line(self.line_lookup@, name@),
    {
        let mut i: usize = self.line_lookup.len();
        assert(self.line_lookup@.take(i as int) == self.line_lookup@);
        while i > 0
            invariant
                i <= self.line_lookup@.len(),
                find_line(self.line_lookup@, name@) == find_line(self.line_lookup@.take(i as int), name@),
            decreases i,
        {
            assert(self.line_lookup@.take(i as int).drop_last() == self.line_lookup@.take(i - 1));
            if self.line_lookup[i - 1].0 == *name {
                return Some(self.line_lookup[i - 1].1);
            }
            i = i - 1;
        }
        None
    }

    /// Translates a statement; an error is wrapped as a statement error.
    fn translate_statement(&mut self, stmt: Statement<L>, comment: &mut Option<String>) -> (r: MypsLexerResult<usize>)
        requires
            old(self).wf(),
        ensures
            final(self).progresses(old(self)),
            r matches Ok(depth) ==> depth == final(self).added(old(self)),
            *final(comment) is None || *final(comment) == *old(comment),
            r matches Err(e) ==> e is StmtError,
            stmt matches Statement::FunctionCall(FunctionCall::User(name)) ==> (r matches Err(MypsLexerError::StmtError(_, b))
                ==> (*b matches MypsLexerError::UndefinedFunction(s) && s@ == name@)),
            stmt matches Statement::AssignValue(ls, rs) ==> (r is Ok ==> exists|ts: Seq<Translator<L>>, cs: Seq<Option<String>>|
                assigned_in_order(old(self), final(self), ls@, rs@, *old(comment), *final(comment), ts, cs)),
            stmt is Empty ==> r is Ok,
            stmt is Empty ==> stmt_empty_effect(old(self), final(self), *old(comment), r->Ok_0),
            stmt matches Statement::FunctionCall(FunctionCall::User(name)) ==> (r is Ok <==> find_line(
                old(self).line_lookup@, name@) is Some),
            stmt matches Statement::FunctionCall(FunctionCall::User(name)) ==> (r is Ok ==> r->Ok_0 == 1
                && final(self).units@.last().unit_expr is Jal && final(self).units@.last().unit_expr.args()
                == seq![UnitArg::<L>::UnitLine(UnitLine::Indexed(find_line(old(self).line_lookup@, name@)->0))]
                && final(self).branch_tails == old(self).branch_tails),
            stmt matches Statement::FunctionCall(FunctionCall::Nullary(name)) ==> (r is Ok <==> (name_code(name@)
                >= 45 || (name_code(name@) >= 0 && code_arity(name_code(name@)) == 0))),
            stmt matches Statement::FunctionCall(FunctionCall::Nullary(name)) ==> (r is Ok ==> r->Ok_0 == 1
                && final(self).units@.last().unit_expr.code() == name_code(name@)
                && final(self).units@.last().unit_expr.args().len() == 0 && final(self).units@.len()
                == old(self).units@.len() + 1 && final(self).units@.drop_last() == old(self).units@
                && final(self).branch_tails == old(self).branch_tails && final(self).vars_fixed == old(self).vars_fixed),
            stmt matches Statement::AssignSelf(op, _, _) ==> (r is Ok ==> final(self).added(old(self)) >= 1
                && self_op_instr(op, final(self).units@.last().unit_expr)),
    {
        let text = stmt_text(&stmt);
        match self.translate_statement_helper(stmt, comment) {
            Err(err) => Err(MypsLexerError::stmt_error(text, err)),
            Ok(depth) => Ok(depth),
        }
    }

    fn translate_statement_helper(&mut self, stmt: Statement<L>, comment: &mut Option<String>) -> (r:
        MypsLexerResult<usize>)
        requires
            old(self).wf(),
        ensures
            final(self).progresses(old(self)),
            r matches Ok(depth) ==> depth == final(self).added(old(self)),
            *final(comment) is None || *final(comment) == *old(comment),
            stmt is Empty ==> r is Ok,
            stmt is Empty ==> stmt_empty_effect(old(self), final(self), *old(comment), r->Ok_0),
            stmt matches Statement::FunctionCall(FunctionCall::User(name)) ==> (r is Ok <==> find_line(
                old(self).line_lookup@, name@) is Some),
            stmt matches Statement::FunctionCall(FunctionCall::User(name)) ==> (r is Ok ==> r->Ok_0 == 1
                && final(self).units@.last().unit_expr is Jal && final(self).units@.last().unit_expr.args()
                == seq![UnitArg::<L>::UnitLine(UnitLine::Indexed(find_line(old(self).line_lookup@, name@)->0))]
                && final(self).branch_tails == old(self).branch_tails),
            stmt matches Statement::FunctionCall(FunctionCall::Nullary(name)) ==> (r is Ok <==> (name_code(name@)
                >= 45 || (name_code(name@) >= 0 && code_arity(name_code(name@)) == 0))),
            stmt matches Statement::FunctionCall(FunctionCall::Nullary(name)) ==> (r is Ok ==> r->Ok_0 == 1
                && final(self).units@.last().unit_expr.code() == name_code(name@)
                && final(self).units@.last().unit_expr.args().len() == 0 && final(self).units@.len()
                == old(self).units@.len() + 1 && final(self).units@.drop_last() == old(self).units@
                && final(self).branch_tails == old(self).branch_tails && final(self).vars_fixed == old(self).vars_fixed),
            stmt matches Statement::AssignSelf(op, _, _) ==> (r is Ok ==> final(self).added(old(self)) >= 1
                && self_op_instr(op, final(self).units@.last().unit_expr)),
            stmt matches Statement::AssignValue(ls, rs) ==> (r is Ok ==> exists|ts: Seq<Translator<L>>, cs: Seq<Option<String>>|
                assigned_in_order(old(self), final(self), ls@, rs@, *old(comment), *final(comment), ts, cs)),
            stmt matches Statement::FunctionCall(FunctionCall::User(name)) ==> (r matches Err(e) ==> (e matches
                MypsLexerError::UndefinedFunction(s) && s@ == name@)),
            stmt matches Statement::AssignSelf(_, LValue::Var(k, _), rv) ==> (r is Ok ==> (old(self).alias(KeyView::Name(k@))
                matches Some(UnitAlias::Var(v)) && final(self).units@.last().unit_expr.args().len() == 3
                && final(self).units@.last().unit_expr.args()[0] == UnitArg::<L>::UnitVar(v)
                && final(self).units@.last().unit_expr.args()[1] == UnitArg::<L>::UnitNum(UnitNum::Var(v)) && (rv matches RValue::Num(
                Num::Lit(n)) ==> final(self).units@.last().unit_expr.args()[2] == UnitArg::<L>::UnitNum(UnitNum::Lit(n))))),
    {
        match stmt {
            Statement::AssignValue(l_values, r_values) => {
                let mut depth: usize = 0;
                let ghost all_l = l_values@;
                let ghost all_r = r_values@;
                assert(all_l.len() == l_values.len());
                let mut ls = l_values;
                let mut rs = r_values;
                let ghost mut ts: Seq<Translator<L>> = seq![*self];
                let ghost mut cs: Seq<Option<String>> = seq![*comment];
                let mut i: usize = 0;
                while ls.len() > 0 && rs.len() > 0
                    invariant
                        stmt == Statement::AssignValue(l_values, r_values),
                        all_l == l_values@,
                        all_r == r_values@,
                        ls@ == all_l.skip(i as int),
                        rs@ == all_r.skip(i as int),
                        i <= all_l.len(),
                        i <= all_r.len(),
                        all_l.len() <= usize::MAX,
                        self.progresses(old(self)),
                        depth == self.added(old(self)),
                        *comment is None || *comment == *old(comment),
                        ts.len() == i + 1,
                        cs.len() == i + 1,
                        ts[0] == *old(self),
                        ts[i as int] == *self,
                        cs[0] == *old(comment),
                        cs[i as int] == *comment,
                        forall|j: int| #![trigger ts[j]] 0 <= j < i ==> assigns(&ts[j], &ts[j + 1], all_l[j], all_r[j], cs[j], cs[j + 1], Ok::<usize, MypsLexerError>(ts[j + 1].added(&ts[j]) as usize)),
                    decreases ls.len(),
                {
                    assert(ls@.len() == all_l.len() - i);
                    let l_value = ls.remove(0);
                    let r_value = rs.remove(0);
                    proof {
                        assert(l_value == all_l[i as int]);
                        assert(r_value == all_r[i as int]);
                    }
                    let ghost before = *self;
                    let ghost c_before = *comment;
                    let d = self.translate_assignment(l_value, r_value, comment)?;
                    depth = add_depth(depth, d)?;
                    proof {
                        let ts0 = ts;
                        let cs0 = cs;
                        ts = ts.push(*self);
                        cs = cs.push(*comment);
                        assert forall|j: int| #![trigger ts[j]] 0 <= j < i + 1 implies assigns(&ts[j], &ts[j + 1], all_l[j], all_r[j], cs[j], cs[j + 1], Ok::<usize, MypsLexerError>(ts[j + 1].added(&ts[j]) as usize)) by {
                            if j < i {
                                assert(ts[j] == ts0[j]);
                                assert(ts[j + 1] == ts0[j + 1]);
                                assert(cs[j] == cs0[j]);
                                assert(cs[j + 1] == cs0[j + 1]);
                                assert(ts0[j] == ts0[j]);
                            } else {
                                assert(ts[j] == before);
                                assert(ts[j + 1] == *self);
                            }
                        }
                    }
                    i = i + 1;
                }
                proof {
                    let n = if all_l.len() < all_r.len() { all_l.len() } else { all_r.len() };
                    assert(i == n);
                    assert(assigned_in_order(old(self), self, all_l, all_r, *old(comment), *comment, ts, cs));
                }
                Ok(depth)
            },
            Statement::AssignSelf(op, l_value, r_value) => {
                let k = match l_value {
                    LValue::Var(k, _) => k,
                    _ => {
                        return Err(MypsLexerError::failed_conversion("a unit var variant l-value"));
                    },
                };
                let r = self.lookup_var(&k)?;
                let a = UnitNum::Var(r);
                let (rv_rtn, rv_depth) = self.translate_r_value(r_value, Some(r), comment)?;
                let b = match rv_rtn {
                    UnitReturn::Num(unit_num) => unit_num,
                    UnitReturn::Var(unit_var) => UnitNum::Var(unit_var),
                    _ => {
                        return Err(MypsLexerError::failed_conversion("a number operand"));
                    },
                };
                let unit_expr = match op {
                    BinaryOp::Add => UnitExpr::new_add(r, a, b),
                    BinaryOp::Sub => UnitExpr::new_sub(r, a, b),
                    BinaryOp::Mul => UnitExpr::new_mul(r, a, b),
                    BinaryOp::Div => UnitExpr::new_div(r, a, b),
                    BinaryOp::Rem => UnitExpr::new_mod(r, a, b),
                    _ => {
                        return Err(MypsLexerError::unsupported("an operator assignment other than += -= *= /= %="));
                    },
                };
                self.push_unit(unit_expr, comment.take());
                add_depth(rv_depth, 1)
            },
            Statement::FunctionCall(FunctionCall::Nullary(name)) => {
                let unit_expr = UnitExpr::try_from_pair(name, Vec::new())?;
                self.push_unit(unit_expr, comment.take());
                Ok(1)
            },
            Statement::FunctionCall(FunctionCall::Unary(name, r_value)) => {
                let mut none: Option<String> = None;
                let (rv_return, rv_depth) = self.translate_r_value(r_value, None, &mut none)?;
                let unit_expr = UnitExpr::try_from_pair(name, vec![ret_arg(rv_return)])?;
                self.push_unit(unit_expr, comment.take());
                add_depth(rv_depth, 1)
            },
            Statement::FunctionCall(FunctionCall::User(name)) => {
                match self.find_line(&name) {
                    Some(i) => {
                        let unit_expr = UnitExpr::new_jal(UnitLine::Indexed(i));
                        self.push_unit(unit_expr, comment.take());
                        Ok(1)
                    },
                    None => Err(MypsLexerError::undefined_function(&name)),
                }
            },
            Statement::Empty => {
                if self.conf.show_empty {
                    self.push_unit(UnitExpr::Empty, comment.take());
                    Ok(1)
                } else if self.conf.show_empty_comments && comment.is_some() {
                    self.push_unit(UnitExpr::Empty, comment.take());
                    Ok(1)
                } else {
                    Ok(0)
                }
            },
        }
    }

    /// Translates items in order; the first takes `first_comment` in place of its own.
    fn translate_items(&mut self, items: Vec<Item<L>>, first_comment: Option<String>) -> (r: MypsLexerResult<usize>)
        requires
            old(self).wf(),
        ensures
            final(self).progresses(old(self)),
            r matches Ok(depth) ==> depth == final(self).added(old(self)),
            items@.len() == 0 ==> r == Ok::<usize, MypsLexerError>(0usize) && final(self).units == old(self).units,
            user_calls_only(old(self).line_lookup@, items@) ==> r == Ok::<usize, MypsLexerError>(items@.len() as usize)
                && jals_emitted(old(self), final(self), items@),
            calls_only(items@) ==> r == Ok::<usize, MypsLexerError>(items@.len() as usize) && calls_emitted(
                old(self),
                final(self),
                item_names(items@),
            ),
            if_else_calls(old(self), items@) ==> r == Ok::<usize, MypsLexerError>(
                (items@[0].item_inner->Block_0.items@.len() + items@[1].item_inner->Block_0.items@.len() + 2) as usize,
            ) && if_else_emitted(old(self), final(self), items@),
        decreases items, 0nat,
    {
        let mut depth: usize = 0;
        let mut first_comment = first_comment;
        let mut rest = items;
        let ghost all = rest@;
        let mut i: usize = 0;
        let ghost pair = if_else_calls(old(self), all);
        let ghost mut mid = *self;
        proof {
            assert(self.units@.take(self.units@.len() as int) == self.units@);
            assert(item_names(all.take(0)) =~= Seq::<Seq<char>>::empty());
        }
        while rest.len() > 0
            invariant
                self.progresses(old(self)),
                depth == self.added(old(self)),
                all == items@,
                all.len() == items.len(),
                rest@ == all.skip(i as int),
                i <= all.len(),
                all.len() == 0 ==> self.units == old(self).units && depth == 0,
                calls_only(all) ==> depth == i && calls_emitted(old(self), self, item_names(all.take(i as int))),
                user_calls_only(old(self).line_lookup@, all) ==> depth == i && jals_emitted(old(self), self, all.take(i as int)),
                pair == if_else_calls(old(self), all),
                pair && i == 0 ==> *self == *old(self),
                pair && i == 1 ==> *self == mid && if_emitted(old(self), &mid, all[0], true)
                    && depth == all[0].item_inner->Block_0.items@.len() + 1,
                pair && i == 2 ==> if_else_emitted(old(self), self, all)
                    && depth == all[0].item_inner->Block_0.items@.len() + all[1].item_inner->Block_0.items@.len() + 2,
            decreases rest.len(),
        {
            proof {
                assert(decreases_to!(items => items[i as int]));
            }
            let item = rest.remove(0);
            assert(item == all[i as int]);
            let ghost before = *self;
            let followed = rest.len() > 0 && continues_chain(&rest[0]);
            let d = self.translate_item(item, first_comment.take(), followed)?;
            depth = add_depth(depth, d)?;
            proof {
                if calls_only(all) {
                    assert(item_names(all.take(i + 1)) == item_names(all.take(i as int)).push(
                        call_name(all[i as int])->0,
                    ));
                    lemma_calls_emitted_step(old(self), &before, self, item_names(all.take(i as int)),
                        call_name(all[i as int])->0);
                }
                if user_calls_only(old(self).line_lookup@, all) {
                    assert(all.take(i + 1) == all.take(i as int).push(all[i as int]));
                    lemma_jals_emitted_step(old(self), &before, self, all.take(i as int), all[i as int]);
                }
                if pair && i == 1 {
                    lemma_if_else_emitted(old(self), &mid, self, all);
                }
                if pair && i == 0 {
                    mid = *self;
                }
            }
            i = i + 1;
        }
        proof {
            assert(all.take(i as int) == all);
        }
        Ok(depth)
    }

    /// Translates an item: a statement, or a block with its header's code around the code of
    /// its items. `first_comment` replaces the item's own comment. `followed` says that an
    /// `elif` or `else` comes next, so that the branch of an `if` or `elif` that fails skips
    /// the jump to the chain's tail that opens it too.
    #[verifier::spinoff_prover]
    #[verifier::rlimit(100)]
    fn translate_item(&mut self, item: Item<L>, first_comment: Option<String>, followed: bool) -> (r: MypsLexerResult<usize>)
        requires
            old(self).wf(),
        ensures
            final(self).progresses(old(self)),
            r matches Ok(depth) ==> depth == final(self).added(old(self)),
            item.item_inner matches ItemInner::Block(b) ==> block_effect(old(self), final(self), b.branch, r),
            item.item_inner matches ItemInner::Block(b) ==> (b.branch is Def ==> r is Err),
            call_name(item) matches Some(n) ==> (r is Ok <==> nullary_ok(n)) && (r is Ok ==> r == Ok::<
                usize,
                MypsLexerError,
            >(1usize) && calls_emitted(old(self), final(self), seq![n])),
            item.item_inner matches ItemInner::Stmt(Statement::FunctionCall(FunctionCall::User(name))) ==> (
            r is Ok <==> find_line(old(self).line_lookup@, name@) is Some),
            item.item_inner matches ItemInner::Stmt(Statement::Empty) ==> r is Ok,
            program_jals(old(self).line_lookup@, item) ==> r == Ok::<usize, MypsLexerError>(item.item_inner->Block_0.items@.len() as usize)
                && jals_emitted(old(self), final(self), item.item_inner->Block_0.items@),
            user_call_idx(old(self).line_lookup@, item) is Some ==> (r is Ok && jals_emitted(old(self), final(self), seq![item])),
            item.item_inner matches ItemInner::Stmt(Statement::AssignValue(ls, rs)) ==> (r is Ok ==> exists|
                ts: Seq<Translator<L>>,
                cs: Seq<Option<String>>,
                c1: Option<String>,
            |
                #[trigger] assigned_in_order(
                    old(self),
                    final(self),
                    ls@,
                    rs@,
                    leading_comment(first_comment, item),
                    c1,
                    ts,
                    cs,
                )),
            program_calls(item) ==> r == Ok::<usize, MypsLexerError>(item.item_inner->Block_0.items@.len() as usize)
                && calls_emitted(old(self), final(self), item_names(item.item_inner->Block_0.items@)),
            loop_calls(item) ==> r == Ok::<usize, MypsLexerError>((item.item_inner->Block_0.items@.len() + 1) as usize)
                && loop_emitted(old(self), final(self), item_names(item.item_inner->Block_0.items@)),
            for_calls(old(self), item) ==> r == Ok::<usize, MypsLexerError>((item.item_inner->Block_0.items@.len() + 3) as usize)
                && for_emitted(old(self), final(self), item),
            if_calls(old(self), item) ==> r == Ok::<usize, MypsLexerError>((item.item_inner->Block_0.items@.len() + 1) as usize)
                && if_emitted(old(self), final(self), item, followed),
            else_calls(old(self), item) ==> r == Ok::<usize, MypsLexerError>((item.item_inner->Block_0.items@.len() + 1) as usize)
                && else_emitted(old(self), final(self), item),
            (item.item_inner matches ItemInner::Block(b) && b.branch is Program && if_else_calls(old(self), b.items@)) ==> r
                == Ok::<usize, MypsLexerError>(
                (prog_items(item)[0].item_inner->Block_0.items@.len() + prog_items(item)[1].item_inner->Block_0.items@.len()
                    + 2) as usize,
            ) && if_else_emitted(old(self), final(self), prog_items(item)),
            fn_calls(old(self), item) ==> r == Ok::<usize, MypsLexerError>((item.item_inner->Block_0.items@.len() + 1) as usize)
                && fn_emitted(old(self), final(self), item),
            while_calls(old(self), item) ==> r == Ok::<usize, MypsLexerError>((item.item_inner->Block_0.items@.len() + 2) as usize)
                && while_emitted(old(self), final(self), item),
        decreases item, 1nat,
    {
        let Item { item_inner, comment: own_comment } = item;
        let mut comment = match first_comment {
            Some(c) => Some(c),
            None => own_comment,
        };
        match item_inner {
            ItemInner::Block(Block { branch, items }) => {
                proof {
                    assert(decreases_to!(item => item.item_inner));
                    assert(decreases_to!(item.item_inner => item.item_inner->Block_0));
                    assert(decreases_to!(item.item_inner->Block_0 => item.item_inner->Block_0.items));
                }
                self.translate_block(branch, items, comment, followed)
            },
            ItemInner::Stmt(stmt) => {
                let ghost start = *self;
                let r = self.translate_statement(stmt, &mut comment);
                proof {
                    if user_call_idx(start.line_lookup@, item) is Some {
                        let k = start.units@.len() as int;
                        assert(self.units@.take(k) =~= start.units@);
                        assert(self.units@[k + 0] == self.units@.last());
                    }
                }
                r
            },
        }
    }

    /// The tail index of the if-elif-else chain `id`: the chains' tails follow the functions'.
    fn chain_slot(&self, id: usize) -> (r: MypsLexerResult<usize>)
        ensures
            r is Ok <==> id + self.line_lookup@.len() <= usize::MAX,
            r matches Ok(slot) ==> slot == id + self.line_lookup@.len(),
    {
        add_depth(id, self.line_lookup.len())
    }

    /// Translates a block: its header's code around the code of its items, the header's
    /// code taking `comment`. `followed` is as in `translate_item`.
    #[verifier::spinoff_prover]
    #[verifier::rlimit(100)]
    fn translate_block(&mut self, branch: Branch<L>, items: Vec<Item<L>>, comment: Option<String>, followed: bool) -> (r:
        MypsLexerResult<usize>)
        requires
            old(self).wf(),
        ensures
            final(self).progresses(old(self)),
            r matches Ok(depth) ==> depth == final(self).added(old(self)),
            block_effect(old(self), final(self), branch, r),
            branch is Def ==> r is Err,
            program_jals(old(self).line_lookup@, block_item(branch, items)) ==> r == Ok::<usize, MypsLexerError>(items@.len() as usize)
                && jals_emitted(old(self), final(self), items@),
            program_calls(block_item(branch, items)) ==> r == Ok::<usize, MypsLexerError>(items@.len() as usize)
                && calls_emitted(old(self), final(self), item_names(items@)),
            loop_calls(block_item(branch, items)) ==> r == Ok::<usize, MypsLexerError>((items@.len() + 1) as usize)
                && loop_emitted(old(self), final(self), item_names(items@)),
            for_calls(old(self), block_item(branch, items)) ==> r == Ok::<usize, MypsLexerError>((items@.len() + 3) as usize)
                && for_emitted(old(self), final(self), block_item(branch, items)),
            if_calls(old(self), block_item(branch, items)) ==> r == Ok::<usize, MypsLexerError>((items@.len() + 1) as usize)
                && if_emitted(old(self), final(self), block_item(branch, items), followed),
            else_calls(old(self), block_item(branch, items)) ==> r == Ok::<usize, MypsLexerError>((items@.len() + 1) as usize)
                && else_emitted(old(self), final(self), block_item(branch, items)),
            branch is Program && if_else_calls(old(self), items@) ==> r == Ok::<usize, MypsLexerError>(
                (items@[0].item_inner->Block_0.items@.len() + items@[1].item_inner->Block_0.items@.len() + 2) as usize,
            ) && if_else_emitted(old(self), final(self), items@),
            fn_calls(old(self), block_item(branch, items)) ==> r == Ok::<usize, MypsLexerError>((items@.len() + 1) as usize)
                && fn_emitted(old(self), final(self), block_item(branch, items)),
            while_calls(old(self), block_item(branch, items)) ==> r == Ok::<usize, MypsLexerError>((items@.len() + 2) as usize)
                && while_emitted(old(self), final(self), block_item(branch, items)),
        decreases items, 1nat,
    {
        let ghost bi = block_item(branch, items);
        let mut comment = comment;
        match branch {
            Branch::Program => self.translate_items(items, comment),
            Branch::Loop => {
                let ghost start = *self;
                let ghost names = item_names(items@);
                let depth = self.translate_items(items, None)?;
                let ghost mid = *self;
                let back = line_offset(depth)?;
                self.push_unit(UnitExpr::new_jr(UnitLine::Lit(-back)), comment);
                proof {
                    if loop_calls(bi) {
                        let k = start.units@.len() as int;
                        assert(self.units@.take(k) == mid.units@.take(k));
                        assert forall|j: int| 0 <= j < names.len() implies (#[trigger] self.units@[k + j]).unit_expr.code()
                            == name_code(names[j]) && self.units@[k + j].unit_expr.args().len() == 0 by {
                            assert(self.units@[k + j] == mid.units@[k + j]);
                        }
                    }
                }
                add_depth(depth, 1)
            },
            Branch::If(id, cond) => {
                let ghost start = *self;
                let ghost names = item_names(items@);
                let (i, num, cond_depth) = self.translate_condition(cond, comment)?;
                let ghost after_cond = *self;
                let body_depth = self.translate_items(items, None)?;
                let ghost after_body = *self;
                let depth = add_depth(cond_depth, body_depth)?;
                let skip = if followed { add_depth(body_depth, 1)? } else { body_depth };
                self.transform_condition(i, num, skip)?;
                let ghost after_transform = *self;
                let slot = self.chain_slot(id)?;
                self.set_tail(slot, depth)?;
                proof {
                    if if_calls(&start, bi) {
                        let k = start.units@.len() as int;
                        let m = names.len() as int;
                        assert(after_cond.units@.len() == k + 1);
                        assert(i == k);
                        assert(after_body.units@.len() == k + 1 + m);
                        assert(after_body.units@[k] == after_cond.units@[k]);
                        assert(after_cond.units@[k].unit_expr is Dummy);
                        assert(self.units@.take(k) =~= start.units@) by {
                            assert forall|j: int| 0 <= j < k implies self.units@[j] == start.units@[j] by {
                                assert(after_cond.units@.drop_last()[j] == start.units@[j]);
                                assert(after_body.units@[j] == after_cond.units@[j]);
                                assert(after_transform.units@[j] == after_body.units@[j]);
                            }
                        }
                        assert forall|j: int| 0 <= j < m implies (#[trigger] self.units@[k + 1 + j]).unit_expr.code()
                            == name_code(names[j]) && self.units@[k + 1 + j].unit_expr.args().len() == 0 by {
                            assert(after_transform.units@[k + 1 + j] == after_body.units@[k + 1 + j]);
                        }
                    }
                }
                Ok(depth)
            },
            Branch::Elif(id, cond) => {
                let slot = self.chain_slot(id)?;
                self.push_unit(UnitExpr::new_jr(UnitLine::Indexed(slot)), None);
                let (i, num, cond_depth) = self.translate_condition(cond, comment)?;
                let body_depth = self.translate_items(items, None)?;
                let depth = add_depth(1, cond_depth)?;
                let depth = add_depth(depth, body_depth)?;
                let skip = if followed { add_depth(body_depth, 1)? } else { body_depth };
                self.transform_condition(i, num, skip)?;
                let slot = self.chain_slot(id)?;
                self.set_tail(slot, depth)?;
                Ok(depth)
            },
            Branch::Else(id) => {
                let ghost start = *self;
                let ghost names = item_names(items@);
                let slot = self.chain_slot(id)?;
                self.push_unit(UnitExpr::new_jr(UnitLine::Indexed(slot)), comment.take());
                let ghost after_jump = *self;
                let body_depth = self.translate_items(items, None)?;
                let ghost after_body = *self;
                let depth = add_depth(1, body_depth)?;
                let slot = self.chain_slot(id)?;
                self.set_tail(slot, depth)?;
                proof {
                    if else_calls(&start, bi) {
                        let k = start.units@.len() as int;
                        let m = names.len() as int;
                        assert(after_body.units@.take(k + 1) == after_jump.units@);
                        assert(self.units@[k] == after_jump.units@[k]);
                        assert(after_jump.units@[k] == after_jump.units@.last());
                        assert(self.units@.take(k) =~= start.units@) by {
                            assert forall|j: int| 0 <= j < k implies self.units@[j] == start.units@[j] by {
                                assert(after_jump.units@.drop_last()[j] == start.units@[j]);
                                assert(after_body.units@.take(k + 1)[j] == after_body.units@[j]);
                            }
                        }
                        assert forall|j: int| 0 <= j < m implies (#[trigger] self.units@[k + 1 + j]).unit_expr.code()
                            == name_code(names[j]) && self.units@[k + 1 + j].unit_expr.args().len() == 0 by {
                            assert(after_body.units@[after_jump.units@.len() + j] == self.units@[k + 1 + j]);
                        }
                    }
                }
                Ok(depth)
            },
            Branch::While(cond) => {
                let ghost start = *self;
                let ghost names = item_names(items@);
                let (i, num, cond_depth) = self.translate_condition(cond, comment)?;
                let ghost after_cond = *self;
                let body_depth = self.translate_items(items, None)?;
                let ghost after_body = *self;
                let depth = add_depth(cond_depth, body_depth)?;
                let skip = add_depth(1, body_depth)?;
                self.transform_condition(i, num, skip)?;
                let ghost after_transform = *self;
                let back = line_offset(skip)?;
                self.push_unit(UnitExpr::new_jr(UnitLine::Lit(-back)), None);
                proof {
                    if while_calls(&start, bi) {
                        let k = start.units@.len() as int;
                        let m = names.len() as int;
                        assert(after_cond.units@.len() == k + 1);
                        assert(i == k);
                        assert(after_body.units@.len() == k + 1 + m);
                        assert(after_body.units@[k] == after_cond.units@[k]);
                        assert(after_cond.units@[k].unit_expr is Dummy);
                        assert(self.units@[k] == after_transform.units@[k]);
                        assert(self.units@.take(k) =~= start.units@) by {
                            assert forall|j: int| 0 <= j < k implies self.units@[j] == start.units@[j] by {
                                assert(after_cond.units@.drop_last()[j] == start.units@[j]);
                                assert(after_body.units@[j] == after_cond.units@[j]);
                                assert(after_transform.units@[j] == after_body.units@[j]);
                                assert(self.units@[j] == after_transform.units@[j]);
                            }
                        }
                        assert forall|j: int| 0 <= j < m implies (#[trigger] self.units@[k + 1 + j]).unit_expr.code()
                            == name_code(names[j]) && self.units@[k + 1 + j].unit_expr.args().len() == 0 by {
                            assert(after_transform.units@[k + 1 + j] == after_body.units@[k + 1 + j]);
                            assert(self.units@[k + 1 + j] == after_transform.units@[k + 1 + j]);
                        }
                    }
                }
                add_depth(depth, 1)
            },
            Branch::For(name, s, e, step_opt) => {
                let ghost start = *self;
                let ghost names = item_names(items@);
                let mut none: Option<String> = None;
                let (s_num, s_depth) = self.translate_expr(s, None, &mut none)?;
                let mut depth = s_depth;
                let i_var = match s_num {
                    UnitNum::Lit(_) => {
                        let i_var = self.get_var(&name, true)?;
                        self.insert_alias(UnitAliasKey::String(name), UnitAlias::Var(i_var));
                        self.push_unit(UnitExpr::new_move(i_var, s_num), comment.take());
                        depth = add_depth(depth, 1)?;
                        i_var
                    },
                    UnitNum::Var(unit_var) => unit_var,
                };
                let i_num = UnitNum::Var(i_var);
                let ghost before_body = *self;
                let mut inner_depth = self.translate_items(items, None)?;
                let ghost after_body = *self;
                let mut none: Option<String> = None;
                let (e_num, e_depth) = self.translate_expr(e, None, &mut none)?;
                inner_depth = add_depth(inner_depth, e_depth)?;
                let step = match step_opt {
                    Some(step_expr) => {
                        let mut none: Option<String> = None;
                        let (step_num, step_depth) = self.translate_expr(step_expr, None, &mut none)?;
                        inner_depth = add_depth(inner_depth, step_depth)?;
                        step_num
                    },
                    None => UnitNum::Lit(L::one()),
                };
                self.push_unit(UnitExpr::new_add(i_var, i_num, step), None);
                inner_depth = add_depth(inner_depth, 1)?;
                let back = line_offset(inner_depth)?;
                self.push_unit(UnitExpr::new_brlt(i_num, e_num, UnitLine::Lit(-back)), comment);
                proof {
                    if for_calls(&start, bi) {
                        let k = start.units@.len() as int;
                        let m = names.len() as int;
                        assert(before_body.units@.len() == k + 1);
                        assert(after_body.units@.len() == k + 1 + m);
                        assert(self.units@.take(k) =~= start.units@) by {
                            assert forall|j: int| 0 <= j < k implies self.units@[j] == start.units@[j] by {
                                assert(before_body.units@[j] == start.units@[j]);
                                assert(after_body.units@[j] == before_body.units@[j]);
                            }
                        }
                        assert(self.units@[k] == before_body.units@[k]) by {
                            assert(after_body.units@[k] == before_body.units@[k]);
                        }
                        assert forall|j: int| 0 <= j < m implies (#[trigger] self.units@[k + 1 + j]).unit_expr.code()
                            == name_code(names[j]) && self.units@[k + 1 + j].unit_expr.args().len() == 0 by {
                            assert(self.units@[k + 1 + j] == after_body.units@[k + 1 + j]);
                        }
                    }
                }
                depth = add_depth(depth, 1)?;
                add_depth(depth, inner_depth)
            },
            Branch::Function(name) => {
                let i = match self.find_line(&name) {
                    Some(i) => i,
                    None => {
                        return Err(MypsLexerError::undefined_function(&name));
                    },
                };
                if i >= self.branch_tails.len() {
                    return Err(MypsLexerError::undefined_function(&name));
                }
                let ghost start = *self;
                let ghost names = item_names(items@);
                let line = self.units.len();
                self.branch_tails.set(i, line);
                let ghost before_body = *self;
                let items_depth = self.translate_items(items, comment)?;
                let ghost after_body = *self;
                let depth = add_depth(1, items_depth)?;
                self.push_unit(UnitExpr::new_j(UnitLine::RA), None);
                proof {
                    if fn_calls(&start, bi) {
                        let k = start.units@.len() as int;
                        let m = names.len() as int;
                        assert(self.units@.take(k) =~= start.units@) by {
                            assert forall|j: int| 0 <= j < k implies self.units@[j] == start.units@[j] by {
                                assert(after_body.units@[j] == before_body.units@[j]);
                                assert(self.units@.drop_last()[j] == after_body.units@[j]);
                            }
                        }
                        assert forall|j: int| 0 <= j < m implies (#[trigger] self.units@[k + j]).unit_expr.code()
                            == name_code(names[j]) && self.units@[k + j].unit_expr.args().len() == 0 by {
                            assert(self.units@.drop_last()[k + j] == after_body.units@[k + j]);
                        }
                    }
                }
                Ok(depth)
            },
            Branch::Def(_) => Err(MypsLexerError::unsupported("a def block (functions are translated on their own)")),
        }
    }

    /// Records the tail line of the if-elif-else chain `id`: the units so far plus `depth`.
    /// A chain not met before gets the next tail.
    fn set_tail(&mut self, id: usize, depth: usize) -> (r: MypsLexerResult<()>)
        requires
            old(self).wf(),
        ensures
            final(self).wf(),
            final(self).units == old(self).units,
            final(self).line_lookup == old(self).line_lookup,
            final(self).conf == old(self).conf,
            final(self).var_next_id == old(self).var_next_id,
            r is Ok <==> old(self).units@.len() + depth <= usize::MAX,
            r is Ok ==> final(self).branch_tails@ == if id < old(self).branch_tails@.len() {
                old(self).branch_tails@.update(id as int, (old(self).units@.len() + depth) as usize)
            } else {
                old(self).branch_tails@.push((old(self).units@.len() + depth) as usize)
            },
            r is Err ==> final(self).branch_tails == old(self).branch_tails,
    {
        let tail = add_depth(self.units.len(), depth)?;
        if id < self.branch_tails.len() {
            self.branch_tails.set(id, tail);
        } else {
            self.branch_tails.push(tail);
        }
        Ok(())
    }

    /// Translates a program item and its functions: a tail index is reserved for each
    /// function, in order; the program comes first, then each function's block; last, every
    /// jump to the tail of a chain or function gets that tail's line.
    #[verifier::spinoff_prover]
    #[verifier::rlimit(100)]
    pub fn translate(conf: TranslatorConf, program_item: Item<L>, functions: Functions<L>) -> (r: MypsLexerResult<Self>)
        ensures
            r matches Ok(t) ==> t.wf() && t.conf == conf && no_pending(t.units@),
            r matches Ok(t) ==> t.line_lookup@.len() == functions@.len() && forall|i: int|
                0 <= i < functions@.len() ==> (#[trigger] t.line_lookup@[i]).0@ == functions@[i].0@
                    && t.line_lookup@[i].1 == i,
            program_calls(program_item) && functions@.len() == 0 ==> (r matches Ok(t) && units_call(
                t.units@,
                item_names(program_item.item_inner->Block_0.items@),
            )),
            user_program(program_item, functions@) ==> (r matches Ok(t) && user_code(t.units@, program_item, functions@)),
            if_else_program(program_item) && functions@.len() == 0 ==> (r matches Ok(t) && if_else_code(t.units@, program_item)),
    {
        let ghost calls = program_calls(program_item) && functions@.len() == 0;
        let ghost names = item_names(program_item.item_inner->Block_0.items@);
        let ghost users = user_program(program_item, functions@);
        let ghost ifelse = if_else_program(program_item) && functions@.len() == 0;
        let ghost fs = functions@;
        let ghost p = prog_items(program_item).len() as int;
        let mut translator = Self::new(conf);
        let n = functions.len();
        let mut idx: usize = 0;
        while idx < n
            invariant
                n == functions@.len(),
                idx <= n,
                translator.wf(),
                translator.conf == conf,
                translator.units@.len() == 0,
                translator.branch_tails@.len() == idx,
                translator.line_lookup@.len() == idx,
                forall|i: int| 0 <= i < idx ==> (#[trigger] translator.line_lookup@[i]).0@ == functions@[i].0@
                    && translator.line_lookup@[i].1 == i,
            decreases n - idx,
        {
            translator.branch_tails.push(idx);
            translator.line_lookup.push((functions[idx].0.clone(), idx));
            idx = idx + 1;
        }
        let ghost lookup = translator.line_lookup@;
        let ghost start = translator;
        proof {
            if ifelse {
                assert(if_else_calls(&translator, prog_items(program_item)));
            }
        }
        proof {
            if users {
                assert forall|k: int| 0 <= k < prog_items(program_item).len() implies (#[trigger] user_call_idx(
                    lookup,
                    prog_items(program_item)[k],
                )) is Some && user_call_idx(lookup, prog_items(program_item)[k])->0 == called(program_item, fs, k) by {
                    let it = prog_items(program_item)[k];
                    let nm = it.item_inner->Stmt_0->FunctionCall_0->User_0@;
                    lemma_find_line_index(lookup, fs, nm);
                }
                assert(program_jals(lookup, program_item));
            }
        }
        translator.translate_item(program_item, None, false)?;
        proof {
            if calls {
                assert(translator.units@ == translator.units@.take(0) + translator.units@);
                assert forall|j: int| 0 <= j < names.len() implies (#[trigger] translator.units@[j]).unit_expr.code()
                    == name_code(names[j]) && translator.units@[j].unit_expr.args().len() == 0 by {
                    assert(translator.units@[start.units@.len() + j] == translator.units@[j]);
                }
            }
            if users {
                assert forall|k: int| 0 <= k < p implies (#[trigger] translator.units@[k]).unit_expr is Jal
                    && translator.units@[k].unit_expr.args() == seq![UnitArg::<L>::UnitLine(UnitLine::Indexed(called(program_item, fs, k) as usize))] by {
                    assert(translator.units@[0 + k] == translator.units@[k]);
                    assert(user_call_idx(lookup, prog_items(program_item)[k])->0 == called(program_item, fs, k));
                }
                assert(fn_start(p, fs, 0) == p);
                reveal(fn_bodies);
                reveal(fn_returns);
                assert(laid_out(&translator, program_item, fs, 0));
            }
        }
        let mut rest = functions;
        let ghost mut fi: int = 0;
        while rest.len() > 0
            invariant
                translator.wf(),
                translator.conf == conf,
                translator.line_lookup@ == lookup,
                calls == (program_calls(program_item) && functions@.len() == 0),
                calls ==> rest@.len() == 0 && units_call(translator.units@, names)
                    && translator.branch_tails@.len() == 0,
                ifelse == (if_else_program(program_item) && functions@.len() == 0),
                ifelse ==> rest@.len() == 0 && if_else_emitted(&start, &translator, prog_items(program_item))
                    && start.units@.len() == 0 && start.line_lookup@.len() == 0 && start.branch_tails@.len() == 0,
                users == user_program(program_item, fs),
                fs == functions@,
                p == prog_items(program_item).len(),
                fs.len() <= usize::MAX,
                lookup.len() == fs.len(),
                forall|i: int| 0 <= i < lookup.len() ==> (#[trigger] lookup[i]).0@ == fs[i].0@ && lookup[i].1 == i,
                users ==> 0 <= fi <= fs.len() && rest@ == fs.skip(fi) && laid_out(&translator, program_item, fs, fi),
            decreases rest.len(),
        {
            assert(!calls && !ifelse);
            let ghost before = translator;
            let (name, function, comment) = rest.remove(0);
            let item = Item::block(function, comment);
            proof {
                if users {
                    assert(rest@ == fs.skip(fi + 1));
                    assert((name, function, comment) == fs[fi]);
                    lemma_fn_start_mono(p, fs, fi + 1, fs.len() as int);
                    lemma_fn_start_mono(p, fs, fi, fi + 1);
                    lemma_find_line_index(lookup, fs, fs[fi].0@);
                    assert(fn_index(fs, fs[fi].0@) == fi) by {
                        let w = fn_index(fs, fs[fi].0@);
                        if w != fi {
                            assert(fs[w].0@ != fs[fi].0@);
                        }
                    }
                    assert(function == fs[fi].1);
                    assert(item.item_inner == ItemInner::Block(function));
                    assert(find_line(before.line_lookup@, fs[fi].0@) == Some(fi as usize));
                    assert(fn_start(p, fs, fi + 1) == fn_start(p, fs, fi) + fs[fi].1.items@.len() + 1);
                    assert(fs[fi].1.branch == Branch::<L>::Function(fs[fi].0) && calls_only(fs[fi].1.items@));
                    assert(fi < before.branch_tails@.len());
                    assert(fs[fi].1.items@.len() + 1 <= usize::MAX);
                    assert(fn_calls(&before, item));
                }
            }
            translator.translate_item(item, None, false)?;
            proof {
                if users {
                    lemma_fn_step(&before, &translator, program_item, fs, fi, item);
                }
                fi = fi + 1;
            }
        }
        proof {
            if users {
                assert(fi == fs.len()) by {
                    assert(fs.skip(fi).len() == 0);
                }
                lemma_fn_start_mono(p, fs, 0, fs.len() as int);
                assert(laid_out(&translator, program_item, fs, fs.len() as int));
            }
        }
        let mut tails: Vec<i64> = Vec::new();
        let mut k: usize = 0;
        while k < translator.branch_tails.len()
            invariant
                k <= translator.branch_tails@.len(),
                tails@.len() == k,
                calls == (program_calls(program_item) && functions@.len() == 0),
                calls ==> translator.branch_tails@.len() == 0,
                forall|j: int| 0 <= j < k ==> #[trigger] tails@[j] == translator.branch_tails@[j] as i64,
                users ==> forall|g: int| 0 <= g < fs.len() ==> #[trigger] translator.branch_tails@[g] == fn_start(p, fs, g),
                users ==> translator.branch_tails@.len() == fs.len() && fn_start(p, fs, fs.len() as int) <= i64::MAX,
                users == user_program(program_item, fs),
                users ==> laid_out(&translator, program_item, fs, fs.len() as int) && fs.len() <= usize::MAX,
                p == prog_items(program_item).len(),
                fs == functions@,
                ifelse == (if_else_program(program_item) && functions@.len() == 0),
                ifelse ==> if_else_emitted(&start, &translator, prog_items(program_item))
                    && start.units@.len() == 0 && start.line_lookup@.len() == 0 && start.branch_tails@.len() == 0,
            decreases translator.branch_tails@.len() - k,
        {
            proof {
                if users {
                    lemma_fn_start_mono(p, fs, k as int, fs.len() as int);
                    assert(translator.branch_tails@[k as int] == fn_start(p, fs, k as int));
                    assert(translator.branch_tails@[k as int] <= i64::MAX);
                }
                if ifelse {
                    lemma_if_else_tails(&start, &translator, program_item);
                }
            }
            let tail = line_offset(translator.branch_tails[k])?;
            tails.push(tail);
            k = k + 1;
        }
        let ghost pre = translator.units@;
        let ghost pre_t = translator;
        proof {
            if users {
                lemma_user_resolvable(pre, tails@, program_item, fs);
            }
            if ifelse {
                lemma_if_else_tails(&start, &translator, program_item);
                assert(tails@ =~= seq![translator.branch_tails@[0] as i64]);
                lemma_if_else_resolvable(&start, &translator, program_item, tails@);
            }
        }
        let mut i: usize = 0;
        while i < translator.units.len()
            invariant
                translator.wf(),
                translator.conf == conf,
                translator.line_lookup@ == lookup,
                i <= translator.units@.len(),
                no_pending(translator.units@.take(i as int)),
                calls == (program_calls(program_item) && functions@.len() == 0),
                calls ==> units_call(translator.units@, names),
                translator.units@.len() == pre.len(),
                forall|x: int| 0 <= x < pre.len() ==> (#[trigger] translator.units@[x]).unit_expr.code() == pre[x].unit_expr.code()
                    && translator.units@[x].unit_expr.args() == if x < i {
                    pre[x].unit_expr.args().map_values(|a: UnitArg<L>| a.resolved(tails@))
                } else {
                    pre[x].unit_expr.args()
                },
                users ==> tails@.len() == fs.len() && forall|g: int| 0 <= g < fs.len() ==> #[trigger] tails@[g] == fn_start(p, fs, g) as i64,
                users ==> pre.len() == fn_start(p, fs, fs.len() as int),
                users ==> prog_jals(pre, program_item, fs) && fn_bodies(pre, p, fs, fs.len() as int)
                    && fn_returns(pre, p, fs, fs.len() as int) && fs.len() <= usize::MAX,
                users || ifelse ==> forall|x: int| 0 <= x < pre.len() ==> all_resolvable(#[trigger] pre[x].unit_expr.args(), tails@),
                ifelse == (if_else_program(program_item) && functions@.len() == 0),
                ifelse ==> if_else_emitted(&start, &pre_t, prog_items(program_item)) && pre == pre_t.units@
                    && start.units@.len() == 0 && start.line_lookup@.len() == 0 && start.branch_tails@.len() == 0
                    && tails@ == seq![pre_t.branch_tails@[0] as i64],
                users == user_program(program_item, fs),
                p == prog_items(program_item).len(),
                fs == functions@,
            decreases translator.units@.len() - i,
        {
            let ghost before = translator.units@;
            assert(calls ==> translator.units@[i as int].unit_expr.args().len() == 0);
            assert(translator.units@[i as int].unit_expr.args() == pre[i as int].unit_expr.args());
            translator.units[i].unit_expr.resolve_lines(&tails)?;
            proof {
                if calls {
                    let now = translator.units@;
                    assert forall|j: int| 0 <= j < names.len() implies (#[trigger] now[j]).unit_expr.code()
                        == name_code(names[j]) && now[j].unit_expr.args().len() == 0 by {
                        if j != i {
                            assert(now[j] == before[j]);
                        }
                    }
                }
                assert forall|x: int| 0 <= x < pre.len() implies (#[trigger] translator.units@[x]).unit_expr.code() == pre[x].unit_expr.code()
                    && translator.units@[x].unit_expr.args() == if x < i + 1 {
                    pre[x].unit_expr.args().map_values(|a: UnitArg<L>| a.resolved(tails@))
                } else {
                    pre[x].unit_expr.args()
                } by {
                    if x != i {
                        assert(translator.units@[x] == before[x]);
                    }
                }
            }
            proof {
                let now = translator.units@;
                assert forall|a: int, b: int|
                    0 <= a < now.take(i + 1).len() && 0 <= b < now.take(i + 1)[a].unit_expr.args().len()
                    implies !(#[trigger] now.take(i + 1)[a].unit_expr.args()[b]).unresolved() by {
                    if a < i {
                        assert(now[a] == before[a]);
                        assert(before.take(i as int)[a] == before[a]);
                        assert(!before.take(i as int)[a].unit_expr.args()[b].unresolved());
                    } else {
                        let x = before[a].unit_expr.args()[b];
                        assert(now[a].unit_expr.args()[b] == x.resolved(tails@));
                    }
                }
            }
            i = i + 1;
        }
        assert(translator.units@.take(translator.units@.len() as int) == translator.units@);
        proof {
            if users {
                lemma_fn_start_mono(p, fs, 0, fs.len() as int);
                lemma_user_jals(pre, translator.units@, tails@, program_item, fs);
                lemma_user_fns(pre, translator.units@, tails@, p, fs);
            }
            if ifelse {
                lemma_if_else_code(&start, &pre_t, translator.units@, program_item, tails@);
            }
        }
        Ok(translator)
    }

    /// Lexes the parse tree of a program (see `lex_program_pair`) and translates it.
    pub fn parse_lex_and_translate(conf: TranslatorConf, program: &PairTree<L>) -> (r: MypsLexerResult<Self>)
        ensures
            r matches Ok(t) ==> t.wf() && t.conf == conf && no_pending(t.units@),
            program_heads(program.inner@) is Some && call_heads(program_heads(program.inner@)->0) ==> (r matches Ok(t)
                && units_call(t.units@, head_names(program_heads(program.inner@)->0))),
    {
        let ghost c = program.inner@;
        let ghost hs = program_heads(c)->0;
        proof {
            if program_heads(c) is Some && call_heads(hs) {
                assert forall|i: int| 0 <= i < hs.len() implies (#[trigger] hs[i]).0 == 0 && hs[i].1.rule
                    == Rule::stmt && exists|s: Statement<L>| statement_is(hs[i].1, s) by {
                    let x = hs[i].1.inner@[0];
                    assert(statement_is(x, Statement::<L>::FunctionCall(FunctionCall::Nullary(x.inner@[0].text))));
                    assert(statement_is(hs[i].1, Statement::<L>::FunctionCall(FunctionCall::Nullary(x.inner@[0].text))));
                }
                assert(flat_heads(hs));
                assert forall|i: int, s: Statement<L>| 0 <= i < hs.len() && #[trigger] statement_is(hs[i].1, s)
                    implies stmt_accepted(s) by {
                    assert(statement_is(hs[i].1.inner@[0], s));
                }
            }
        }
        let (program_item, functions) = lex_program_pair(program)?;
        proof {
            if program_heads(c) is Some && call_heads(hs) {
                let items = program_item.item_inner->Block_0.items@;
                assert forall|i: int| 0 <= i < items.len() implies ((#[trigger] call_name(items[i])) matches Some(n)
                    && nullary_ok(n)) && call_name(items[i])->0 == head_names(hs)[i] by {
                    assert(statement_is(hs[i].1, items[i].item_inner->Stmt_0));
                    assert(statement_is(hs[i].1.inner@[0], items[i].item_inner->Stmt_0));
                }
                assert(item_names(items) =~= head_names(hs));
                assert(program_calls(program_item));
            }
        }
        Self::translate(conf, program_item, functions)
    }

    /// Further optimization of the units: none yet.
    pub fn optimize(&mut self)
        ensures
            *final(self) == *old(self),
    {
    }

    /// Gives the variables registers (see `var_to_reg_optimizer_map`) and renames them in
    /// every unit. A unit that names a variable without a register is an error, and then no
    /// unit changes.
    pub fn optimize_registers(&mut self) -> (r: MypsLexerResult<()>)
        requires
            old(self).wf(),
        ensures
            final(self).wf(),
            final(self).units@.len() == old(self).units@.len(),
            final(self).aliases == old(self).aliases,
            final(self).var_next_id == old(self).var_next_id,
            final(self).var_lifetimes == old(self).var_lifetimes,
            final(self).vars_fixed == old(self).vars_fixed,
            final(self).branch_tails == old(self).branch_tails,
            final(self).line_lookup == old(self).line_lookup,
            final(self).conf == old(self).conf,
            r is Err ==> final(self).units@ == old(self).units@,
            r is Ok ==> exists|m: Map<usize, usize>| #[trigger] renamed_by(old(self).units@, final(self).units@, m)
                && allocates(m, old(self).var_lifetimes@, old(self).vars_fixed@)
                && reuses(m, old(self).var_lifetimes@, old(self).vars_fixed@)
                && fewest(m, old(self).var_lifetimes@, old(self).vars_fixed@)
                && lowest_free(m, old(self).var_lifetimes@, old(self).vars_fixed@),
            old(self).var_lifetimes@.len() + old(self).vars_fixed@.len() < usize::MAX
                && units_vars_below(old(self).units@, old(self).var_next_id as nat) ==> r is Ok,
    {
        let map = var_to_reg_optimizer_map(self.var_next_id, &self.var_lifetimes, &self.vars_fixed)?;
        let mut i: usize = 0;
        while i < self.units.len()
            invariant
                i <= self.units@.len(),
                self.wf(),
                self.units == old(self).units,
                self.aliases == old(self).aliases,
                self.branch_tails == old(self).branch_tails,
                self.line_lookup == old(self).line_lookup,
                self.conf == old(self).conf,
                self.var_lifetimes == old(self).var_lifetimes,
                self.vars_fixed == old(self).vars_fixed,
                self.var_next_id == old(self).var_next_id,
                self.var_lifetimes@.len() == self.var_next_id,
                allocates(map@, self.var_lifetimes@, self.vars_fixed@),
                reuses(map@, self.var_lifetimes@, self.vars_fixed@),
                fewest(map@, self.var_lifetimes@, self.vars_fixed@),
                lowest_free(map@, self.var_lifetimes@, self.vars_fixed@),
                forall|k: int| 0 <= k < i ==> (#[trigger] self.units@[k]).unit_expr.vars_in(map@),
            decreases self.units@.len() - i,
        {
            if !self.units[i].unit_expr.vars_mapped(&map) {
                proof {
                    if self.var_lifetimes@.len() + self.vars_fixed@.len() < usize::MAX
                        && units_vars_below(self.units@, self.var_next_id as nat) {
                        let args = self.units@[i as int].unit_expr.args();
                        assert forall|j: int| 0 <= j < args.len() implies (#[trigger] args[j]).vars_in(map@) by {
                            assert(var_below(self.units@[i as int].unit_expr.args()[j], self.var_next_id as nat));
                            if args[j].var_of() is Some {
                                assert(args[j].var_of()->0 < self.var_lifetimes@.len());
                                assert(map@.contains_key(args[j].var_of()->0));
                            }
                        }
                    }
                }
                return Err(MypsLexerError::UnmappedVar);
            }
            i = i + 1;
        }
        let ghost before = self.units@;
        let mut i: usize = 0;
        while i < self.units.len()
            invariant
                self.wf(),
                self.units@.len() == before.len(),
                i <= before.len(),
                forall|k: int| 0 <= k < before.len() ==> (#[trigger] before[k]).unit_expr.vars_in(map@),
                forall|k: int| 0 <= k < i ==> renamed_unit(before[k], #[trigger] self.units@[k], map@),
                forall|k: int| i <= k < before.len() ==> #[trigger] self.units@[k] == before[k],
                self.aliases == old(self).aliases,
                self.var_next_id == old(self).var_next_id,
                self.var_lifetimes == old(self).var_lifetimes,
                self.vars_fixed == old(self).vars_fixed,
                self.branch_tails == old(self).branch_tails,
                self.line_lookup == old(self).line_lookup,
                self.conf == old(self).conf,
                before == old(self).units@,
            decreases before.len() - i,
        {
            self.units[i].map_vars(&map);
            i = i + 1;
        }
        assert(renamed_by(old(self).units@, self.units@, map@));
        Ok(())
    }
}

/// The number an alias stands for, if it stands for one.
pub open spec fn alias_num<L>(a: UnitAlias<L>) -> Option<UnitNum<L>> {
    match a {
        UnitAlias::Num(n) => Some(n),
        UnitAlias::Var(v) => Some(UnitNum::Var(v)),
        _ => None,
    }
}

/// The device an alias stands for, if it stands for one.
pub open spec fn alias_dev<L>(a: UnitAlias<L>) -> Option<UnitDev> {
    match a {
        UnitAlias::Dev(d) => Some(d),
        UnitAlias::Var(v) => Some(UnitDev::Var(v)),
        _ => None,
    }
}

/// The network an alias stands for, if it stands for one.
pub open spec fn alias_net<L>(a: UnitAlias<L>) -> Option<UnitDevNet<L>> {
    match a {
        UnitAlias::Net(d) => Some(d),
        UnitAlias::Var(v) => Some(UnitDevNet::Var(v)),
        _ => None,
    }
}

/// A variable alias names a variable that is handed out.
pub open spec fn alias_defined<L>(a: UnitAlias<L>, next_id: usize) -> bool {
    a matches UnitAlias::Var(v) ==> v.0 < next_id
}

/// The number a return stands for, where it stands for one.
fn ret_to_num<L: Literal>(ret: UnitReturn<L>) -> (r: MypsLexerResult<UnitNum<L>>)
    ensures
        r matches Ok(n) ==> ret_as_num(ret) == Some(n),
        r is Ok <==> ret_as_num(ret) is Some,
{
    match ret {
        UnitReturn::Num(unit_num) => Ok(unit_num),
        UnitReturn::Var(unit_var) => Ok(UnitNum::Var(unit_var)),
        _ => Err(MypsLexerError::failed_conversion("a unit number variant unit return")),
    }
}

/// A number as a return.
pub open spec fn ret_num<L>(n: Option<UnitNum<L>>) -> Option<UnitReturn<L>> {
    match n {
        Some(n) => Some(UnitReturn::Num(n)),
        None => None,
    }
}

/// `d` is the device that the translation `ret` of an r-value stands for: a number is a
/// device index (a literal one, or the one a variable holds), and a network is none.
pub open spec fn dev_from_ret<L>(d: UnitDev, ret: UnitReturn<L>) -> bool {
    match ret {
        UnitReturn::Num(UnitNum::Lit(_)) => d is Lit,
        UnitReturn::Num(UnitNum::Var(v)) => d == UnitDev::Var(v),
        UnitReturn::Dev(x) => d == x,
        UnitReturn::Var(v) => d == UnitDev::Var(v),
        UnitReturn::Net(_) => false,
    }
}

/// What reading an alias as an r-value returns.
pub open spec fn alias_return<L>(a: UnitAlias<L>) -> UnitReturn<L> {
    match a {
        UnitAlias::Num(n) => UnitReturn::Num(n),
        UnitAlias::Dev(d) => UnitReturn::Dev(d),
        UnitAlias::Net(n) => UnitReturn::Net(n),
        UnitAlias::Var(v) => UnitReturn::Var(v),
    }
}

/// The number that the expression `e` stands for without any unit, if it is a literal or
/// a name that aliases a number or a variable in `t`.
pub open spec fn leaf_num<L: Literal>(t: &Translator<L>, e: Expr<L>) -> Option<UnitNum<L>> {
    match e {
        Expr::RValue(RValue::Num(Num::Lit(n))) => Some(UnitNum::Lit(n)),
        Expr::RValue(RValue::Num(Num::Var(k))) => match t.alias(KeyView::Name(k@)) {
            Some(a) => alias_num(a),
            None => None,
        },
        Expr::RValue(RValue::Var(k)) => match t.alias(KeyView::Name(k@)) {
            Some(a) => alias_num(a),
            None => None,
        },
        _ => None,
    }
}

/// The device that `dev` stands for without any unit, if it is the housing or a name that
/// aliases a device in `t`.
pub open spec fn dev_leaf<L: Literal>(t: &Translator<L>, dev: Dev<L>) -> Option<UnitDev> {
    match dev {
        Dev::DB => Some(UnitDev::DB),
        Dev::Var(k) => match t.alias(KeyView::Name(k@)) {
            Some(a) => alias_dev(a),
            None => None,
        },
        _ => None,
    }
}

/// The expression is a literal, or a name that aliases a number or a defined variable; a
/// variable it stands for is below the next one.
pub open spec fn leaf_ok<L: Literal>(t: &Translator<L>, e: Expr<L>) -> bool {
    &&& leaf_num(t, e) matches Some(UnitNum::Var(v)) ==> v.0 < t.var_next_id
    &&& match e {
        Expr::RValue(RValue::Num(Num::Lit(_))) => true,
        Expr::RValue(RValue::Num(Num::Var(k))) => t.alias(KeyView::Name(k@)) matches Some(a) && alias_num(a) is Some
            && alias_defined(a, t.var_next_id),
        Expr::RValue(RValue::Var(k)) => t.alias(KeyView::Name(k@)) matches Some(a) && alias_num(a) is Some
            && alias_defined(a, t.var_next_id),
        _ => false,
    }
}

/// The binary operators that have an IC10 instruction.
pub open spec fn has_instr(op: BinaryOp) -> bool {
    op is Add || op is Sub || op is Mul || op is Div || op is Rem || op is EQ || op is GT || op is LT || op is NE
        || op is Or
}

/// A variable can be had to store into: the given one, if the state has it, or a new one.
pub open spec fn var_free<L>(t: &Translator<L>, unit_var: Option<UnitVar>) -> bool {
    match unit_var {
        Some(v) => v.0 < t.var_next_id,
        None => t.var_next_id < usize::MAX,
    }
}

/// What assigning `r_value` to `l_value` does from `old` to `new`, the pending comment going
/// from `c0` to `c1`, with the result `r`.
#[verifier::opaque]
pub open spec fn assigns<L: Literal>(
    old: &Translator<L>,
    new: &Translator<L>,
    l_value: LValue<L>,
    r_value: RValue<L>,
    c0: Option<String>,
    c1: Option<String>,
    r: MypsLexerResult<usize>,
) -> bool {
    &&& new.progresses(old)
    &&& r matches Ok(depth) ==> depth == new.added(old)
    &&& c1 is None || c1 == c0
    &&& l_value matches LValue::Var(k, fix) ==> (r_value matches RValue::Num(Num::Lit(n)) ==> (r is Ok
        <==> old.var_available(k@, fix)))
    &&& l_value matches LValue::Var(k, fix) ==> (r_value matches RValue::Num(Num::Lit(n)) ==> (!fix ==> (r is Ok
        ==> r == Ok::<usize, MypsLexerError>(0usize) && new.units@ == old.units@ && new.alias(KeyView::Name(k@))
        == Some(UnitAlias::Num(UnitNum::Lit(n))))))
    &&& l_value matches LValue::Var(k, fix) ==> (r_value matches RValue::Num(Num::Lit(n)) ==> (fix ==> (r is Ok
        ==> fixed_move(old, new, k@, n))))
    &&& l_value matches LValue::Param(_, p) ==> (r is Ok ==> new.added(old) >= 1 && (new.units@.last().unit_expr is S
        || new.units@.last().unit_expr is Sb) && new.units@.last().unit_expr.args()[1] == UnitArg::<L>::String(p))
    &&& l_value is Param ==> (r is Ok ==> new.units@.last().unit_expr.args().len() == 3 && (r_value matches RValue::Num(
        Num::Lit(n)) ==> new.units@.last().unit_expr.args()[2] == UnitArg::<L>::UnitNum(UnitNum::Lit(n))))
    &&& l_value matches LValue::Param(dev, _) ==> (r_value matches RValue::Num(Num::Lit(_)) && (dev is DB || (
        dev matches Dev::Var(k) && old.alias(KeyView::Name(k@)) matches Some(a) && (a is Dev || a is Net || a is Num)))
        ==> r == Ok::<usize, MypsLexerError>(1usize) && c1 is None && new.units@.last().comment == (if old.conf.show_comments {
        c0
    } else {
        None
    }))
    &&& l_value matches LValue::Param(Dev::DB, _) ==> (r is Ok ==> new.units@.last().unit_expr is S
        && new.units@.last().unit_expr.args()[0] == UnitArg::<L>::UnitDev(UnitDev::DB))
}

/// From `old` to `new`, the pairs of `ls` and `rs` were assigned in order, as far as the
/// shorter goes, each with success, through the states `ts` and the pending comments `cs`.
pub open spec fn assigned_in_order<L: Literal>(
    old: &Translator<L>,
    new: &Translator<L>,
    ls: Seq<LValue<L>>,
    rs: Seq<RValue<L>>,
    c0: Option<String>,
    c1: Option<String>,
    ts: Seq<Translator<L>>,
    cs: Seq<Option<String>>,
) -> bool {
    let n = if ls.len() < rs.len() { ls.len() } else { rs.len() };
    &&& ts.len() == n + 1
    &&& cs.len() == n + 1
    &&& ts[0] == *old
    &&& ts[n as int] == *new
    &&& cs[0] == c0
    &&& cs[n as int] == c1
    &&& forall|j: int| #![trigger ts[j]] 0 <= j < n ==> assigns(&ts[j], &ts[j + 1], ls[j], rs[j], cs[j], cs[j + 1], Ok::<
        usize,
        MypsLexerError,
    >(ts[j + 1].added(&ts[j]) as usize))
}

/// The comment that an item's code takes: the one given in its place, else its own.
pub open spec fn leading_comment<L>(first: Option<String>, item: Item<L>) -> Option<String> {
    if first is Some {
        first
    } else {
        item.comment
    }
}

/// The statement as std's `format!` with `{:#?}` shows it, through its derived `Debug`, for
/// error messages. Nothing is stated of the text.
#[verifier::external_body]
fn stmt_text<L: Literal>(stmt: &Statement<L>) -> String {
    format!("{:#?}", stmt)
}

/// The block item of `branch` over `items`.
pub open spec fn block_item<L>(branch: Branch<L>, items: Vec<Item<L>>) -> Item<L> {
    Item { comment: None, item_inner: ItemInner::Block(Block { branch, items }) }
}

/// The r-values that load a value into a variable.
pub open spec fn loads<L>(rv: RValue<L>) -> bool {
    rv is NetParam || rv is DevParam || rv is DevSlot || rv is Func
}

/// The instruction that loads an r-value: `lb`, `l`, `ls` or `trunc`.
pub open spec fn load_instr<L>(rv: RValue<L>, e: UnitExpr<L>) -> bool {
    match rv {
        RValue::NetParam(..) => e is Lb,
        RValue::DevParam(..) => e is L,
        RValue::DevSlot(..) => e is Ls,
        _ => e is Trunc,
    }
}

/// The variable that a load or an operation stores into: `unit_var` where one is given,
/// else a new one.
pub open spec fn var_target(w: UnitVar, unit_var: Option<UnitVar>, next_id: usize) -> bool {
    match unit_var {
        Some(v) => w == v,
        None => w.0 >= next_id,
    }
}

/// The number a return stands for, where it stands for one.
pub open spec fn ret_as_num<L>(ret: UnitReturn<L>) -> Option<UnitNum<L>> {
    match ret {
        UnitReturn::Num(n) => Some(n),
        UnitReturn::Var(v) => Some(UnitNum::Var(v)),
        _ => None,
    }
}

/// The operators that fold on two literals.
pub open spec fn folds(op: BinaryOp) -> bool {
    !(op is And || op is Or || op is Xor)
}

fn folds_exec(op: BinaryOp) -> (b: bool)
    ensures
        b == folds(op),
{
    match op {
        BinaryOp::And | BinaryOp::Or | BinaryOp::Xor => false,
        _ => true,
    }
}

/// The instruction of a binary operator on a variable.
pub open spec fn op_instr<L>(op: BinaryOp, e: UnitExpr<L>) -> bool {
    match op {
        BinaryOp::Add => e is Add,
        BinaryOp::Sub => e is Sub,
        BinaryOp::Mul => e is Mul,
        BinaryOp::Div => e is Div,
        BinaryOp::Rem => e is Mod,
        BinaryOp::EQ => e is SEq,
        BinaryOp::GT => e is Sgt,
        BinaryOp::LT => e is Slt,
        BinaryOp::NE => e is Sne,
        _ => e is Or,
    }
}

/// Whether the relation that a comparison operator names holds of `x` and `y`.
pub open spec fn compares(op: BinaryOp, x: int, y: int) -> bool {
    match op {
        BinaryOp::EQ => x == y,
        BinaryOp::NE => x != y,
        BinaryOp::GT => x > y,
        BinaryOp::GE => x >= y,
        BinaryOp::LT => x < y,
        BinaryOp::LE => x <= y,
        _ => false,
    }
}

/// The value that an arithmetic operator names, of `x` and `y`.
pub open spec fn op_value(op: BinaryOp, x: int, y: int) -> int {
    match op {
        BinaryOp::Add => x + y,
        BinaryOp::Sub => x - y,
        BinaryOp::Mul => x * y,
        BinaryOp::Div => x / y,
        BinaryOp::Rem => x % y,
        _ => 0,
    }
}

/// The value that an arithmetic instruction stores, from operands of values `x` and `y`.
pub open spec fn instr_value<L>(e: UnitExpr<L>, x: int, y: int) -> int {
    match e {
        UnitExpr::Add(_) => x + y,
        UnitExpr::Sub(_) => x - y,
        UnitExpr::Mul(_) => x * y,
        UnitExpr::Div(_) => x / y,
        UnitExpr::Mod(_) => x % y,
        _ => 0,
    }
}

/// The instruction that an operator becomes computes that operator: a comparison becomes
/// a select that holds exactly when the comparison does, an arithmetic operator an
/// instruction that stores its value, and `or` the `or` instruction.
pub proof fn lemma_operator_instruction_computes_it<L: Literal>(op: BinaryOp, e: UnitExpr<L>)
    requires
        has_instr(op),
        op_instr(op, e),
    ensures
        (op is EQ || op is NE || op is GT || op is LT) ==> is_select_expr(e) && forall|x: int, y: int| #[trigger] select_holds(e, x, y)
            == compares(op, x, y),
        (op is Add || op is Sub || op is Mul || op is Div || op is Rem) ==> forall|x: int, y: int| #[trigger] instr_value(e, x, y)
            == op_value(op, x, y),
        op is Or ==> e.mnemonic() == "or"@,
{
}

/// A select instruction: `seq`, `slt`, `sgt` or `sne`.
pub open spec fn is_select<L>(e: UnitExpr<L>) -> bool {
    e is SEq || e is Slt || e is Sgt || e is Sne
}

/// `e` is the branch that the condition unit `cond` becomes, skipping `body_depth` units.
pub open spec fn negated_branch<L: Literal>(cond: UnitExpr<L>, num: UnitNum<L>, body_depth: int, e: UnitExpr<L>) -> bool {
    let c = UnitArg::<L>::UnitLine(UnitLine::Lit((body_depth + 1) as i64));
    let ab = cond.args().subrange(1, 3);
    match cond {
        UnitExpr::SEq(_) => e is Brne && e.args() == ab.push(c),
        UnitExpr::Sne(_) => e is Breq && e.args() == ab.push(c),
        UnitExpr::Sgt(_) => e is Brle && e.args() == ab.push(c),
        UnitExpr::Slt(_) => e is Brge && e.args() == ab.push(c),
        _ => e is Breqz && e.args() == seq![UnitArg::UnitNum(num), c],
    }
}

/// The instruction is a select (set-if) instruction.
pub open spec fn is_select_expr<L: Literal>(e: UnitExpr<L>) -> bool {
    e is SEq || e is Sne || e is Sgt || e is Slt
}

/// Whether the select (set-if) instruction `e` sets its target to true, where its operands
/// have the values `x` and `y`: `seq` on equal values, `sne` on different ones, `sgt` when
/// the first is greater, `slt` when it is less.
pub open spec fn select_holds<L: Literal>(e: UnitExpr<L>, x: int, y: int) -> bool {
    match e {
        UnitExpr::SEq(_) => x == y,
        UnitExpr::Sne(_) => x != y,
        UnitExpr::Sgt(_) => x > y,
        UnitExpr::Slt(_) => x < y,
        _ => false,
    }
}

/// Whether the branch instruction `e` jumps, where its first operand has the value `x` and
/// its second (for a branch that compares two) the value `y`.
pub open spec fn branch_taken<L: Literal>(e: UnitExpr<L>, x: int, y: int) -> bool {
    match e {
        UnitExpr::Breq(_) => x == y,
        UnitExpr::Brne(_) => x != y,
        UnitExpr::Brgt(_) => x > y,
        UnitExpr::Brge(_) => x >= y,
        UnitExpr::Brlt(_) => x < y,
        UnitExpr::Brle(_) => x <= y,
        UnitExpr::Breqz(_) => x == 0,
        UnitExpr::Brnez(_) => x != 0,
        UnitExpr::Brgtz(_) => x > 0,
        UnitExpr::Brgez(_) => x >= 0,
        UnitExpr::Brltz(_) => x < 0,
        UnitExpr::Brlez(_) => x <= 0,
        _ => false,
    }
}

/// The branch that a condition becomes skips the body exactly when the condition is false.
/// A select `s? r a b` becomes a branch on `a` and `b` that jumps, for all values of them,
/// exactly when the select would not hold; any other condition becomes a branch on its
/// number that jumps exactly when the number is zero. The jump is by the body's depth and
/// one more.
pub proof fn lemma_branch_skips_when_false<L: Literal>(cond: UnitExpr<L>, num: UnitNum<L>, body_depth: int, e: UnitExpr<L>)
    requires
        negated_branch(cond, num, body_depth, e),
    ensures
        (cond is SEq || cond is Sne || cond is Sgt || cond is Slt) ==> e.args().len() == cond.args().subrange(1, 3).len() + 1
            && e.args().subrange(0, e.args().len() - 1) == cond.args().subrange(1, 3)
            && forall|x: int, y: int| #[trigger] branch_taken(e, x, y) == !select_holds(cond, x, y),
        !(cond is SEq || cond is Sne || cond is Sgt || cond is Slt) ==> e.args().len() == 2 && e.args()[0]
            == UnitArg::<L>::UnitNum(num) && forall|x: int, y: int| #[trigger] branch_taken(e, x, y) == (x == 0),
        e.args().last() == UnitArg::<L>::UnitLine(UnitLine::Lit((body_depth + 1) as i64)),
{
    let c = UnitArg::<L>::UnitLine(UnitLine::Lit((body_depth + 1) as i64));
    let ab = cond.args().subrange(1, 3);
    if cond is SEq || cond is Sne || cond is Sgt || cond is Slt {
        assert(e.args() == ab.push(c));
        assert(e.args().subrange(0, e.args().len() - 1) =~= ab);
    }
}

/// A nullary function name that names an instruction taking no arguments (or an empty or
/// placeholder unit).
pub open spec fn nullary_ok(name: Seq<char>) -> bool {
    name_code(name) >= 45 || (name_code(name) >= 0 && code_arity(name_code(name)) == 0)
}

/// The item opens an `elif` or `else` block.
pub open spec fn opens_elif_or_else<L>(item: Item<L>) -> bool {
    item.item_inner matches ItemInner::Block(b) && (b.branch is Elif || b.branch is Else)
}

/// Whether the item opens an `elif` or `else` block.
fn continues_chain<L>(item: &Item<L>) -> (b: bool)
    ensures
        b == opens_elif_or_else(*item),
{
    match &item.item_inner {
        ItemInner::Block(b) => match &b.branch {
            Branch::Elif(..) => true,
            Branch::Else(..) => true,
            _ => false,
        },
        _ => false,
    }
}

/// The name of an item that is a statement calling a nullary function.
pub open spec fn call_name<L>(item: Item<L>) -> Option<Seq<char>> {
    match item.item_inner {
        ItemInner::Stmt(Statement::FunctionCall(FunctionCall::Nullary(n))) => Some(n@),
        _ => None,
    }
}

/// Every item calls a nullary function that names an instruction taking no arguments.
pub open spec fn calls_only<L>(items: Seq<Item<L>>) -> bool {
    forall|i: int| 0 <= i < items.len() ==> ((#[trigger] call_name(items[i])) matches Some(n) && nullary_ok(n))
}

/// The names that the items call.
pub open spec fn item_names<L>(items: Seq<Item<L>>) -> Seq<Seq<char>> {
    items.map_values(|it: Item<L>| call_name(it)->0)
}

/// A program block of nullary instruction calls.
pub open spec fn program_calls<L>(item: Item<L>) -> bool {
    item.item_inner matches ItemInner::Block(b) && b.branch is Program && calls_only(b.items@)
}

/// A loop block of nullary instruction calls, few enough that its jump back fits.
pub open spec fn loop_calls<L>(item: Item<L>) -> bool {
    &&& item.item_inner matches ItemInner::Block(b) && b.branch is Loop && calls_only(b.items@)
    &&& item.item_inner->Block_0.items@.len() < usize::MAX
    &&& item.item_inner->Block_0.items@.len() <= i64::MAX
}

/// From `old` to `new`, the calls of `names` were appended, then a jump back over them.
pub open spec fn loop_emitted<L: Literal>(old: &Translator<L>, new: &Translator<L>, names: Seq<Seq<char>>) -> bool {
    let k = old.units@.len() as int;
    &&& new.units@.len() == k + names.len() + 1
    &&& new.units@.take(k) == old.units@
    &&& forall|j: int| 0 <= j < names.len() ==> (#[trigger] new.units@[k + j]).unit_expr.code()
        == name_code(names[j]) && new.units@[k + j].unit_expr.args().len() == 0
    &&& new.units@.last().unit_expr is Jr
    &&& new.units@.last().unit_expr.args() == seq![UnitArg::<L>::UnitLine(UnitLine::Lit(-names.len() as i64))]
    &&& new.branch_tails == old.branch_tails
}

/// A counted `for` loop from a literal to a literal, without a step, over nullary
/// instruction calls, few enough that its jump back fits, with a variable left for its
/// counter.
pub open spec fn for_calls<L>(t: &Translator<L>, item: Item<L>) -> bool {
    &&& item.item_inner matches ItemInner::Block(b) && b.branch matches Branch::For(_, s, e, step)
        && s matches Expr::RValue(RValue::Num(Num::Lit(_))) && e matches Expr::RValue(RValue::Num(Num::Lit(_)))
        && step is None && calls_only(b.items@)
    &&& item.item_inner->Block_0.items@.len() + 3 <= usize::MAX
    &&& item.item_inner->Block_0.items@.len() + 1 <= i64::MAX
    &&& t.var_next_id < usize::MAX
}

/// From `old` to `new`, the counted loop `item` was appended: a `move` of its start to a new
/// variable, which is fixed, the calls of its body, an `add` of one to the variable, and a
/// `brlt` of the variable and its end back to the first call.
pub open spec fn for_emitted<L: Literal>(old: &Translator<L>, new: &Translator<L>, item: Item<L>) -> bool {
    match item.item_inner {
        ItemInner::Block(b) => match b.branch {
            Branch::For(_, Expr::RValue(RValue::Num(Num::Lit(s))), Expr::RValue(RValue::Num(Num::Lit(e))), _) => {
                let names = item_names(b.items@);
                let k = old.units@.len() as int;
                let m = names.len() as int;
                let v = UnitVar(old.var_next_id);
                let u = new.units@;
                &&& u.len() == k + m + 3
                &&& u.take(k) == old.units@
                &&& u[k].unit_expr is Move
                &&& u[k].unit_expr.args() == seq![UnitArg::<L>::UnitVar(v), UnitArg::<L>::UnitNum(UnitNum::Lit(s))]
                &&& forall|j: int| 0 <= j < m ==> (#[trigger] u[k + 1 + j]).unit_expr.code() == name_code(names[j])
                    && u[k + 1 + j].unit_expr.args().len() == 0
                &&& u[k + m + 1].unit_expr is Add
                &&& u[k + m + 1].unit_expr.args().len() == 3
                &&& u[k + m + 1].unit_expr.args()[0] == UnitArg::<L>::UnitVar(v)
                &&& u[k + m + 1].unit_expr.args()[1] == UnitArg::<L>::UnitNum(UnitNum::Var(v))
                &&& u[k + m + 1].unit_expr.args()[2] matches UnitArg::UnitNum(UnitNum::Lit(_))
                &&& u[k + m + 2].unit_expr is Brlt
                &&& u[k + m + 2].unit_expr.args() == seq![UnitArg::<L>::UnitNum(UnitNum::Var(v)), UnitArg::<L>::UnitNum(
                    UnitNum::Lit(e)), UnitArg::<L>::UnitLine(UnitLine::Lit((-(m + 1)) as i64))]
                &&& new.branch_tails == old.branch_tails
                &&& new.vars_fixed@ == old.vars_fixed@.push(old.var_next_id)
            },
            _ => false,
        },
        _ => false,
    }
}

/// The tails after the tail of chain slot `slot` was set to `line`: in its place where the
/// slot has one, else at the end.
pub open spec fn tail_set(tails: Seq<usize>, slot: int, line: int) -> Seq<usize> {
    if slot < tails.len() {
        tails.update(slot, line as usize)
    } else {
        tails.push(line as usize)
    }
}

/// An `if` on a literal or on a name that aliases a number or a defined variable, over
/// nullary instruction calls, few enough that its branch and its chain's tail fit.
pub open spec fn if_calls<L: Literal>(t: &Translator<L>, item: Item<L>) -> bool {
    &&& item.item_inner matches ItemInner::Block(b) && b.branch matches Branch::If(_, c) && calls_only(b.items@)
        && leaf_num(t, c) is Some && (c matches Expr::RValue(RValue::Num(Num::Var(k))) ==> alias_defined(
        t.alias(KeyView::Name(k@))->0,
        t.var_next_id,
    ))
    &&& c_is_num(item.item_inner->Block_0.branch->If_1)
    &&& item.item_inner->Block_0.branch->If_0 + t.line_lookup@.len() <= usize::MAX
    &&& t.units@.len() + 2 * item.item_inner->Block_0.items@.len() + 2 <= usize::MAX
    &&& item.item_inner->Block_0.items@.len() + 2 <= i64::MAX
}

/// The expression is a number: a literal or a name.
pub open spec fn c_is_num<L>(c: Expr<L>) -> bool {
    c matches Expr::RValue(RValue::Num(_))
}

/// From `old` to `new`, the `if` `item` was appended: a `breqz` on its condition that skips
/// its body (and the jump that opens an `elif` or `else` that follows), then the calls of
/// its body.
pub open spec fn if_emitted<L: Literal>(old: &Translator<L>, new: &Translator<L>, item: Item<L>, followed: bool) -> bool {
    let b = item.item_inner->Block_0;
    let names = item_names(b.items@);
    let k = old.units@.len() as int;
    let m = names.len() as int;
    let u = new.units@;
    &&& u.len() == k + 1 + m
    &&& u.take(k) == old.units@
    &&& u[k].unit_expr is Breqz
    &&& u[k].unit_expr.args() == seq![UnitArg::<L>::UnitNum(leaf_num(old, b.branch->If_1)->0), UnitArg::<L>::UnitLine(
        UnitLine::Lit((m + 1 + if followed { 1int } else { 0int }) as i64))]
    &&& forall|j: int| 0 <= j < m ==> (#[trigger] u[k + 1 + j]).unit_expr.code() == name_code(names[j])
        && u[k + 1 + j].unit_expr.args().len() == 0
    &&& new.branch_tails@ == tail_set(old.branch_tails@, b.branch->If_0 + old.line_lookup@.len(), k + 2 * m + 2)
}

/// An `else` over nullary instruction calls, few enough that its chain's tail fits.
pub open spec fn else_calls<L: Literal>(t: &Translator<L>, item: Item<L>) -> bool {
    &&& item.item_inner matches ItemInner::Block(b) && b.branch is Else && calls_only(b.items@)
    &&& item.item_inner->Block_0.branch->Else_0 + t.line_lookup@.len() <= usize::MAX
    &&& t.units@.len() + 2 * item.item_inner->Block_0.items@.len() + 2 <= usize::MAX
}

/// From `old` to `new`, the `else` `item` was appended: a `jr` to its chain's tail index,
/// which a body that ran before it takes past the chain, then the calls of its body.
pub open spec fn else_emitted<L: Literal>(old: &Translator<L>, new: &Translator<L>, item: Item<L>) -> bool {
    let b = item.item_inner->Block_0;
    let names = item_names(b.items@);
    let k = old.units@.len() as int;
    let m = names.len() as int;
    let u = new.units@;
    &&& u.len() == k + 1 + m
    &&& u.take(k) == old.units@
    &&& u[k].unit_expr is Jr
    &&& u[k].unit_expr.args() == seq![UnitArg::<L>::UnitLine(UnitLine::Indexed((b.branch->Else_0 + old.line_lookup@.len()) as usize))]
    &&& forall|j: int| 0 <= j < m ==> (#[trigger] u[k + 1 + j]).unit_expr.code() == name_code(names[j])
        && u[k + 1 + j].unit_expr.args().len() == 0
    &&& new.branch_tails@ == tail_set(old.branch_tails@, b.branch->Else_0 + old.line_lookup@.len(), k + 2 * m + 2)
}

/// An `if` over nullary instruction calls followed by the `else` of its chain, over nullary
/// instruction calls too, few enough that their jumps and the chain's tail fit.
pub open spec fn if_else_calls<L: Literal>(t: &Translator<L>, items: Seq<Item<L>>) -> bool {
    &&& items.len() == 2
    &&& if_calls(t, items[0])
    &&& items[1].item_inner matches ItemInner::Block(b) && b.branch == Branch::<L>::Else(items[0].item_inner->Block_0.branch->If_0)
        && calls_only(b.items@)
    &&& t.units@.len() + 2 * items[0].item_inner->Block_0.items@.len() + 2 * items[1].item_inner->Block_0.items@.len() + 4
        <= usize::MAX
}

/// From `old` to `new`, the `if` `items[0]` and its `else` `items[1]` were appended: the
/// `breqz` of the `if` skips its body and the `jr` that opens the `else`, so that it lands on
/// the first call of the `else`; the `jr` jumps by the chain's tail index.
pub open spec fn if_else_emitted<L: Literal>(old: &Translator<L>, new: &Translator<L>, items: Seq<Item<L>>) -> bool {
    let b1 = items[0].item_inner->Block_0;
    let b2 = items[1].item_inner->Block_0;
    let n1 = item_names(b1.items@);
    let n2 = item_names(b2.items@);
    let k = old.units@.len() as int;
    let m1 = n1.len() as int;
    let m2 = n2.len() as int;
    let u = new.units@;
    &&& u.len() == k + m1 + m2 + 2
    &&& u.take(k) == old.units@
    &&& u[k].unit_expr is Breqz
    &&& u[k].unit_expr.args() == seq![UnitArg::<L>::UnitNum(leaf_num(old, b1.branch->If_1)->0), UnitArg::<L>::UnitLine(
        UnitLine::Lit((m1 + 2) as i64))]
    &&& forall|j: int| 0 <= j < m1 ==> (#[trigger] u[k + 1 + j]).unit_expr.code() == name_code(n1[j])
        && u[k + 1 + j].unit_expr.args().len() == 0
    &&& u[k + m1 + 1].unit_expr is Jr
    &&& u[k + m1 + 1].unit_expr.args() == seq![UnitArg::<L>::UnitLine(UnitLine::Indexed((b1.branch->If_0 + old.line_lookup@.len()) as usize))]
    &&& forall|j: int| 0 <= j < m2 ==> (#[trigger] u[k + m1 + 2 + j]).unit_expr.code() == name_code(n2[j])
        && u[k + m1 + 2 + j].unit_expr.args().len() == 0
    &&& new.branch_tails@ == tail_set(
        tail_set(old.branch_tails@, b1.branch->If_0 + old.line_lookup@.len(), k + 2 * m1 + 2),
        b1.branch->If_0 + old.line_lookup@.len(),
        k + m1 + 2 * m2 + 3,
    )
}

/// The code of an `if` and then of its `else` is the code of the pair.
proof fn lemma_if_else_emitted<L: Literal>(
    old: &Translator<L>,
    mid: &Translator<L>,
    new: &Translator<L>,
    items: Seq<Item<L>>,
)
    requires
        if_else_calls(old, items),
        if_emitted(old, mid, items[0], true),
        else_emitted(mid, new, items[1]),
        mid.line_lookup == old.line_lookup,
    ensures
        if_else_emitted(old, new, items),
{
    let k = old.units@.len() as int;
    let m1 = items[0].item_inner->Block_0.items@.len() as int;
    let m2 = items[1].item_inner->Block_0.items@.len() as int;
    let n1 = item_names(items[0].item_inner->Block_0.items@);
    let n2 = item_names(items[1].item_inner->Block_0.items@);
    let u = new.units@;
    assert(mid.units@.len() == k + 1 + m1);
    assert forall|x: int| 0 <= x < k + 1 + m1 implies #[trigger] u[x] == mid.units@[x] by {
        assert(u.take(k + 1 + m1)[x] == u[x]);
    }
    assert(u.take(k) =~= old.units@) by {
        assert forall|x: int| 0 <= x < k implies u[x] == old.units@[x] by {
            assert(u[x] == mid.units@[x]);
            assert(mid.units@.take(k)[x] == mid.units@[x]);
        }
    }
    assert(u[k] == mid.units@[k]);
    assert forall|j: int| 0 <= j < m1 implies (#[trigger] u[k + 1 + j]).unit_expr.code() == name_code(n1[j])
        && u[k + 1 + j].unit_expr.args().len() == 0 by {
        assert(u[k + 1 + j] == mid.units@[k + 1 + j]);
    }
    assert forall|j: int| 0 <= j < m2 implies (#[trigger] u[k + m1 + 2 + j]).unit_expr.code() == name_code(n2[j])
        && u[k + m1 + 2 + j].unit_expr.args().len() == 0 by {
        assert(u[(k + 1 + m1) + 1 + j] == u[k + m1 + 2 + j]);
    }
}

/// A `while` on a literal or on a name that aliases a number or a defined variable, over
/// nullary instruction calls, few enough that its branches fit.
pub open spec fn while_calls<L: Literal>(t: &Translator<L>, item: Item<L>) -> bool {
    &&& item.item_inner matches ItemInner::Block(b) && b.branch matches Branch::While(c) && calls_only(b.items@)
        && leaf_num(t, c) is Some && (c matches Expr::RValue(RValue::Num(Num::Var(k))) ==> alias_defined(
        t.alias(KeyView::Name(k@))->0,
        t.var_next_id,
    ))
    &&& c_is_num(item.item_inner->Block_0.branch->While_0)
    &&& item.item_inner->Block_0.items@.len() + 3 <= usize::MAX
    &&& item.item_inner->Block_0.items@.len() + 2 <= i64::MAX
}

/// From `old` to `new`, the `while` `item` was appended: a `breqz` on its condition that
/// skips its body and the jump back, the calls of its body, and a `jr` back to the `breqz`.
pub open spec fn while_emitted<L: Literal>(old: &Translator<L>, new: &Translator<L>, item: Item<L>) -> bool {
    let b = item.item_inner->Block_0;
    let names = item_names(b.items@);
    let k = old.units@.len() as int;
    let m = names.len() as int;
    let u = new.units@;
    &&& u.len() == k + m + 2
    &&& u.take(k) == old.units@
    &&& u[k].unit_expr is Breqz
    &&& u[k].unit_expr.args() == seq![UnitArg::<L>::UnitNum(leaf_num(old, b.branch->While_0)->0), UnitArg::<L>::UnitLine(
        UnitLine::Lit((m + 2) as i64))]
    &&& forall|j: int| 0 <= j < m ==> (#[trigger] u[k + 1 + j]).unit_expr.code() == name_code(names[j])
        && u[k + 1 + j].unit_expr.args().len() == 0
    &&& u[k + m + 1].unit_expr is Jr
    &&& u[k + m + 1].unit_expr.args() == seq![UnitArg::<L>::UnitLine(UnitLine::Lit((-(m + 1)) as i64))]
    &&& new.branch_tails == old.branch_tails
}

/// A function block over nullary instruction calls, whose function has a tail index.
pub open spec fn fn_calls<L>(t: &Translator<L>, item: Item<L>) -> bool {
    &&& item.item_inner matches ItemInner::Block(b) && b.branch matches Branch::Function(name) && calls_only(b.items@)
        && (find_line(t.line_lookup@, name@) matches Some(i) && i < t.branch_tails@.len())
    &&& item.item_inner->Block_0.items@.len() + 1 <= usize::MAX
}

/// From `old` to `new`, the function block `item` was appended: the calls of its body, then
/// `j ra`; its tail index now holds the line of its first unit.
pub open spec fn fn_emitted<L: Literal>(old: &Translator<L>, new: &Translator<L>, item: Item<L>) -> bool {
    let b = item.item_inner->Block_0;
    let names = item_names(b.items@);
    let k = old.units@.len() as int;
    let m = names.len() as int;
    let u = new.units@;
    let i = find_line(old.line_lookup@, b.branch->Function_0@)->0;
    &&& u.len() == k + m + 1
    &&& u.take(k) == old.units@
    &&& forall|j: int| 0 <= j < m ==> (#[trigger] u[k + j]).unit_expr.code() == name_code(names[j])
        && u[k + j].unit_expr.args().len() == 0
    &&& u[k + m].unit_expr is J
    &&& u[k + m].unit_expr.args() == seq![UnitArg::<L>::UnitLine(UnitLine::RA)]
    &&& new.branch_tails@ == old.branch_tails@.update(i as int, k as usize)
}

/// From `old` to `new`, one unit without arguments was appended for each name, the
/// instruction that the name names; nothing else of the units and tails changed.
pub open spec fn calls_emitted<L: Literal>(old: &Translator<L>, new: &Translator<L>, names: Seq<Seq<char>>) -> bool {
    &&& new.units@.len() == old.units@.len() + names.len()
    &&& new.units@.take(old.units@.len() as int) == old.units@
    &&& forall|j: int| 0 <= j < names.len() ==> (#[trigger] new.units@[old.units@.len() + j]).unit_expr.code()
        == name_code(names[j]) && new.units@[old.units@.len() + j].unit_expr.args().len() == 0
    &&& new.branch_tails == old.branch_tails
    &&& new.vars_fixed == old.vars_fixed
}

proof fn lemma_calls_emitted_step<L: Literal>(
    old: &Translator<L>,
    mid: &Translator<L>,
    new: &Translator<L>,
    names: Seq<Seq<char>>,
    n: Seq<char>,
)
    requires
        calls_emitted(old, mid, names),
        calls_emitted(mid, new, seq![n]),
    ensures
        calls_emitted(old, new, names.push(n)),
{
    let k = old.units@.len() as int;
    assert(new.units@.take(k) == mid.units@.take(k));
    assert forall|j: int| 0 <= j < names.push(n).len() implies (#[trigger] new.units@[k + j]).unit_expr.code()
        == name_code(names.push(n)[j]) && new.units@[k + j].unit_expr.args().len() == 0 by {
        if j < names.len() {
            assert(new.units@[k + j] == new.units@.take(mid.units@.len() as int)[k + j]);
        } else {
            assert(new.units@[k + j] == new.units@[mid.units@.len() + 0int]);
        }
    }
}

/// The tail index of the user function that the item calls, where it is such a call of a
/// function with one.
pub open spec fn user_call_idx<L>(lookup: Seq<(String, usize)>, item: Item<L>) -> Option<usize> {
    match item.item_inner {
        ItemInner::Stmt(Statement::FunctionCall(FunctionCall::User(n))) => find_line(lookup, n@),
        _ => None,
    }
}

/// Each item calls a user function that has a tail index.
pub open spec fn user_calls_only<L>(lookup: Seq<(String, usize)>, items: Seq<Item<L>>) -> bool {
    forall|i: int| 0 <= i < items.len() ==> (#[trigger] user_call_idx(lookup, items[i])) is Some
}

/// A program block whose items each call a user function that has a tail index.
pub open spec fn program_jals<L>(lookup: Seq<(String, usize)>, item: Item<L>) -> bool {
    item.item_inner matches ItemInner::Block(b) && b.branch is Program && user_calls_only(lookup, b.items@)
}

/// From `old` to `new`, a `jal` to the tail index of its function was appended for each of
/// the calls `items`; nothing else of the units and tails changed.
pub open spec fn jals_emitted<L: Literal>(old: &Translator<L>, new: &Translator<L>, items: Seq<Item<L>>) -> bool {
    let k = old.units@.len() as int;
    &&& new.units@.len() == k + items.len()
    &&& new.units@.take(k) == old.units@
    &&& forall|j: int| 0 <= j < items.len() ==> (#[trigger] new.units@[k + j]).unit_expr is Jal && new.units@[k
        + j].unit_expr.args() == seq![UnitArg::<L>::UnitLine(UnitLine::Indexed(user_call_idx(old.line_lookup@, items[j])->0))]
    &&& new.branch_tails == old.branch_tails
    &&& new.line_lookup == old.line_lookup
}

proof fn lemma_jals_emitted_step<L: Literal>(
    old: &Translator<L>,
    mid: &Translator<L>,
    new: &Translator<L>,
    items: Seq<Item<L>>,
    item: Item<L>,
)
    requires
        jals_emitted(old, mid, items),
        jals_emitted(mid, new, seq![item]),
    ensures
        jals_emitted(old, new, items.push(item)),
{
    let k = old.units@.len() as int;
    assert(new.units@.take(k) == mid.units@.take(k));
    assert forall|j: int| 0 <= j < items.push(item).len() implies (#[trigger] new.units@[k + j]).unit_expr is Jal
        && new.units@[k + j].unit_expr.args() == seq![UnitArg::<L>::UnitLine(UnitLine::Indexed(user_call_idx(old.line_lookup@, items.push(item)[j])->0))] by {
        if j < items.len() {
            assert(new.units@[k + j] == new.units@.take(mid.units@.len() as int)[k + j]);
        } else {
            assert(new.units@[k + j] == new.units@[mid.units@.len() + 0int]);
        }
    }
}

/// The items of a program block.
pub open spec fn prog_items<L>(item: Item<L>) -> Seq<Item<L>> {
    item.item_inner->Block_0.items@
}

/// The first line of the code of the `f`-th function of `fs`, after `p` units of the program:
/// each function before it takes its calls and a `j ra`.
pub open spec fn fn_start<L>(p: int, fs: Seq<(String, Block<L>, Option<String>)>, f: int) -> int
    decreases f,
{
    if f <= 0 {
        p
    } else {
        fn_start(p, fs, f - 1) + fs[f - 1].1.items@.len() + 1
    }
}

/// The position among `fs` of the function named `n`.
pub open spec fn fn_index<L>(fs: Seq<(String, Block<L>, Option<String>)>, n: Seq<char>) -> int {
    choose|f: int| 0 <= f < fs.len() && fs[f].0@ == n
}

/// The function that the `k`-th item of the program calls.
pub open spec fn called<L>(item: Item<L>, fs: Seq<(String, Block<L>, Option<String>)>, k: int) -> int {
    fn_index(fs, prog_items(item)[k].item_inner->Stmt_0->FunctionCall_0->User_0@)
}

/// A program whose items each call a function of `fs`, whose function blocks are headed by
/// their own distinct names over nullary instruction calls, and whose code has lines that
/// fit an `i64`.
pub open spec fn user_program<L>(item: Item<L>, fs: Seq<(String, Block<L>, Option<String>)>) -> bool {
    &&& item.item_inner matches ItemInner::Block(b) && b.branch is Program
    &&& forall|k: int| 0 <= k < prog_items(item).len() ==> ((#[trigger] prog_items(item)[k]).item_inner matches ItemInner::Stmt(
        Statement::FunctionCall(FunctionCall::User(n)),
    ) && exists|f: int| 0 <= f < fs.len() && fs[f].0@ == n@)
    &&& forall|f: int, g: int| 0 <= f < fs.len() && 0 <= g < fs.len() && f != g ==> (#[trigger] fs[f]).0@ != (
        #[trigger] fs[g]).0@
    &&& forall|f: int| 0 <= f < fs.len() ==> (#[trigger] fs[f]).1.branch == Branch::<L>::Function(fs[f].0) && calls_only(
        fs[f].1.items@,
    )
    &&& fn_start(prog_items(item).len() as int, fs, fs.len() as int) <= i64::MAX
    &&& fn_start(prog_items(item).len() as int, fs, fs.len() as int) < usize::MAX
}

/// The code of such a program: a `jal` (code 24) to the first line of each called
/// function, then each function's calls followed by a `j ra` (code 23).
pub open spec fn user_code<L: Literal>(units: Seq<Unit<L>>, item: Item<L>, fs: Seq<(String, Block<L>, Option<String>)>) -> bool {
    let p = prog_items(item).len() as int;
    &&& units.len() == fn_start(p, fs, fs.len() as int)
    &&& forall|k: int| 0 <= k < p ==> (#[trigger] units[k]).unit_expr.code() == 24 && units[k].unit_expr.args() == seq![
        UnitArg::<L>::UnitLine(UnitLine::Lit(fn_start(p, fs, called(item, fs, k)) as i64)),
    ]
    &&& forall|f: int, x: int| #![trigger units[x], fs[f]]
        0 <= f < fs.len() && fn_start(p, fs, f) <= x < fn_start(p, fs, f) + fs[f].1.items@.len() ==> units[x].unit_expr.code()
            == name_code(item_names(fs[f].1.items@)[x - fn_start(p, fs, f)]) && units[x].unit_expr.args().len() == 0
    &&& forall|f: int, x: int| #![trigger units[x], fs[f]]
        0 <= f < fs.len() && x == fn_start(p, fs, f) + fs[f].1.items@.len() ==> units[x].unit_expr.code() == 23
            && units[x].unit_expr.args() == seq![UnitArg::<L>::UnitLine(UnitLine::RA)]
}

/// The function starts grow with the functions before them.
proof fn lemma_fn_start_mono<L>(p: int, fs: Seq<(String, Block<L>, Option<String>)>, f: int, g: int)
    requires
        0 <= f <= g <= fs.len(),
    ensures
        fn_start(p, fs, f) <= fn_start(p, fs, g),
        p <= fn_start(p, fs, f),
    decreases g,
{
    if f < g {
        lemma_fn_start_mono(p, fs, f, g - 1);
    } else if f > 0 {
        lemma_fn_start_mono(p, fs, f - 1, f - 1);
    }
}

/// Each of the first `n` functions of `fs` has its calls at its start line in `u`.
#[verifier::opaque]
pub open spec fn fn_bodies<L: Literal>(u: Seq<Unit<L>>, p: int, fs: Seq<(String, Block<L>, Option<String>)>, n: int) -> bool {
    forall|f: int, x: int| #![trigger u[x], fs[f]]
        0 <= f < n && fn_start(p, fs, f) <= x < fn_start(p, fs, f) + fs[f].1.items@.len() ==> u[x].unit_expr.code()
            == name_code(item_names(fs[f].1.items@)[x - fn_start(p, fs, f)]) && u[x].unit_expr.args().len() == 0
}

/// Each of the first `n` functions of `fs` ends its code in `u` with a `j ra`.
#[verifier::opaque]
pub open spec fn fn_returns<L: Literal>(u: Seq<Unit<L>>, p: int, fs: Seq<(String, Block<L>, Option<String>)>, n: int) -> bool {
    forall|f: int, x: int| #![trigger u[x], fs[f]]
        0 <= f < n && x == fn_start(p, fs, f) + fs[f].1.items@.len() ==> u[x].unit_expr is J
            && u[x].unit_expr.args() == seq![UnitArg::<L>::UnitLine(UnitLine::RA)]
}

/// The first `p` units of `u` are the program's `jal` units, each to the tail index of the
/// function it calls.
pub open spec fn prog_jals<L: Literal>(u: Seq<Unit<L>>, item: Item<L>, fs: Seq<(String, Block<L>, Option<String>)>) -> bool {
    forall|k: int| 0 <= k < prog_items(item).len() ==> (#[trigger] u[k]).unit_expr is Jal && u[k].unit_expr.args() == seq![
        UnitArg::<L>::UnitLine(UnitLine::Indexed(called(item, fs, k) as usize)),
    ]
}

/// The units of `t` lay out a user program up to its `fi`-th function: the `jal` units of
/// the program, still to be resolved, then the code of each function before the `fi`-th,
/// whose tail indices hold their first lines.
pub open spec fn laid_out<L: Literal>(t: &Translator<L>, item: Item<L>, fs: Seq<(String, Block<L>, Option<String>)>, fi: int) -> bool {
    let p = prog_items(item).len() as int;
    &&& t.units@.len() == fn_start(p, fs, fi)
    &&& t.branch_tails@.len() == fs.len()
    &&& forall|g: int| 0 <= g < fi ==> #[trigger] t.branch_tails@[g] == fn_start(p, fs, g)
    &&& prog_jals(t.units@, item, fs)
    &&& fn_bodies(t.units@, p, fs, fi)
    &&& fn_returns(t.units@, p, fs, fi)
}

/// Appending the calls of the `fi`-th function keeps the calls of those before it and adds
/// its own.
proof fn lemma_bodies_step<L: Literal>(
    before: Seq<Unit<L>>,
    after: Seq<Unit<L>>,
    p: int,
    fs: Seq<(String, Block<L>, Option<String>)>,
    fi: int,
)
    requires
        0 <= p,
        0 <= fi < fs.len(),
        before.len() == fn_start(p, fs, fi),
        forall|x: int| 0 <= x < before.len() ==> #[trigger] after[x] == before[x],
        forall|j: int| 0 <= j < fs[fi].1.items@.len() ==> (#[trigger] after[before.len() + j]).unit_expr.code()
            == name_code(item_names(fs[fi].1.items@)[j]) && after[before.len() + j].unit_expr.args().len() == 0,
        fn_bodies(before, p, fs, fi),
    ensures
        fn_bodies(after, p, fs, fi + 1),
{
    reveal(fn_bodies);
    let k0 = before.len() as int;
    assert forall|f: int, x: int| #![trigger after[x], fs[f]]
        0 <= f < fi + 1 && fn_start(p, fs, f) <= x < fn_start(p, fs, f) + fs[f].1.items@.len() implies after[x].unit_expr.code()
            == name_code(item_names(fs[f].1.items@)[x - fn_start(p, fs, f)]) && after[x].unit_expr.args().len() == 0 by {
        if f < fi {
            lemma_fn_start_mono(p, fs, f + 1, fi);
            lemma_fn_start_mono(p, fs, f, f + 1);
            assert(fn_start(p, fs, f + 1) == fn_start(p, fs, f) + fs[f].1.items@.len() + 1);
            assert(x < before.len());
            assert(before[x] == after[x]);
        } else {
            assert(after[k0 + (x - k0)] == after[x]);
        }
    }
}

/// Appending the `j ra` of the `fi`-th function keeps those of the functions before it.
proof fn lemma_returns_step<L: Literal>(
    before: Seq<Unit<L>>,
    after: Seq<Unit<L>>,
    p: int,
    fs: Seq<(String, Block<L>, Option<String>)>,
    fi: int,
)
    requires
        0 <= p,
        0 <= fi < fs.len(),
        before.len() == fn_start(p, fs, fi),
        forall|x: int| 0 <= x < before.len() ==> #[trigger] after[x] == before[x],
        after[(before.len() + fs[fi].1.items@.len()) as int].unit_expr is J,
        after[(before.len() + fs[fi].1.items@.len()) as int].unit_expr.args() == seq![UnitArg::<L>::UnitLine(UnitLine::RA)],
        fn_returns(before, p, fs, fi),
    ensures
        fn_returns(after, p, fs, fi + 1),
{
    reveal(fn_returns);
    assert forall|f: int, x: int| #![trigger after[x], fs[f]]
        0 <= f < fi + 1 && x == fn_start(p, fs, f) + fs[f].1.items@.len() implies after[x].unit_expr is J
            && after[x].unit_expr.args() == seq![UnitArg::<L>::UnitLine(UnitLine::RA)] by {
        if f < fi {
            lemma_fn_start_mono(p, fs, f + 1, fi);
            lemma_fn_start_mono(p, fs, f, f + 1);
            assert(fn_start(p, fs, f + 1) == fn_start(p, fs, f) + fs[f].1.items@.len() + 1);
            assert(x < before.len());
            assert(before[x] == after[x]);
        }
    }
}

/// Translating the `fi`-th function extends the layout by it.
#[verifier::spinoff_prover]
#[verifier::rlimit(100)]
proof fn lemma_fn_step<L: Literal>(
    before: &Translator<L>,
    after: &Translator<L>,
    item: Item<L>,
    fs: Seq<(String, Block<L>, Option<String>)>,
    fi: int,
    fitem: Item<L>,
)
    requires
        0 <= fi < fs.len() <= usize::MAX,
        fn_start(prog_items(item).len() as int, fs, fs.len() as int) < usize::MAX,
        laid_out(before, item, fs, fi),
        fitem.item_inner == ItemInner::Block(fs[fi].1),
        find_line(before.line_lookup@, fs[fi].0@) == Some(fi as usize),
        fs[fi].1.branch == Branch::<L>::Function(fs[fi].0),
        fn_emitted(before, after, fitem),
    ensures
        laid_out(after, item, fs, fi + 1),
{
    let p = prog_items(item).len() as int;
    let k0 = before.units@.len() as int;
    let m = fs[fi].1.items@.len() as int;
    let b = fitem.item_inner->Block_0;
    assert(b == fs[fi].1);
    assert(b.branch->Function_0 == fs[fi].0);
    assert(item_names(b.items@).len() == m);
    assert(after.units@.len() == k0 + m + 1);
    assert(after.units@.take(k0) == before.units@);
    assert(fn_start(p, fs, fi + 1) == k0 + m + 1);
    lemma_fn_start_mono(p, fs, fi, fs.len() as int);
    assert(k0 < usize::MAX);
    assert(after.branch_tails@ == before.branch_tails@.update(fi, k0 as usize));
    assert forall|g: int| 0 <= g < fi + 1 implies #[trigger] after.branch_tails@[g] == fn_start(p, fs, g) by {
        if g < fi {
            assert(after.branch_tails@[g] == before.branch_tails@[g]);
        } else {
            assert(after.branch_tails@[g] == k0 as usize);
        }
    }
    assert forall|x: int| 0 <= x < k0 implies #[trigger] after.units@[x] == before.units@[x] by {
        assert(after.units@.take(k0)[x] == after.units@[x]);
    }
    lemma_fn_start_mono(p, fs, 0, fi);
    assert forall|k: int| 0 <= k < p implies (#[trigger] after.units@[k]).unit_expr is Jal
        && after.units@[k].unit_expr.args() == seq![UnitArg::<L>::UnitLine(UnitLine::Indexed(called(item, fs, k) as usize))] by {
        assert(before.units@[k] == after.units@[k]);
    }
    assert forall|j: int| 0 <= j < m implies (#[trigger] after.units@[k0 + j]).unit_expr.code()
        == name_code(item_names(fs[fi].1.items@)[j]) && after.units@[k0 + j].unit_expr.args().len() == 0 by {
    }
    lemma_bodies_step(before.units@, after.units@, p, fs, fi);
    lemma_returns_step(before.units@, after.units@, p, fs, fi);
}

/// The `f`-th function called by a user program is one of `fs`.
proof fn lemma_called_in<L>(item: Item<L>, fs: Seq<(String, Block<L>, Option<String>)>, k: int)
    requires
        user_program(item, fs),
        0 <= k < prog_items(item).len(),
    ensures
        0 <= called(item, fs, k) < fs.len(),
{
    let it = prog_items(item)[k];
    assert(it.item_inner matches ItemInner::Stmt(Statement::FunctionCall(FunctionCall::User(n))) && exists|f: int|
        0 <= f < fs.len() && fs[f].0@ == n@);
}

/// Every tail index among the units of a laid-out user program names one of its functions.
proof fn lemma_user_resolvable<L: Literal>(
    pre: Seq<Unit<L>>,
    tails: Seq<i64>,
    item: Item<L>,
    fs: Seq<(String, Block<L>, Option<String>)>,
)
    requires
        user_program(item, fs),
        fs.len() <= usize::MAX,
        pre.len() == fn_start(prog_items(item).len() as int, fs, fs.len() as int),
        prog_jals(pre, item, fs),
        fn_bodies(pre, prog_items(item).len() as int, fs, fs.len() as int),
        fn_returns(pre, prog_items(item).len() as int, fs, fs.len() as int),
        tails.len() == fs.len(),
    ensures
        forall|x: int| 0 <= x < pre.len() ==> all_resolvable(#[trigger] pre[x].unit_expr.args(), tails),
{
    reveal(fn_bodies);
    reveal(fn_returns);
    let p = prog_items(item).len() as int;
    assert forall|x: int| 0 <= x < pre.len() implies all_resolvable(#[trigger] pre[x].unit_expr.args(), tails) by {
        if x < p {
            lemma_called_in(item, fs, x);
            assert(pre[x].unit_expr.args()[0] == UnitArg::<L>::UnitLine(UnitLine::Indexed(called(item, fs, x) as usize)));
        } else {
            assert(fn_start(p, fs, 0) == p);
            lemma_fn_locate(p, fs, fs.len() as int, x);
            let f = choose|f: int| 0 <= f < fs.len() && #[trigger] fn_start(p, fs, f) <= x <= fn_start(p, fs, f) + fs[f].1.items@.len();
            assert(pre[x] == pre[x]);
            assert(fs[f] == fs[f]);
        }
    }
}

/// Once every tail index is replaced by its function's first line, the program's `jal`
/// units jump to the functions they call.
proof fn lemma_user_jals<L: Literal>(
    pre: Seq<Unit<L>>,
    u: Seq<Unit<L>>,
    tails: Seq<i64>,
    item: Item<L>,
    fs: Seq<(String, Block<L>, Option<String>)>,
)
    requires
        user_program(item, fs),
        prog_jals(pre, item, fs),
        tails.len() == fs.len(),
        forall|g: int| 0 <= g < fs.len() ==> #[trigger] tails[g] == fn_start(prog_items(item).len() as int, fs, g) as i64,
        fs.len() <= usize::MAX,
        forall|x: int| 0 <= x < prog_items(item).len() ==> (#[trigger] u[x]).unit_expr.code() == pre[x].unit_expr.code()
            && u[x].unit_expr.args() == pre[x].unit_expr.args().map_values(|a: UnitArg<L>| a.resolved(tails)),
    ensures
        forall|k: int| 0 <= k < prog_items(item).len() ==> (#[trigger] u[k]).unit_expr.code() == 24 && u[k].unit_expr.args()
            == seq![UnitArg::<L>::UnitLine(UnitLine::Lit(fn_start(prog_items(item).len() as int, fs, called(item, fs, k)) as i64))],
{
    let p = prog_items(item).len() as int;
    assert forall|k: int| 0 <= k < p implies (#[trigger] u[k]).unit_expr.code() == 24 && u[k].unit_expr.args() == seq![
        UnitArg::<L>::UnitLine(UnitLine::Lit(fn_start(p, fs, called(item, fs, k)) as i64)),
    ] by {
        lemma_called_in(item, fs, k);
        let c = called(item, fs, k);
        assert(tails[c] == fn_start(p, fs, c) as i64);
        assert(pre[k].unit_expr.args() == seq![UnitArg::<L>::UnitLine(UnitLine::Indexed(c as usize))]);
        assert(u[k].unit_expr.args() =~= seq![UnitArg::<L>::UnitLine(UnitLine::Lit(fn_start(p, fs, c) as i64))]);
    }
}

/// Once every tail index is replaced by its function's first line, the functions' code
/// is unchanged: their calls, then `j ra`.
proof fn lemma_user_fns<L: Literal>(
    pre: Seq<Unit<L>>,
    u: Seq<Unit<L>>,
    tails: Seq<i64>,
    p: int,
    fs: Seq<(String, Block<L>, Option<String>)>,
)
    requires
        0 <= p,
        pre.len() == fn_start(p, fs, fs.len() as int),
        fn_bodies(pre, p, fs, fs.len() as int),
        fn_returns(pre, p, fs, fs.len() as int),
        forall|x: int| 0 <= x < pre.len() ==> (#[trigger] u[x]).unit_expr.code() == pre[x].unit_expr.code()
            && u[x].unit_expr.args() == pre[x].unit_expr.args().map_values(|a: UnitArg<L>| a.resolved(tails)),
    ensures
        forall|f: int, x: int| #![trigger u[x], fs[f]]
            0 <= f < fs.len() && fn_start(p, fs, f) <= x < fn_start(p, fs, f) + fs[f].1.items@.len() ==> u[x].unit_expr.code()
                == name_code(item_names(fs[f].1.items@)[x - fn_start(p, fs, f)]) && u[x].unit_expr.args().len() == 0,
        forall|f: int, x: int| #![trigger u[x], fs[f]]
            0 <= f < fs.len() && x == fn_start(p, fs, f) + fs[f].1.items@.len() ==> u[x].unit_expr.code() == 23
                && u[x].unit_expr.args() == seq![UnitArg::<L>::UnitLine(UnitLine::RA)],
{
    reveal(fn_bodies);
    reveal(fn_returns);
    assert forall|f: int, x: int| #![trigger u[x], fs[f]]
        0 <= f < fs.len() && fn_start(p, fs, f) <= x < fn_start(p, fs, f) + fs[f].1.items@.len() implies u[x].unit_expr.code()
            == name_code(item_names(fs[f].1.items@)[x - fn_start(p, fs, f)]) && u[x].unit_expr.args().len() == 0 by {
        lemma_fn_start_mono(p, fs, f + 1, fs.len() as int);
        lemma_fn_start_mono(p, fs, f, f + 1);
        assert(pre[x] == pre[x]);
    }
    assert forall|f: int, x: int| #![trigger u[x], fs[f]]
        0 <= f < fs.len() && x == fn_start(p, fs, f) + fs[f].1.items@.len() implies u[x].unit_expr.code() == 23
            && u[x].unit_expr.args() == seq![UnitArg::<L>::UnitLine(UnitLine::RA)] by {
        lemma_fn_start_mono(p, fs, f + 1, fs.len() as int);
        lemma_fn_start_mono(p, fs, f, f + 1);
        assert(pre[x] == pre[x]);
        assert(u[x].unit_expr.args() =~= seq![UnitArg::<L>::UnitLine(UnitLine::RA)]);
    }
}

/// A program of an `if` on a literal and the `else` of its chain, both over nullary
/// instruction calls, the first chain of the program, few enough that its lines fit an `i64`.
pub open spec fn if_else_program<L>(item: Item<L>) -> bool {
    let items = prog_items(item);
    &&& item.item_inner matches ItemInner::Block(b) && b.branch is Program
    &&& items.len() == 2
    &&& items[0].item_inner matches ItemInner::Block(b1) && calls_only(b1.items@)
    &&& items[0].item_inner->Block_0.branch matches Branch::If(id, c) && id == 0
    &&& items[0].item_inner->Block_0.branch->If_1 matches Expr::RValue(RValue::Num(Num::Lit(_)))
    &&& items[1].item_inner matches ItemInner::Block(b2) && b2.branch == Branch::<L>::Else(0) && calls_only(b2.items@)
    &&& 2 * items[0].item_inner->Block_0.items@.len() + 2 * items[1].item_inner->Block_0.items@.len() + 4 <= usize::MAX
    &&& items[0].item_inner->Block_0.items@.len() + 2 * items[1].item_inner->Block_0.items@.len() + 3 <= i64::MAX
}

/// The code of such a program: a `breqz` on the literal that skips the body of the `if` and
/// the `jr` after it, so that it lands on the first call of the `else`; the calls of the
/// `if`; the `jr`, which jumps by the chain's tail as the blocks record it: the
/// lines of both blocks and the depth of the `else` again; the calls of the `else`.
pub open spec fn if_else_code<L: Literal>(units: Seq<Unit<L>>, item: Item<L>) -> bool {
    let b1 = prog_items(item)[0].item_inner->Block_0;
    let b2 = prog_items(item)[1].item_inner->Block_0;
    let n1 = item_names(b1.items@);
    let n2 = item_names(b2.items@);
    let m1 = n1.len() as int;
    let m2 = n2.len() as int;
    &&& units.len() == m1 + m2 + 2
    &&& units[0].unit_expr is Breqz
    &&& units[0].unit_expr.args() == seq![
        UnitArg::<L>::UnitNum(UnitNum::Lit(b1.branch->If_1->RValue_0->Num_0->Lit_0)),
        UnitArg::<L>::UnitLine(UnitLine::Lit((m1 + 2) as i64)),
    ]
    &&& forall|j: int| 0 <= j < m1 ==> (#[trigger] units[1 + j]).unit_expr.code() == name_code(n1[j])
        && units[1 + j].unit_expr.args().len() == 0
    &&& units[m1 + 1].unit_expr is Jr
    &&& units[m1 + 1].unit_expr.args() == seq![UnitArg::<L>::UnitLine(UnitLine::Lit((m1 + 2 * m2 + 3) as i64))]
    &&& forall|j: int| 0 <= j < m2 ==> (#[trigger] units[m1 + 2 + j]).unit_expr.code() == name_code(n2[j])
        && units[m1 + 2 + j].unit_expr.args().len() == 0
}

/// Such a program records one chain tail: the lines of both blocks and the depth of the
/// `else` again.
proof fn lemma_if_else_tails<L: Literal>(start: &Translator<L>, t: &Translator<L>, item: Item<L>)
    requires
        if_else_program(item),
        start.units@.len() == 0,
        start.line_lookup@.len() == 0,
        start.branch_tails@.len() == 0,
        if_else_emitted(start, t, prog_items(item)),
    ensures
        t.branch_tails@ == seq![(prog_items(item)[0].item_inner->Block_0.items@.len()
            + 2 * prog_items(item)[1].item_inner->Block_0.items@.len() + 3) as usize],
        t.branch_tails@[0] <= i64::MAX,
{
    let m1 = prog_items(item)[0].item_inner->Block_0.items@.len() as int;
    let m2 = prog_items(item)[1].item_inner->Block_0.items@.len() as int;
    assert(t.branch_tails@ =~= seq![(m1 + 2 * m2 + 3) as usize]);
}

/// The only tail index of such a program's units is that of its chain.
proof fn lemma_if_else_resolvable<L: Literal>(start: &Translator<L>, t: &Translator<L>, item: Item<L>, tails: Seq<i64>)
    requires
        if_else_program(item),
        start.units@.len() == 0,
        start.line_lookup@.len() == 0,
        if_else_emitted(start, t, prog_items(item)),
        tails.len() == 1,
    ensures
        forall|x: int| 0 <= x < t.units@.len() ==> all_resolvable(#[trigger] t.units@[x].unit_expr.args(), tails),
{
    let m1 = prog_items(item)[0].item_inner->Block_0.items@.len() as int;
    let m2 = prog_items(item)[1].item_inner->Block_0.items@.len() as int;
    let u = t.units@;
    assert forall|x: int| 0 <= x < u.len() implies all_resolvable(#[trigger] u[x].unit_expr.args(), tails) by {
        if x == 0 {
            assert(u[0].unit_expr.args()[0] is UnitNum);
        } else if x < m1 + 1 {
            assert(u[0 + 1 + (x - 1)] == u[x]);
        } else if x == m1 + 1 {
            assert(u[0 + m1 + 1] == u[x]);
        } else {
            assert(u[0 + m1 + 2 + (x - m1 - 2)] == u[x]);
        }
    }
}

/// Once the tail index of its chain is replaced by the tail's line, such a program's units
/// are its code.
proof fn lemma_if_else_code<L: Literal>(start: &Translator<L>, t: &Translator<L>, u: Seq<Unit<L>>, item: Item<L>, tails: Seq<i64>)
    requires
        if_else_program(item),
        start.units@.len() == 0,
        start.line_lookup@.len() == 0,
        start.branch_tails@.len() == 0,
        if_else_emitted(start, t, prog_items(item)),
        tails == seq![t.branch_tails@[0] as i64],
        u.len() == t.units@.len(),
        forall|x: int| 0 <= x < t.units@.len() ==> (#[trigger] u[x]).unit_expr.code() == t.units@[x].unit_expr.code()
            && u[x].unit_expr.args() == t.units@[x].unit_expr.args().map_values(|a: UnitArg<L>| a.resolved(tails)),
    ensures
        if_else_code(u, item),
{
    let b1 = prog_items(item)[0].item_inner->Block_0;
    let m1 = b1.items@.len() as int;
    let m2 = prog_items(item)[1].item_inner->Block_0.items@.len() as int;
    let pre = t.units@;
    assert(t.branch_tails@ == seq![(m1 + 2 * m2 + 3) as usize]);
    assert(leaf_num(start, b1.branch->If_1) == Some(UnitNum::<L>::Lit(b1.branch->If_1->RValue_0->Num_0->Lit_0)));
    assert(u[0].unit_expr.args() =~= pre[0].unit_expr.args());
    assert(pre[0 + m1 + 1] == pre[m1 + 1]);
    assert(u[m1 + 1].unit_expr.args() =~= seq![UnitArg::<L>::UnitLine(UnitLine::Lit((m1 + 2 * m2 + 3) as i64))]);
    assert forall|j: int| 0 <= j < m1 implies (#[trigger] u[1 + j]).unit_expr.code() == name_code(item_names(b1.items@)[j])
        && u[1 + j].unit_expr.args().len() == 0 by {
        assert(pre[0 + 1 + j] == pre[1 + j]);
    }
    assert forall|j: int| 0 <= j < m2 implies (#[trigger] u[m1 + 2 + j]).unit_expr.code() == name_code(
        item_names(prog_items(item)[1].item_inner->Block_0.items@)[j],
    ) && u[m1 + 2 + j].unit_expr.args().len() == 0 by {
        assert(pre[0 + m1 + 2 + j] == pre[m1 + 2 + j]);
    }
}

/// Each line of the functions' code lies in the code of one of them: in its calls or at its
/// `j ra`.
proof fn lemma_fn_locate<L>(p: int, fs: Seq<(String, Block<L>, Option<String>)>, n: int, x: int)
    requires
        0 <= n <= fs.len(),
        fn_start(p, fs, 0) <= x < fn_start(p, fs, n),
    ensures
        exists|f: int| 0 <= f < n && #[trigger] fn_start(p, fs, f) <= x <= fn_start(p, fs, f) + fs[f].1.items@.len(),
    decreases n,
{
    if x < fn_start(p, fs, n - 1) {
        lemma_fn_locate(p, fs, n - 1, x);
    } else {
        assert(fn_start(p, fs, n - 1) <= x <= fn_start(p, fs, n - 1) + fs[n - 1].1.items@.len());
    }
}

/// In a lookup of the distinct names of `fs`, each at its position, a name of `fs` is found
/// at its position.
proof fn lemma_find_line_index<L>(lookup: Seq<(String, usize)>, fs: Seq<(String, Block<L>, Option<String>)>, n: Seq<char>)
    requires
        lookup.len() <= fs.len(),
        forall|i: int| 0 <= i < lookup.len() ==> (#[trigger] lookup[i]).0@ == fs[i].0@ && lookup[i].1 == i,
        forall|f: int, g: int| 0 <= f < fs.len() && 0 <= g < fs.len() && f != g ==> (#[trigger] fs[f]).0@ != (#[trigger] fs[g]).0@,
        exists|f: int| 0 <= f < lookup.len() && fs[f].0@ == n,
    ensures
        find_line(lookup, n) == Some(fn_index(fs, n) as usize),
        0 <= fn_index(fs, n) < lookup.len(),
    decreases lookup.len(),
{
    let w = choose|f: int| 0 <= f < lookup.len() && fs[f].0@ == n;
    let f = fn_index(fs, n);
    assert(0 <= f < fs.len() && fs[f].0@ == n);
    assert(f == w) by {
        if f != w {
            assert(fs[f].0@ != fs[w].0@);
        }
    }
    let last = lookup.len() - 1;
    if lookup.last().0@ == n {
        assert(lookup[last].0@ == fs[last].0@);
        if f != last {
            assert(fs[f].0@ != fs[last].0@);
        }
    } else {
        assert(f != last);
        assert(lookup.drop_last()[f] == lookup[f]);
        lemma_find_line_index(lookup.drop_last(), fs, n);
    }
}

/// The name that a line's statement node calls, where it is a nullary function call.
pub open spec fn head_call_name<L>(n: PairTree<L>) -> Option<Seq<char>> {
    if n.rule == Rule::stmt && n.inner@.len() == 1 && n.inner@[0].rule == Rule::stmt_func_nullary
        && n.inner@[0].inner@.len() == 1 {
        Some(n.inner@[0].inner@[0].text@)
    } else {
        None
    }
}

/// Lines at indent 0, each a call of a nullary function that names an instruction taking
/// no arguments.
pub open spec fn call_heads<L>(hs: Seq<(int, PairTree<L>, Option<String>)>) -> bool {
    forall|i: int|
        0 <= i < hs.len() ==> (#[trigger] hs[i]).0 == 0 && (head_call_name(hs[i].1) matches Some(n)
            && nullary_ok(n))
}

/// The names that the lines call.
pub open spec fn head_names<L>(hs: Seq<(int, PairTree<L>, Option<String>)>) -> Seq<Seq<char>> {
    hs.map_values(|h: (int, PairTree<L>, Option<String>)| head_call_name(h.1)->0)
}

/// The units are, in order, one instruction without arguments for each name, the one that
/// the name names.
pub open spec fn units_call<L: Literal>(units: Seq<Unit<L>>, names: Seq<Seq<char>>) -> bool {
    &&& units.len() == names.len()
    &&& forall|j: int| 0 <= j < names.len() ==> (#[trigger] units[j]).unit_expr.code() == name_code(names[j])
        && units[j].unit_expr.args().len() == 0
}

/// A line count as a relative line, where it fits.
fn line_offset(n: usize) -> (r: MypsLexerResult<i64>)
    ensures
        r matches Ok(x) ==> x == n,
        r is Err <==> n > i64::MAX,
        r matches Err(e) ==> e is DepthOverflow,
{
    if (n as u64) <= (i64::MAX as u64) {
        Ok(n as i64)
    } else {
        Err(MypsLexerError::DepthOverflow)
    }
}

/// The arguments of a select instruction have two number operands after the target.
pub open spec fn select_shaped<L>(args: Seq<UnitArg<L>>) -> bool {
    args.len() >= 3 && args[1] is UnitNum && args[2] is UnitNum
}

/// The condition unit can become a branch: a select instruction must have its two number
/// operands.
pub open spec fn branchable<L: Literal>(e: UnitExpr<L>) -> bool {
    (e is SEq || e is Sne || e is Sgt || e is Slt) ==> select_shaped(e.args())
}

/// The two number operands of a select instruction's arguments.
fn select_operands<L: Literal>(args: &Vec<UnitArg<L>>) -> (r: MypsLexerResult<(UnitNum<L>, UnitNum<L>)>)
    ensures
        r is Ok <==> select_shaped(args@),
        r matches Ok((a, b)) ==> args@.len() >= 3 && args@[1] == UnitArg::UnitNum(a) && args@[2]
            == UnitArg::UnitNum(b),
{
    if args.len() < 3 {
        return Err(MypsLexerError::failed_conversion("a select instruction with two operands"));
    }
    let a = match &args[1] {
        UnitArg::UnitNum(a) => *a,
        _ => {
            return Err(MypsLexerError::failed_conversion("a number operand"));
        },
    };
    let b = match &args[2] {
        UnitArg::UnitNum(b) => *b,
        _ => {
            return Err(MypsLexerError::failed_conversion("a number operand"));
        },
    };
    Ok((a, b))
}

/// A fixed assignment of the literal `n` to the name `k` took the next variable `v`, moved
/// `n` into it, and made `k` alias `v` and `v` alias `n`.
pub open spec fn fixed_move<L: Literal>(old: &Translator<L>, new: &Translator<L>, k: Seq<char>, n: L) -> bool {
    let v = UnitVar(old.var_next_id);
    &&& new.var_next_id == old.var_next_id + 1
    &&& new.vars_fixed@ == old.vars_fixed@.push(v.0)
    &&& new.units@.len() == old.units@.len() + 1
    &&& new.units@.last().unit_expr is Move
    &&& new.units@.last().unit_expr.args() == seq![UnitArg::<L>::UnitVar(v), UnitArg::<L>::UnitNum(UnitNum::Lit(n))]
    &&& new.alias(KeyView::Name(k)) == Some(UnitAlias::<L>::Var(v))
    &&& new.alias(KeyView::Var(v.0)) == Some(UnitAlias::<L>::Num(UnitNum::Lit(n)))
}

/// The tail index of the function `k` in the lookup (the last entry for it).
pub open spec fn find_line(lookup: Seq<(String, usize)>, k: Seq<char>) -> Option<usize>
    decreases lookup.len(),
{
    if lookup.len() == 0 {
        None
    } else if lookup.last().0@ == k {
        Some(lookup.last().1)
    } else {
        find_line(lookup.drop_last(), k)
    }
}

/// The instruction of an operator assignment.
pub open spec fn self_op_instr<L: Literal>(op: BinaryOp, e: UnitExpr<L>) -> bool {
    match op {
        BinaryOp::Add => e is Add,
        BinaryOp::Sub => e is Sub,
        BinaryOp::Mul => e is Mul,
        BinaryOp::Div => e is Div,
        _ => e is Mod,
    }
}

/// An empty statement shows as an empty line where empty lines are shown, or where lines
/// with only a comment are shown and it has one; else it leaves nothing.
pub open spec fn stmt_empty_effect<L: Literal>(old: &Translator<L>, new: &Translator<L>, comment: Option<String>, depth: usize) -> bool {
    if old.conf.show_empty || (old.conf.show_empty_comments && comment is Some) {
        &&& depth == 1
        &&& new.units@.len() == old.units@.len() + 1
        &&& new.units@.last().unit_expr is Empty
        &&& new.units@.last().comment == if old.conf.show_comments { comment } else { None }
    } else {
        &&& depth == 0
        &&& new.units@ == old.units@
    }
}

/// An r-value's result as an instruction argument.
fn ret_arg<L: Literal>(ret: UnitReturn<L>) -> (a: UnitArg<L>)
    ensures
        a == match ret {
            UnitReturn::Num(n) => UnitArg::UnitNum(n),
            UnitReturn::Dev(d) => UnitArg::UnitDev(d),
            UnitReturn::Net(n) => UnitArg::UnitDevNet(n),
            UnitReturn::Var(v) => UnitArg::<L>::UnitVar(v),
        },
{
    match ret {
        UnitReturn::Num(unit_num) => UnitArg::UnitNum(unit_num),
        UnitReturn::Dev(unit_dev) => UnitArg::UnitDev(unit_dev),
        UnitReturn::Net(unit_net) => UnitArg::UnitDevNet(unit_net),
        UnitReturn::Var(unit_var) => UnitArg::UnitVar(unit_var),
    }
}

/// The tail of the if-elif-else chain `id` is the line `depth` past the last unit: chain
/// `id` has it, or, for a chain not met before, the last tail is it.
pub open spec fn chain_tail_set<L: Literal>(t: &Translator<L>, id: usize, depth: int) -> bool {
    let tails = t.branch_tails@;
    let tail = t.units@.len() + depth;
    &&& tails.len() >= 1
    &&& if id + 1 < tails.len() {
        tails[id as int] == tail
    } else {
        tails.last() == tail
    }
}

/// What the code of a block ends with, where it has a unit of its own last: a loop jumps
/// back over its body, a while loop too, a for loop branches back while its variable is
/// below the end, and a function returns.
pub open spec fn block_effect<L: Literal>(old: &Translator<L>, new: &Translator<L>, branch: Branch<L>, r: MypsLexerResult<usize>) -> bool {
    r matches Ok(depth) ==> match branch {
        Branch::Loop => new.added(old) >= 1 && new.units@.last().unit_expr is Jr
            && new.units@.last().unit_expr.args() == seq![UnitArg::<L>::UnitLine(UnitLine::Lit(-(depth - 1) as i64))],
        Branch::While(_) => new.added(old) >= 1 && new.units@.last().unit_expr is Jr,
        Branch::For(..) => new.added(old) >= 1 && new.units@.last().unit_expr is Brlt,
        Branch::If(id, _) => chain_tail_set(new, (id + old.line_lookup@.len()) as usize, depth as int),
        Branch::Elif(id, _) => chain_tail_set(new, (id + old.line_lookup@.len()) as usize, depth as int) && new.added(old) >= 1,
        Branch::Else(id) => chain_tail_set(new, (id + old.line_lookup@.len()) as usize, depth as int) && new.added(old) >= 1,
        Branch::Function(name) => new.added(old) >= 1 && new.units@.last().unit_expr is J
            && new.units@.last().unit_expr.args() == seq![UnitArg::<L>::UnitLine(UnitLine::RA)]
            && find_line(old.line_lookup@, name@) is Some,
        _ => true,
    }
}

/// No unit has a chain tail index left among its arguments.
pub open spec fn no_pending<L: Literal>(units: Seq<Unit<L>>) -> bool {
    forall|i: int, j: int|
        0 <= i < units.len() && 0 <= j < units[i].unit_expr.args().len() ==> !(
        #[trigger] units[i].unit_expr.args()[j]).unresolved()
}

/// A unit with its variables renamed by `m`: the same instruction and comment.
pub open spec fn renamed_unit<L: Literal>(u: Unit<L>, v: Unit<L>, m: Map<usize, usize>) -> bool {
    &&& v.unit_expr.code() == u.unit_expr.code()
    &&& v.unit_expr.args() == u.unit_expr.args().map_values(|a: UnitArg<L>| a.mapped(m))
    &&& v.comment == u.comment
}

/// `new` is `old` with the variables of each unit renamed by `m`.
pub open spec fn renamed_by<L: Literal>(old: Seq<Unit<L>>, new: Seq<Unit<L>>, m: Map<usize, usize>) -> bool {
    &&& new.len() == old.len()
    &&& forall|k: int| 0 <= k < old.len() ==> renamed_unit(old[k], #[trigger] new[k], m)
}

/// The variable of an argument, if any, is below `n`.
pub open spec fn var_below<L: Literal>(a: UnitArg<L>, n: nat) -> bool {
    a.var_of() matches Some(v) ==> v < n
}

/// Every variable that the units name is below `n`.
pub open spec fn units_vars_below<L: Literal>(units: Seq<Unit<L>>, n: nat) -> bool {
    forall|k: int, j: int|
        0 <= k < units.len() && 0 <= j < units[k].unit_expr.args().len() ==> var_below(
        #[trigger] units[k].unit_expr.args()[j], n)
}

} // verus!
