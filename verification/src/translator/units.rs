//! The units of IC10 code that translation produces, and the values they take.
use std::collections::HashMap;
use vstd::prelude::*;

use crate::lexer::ast::{Dev, Literal, Mode};
use crate::lexer::error::{MypsLexerError, MypsLexerResult};

verus! {

broadcast use vstd::std_specs::hash::group_hash_axioms;

/// A memory register variable (`r<n>`), named by its number.
#[derive(Clone, Copy, PartialEq, Eq, Hash, Debug, Structural)]
pub struct UnitVar(pub usize);

/// A map from variable numbers to register numbers, as a mathematical map.
pub type VarMap = Map<usize, usize>;

impl UnitVar {
    /// Renumbers this variable by `map`.
    pub fn map_var(&mut self, map: &HashMap<usize, usize>)
        requires
            map@.contains_key(old(self).0),
        ensures
            final(self).0 == map@[old(self).0],
    {
        match map.get(&self.0) {
            Some(r) => {
                self.0 = *r;
            },
            None => {},
        }
    }
}

/// A number: a literal or a variable.
#[derive(Clone, Copy, PartialEq, Debug)]
pub enum UnitNum<L> {
    Lit(L),
    Var(UnitVar),
}

/// A device: a device index (`d<n>`), a variable holding one (`dr<n>`), or the chip's own
/// housing (`db`).
#[derive(Clone, Copy, PartialEq, Eq, Debug, Structural)]
pub enum UnitDev {
    Lit(u64),
    Var(UnitVar),
    DB,
}

impl UnitDev {
    pub open spec fn mapped(self, map: VarMap) -> UnitDev {
        match self {
            UnitDev::Var(v) => UnitDev::Var(UnitVar(map[v.0])),
            _ => self,
        }
    }

    pub open spec fn vars_in(self, map: VarMap) -> bool {
        self matches UnitDev::Var(v) ==> map.contains_key(v.0)
    }

    /// Renumbers the variable of this device, if it has one.
    pub fn map_var(&mut self, map: &HashMap<usize, usize>)
        requires
            old(self).vars_in(map@),
        ensures
            *final(self) == old(self).mapped(map@),
    {
        match self {
            UnitDev::Var(unit_var) => unit_var.map_var(map),
            _ => {},
        }
    }
}

/// A network of devices, named by a hash: a literal hash, a number, or a variable.
#[derive(Clone, Copy, PartialEq, Debug)]
pub enum UnitDevNet<L> {
    Lit(i64),
    Num(UnitNum<L>),
    Var(UnitVar),
}

impl<L: Literal> UnitDevNet<L> {
    pub open spec fn mapped(self, map: VarMap) -> UnitDevNet<L> {
        match self {
            UnitDevNet::Var(v) => UnitDevNet::Var(UnitVar(map[v.0])),
            UnitDevNet::Num(UnitNum::Var(v)) => UnitDevNet::Num(UnitNum::Var(UnitVar(map[v.0]))),
            _ => self,
        }
    }

    pub open spec fn vars_in(self, map: VarMap) -> bool {
        match self {
            UnitDevNet::Var(v) => map.contains_key(v.0),
            UnitDevNet::Num(UnitNum::Var(v)) => map.contains_key(v.0),
            _ => true,
        }
    }

    /// Renumbers the variable of this network, whether it names the network or is the
    /// number that does.
    pub fn map_var(&mut self, map: &HashMap<usize, usize>)
        requires
            old(self).vars_in(map@),
        ensures
            *final(self) == old(self).mapped(map@),
    {
        match self {
            UnitDevNet::Var(unit_var) => unit_var.map_var(map),
            UnitDevNet::Num(UnitNum::Var(unit_var)) => unit_var.map_var(map),
            _ => {},
        }
    }
}

/// What translating an r-value gives.
#[derive(Clone, Copy, PartialEq, Debug)]
pub enum UnitReturn<L> {
    Num(UnitNum<L>),
    Dev(UnitDev),
    Net(UnitDevNet<L>),
    Var(UnitVar),
}

/// A jump target: a line (absolute or relative, by the instruction), a variable, the tail
/// of the if-elif-else chain of a given index (resolved at the end of translation), or the
/// return address register.
#[derive(Clone, Copy, PartialEq, Eq, Debug, Structural)]
pub enum UnitLine {
    Lit(i64),
    Var(UnitVar),
    Indexed(usize),
    RA,
}

impl UnitLine {
    pub open spec fn mapped(self, map: VarMap) -> UnitLine {
        match self {
            UnitLine::Var(v) => UnitLine::Var(UnitVar(map[v.0])),
            _ => self,
        }
    }

    pub open spec fn vars_in(self, map: VarMap) -> bool {
        self matches UnitLine::Var(v) ==> map.contains_key(v.0)
    }

    /// Renumbers the variable of this line, if it has one.
    pub fn map_var(&mut self, map: &HashMap<usize, usize>)
        requires
            old(self).vars_in(map@),
        ensures
            *final(self) == old(self).mapped(map@),
    {
        if let UnitLine::Var(var) = self {
            var.map_var(map);
        }
    }
}

/// An argument of an instruction.
#[derive(Debug)]
pub enum UnitArg<L> {
    UnitVar(UnitVar),
    UnitNum(UnitNum<L>),
    Dev(Dev<L>),
    UnitDev(UnitDev),
    UnitDevNet(UnitDevNet<L>),
    UnitLine(UnitLine),
    Mode(Mode),
    String(String),
}

impl<L: Literal> UnitArg<L> {
    /// The argument with its variables renumbered (a device node is left as is).
    pub open spec fn mapped(self, map: VarMap) -> UnitArg<L> {
        match self {
            UnitArg::UnitVar(v) => UnitArg::UnitVar(UnitVar(map[v.0])),
            UnitArg::UnitNum(UnitNum::Var(v)) => UnitArg::UnitNum(UnitNum::Var(UnitVar(map[v.0]))),
            UnitArg::UnitDev(d) => UnitArg::UnitDev(d.mapped(map)),
            UnitArg::UnitDevNet(n) => UnitArg::UnitDevNet(n.mapped(map)),
            UnitArg::UnitLine(l) => UnitArg::UnitLine(l.mapped(map)),
            _ => self,
        }
    }

    /// Every variable that renumbering touches is in the map.
    pub open spec fn vars_in(self, map: VarMap) -> bool {
        match self {
            UnitArg::UnitVar(v) => map.contains_key(v.0),
            UnitArg::UnitNum(UnitNum::Var(v)) => map.contains_key(v.0),
            UnitArg::UnitDev(d) => d.vars_in(map),
            UnitArg::UnitDevNet(n) => n.vars_in(map),
            UnitArg::UnitLine(l) => l.vars_in(map),
            _ => true,
        }
    }

    /// The argument with a chain tail index replaced by the tail's line.
    pub open spec fn resolved(self, tails: Seq<i64>) -> UnitArg<L> {
        match self {
            UnitArg::UnitLine(UnitLine::Indexed(i)) => UnitArg::UnitLine(UnitLine::Lit(tails[i as int])),
            _ => self,
        }
    }

    /// A chain tail index of the argument names one of `tails`.
    pub open spec fn resolvable(self, tails: Seq<i64>) -> bool {
        self matches UnitArg::UnitLine(UnitLine::Indexed(i)) ==> i < tails.len()
    }

    /// The argument is a chain tail index still to be resolved.
    pub open spec fn unresolved(self) -> bool {
        self matches UnitArg::UnitLine(UnitLine::Indexed(_))
    }

    /// Replaces a chain tail index by the tail's line.
    pub fn resolve(&mut self, tails: &Vec<i64>) -> (r: MypsLexerResult<()>)
        ensures
            r is Ok <==> old(self).resolvable(tails@),
            r is Ok ==> *final(self) == old(self).resolved(tails@),
            r is Err ==> *final(self) == *old(self),
    {
        if let UnitArg::UnitLine(UnitLine::Indexed(i)) = self {
            if *i < tails.len() {
                *self = UnitArg::UnitLine(UnitLine::Lit(tails[*i]));
            } else {
                return Err(MypsLexerError::undefined_tail(*i));
            }
        }
        Ok(())
    }

    /// The variable that renumbering touches, if any.
    pub open spec fn var_of(self) -> Option<usize> {
        match self {
            UnitArg::UnitVar(v) => Some(v.0),
            UnitArg::UnitNum(UnitNum::Var(v)) => Some(v.0),
            UnitArg::UnitDev(UnitDev::Var(v)) => Some(v.0),
            UnitArg::UnitDevNet(UnitDevNet::Var(v)) => Some(v.0),
            UnitArg::UnitDevNet(UnitDevNet::Num(UnitNum::Var(v))) => Some(v.0),
            UnitArg::UnitLine(UnitLine::Var(v)) => Some(v.0),
            _ => None,
        }
    }

    /// The kind of the argument, down to the kind of device, network or line it holds.
    pub open spec fn kind(self) -> int {
        match self {
            UnitArg::UnitVar(_) => 0,
            UnitArg::UnitNum(UnitNum::Lit(_)) => 1,
            UnitArg::UnitNum(UnitNum::Var(_)) => 2,
            UnitArg::Dev(_) => 3,
            UnitArg::UnitDev(UnitDev::Lit(_)) => 4,
            UnitArg::UnitDev(UnitDev::Var(_)) => 5,
            UnitArg::UnitDev(UnitDev::DB) => 6,
            UnitArg::UnitDevNet(UnitDevNet::Lit(_)) => 7,
            UnitArg::UnitDevNet(UnitDevNet::Num(UnitNum::Lit(_))) => 8,
            UnitArg::UnitDevNet(UnitDevNet::Num(UnitNum::Var(_))) => 9,
            UnitArg::UnitDevNet(UnitDevNet::Var(_)) => 10,
            UnitArg::UnitLine(UnitLine::Lit(_)) => 11,
            UnitArg::UnitLine(UnitLine::Var(_)) => 12,
            UnitArg::UnitLine(UnitLine::Indexed(_)) => 13,
            UnitArg::UnitLine(UnitLine::RA) => 14,
            UnitArg::Mode(_) => 15,
            UnitArg::String(_) => 16,
        }
    }

    /// Whether every variable that renumbering touches is in the map.
    pub fn var_mapped(&self, map: &HashMap<usize, usize>) -> (b: bool)
        ensures
            b == self.vars_in(map@),
    {
        match self {
            UnitArg::UnitVar(v) => map.contains_key(&v.0),
            UnitArg::UnitNum(UnitNum::Var(v)) => map.contains_key(&v.0),
            UnitArg::UnitDev(UnitDev::Var(v)) => map.contains_key(&v.0),
            UnitArg::UnitDevNet(UnitDevNet::Var(v)) => map.contains_key(&v.0),
            UnitArg::UnitDevNet(UnitDevNet::Num(UnitNum::Var(v))) => map.contains_key(&v.0),
            UnitArg::UnitLine(UnitLine::Var(v)) => map.contains_key(&v.0),
            _ => true,
        }
    }

    /// A mutable reference to the line of this argument, if it is one.
    pub fn as_unit_line_mut(&mut self) -> (r: Option<&mut UnitLine>)
        ensures
            r is Some <==> *old(self) matches UnitArg::UnitLine(_),
            r matches Some(l) ==> *old(self) == UnitArg::<L>::UnitLine(*l),
            r matches Some(l) ==> *final(self) == UnitArg::<L>::UnitLine(*final(l)),
            r is None ==> *final(self) == *old(self),
    {
        match self {
            UnitArg::UnitLine(line) => Some(line),
            _ => None,
        }
    }

    /// Renumbers the variables of this argument.
    pub fn map_var(&mut self, map: &HashMap<usize, usize>)
        requires
            old(self).vars_in(map@),
        ensures
            *final(self) == old(self).mapped(map@),
    {
        match self {
            UnitArg::UnitVar(var) => var.map_var(map),
            UnitArg::UnitNum(UnitNum::Var(var)) => var.map_var(map),
            UnitArg::UnitDev(unit_dev) => unit_dev.map_var(map),
            UnitArg::UnitDevNet(unit_dev_net) => unit_dev_net.map_var(map),
            UnitArg::UnitLine(line) => line.map_var(map),
            _ => {},
        }
    }
}

/// IC10 instructions, each with its arguments. `Empty` is a line with no instruction and
/// `Dummy` a placeholder that translation replaces.
#[derive(Debug)]
pub enum UnitExpr<L> {
    Bdns(Vec<UnitArg<L>>),
    Bdnsal(Vec<UnitArg<L>>),
    Bdse(Vec<UnitArg<L>>),
    Bdseal(Vec<UnitArg<L>>),
    Brdns(Vec<UnitArg<L>>),
    Brdse(Vec<UnitArg<L>>),
    L(Vec<UnitArg<L>>),
    Lb(Vec<UnitArg<L>>),
    Ls(Vec<UnitArg<L>>),
    S(Vec<UnitArg<L>>),
    Sb(Vec<UnitArg<L>>),
    Breq(Vec<UnitArg<L>>),
    Breqz(Vec<UnitArg<L>>),
    Brge(Vec<UnitArg<L>>),
    Brgez(Vec<UnitArg<L>>),
    Brgt(Vec<UnitArg<L>>),
    Brgtz(Vec<UnitArg<L>>),
    Brle(Vec<UnitArg<L>>),
    Brlez(Vec<UnitArg<L>>),
    Brlt(Vec<UnitArg<L>>),
    Brltz(Vec<UnitArg<L>>),
    Brne(Vec<UnitArg<L>>),
    Brnez(Vec<UnitArg<L>>),
    J(Vec<UnitArg<L>>),
    Jal(Vec<UnitArg<L>>),
    Jr(Vec<UnitArg<L>>),
    SEq(Vec<UnitArg<L>>),
    Sgt(Vec<UnitArg<L>>),
    Slt(Vec<UnitArg<L>>),
    Sne(Vec<UnitArg<L>>),
    Add(Vec<UnitArg<L>>),
    Div(Vec<UnitArg<L>>),
    Mod(Vec<UnitArg<L>>),
    Mul(Vec<UnitArg<L>>),
    Sub(Vec<UnitArg<L>>),
    Trunc(Vec<UnitArg<L>>),
    Or(Vec<UnitArg<L>>),
    Peek(Vec<UnitArg<L>>),
    Pop(Vec<UnitArg<L>>),
    Push(Vec<UnitArg<L>>),
    Alias(Vec<UnitArg<L>>),
    Hcf(Vec<UnitArg<L>>),
    Move(Vec<UnitArg<L>>),
    Sleep(Vec<UnitArg<L>>),
    Yield(Vec<UnitArg<L>>),
    Empty,
    Dummy,
}

impl<L: Literal> UnitExpr<L> {
    /// A number for each kind of instruction.
    pub open spec fn code(&self) -> int {
        match self {
            UnitExpr::Bdns(_) => 0,
            UnitExpr::Bdnsal(_) => 1,
            UnitExpr::Bdse(_) => 2,
            UnitExpr::Bdseal(_) => 3,
            UnitExpr::Brdns(_) => 4,
            UnitExpr::Brdse(_) => 5,
            UnitExpr::L(_) => 6,
            UnitExpr::Lb(_) => 7,
            UnitExpr::Ls(_) => 8,
            UnitExpr::S(_) => 9,
            UnitExpr::Sb(_) => 10,
            UnitExpr::Breq(_) => 11,
            UnitExpr::Breqz(_) => 12,
            UnitExpr::Brge(_) => 13,
            UnitExpr::Brgez(_) => 14,
            UnitExpr::Brgt(_) => 15,
            UnitExpr::Brgtz(_) => 16,
            UnitExpr::Brle(_) => 17,
            UnitExpr::Brlez(_) => 18,
            UnitExpr::Brlt(_) => 19,
            UnitExpr::Brltz(_) => 20,
            UnitExpr::Brne(_) => 21,
            UnitExpr::Brnez(_) => 22,
            UnitExpr::J(_) => 23,
            UnitExpr::Jal(_) => 24,
            UnitExpr::Jr(_) => 25,
            UnitExpr::SEq(_) => 26,
            UnitExpr::Sgt(_) => 27,
            UnitExpr::Slt(_) => 28,
            UnitExpr::Sne(_) => 29,
            UnitExpr::Add(_) => 30,
            UnitExpr::Div(_) => 31,
            UnitExpr::Mod(_) => 32,
            UnitExpr::Mul(_) => 33,
            UnitExpr::Sub(_) => 34,
            UnitExpr::Trunc(_) => 35,
            UnitExpr::Or(_) => 36,
            UnitExpr::Peek(_) => 37,
            UnitExpr::Pop(_) => 38,
            UnitExpr::Push(_) => 39,
            UnitExpr::Alias(_) => 40,
            UnitExpr::Hcf(_) => 41,
            UnitExpr::Move(_) => 42,
            UnitExpr::Sleep(_) => 43,
            UnitExpr::Yield(_) => 44,
            UnitExpr::Empty => 45,
            UnitExpr::Dummy => 46,
        }
    }

    /// The name of the instruction, as IC10 code writes it and as a call statement names it
    /// (`empty` and `dummy` for the empty and the placeholder unit).
    pub open spec fn mnemonic(&self) -> Seq<char> {
        match self {
            UnitExpr::Bdns(_) => "bdns"@,
            UnitExpr::Bdnsal(_) => "bdnsal"@,
            UnitExpr::Bdse(_) => "bdse"@,
            UnitExpr::Bdseal(_) => "bdseal"@,
            UnitExpr::Brdns(_) => "brdns"@,
            UnitExpr::Brdse(_) => "brdse"@,
            UnitExpr::L(_) => "l"@,
            UnitExpr::Lb(_) => "lb"@,
            UnitExpr::Ls(_) => "ls"@,
            UnitExpr::S(_) => "s"@,
            UnitExpr::Sb(_) => "sb"@,
            UnitExpr::Breq(_) => "breq"@,
            UnitExpr::Breqz(_) => "breqz"@,
            UnitExpr::Brge(_) => "brge"@,
            UnitExpr::Brgez(_) => "brgez"@,
            UnitExpr::Brgt(_) => "brgt"@,
            UnitExpr::Brgtz(_) => "brgtz"@,
            UnitExpr::Brle(_) => "brle"@,
            UnitExpr::Brlez(_) => "brlez"@,
            UnitExpr::Brlt(_) => "brlt"@,
            UnitExpr::Brltz(_) => "brltz"@,
            UnitExpr::Brne(_) => "brne"@,
            UnitExpr::Brnez(_) => "brnez"@,
            UnitExpr::J(_) => "j"@,
            UnitExpr::Jal(_) => "jal"@,
            UnitExpr::Jr(_) => "jr"@,
            UnitExpr::SEq(_) => "seq"@,
            UnitExpr::Sgt(_) => "sgt"@,
            UnitExpr::Slt(_) => "slt"@,
            UnitExpr::Sne(_) => "sne"@,
            UnitExpr::Add(_) => "add"@,
            UnitExpr::Div(_) => "div"@,
            UnitExpr::Mod(_) => "mod"@,
            UnitExpr::Mul(_) => "mul"@,
            UnitExpr::Sub(_) => "sub"@,
            UnitExpr::Trunc(_) => "trunc"@,
            UnitExpr::Or(_) => "or"@,
            UnitExpr::Peek(_) => "peek"@,
            UnitExpr::Pop(_) => "pop"@,
            UnitExpr::Push(_) => "push"@,
            UnitExpr::Alias(_) => "alias"@,
            UnitExpr::Hcf(_) => "hcf"@,
            UnitExpr::Move(_) => "move"@,
            UnitExpr::Sleep(_) => "sleep"@,
            UnitExpr::Yield(_) => "yield"@,
            UnitExpr::Empty => "empty"@,
            UnitExpr::Dummy => "dummy"@,
        }
    }

    /// How many operands the instruction takes in IC10 code: `l r d p` three, `sleep a` one,
    /// `brlt a b c` three, and so on.
    pub open spec fn operand_count(&self) -> int {
        match self {
            UnitExpr::Bdns(_) => 2,
            UnitExpr::Bdnsal(_) => 2,
            UnitExpr::Bdse(_) => 2,
            UnitExpr::Bdseal(_) => 2,
            UnitExpr::Brdns(_) => 2,
            UnitExpr::Brdse(_) => 2,
            UnitExpr::L(_) => 3,
            UnitExpr::Lb(_) => 4,
            UnitExpr::Ls(_) => 4,
            UnitExpr::S(_) => 3,
            UnitExpr::Sb(_) => 3,
            UnitExpr::Breq(_) => 3,
            UnitExpr::Breqz(_) => 2,
            UnitExpr::Brge(_) => 3,
            UnitExpr::Brgez(_) => 2,
            UnitExpr::Brgt(_) => 3,
            UnitExpr::Brgtz(_) => 2,
            UnitExpr::Brle(_) => 3,
            UnitExpr::Brlez(_) => 2,
            UnitExpr::Brlt(_) => 3,
            UnitExpr::Brltz(_) => 2,
            UnitExpr::Brne(_) => 3,
            UnitExpr::Brnez(_) => 2,
            UnitExpr::J(_) => 1,
            UnitExpr::Jal(_) => 1,
            UnitExpr::Jr(_) => 1,
            UnitExpr::SEq(_) => 3,
            UnitExpr::Sgt(_) => 3,
            UnitExpr::Slt(_) => 3,
            UnitExpr::Sne(_) => 3,
            UnitExpr::Add(_) => 3,
            UnitExpr::Div(_) => 3,
            UnitExpr::Mod(_) => 3,
            UnitExpr::Mul(_) => 3,
            UnitExpr::Sub(_) => 3,
            UnitExpr::Trunc(_) => 2,
            UnitExpr::Or(_) => 3,
            UnitExpr::Peek(_) => 1,
            UnitExpr::Pop(_) => 1,
            UnitExpr::Push(_) => 1,
            UnitExpr::Alias(_) => 2,
            UnitExpr::Hcf(_) => 0,
            UnitExpr::Move(_) => 2,
            UnitExpr::Sleep(_) => 1,
            UnitExpr::Yield(_) => 0,
            UnitExpr::Empty => 0,
            UnitExpr::Dummy => 0,
        }
    }

    /// The arguments of the instruction.
    pub open spec fn args(&self) -> Seq<UnitArg<L>> {
        match self {
            UnitExpr::Bdns(a) => a@,
            UnitExpr::Bdnsal(a) => a@,
            UnitExpr::Bdse(a) => a@,
            UnitExpr::Bdseal(a) => a@,
            UnitExpr::Brdns(a) => a@,
            UnitExpr::Brdse(a) => a@,
            UnitExpr::L(a) => a@,
            UnitExpr::Lb(a) => a@,
            UnitExpr::Ls(a) => a@,
            UnitExpr::S(a) => a@,
            UnitExpr::Sb(a) => a@,
            UnitExpr::Breq(a) => a@,
            UnitExpr::Breqz(a) => a@,
            UnitExpr::Brge(a) => a@,
            UnitExpr::Brgez(a) => a@,
            UnitExpr::Brgt(a) => a@,
            UnitExpr::Brgtz(a) => a@,
            UnitExpr::Brle(a) => a@,
            UnitExpr::Brlez(a) => a@,
            UnitExpr::Brlt(a) => a@,
            UnitExpr::Brltz(a) => a@,
            UnitExpr::Brne(a) => a@,
            UnitExpr::Brnez(a) => a@,
            UnitExpr::J(a) => a@,
            UnitExpr::Jal(a) => a@,
            UnitExpr::Jr(a) => a@,
            UnitExpr::SEq(a) => a@,
            UnitExpr::Sgt(a) => a@,
            UnitExpr::Slt(a) => a@,
            UnitExpr::Sne(a) => a@,
            UnitExpr::Add(a) => a@,
            UnitExpr::Div(a) => a@,
            UnitExpr::Mod(a) => a@,
            UnitExpr::Mul(a) => a@,
            UnitExpr::Sub(a) => a@,
            UnitExpr::Trunc(a) => a@,
            UnitExpr::Or(a) => a@,
            UnitExpr::Peek(a) => a@,
            UnitExpr::Pop(a) => a@,
            UnitExpr::Push(a) => a@,
            UnitExpr::Alias(a) => a@,
            UnitExpr::Hcf(a) => a@,
            UnitExpr::Move(a) => a@,
            UnitExpr::Sleep(a) => a@,
            UnitExpr::Yield(a) => a@,
            UnitExpr::Empty => Seq::empty(),
            UnitExpr::Dummy => Seq::empty(),
        }
    }

    /// The number of arguments that each kind of instruction takes.
    pub open spec fn arity(&self) -> int {
        match self {
            UnitExpr::Bdns(_) => 2,
            UnitExpr::Bdnsal(_) => 2,
            UnitExpr::Bdse(_) => 2,
            UnitExpr::Bdseal(_) => 2,
            UnitExpr::Brdns(_) => 2,
            UnitExpr::Brdse(_) => 2,
            UnitExpr::L(_) => 3,
            UnitExpr::Lb(_) => 4,
            UnitExpr::Ls(_) => 4,
            UnitExpr::S(_) => 3,
            UnitExpr::Sb(_) => 3,
            UnitExpr::Breq(_) => 3,
            UnitExpr::Breqz(_) => 2,
            UnitExpr::Brge(_) => 3,
            UnitExpr::Brgez(_) => 2,
            UnitExpr::Brgt(_) => 3,
            UnitExpr::Brgtz(_) => 2,
            UnitExpr::Brle(_) => 3,
            UnitExpr::Brlez(_) => 2,
            UnitExpr::Brlt(_) => 3,
            UnitExpr::Brltz(_) => 2,
            UnitExpr::Brne(_) => 3,
            UnitExpr::Brnez(_) => 2,
            UnitExpr::J(_) => 1,
            UnitExpr::Jal(_) => 1,
            UnitExpr::Jr(_) => 1,
            UnitExpr::SEq(_) => 3,
            UnitExpr::Sgt(_) => 3,
            UnitExpr::Slt(_) => 3,
            UnitExpr::Sne(_) => 3,
            UnitExpr::Add(_) => 3,
            UnitExpr::Div(_) => 3,
            UnitExpr::Mod(_) => 3,
            UnitExpr::Mul(_) => 3,
            UnitExpr::Sub(_) => 3,
            UnitExpr::Trunc(_) => 2,
            UnitExpr::Or(_) => 3,
            UnitExpr::Peek(_) => 1,
            UnitExpr::Pop(_) => 1,
            UnitExpr::Push(_) => 1,
            UnitExpr::Alias(_) => 2,
            UnitExpr::Hcf(_) => 0,
            UnitExpr::Move(_) => 2,
            UnitExpr::Sleep(_) => 1,
            UnitExpr::Yield(_) => 0,
            UnitExpr::Empty => 0,
            UnitExpr::Dummy => 0,
        }
    }

    pub open spec fn wf(&self) -> bool {
        self.args().len() == self.arity()
    }

    /// `bdns`
    pub fn new_bdns(d: UnitDev, l: UnitLine) -> (e: Self)
        ensures
            e matches UnitExpr::Bdns(_),
            e.args() == seq![UnitArg::<L>::UnitDev(d), UnitArg::<L>::UnitLine(l)],
    {
        UnitExpr::Bdns(vec![UnitArg::UnitDev(d), UnitArg::UnitLine(l)])
    }

    /// `bdnsal`
    pub fn new_bdnsal(d: UnitDev, l: UnitLine) -> (e: Self)
        ensures
            e matches UnitExpr::Bdnsal(_),
            e.args() == seq![UnitArg::<L>::UnitDev(d), UnitArg::<L>::UnitLine(l)],
    {
        UnitExpr::Bdnsal(vec![UnitArg::UnitDev(d), UnitArg::UnitLine(l)])
    }

    /// `bdse`
    pub fn new_bdse(d: UnitDev, l: UnitLine) -> (e: Self)
        ensures
            e matches UnitExpr::Bdse(_),
            e.args() == seq![UnitArg::<L>::UnitDev(d), UnitArg::<L>::UnitLine(l)],
    {
        UnitExpr::Bdse(vec![UnitArg::UnitDev(d), UnitArg::UnitLine(l)])
    }

    /// `bdseal`
    pub fn new_bdseal(d: UnitDev, l: UnitLine) -> (e: Self)
        ensures
            e matches UnitExpr::Bdseal(_),
            e.args() == seq![UnitArg::<L>::UnitDev(d), UnitArg::<L>::UnitLine(l)],
    {
        UnitExpr::Bdseal(vec![UnitArg::UnitDev(d), UnitArg::UnitLine(l)])
    }

    /// `brdns`
    pub fn new_brdns(d: UnitDev, l: UnitLine) -> (e: Self)
        ensures
            e matches UnitExpr::Brdns(_),
            e.args() == seq![UnitArg::<L>::UnitDev(d), UnitArg::<L>::UnitLine(l)],
    {
        UnitExpr::Brdns(vec![UnitArg::UnitDev(d), UnitArg::UnitLine(l)])
    }

    /// `brdse`
    pub fn new_brdse(d: UnitDev, l: UnitLine) -> (e: Self)
        ensures
            e matches UnitExpr::Brdse(_),
            e.args() == seq![UnitArg::<L>::UnitDev(d), UnitArg::<L>::UnitLine(l)],
    {
        UnitExpr::Brdse(vec![UnitArg::UnitDev(d), UnitArg::UnitLine(l)])
    }

    /// `l`
    pub fn new_l(r: UnitVar, d: UnitDev, p: String) -> (e: Self)
        ensures
            e matches UnitExpr::L(_),
            e.args() == seq![UnitArg::<L>::UnitVar(r), UnitArg::<L>::UnitDev(d), UnitArg::<L>::String(p)],
    {
        UnitExpr::L(vec![UnitArg::UnitVar(r), UnitArg::UnitDev(d), UnitArg::String(p)])
    }

    /// `lb`
    pub fn new_lb(r: UnitVar, d: UnitDevNet<L>, p: String, m: Mode) -> (e: Self)
        ensures
            e matches UnitExpr::Lb(_),
            e.args() == seq![UnitArg::<L>::UnitVar(r), UnitArg::<L>::UnitDevNet(d), UnitArg::<L>::String(p), UnitArg::<L>::Mode(m)],
    {
        UnitExpr::Lb(vec![UnitArg::UnitVar(r), UnitArg::UnitDevNet(d), UnitArg::String(p), UnitArg::Mode(m)])
    }

    /// `ls`
    pub fn new_ls(r: UnitVar, d: UnitDev, i: UnitNum<L>, p: String) -> (e: Self)
        ensures
            e matches UnitExpr::Ls(_),
            e.args() == seq![UnitArg::<L>::UnitVar(r), UnitArg::<L>::UnitDev(d), UnitArg::<L>::UnitNum(i), UnitArg::<L>::String(p)],
    {
        UnitExpr::Ls(vec![UnitArg::UnitVar(r), UnitArg::UnitDev(d), UnitArg::UnitNum(i), UnitArg::String(p)])
    }

    /// `s`
    pub fn new_s(d: UnitDev, p: String, r: UnitNum<L>) -> (e: Self)
        ensures
            e matches UnitExpr::S(_),
            e.args() == seq![UnitArg::<L>::UnitDev(d), UnitArg::<L>::String(p), UnitArg::<L>::UnitNum(r)],
    {
        UnitExpr::S(vec![UnitArg::UnitDev(d), UnitArg::String(p), UnitArg::UnitNum(r)])
    }

    /// `sb`
    pub fn new_sb(d: UnitDevNet<L>, p: String, r: UnitNum<L>) -> (e: Self)
        ensures
            e matches UnitExpr::Sb(_),
            e.args() == seq![UnitArg::<L>::UnitDevNet(d), UnitArg::<L>::String(p), UnitArg::<L>::UnitNum(r)],
    {
        UnitExpr::Sb(vec![UnitArg::UnitDevNet(d), UnitArg::String(p), UnitArg::UnitNum(r)])
    }

    /// `breq`
    pub fn new_breq(a: UnitNum<L>, b: UnitNum<L>, l: UnitLine) -> (e: Self)
        ensures
            e matches UnitExpr::Breq(_),
            e.args() == seq![UnitArg::<L>::UnitNum(a), UnitArg::<L>::UnitNum(b), UnitArg::<L>::UnitLine(l)],
    {
        UnitExpr::Breq(vec![UnitArg::UnitNum(a), UnitArg::UnitNum(b), UnitArg::UnitLine(l)])
    }

    /// `breqz`
    pub fn new_breqz(a: UnitNum<L>, l: UnitLine) -> (e: Self)
        ensures
            e matches UnitExpr::Breqz(_),
            e.args() == seq![UnitArg::<L>::UnitNum(a), UnitArg::<L>::UnitLine(l)],
    {
        UnitExpr::Breqz(vec![UnitArg::UnitNum(a), UnitArg::UnitLine(l)])
    }

    /// `brge`
    pub fn new_brge(a: UnitNum<L>, b: UnitNum<L>, l: UnitLine) -> (e: Self)
        ensures
            e matches UnitExpr::Brge(_),
            e.args() == seq![UnitArg::<L>::UnitNum(a), UnitArg::<L>::UnitNum(b), UnitArg::<L>::UnitLine(l)],
    {
        UnitExpr::Brge(vec![UnitArg::UnitNum(a), UnitArg::UnitNum(b), UnitArg::UnitLine(l)])
    }

    /// `brgez`
    pub fn new_brgez(a: UnitNum<L>, l: UnitLine) -> (e: Self)
        ensures
            e matches UnitExpr::Brgez(_),
            e.args() == seq![UnitArg::<L>::UnitNum(a), UnitArg::<L>::UnitLine(l)],
    {
        UnitExpr::Brgez(vec![UnitArg::UnitNum(a), UnitArg::UnitLine(l)])
    }

    /// `brgt`
    pub fn new_brgt(a: UnitNum<L>, b: UnitNum<L>, l: UnitLine) -> (e: Self)
        ensures
            e matches UnitExpr::Brgt(_),
            e.args() == seq![UnitArg::<L>::UnitNum(a), UnitArg::<L>::UnitNum(b), UnitArg::<L>::UnitLine(l)],
    {
        UnitExpr::Brgt(vec![UnitArg::UnitNum(a), UnitArg::UnitNum(b), UnitArg::UnitLine(l)])
    }

    /// `brgtz`
    pub fn new_brgtz(a: UnitNum<L>, l: UnitLine) -> (e: Self)
        ensures
            e matches UnitExpr::Brgtz(_),
            e.args() == seq![UnitArg::<L>::UnitNum(a), UnitArg::<L>::UnitLine(l)],
    {
        UnitExpr::Brgtz(vec![UnitArg::UnitNum(a), UnitArg::UnitLine(l)])
    }

    /// `brle`
    pub fn new_brle(a: UnitNum<L>, b: UnitNum<L>, l: UnitLine) -> (e: Self)
        ensures
            e matches UnitExpr::Brle(_),
            e.args() == seq![UnitArg::<L>::UnitNum(a), UnitArg::<L>::UnitNum(b), UnitArg::<L>::UnitLine(l)],
    {
        UnitExpr::Brle(vec![UnitArg::UnitNum(a), UnitArg::UnitNum(b), UnitArg::UnitLine(l)])
    }

    /// `brlez`
    pub fn new_brlez(a: UnitNum<L>, l: UnitLine) -> (e: Self)
        ensures
            e matches UnitExpr::Brlez(_),
            e.args() == seq![UnitArg::<L>::UnitNum(a), UnitArg::<L>::UnitLine(l)],
    {
        UnitExpr::Brlez(vec![UnitArg::UnitNum(a), UnitArg::UnitLine(l)])
    }

    /// `brlt`
    pub fn new_brlt(a: UnitNum<L>, b: UnitNum<L>, l: UnitLine) -> (e: Self)
        ensures
            e matches UnitExpr::Brlt(_),
            e.args() == seq![UnitArg::<L>::UnitNum(a), UnitArg::<L>::UnitNum(b), UnitArg::<L>::UnitLine(l)],
    {
        UnitExpr::Brlt(vec![UnitArg::UnitNum(a), UnitArg::UnitNum(b), UnitArg::UnitLine(l)])
    }

    /// `brltz`
    pub fn new_brltz(a: UnitNum<L>, l: UnitLine) -> (e: Self)
        ensures
            e matches UnitExpr::Brltz(_),
            e.args() == seq![UnitArg::<L>::UnitNum(a), UnitArg::<L>::UnitLine(l)],
    {
        UnitExpr::Brltz(vec![UnitArg::UnitNum(a), UnitArg::UnitLine(l)])
    }

    /// `brne`
    pub fn new_brne(a: UnitNum<L>, b: UnitNum<L>, l: UnitLine) -> (e: Self)
        ensures
            e matches UnitExpr::Brne(_),
            e.args() == seq![UnitArg::<L>::UnitNum(a), UnitArg::<L>::UnitNum(b), UnitArg::<L>::UnitLine(l)],
    {
        UnitExpr::Brne(vec![UnitArg::UnitNum(a), UnitArg::UnitNum(b), UnitArg::UnitLine(l)])
    }

    /// `brnez`
    pub fn new_brnez(a: UnitNum<L>, l: UnitLine) -> (e: Self)
        ensures
            e matches UnitExpr::Brnez(_),
            e.args() == seq![UnitArg::<L>::UnitNum(a), UnitArg::<L>::UnitLine(l)],
    {
        UnitExpr::Brnez(vec![UnitArg::UnitNum(a), UnitArg::UnitLine(l)])
    }

    /// `j`
    pub fn new_j(l: UnitLine) -> (e: Self)
        ensures
            e matches UnitExpr::J(_),
            e.args() == seq![UnitArg::<L>::UnitLine(l)],
    {
        UnitExpr::J(vec![UnitArg::UnitLine(l)])
    }

    /// `jal`
    pub fn new_jal(l: UnitLine) -> (e: Self)
        ensures
            e matches UnitExpr::Jal(_),
            e.args() == seq![UnitArg::<L>::UnitLine(l)],
    {
        UnitExpr::Jal(vec![UnitArg::UnitLine(l)])
    }

    /// `jr`
    pub fn new_jr(l: UnitLine) -> (e: Self)
        ensures
            e matches UnitExpr::Jr(_),
            e.args() == seq![UnitArg::<L>::UnitLine(l)],
    {
        UnitExpr::Jr(vec![UnitArg::UnitLine(l)])
    }

    /// `seq`
    pub fn new_seq(r: UnitVar, a: UnitNum<L>, b: UnitNum<L>) -> (e: Self)
        ensures
            e matches UnitExpr::SEq(_),
            e.args() == seq![UnitArg::<L>::UnitVar(r), UnitArg::<L>::UnitNum(a), UnitArg::<L>::UnitNum(b)],
    {
        UnitExpr::SEq(vec![UnitArg::UnitVar(r), UnitArg::UnitNum(a), UnitArg::UnitNum(b)])
    }

    /// `sgt`
    pub fn new_sgt(r: UnitVar, a: UnitNum<L>, b: UnitNum<L>) -> (e: Self)
        ensures
            e matches UnitExpr::Sgt(_),
            e.args() == seq![UnitArg::<L>::UnitVar(r), UnitArg::<L>::UnitNum(a), UnitArg::<L>::UnitNum(b)],
    {
        UnitExpr::Sgt(vec![UnitArg::UnitVar(r), UnitArg::UnitNum(a), UnitArg::UnitNum(b)])
    }

    /// `slt`
    pub fn new_slt(r: UnitVar, a: UnitNum<L>, b: UnitNum<L>) -> (e: Self)
        ensures
            e matches UnitExpr::Slt(_),
            e.args() == seq![UnitArg::<L>::UnitVar(r), UnitArg::<L>::UnitNum(a), UnitArg::<L>::UnitNum(b)],
    {
        UnitExpr::Slt(vec![UnitArg::UnitVar(r), UnitArg::UnitNum(a), UnitArg::UnitNum(b)])
    }

    /// `sne`
    pub fn new_sne(r: UnitVar, a: UnitNum<L>, b: UnitNum<L>) -> (e: Self)
        ensures
            e matches UnitExpr::Sne(_),
            e.args() == seq![UnitArg::<L>::UnitVar(r), UnitArg::<L>::UnitNum(a), UnitArg::<L>::UnitNum(b)],
    {
        UnitExpr::Sne(vec![UnitArg::UnitVar(r), UnitArg::UnitNum(a), UnitArg::UnitNum(b)])
    }

    /// `add`
    pub fn new_add(r: UnitVar, a: UnitNum<L>, b: UnitNum<L>) -> (e: Self)
        ensures
            e matches UnitExpr::Add(_),
            e.args() == seq![UnitArg::<L>::UnitVar(r), UnitArg::<L>::UnitNum(a), UnitArg::<L>::UnitNum(b)],
    {
        UnitExpr::Add(vec![UnitArg::UnitVar(r), UnitArg::UnitNum(a), UnitArg::UnitNum(b)])
    }

    /// `div`
    pub fn new_div(r: UnitVar, a: UnitNum<L>, b: UnitNum<L>) -> (e: Self)
        ensures
            e matches UnitExpr::Div(_),
            e.args() == seq![UnitArg::<L>::UnitVar(r), UnitArg::<L>::UnitNum(a), UnitArg::<L>::UnitNum(b)],
    {
        UnitExpr::Div(vec![UnitArg::UnitVar(r), UnitArg::UnitNum(a), UnitArg::UnitNum(b)])
    }

    /// `mod`
    pub fn new_mod(r: UnitVar, a: UnitNum<L>, b: UnitNum<L>) -> (e: Self)
        ensures
            e matches UnitExpr::Mod(_),
            e.args() == seq![UnitArg::<L>::UnitVar(r), UnitArg::<L>::UnitNum(a), UnitArg::<L>::UnitNum(b)],
    {
        UnitExpr::Mod(vec![UnitArg::UnitVar(r), UnitArg::UnitNum(a), UnitArg::UnitNum(b)])
    }

    /// `mul`
    pub fn new_mul(r: UnitVar, a: UnitNum<L>, b: UnitNum<L>) -> (e: Self)
        ensures
            e matches UnitExpr::Mul(_),
            e.args() == seq![UnitArg::<L>::UnitVar(r), UnitArg::<L>::UnitNum(a), UnitArg::<L>::UnitNum(b)],
    {
        UnitExpr::Mul(vec![UnitArg::UnitVar(r), UnitArg::UnitNum(a), UnitArg::UnitNum(b)])
    }

    /// `sub`
    pub fn new_sub(r: UnitVar, a: UnitNum<L>, b: UnitNum<L>) -> (e: Self)
        ensures
            e matches UnitExpr::Sub(_),
            e.args() == seq![UnitArg::<L>::UnitVar(r), UnitArg::<L>::UnitNum(a), UnitArg::<L>::UnitNum(b)],
    {
        UnitExpr::Sub(vec![UnitArg::UnitVar(r), UnitArg::UnitNum(a), UnitArg::UnitNum(b)])
    }

    /// `trunc`
    pub fn new_trunc(r: UnitVar, a: UnitNum<L>) -> (e: Self)
        ensures
            e matches UnitExpr::Trunc(_),
            e.args() == seq![UnitArg::<L>::UnitVar(r), UnitArg::<L>::UnitNum(a)],
    {
        UnitExpr::Trunc(vec![UnitArg::UnitVar(r), UnitArg::UnitNum(a)])
    }

    /// `or`
    pub fn new_or(r: UnitVar, a: UnitNum<L>, b: UnitNum<L>) -> (e: Self)
        ensures
            e matches UnitExpr::Or(_),
            e.args() == seq![UnitArg::<L>::UnitVar(r), UnitArg::<L>::UnitNum(a), UnitArg::<L>::UnitNum(b)],
    {
        UnitExpr::Or(vec![UnitArg::UnitVar(r), UnitArg::UnitNum(a), UnitArg::UnitNum(b)])
    }

    /// `peek`
    pub fn new_peek(r: UnitVar) -> (e: Self)
        ensures
            e matches UnitExpr::Peek(_),
            e.args() == seq![UnitArg::<L>::UnitVar(r)],
    {
        UnitExpr::Peek(vec![UnitArg::UnitVar(r)])
    }

    /// `pop`
    pub fn new_pop(r: UnitVar) -> (e: Self)
        ensures
            e matches UnitExpr::Pop(_),
            e.args() == seq![UnitArg::<L>::UnitVar(r)],
    {
        UnitExpr::Pop(vec![UnitArg::UnitVar(r)])
    }

    /// `push`
    pub fn new_push(a: UnitNum<L>) -> (e: Self)
        ensures
            e matches UnitExpr::Push(_),
            e.args() == seq![UnitArg::<L>::UnitNum(a)],
    {
        UnitExpr::Push(vec![UnitArg::UnitNum(a)])
    }

    /// `alias`
    pub fn new_alias(a: String, d: UnitDev) -> (e: Self)
        ensures
            e matches UnitExpr::Alias(_),
            e.args() == seq![UnitArg::<L>::String(a), UnitArg::<L>::UnitDev(d)],
    {
        UnitExpr::Alias(vec![UnitArg::String(a), UnitArg::UnitDev(d)])
    }

    /// `hcf`
    pub fn new_hcf() -> (e: Self)
        ensures
            e matches UnitExpr::Hcf(_),
            e.args() == Seq::<UnitArg<L>>::empty(),
    {
        UnitExpr::Hcf(vec![])
    }

    /// `move`
    pub fn new_move(r: UnitVar, a: UnitNum<L>) -> (e: Self)
        ensures
            e matches UnitExpr::Move(_),
            e.args() == seq![UnitArg::<L>::UnitVar(r), UnitArg::<L>::UnitNum(a)],
    {
        UnitExpr::Move(vec![UnitArg::UnitVar(r), UnitArg::UnitNum(a)])
    }

    /// `sleep`
    pub fn new_sleep(a: UnitNum<L>) -> (e: Self)
        ensures
            e matches UnitExpr::Sleep(_),
            e.args() == seq![UnitArg::<L>::UnitNum(a)],
    {
        UnitExpr::Sleep(vec![UnitArg::UnitNum(a)])
    }

    /// `yield`
    pub fn new_yield() -> (e: Self)
        ensures
            e matches UnitExpr::Yield(_),
            e.args() == Seq::<UnitArg<L>>::empty(),
    {
        UnitExpr::Yield(vec![])
    }


    /// Every variable that renumbering touches is in the map.
    pub open spec fn vars_in(&self, map: VarMap) -> bool {
        args_vars_in(self.args(), map)
    }

    /// Is this unit expression a logical expression. (No instruction is, yet.)
    pub fn is_logical(&self) -> (b: bool)
        ensures
            b <==> self is Or,
    {
        match self {
            UnitExpr::Or(..) => true,
            _ => false,
        }
    }

    /// Is this unit expression a select expression (`seq`, `slt`, `sgt` or `sne`).
    pub fn is_select(&self) -> (b: bool)
        ensures
            b <==> (self is SEq || self is Slt || self is Sgt || self is Sne),
    {
        match self {
            UnitExpr::SEq(..) | UnitExpr::Slt(..) | UnitExpr::Sgt(..) | UnitExpr::Sne(..) => true,
            _ => false,
        }
    }

    /// Is this unit expression a logical or select expression.
    pub fn is_logical_or_select(&self) -> (b: bool)
        ensures
            b <==> (self is Or || self is SEq || self is Slt || self is Sgt || self is Sne),
    {
        self.is_logical() || self.is_select()
    }

    /// Renumbers the variables of the arguments (as after register optimization).
    pub fn map_vars(&mut self, map: &HashMap<usize, usize>)
        requires
            old(self).vars_in(map@),
        ensures
            final(self).code() == old(self).code(),
            final(self).args() == old(self).args().map_values(|a: UnitArg<L>| a.mapped(map@)),
            final(self).args().len() == old(self).args().len(),
            forall|j: int| 0 <= j < old(self).args().len() ==> (#[trigger] final(self).args()[j]).var_of() == renumbered(
                old(self).args()[j].var_of(),
                map@,
            ) && final(self).args()[j].kind() == old(self).args()[j].kind(),
    {
        proof {
            assert forall|j: int| 0 <= j < old(self).args().len() implies (#[trigger] old(self).args()[j].mapped(map@)).var_of()
                == renumbered(old(self).args()[j].var_of(), map@) && old(self).args()[j].mapped(map@).kind()
                == old(self).args()[j].kind() by {
                assert(old(self).args()[j].vars_in(map@));
                lemma_renumbering_replaces_every_variable(old(self).args()[j], map@);
            }
        }
        match self {
            UnitExpr::Bdns(args) => map_args(args, map),
            UnitExpr::Bdnsal(args) => map_args(args, map),
            UnitExpr::Bdse(args) => map_args(args, map),
            UnitExpr::Bdseal(args) => map_args(args, map),
            UnitExpr::Brdns(args) => map_args(args, map),
            UnitExpr::Brdse(args) => map_args(args, map),
            UnitExpr::L(args) => map_args(args, map),
            UnitExpr::Lb(args) => map_args(args, map),
            UnitExpr::Ls(args) => map_args(args, map),
            UnitExpr::S(args) => map_args(args, map),
            UnitExpr::Sb(args) => map_args(args, map),
            UnitExpr::Breq(args) => map_args(args, map),
            UnitExpr::Breqz(args) => map_args(args, map),
            UnitExpr::Brge(args) => map_args(args, map),
            UnitExpr::Brgez(args) => map_args(args, map),
            UnitExpr::Brgt(args) => map_args(args, map),
            UnitExpr::Brgtz(args) => map_args(args, map),
            UnitExpr::Brle(args) => map_args(args, map),
            UnitExpr::Brlez(args) => map_args(args, map),
            UnitExpr::Brlt(args) => map_args(args, map),
            UnitExpr::Brltz(args) => map_args(args, map),
            UnitExpr::Brne(args) => map_args(args, map),
            UnitExpr::Brnez(args) => map_args(args, map),
            UnitExpr::J(args) => map_args(args, map),
            UnitExpr::Jal(args) => map_args(args, map),
            UnitExpr::Jr(args) => map_args(args, map),
            UnitExpr::SEq(args) => map_args(args, map),
            UnitExpr::Sgt(args) => map_args(args, map),
            UnitExpr::Slt(args) => map_args(args, map),
            UnitExpr::Sne(args) => map_args(args, map),
            UnitExpr::Add(args) => map_args(args, map),
            UnitExpr::Div(args) => map_args(args, map),
            UnitExpr::Mod(args) => map_args(args, map),
            UnitExpr::Mul(args) => map_args(args, map),
            UnitExpr::Sub(args) => map_args(args, map),
            UnitExpr::Trunc(args) => map_args(args, map),
            UnitExpr::Or(args) => map_args(args, map),
            UnitExpr::Peek(args) => map_args(args, map),
            UnitExpr::Pop(args) => map_args(args, map),
            UnitExpr::Push(args) => map_args(args, map),
            UnitExpr::Alias(args) => map_args(args, map),
            UnitExpr::Hcf(args) => map_args(args, map),
            UnitExpr::Move(args) => map_args(args, map),
            UnitExpr::Sleep(args) => map_args(args, map),
            UnitExpr::Yield(args) => map_args(args, map),
            UnitExpr::Empty => {},
            UnitExpr::Dummy => {},
        }
    }

    /// The arguments of the instruction, in order.
    pub fn iter_args(&self) -> (r: &[UnitArg<L>])
        ensures
            r@ == self.args(),
    {
        match self {
            UnitExpr::Bdns(args) => args.as_slice(),
            UnitExpr::Bdnsal(args) => args.as_slice(),
            UnitExpr::Bdse(args) => args.as_slice(),
            UnitExpr::Bdseal(args) => args.as_slice(),
            UnitExpr::Brdns(args) => args.as_slice(),
            UnitExpr::Brdse(args) => args.as_slice(),
            UnitExpr::L(args) => args.as_slice(),
            UnitExpr::Lb(args) => args.as_slice(),
            UnitExpr::Ls(args) => args.as_slice(),
            UnitExpr::S(args) => args.as_slice(),
            UnitExpr::Sb(args) => args.as_slice(),
            UnitExpr::Breq(args) => args.as_slice(),
            UnitExpr::Breqz(args) => args.as_slice(),
            UnitExpr::Brge(args) => args.as_slice(),
            UnitExpr::Brgez(args) => args.as_slice(),
            UnitExpr::Brgt(args) => args.as_slice(),
            UnitExpr::Brgtz(args) => args.as_slice(),
            UnitExpr::Brle(args) => args.as_slice(),
            UnitExpr::Brlez(args) => args.as_slice(),
            UnitExpr::Brlt(args) => args.as_slice(),
            UnitExpr::Brltz(args) => args.as_slice(),
            UnitExpr::Brne(args) => args.as_slice(),
            UnitExpr::Brnez(args) => args.as_slice(),
            UnitExpr::J(args) => args.as_slice(),
            UnitExpr::Jal(args) => args.as_slice(),
            UnitExpr::Jr(args) => args.as_slice(),
            UnitExpr::SEq(args) => args.as_slice(),
            UnitExpr::Sgt(args) => args.as_slice(),
            UnitExpr::Slt(args) => args.as_slice(),
            UnitExpr::Sne(args) => args.as_slice(),
            UnitExpr::Add(args) => args.as_slice(),
            UnitExpr::Div(args) => args.as_slice(),
            UnitExpr::Mod(args) => args.as_slice(),
            UnitExpr::Mul(args) => args.as_slice(),
            UnitExpr::Sub(args) => args.as_slice(),
            UnitExpr::Trunc(args) => args.as_slice(),
            UnitExpr::Or(args) => args.as_slice(),
            UnitExpr::Peek(args) => args.as_slice(),
            UnitExpr::Pop(args) => args.as_slice(),
            UnitExpr::Push(args) => args.as_slice(),
            UnitExpr::Alias(args) => args.as_slice(),
            UnitExpr::Hcf(args) => args.as_slice(),
            UnitExpr::Move(args) => args.as_slice(),
            UnitExpr::Sleep(args) => args.as_slice(),
            UnitExpr::Yield(args) => args.as_slice(),
            UnitExpr::Empty => &[],
            UnitExpr::Dummy => &[],
        }
    }

    /// The arguments of the instruction, to change in place; `None` for an empty or
    /// placeholder unit, which has none.
    pub fn iter_args_mut(&mut self) -> (r: Option<&mut Vec<UnitArg<L>>>)
        ensures
            r is None <==> (*old(self) is Empty || *old(self) is Dummy),
            r matches Some(v) ==> v@ == old(self).args(),
            r matches Some(v) ==> final(self).code() == old(self).code() && final(self).args() == final(v)@,
            r is None ==> *final(self) == *old(self),
    {
        match self {
            UnitExpr::Bdns(args) => Some(args),
            UnitExpr::Bdnsal(args) => Some(args),
            UnitExpr::Bdse(args) => Some(args),
            UnitExpr::Bdseal(args) => Some(args),
            UnitExpr::Brdns(args) => Some(args),
            UnitExpr::Brdse(args) => Some(args),
            UnitExpr::L(args) => Some(args),
            UnitExpr::Lb(args) => Some(args),
            UnitExpr::Ls(args) => Some(args),
            UnitExpr::S(args) => Some(args),
            UnitExpr::Sb(args) => Some(args),
            UnitExpr::Breq(args) => Some(args),
            UnitExpr::Breqz(args) => Some(args),
            UnitExpr::Brge(args) => Some(args),
            UnitExpr::Brgez(args) => Some(args),
            UnitExpr::Brgt(args) => Some(args),
            UnitExpr::Brgtz(args) => Some(args),
            UnitExpr::Brle(args) => Some(args),
            UnitExpr::Brlez(args) => Some(args),
            UnitExpr::Brlt(args) => Some(args),
            UnitExpr::Brltz(args) => Some(args),
            UnitExpr::Brne(args) => Some(args),
            UnitExpr::Brnez(args) => Some(args),
            UnitExpr::J(args) => Some(args),
            UnitExpr::Jal(args) => Some(args),
            UnitExpr::Jr(args) => Some(args),
            UnitExpr::SEq(args) => Some(args),
            UnitExpr::Sgt(args) => Some(args),
            UnitExpr::Slt(args) => Some(args),
            UnitExpr::Sne(args) => Some(args),
            UnitExpr::Add(args) => Some(args),
            UnitExpr::Div(args) => Some(args),
            UnitExpr::Mod(args) => Some(args),
            UnitExpr::Mul(args) => Some(args),
            UnitExpr::Sub(args) => Some(args),
            UnitExpr::Trunc(args) => Some(args),
            UnitExpr::Or(args) => Some(args),
            UnitExpr::Peek(args) => Some(args),
            UnitExpr::Pop(args) => Some(args),
            UnitExpr::Push(args) => Some(args),
            UnitExpr::Alias(args) => Some(args),
            UnitExpr::Hcf(args) => Some(args),
            UnitExpr::Move(args) => Some(args),
            UnitExpr::Sleep(args) => Some(args),
            UnitExpr::Yield(args) => Some(args),
            UnitExpr::Empty => None,
            UnitExpr::Dummy => None,
        }
    }

    /// The last argument of the instruction, if it has one.
    pub fn last(&self) -> (r: Option<&UnitArg<L>>)
        ensures
            r is None <==> self.args().len() == 0,
            r matches Some(a) ==> *a == self.args().last(),
    {
        let args = self.iter_args();
        if args.len() == 0 {
            None
        } else {
            Some(&args[args.len() - 1])
        }
    }

    /// The last argument of the instruction, to change in place, if it has one.
    pub fn last_mut(&mut self) -> (r: Option<&mut UnitArg<L>>)
        ensures
            r is None <==> old(self).args().len() == 0,
            r is None ==> final(self).code() == old(self).code() && final(self).args() == old(self).args(),
            r matches Some(a) ==> *a == old(self).args().last() && final(self).code() == old(self).code()
                && final(self).args() == old(self).args().update(old(self).args().len() - 1, *final(a)),
    {
        match self.iter_args_mut() {
            Some(args) => {
                let n = args.len();
                if n == 0 {
                    None
                } else {
                    Some(&mut args[n - 1])
                }
            },
            None => None,
        }
    }

    /// Whether every variable that renumbering touches is in the map.
    pub fn vars_mapped(&self, map: &HashMap<usize, usize>) -> (b: bool)
        ensures
            b == self.vars_in(map@),
    {
        match self {
            UnitExpr::Bdns(args) => args_mapped(args, map),
            UnitExpr::Bdnsal(args) => args_mapped(args, map),
            UnitExpr::Bdse(args) => args_mapped(args, map),
            UnitExpr::Bdseal(args) => args_mapped(args, map),
            UnitExpr::Brdns(args) => args_mapped(args, map),
            UnitExpr::Brdse(args) => args_mapped(args, map),
            UnitExpr::L(args) => args_mapped(args, map),
            UnitExpr::Lb(args) => args_mapped(args, map),
            UnitExpr::Ls(args) => args_mapped(args, map),
            UnitExpr::S(args) => args_mapped(args, map),
            UnitExpr::Sb(args) => args_mapped(args, map),
            UnitExpr::Breq(args) => args_mapped(args, map),
            UnitExpr::Breqz(args) => args_mapped(args, map),
            UnitExpr::Brge(args) => args_mapped(args, map),
            UnitExpr::Brgez(args) => args_mapped(args, map),
            UnitExpr::Brgt(args) => args_mapped(args, map),
            UnitExpr::Brgtz(args) => args_mapped(args, map),
            UnitExpr::Brle(args) => args_mapped(args, map),
            UnitExpr::Brlez(args) => args_mapped(args, map),
            UnitExpr::Brlt(args) => args_mapped(args, map),
            UnitExpr::Brltz(args) => args_mapped(args, map),
            UnitExpr::Brne(args) => args_mapped(args, map),
            UnitExpr::Brnez(args) => args_mapped(args, map),
            UnitExpr::J(args) => args_mapped(args, map),
            UnitExpr::Jal(args) => args_mapped(args, map),
            UnitExpr::Jr(args) => args_mapped(args, map),
            UnitExpr::SEq(args) => args_mapped(args, map),
            UnitExpr::Sgt(args) => args_mapped(args, map),
            UnitExpr::Slt(args) => args_mapped(args, map),
            UnitExpr::Sne(args) => args_mapped(args, map),
            UnitExpr::Add(args) => args_mapped(args, map),
            UnitExpr::Div(args) => args_mapped(args, map),
            UnitExpr::Mod(args) => args_mapped(args, map),
            UnitExpr::Mul(args) => args_mapped(args, map),
            UnitExpr::Sub(args) => args_mapped(args, map),
            UnitExpr::Trunc(args) => args_mapped(args, map),
            UnitExpr::Or(args) => args_mapped(args, map),
            UnitExpr::Peek(args) => args_mapped(args, map),
            UnitExpr::Pop(args) => args_mapped(args, map),
            UnitExpr::Push(args) => args_mapped(args, map),
            UnitExpr::Alias(args) => args_mapped(args, map),
            UnitExpr::Hcf(args) => args_mapped(args, map),
            UnitExpr::Move(args) => args_mapped(args, map),
            UnitExpr::Sleep(args) => args_mapped(args, map),
            UnitExpr::Yield(args) => args_mapped(args, map),
            UnitExpr::Empty => true,
            UnitExpr::Dummy => true,
        }
    }

    /// Replaces each chain tail index among the arguments by the tail's line.
    pub fn resolve_lines(&mut self, tails: &Vec<i64>) -> (r: MypsLexerResult<()>)
        ensures
            final(self).code() == old(self).code(),
            r is Ok <==> all_resolvable(old(self).args(), tails@),
            r is Ok ==> final(self).args() == old(self).args().map_values(|a: UnitArg<L>| a.resolved(tails@)),
    {
        match self {
            UnitExpr::Bdns(args) => resolve_args(args, tails),
            UnitExpr::Bdnsal(args) => resolve_args(args, tails),
            UnitExpr::Bdse(args) => resolve_args(args, tails),
            UnitExpr::Bdseal(args) => resolve_args(args, tails),
            UnitExpr::Brdns(args) => resolve_args(args, tails),
            UnitExpr::Brdse(args) => resolve_args(args, tails),
            UnitExpr::L(args) => resolve_args(args, tails),
            UnitExpr::Lb(args) => resolve_args(args, tails),
            UnitExpr::Ls(args) => resolve_args(args, tails),
            UnitExpr::S(args) => resolve_args(args, tails),
            UnitExpr::Sb(args) => resolve_args(args, tails),
            UnitExpr::Breq(args) => resolve_args(args, tails),
            UnitExpr::Breqz(args) => resolve_args(args, tails),
            UnitExpr::Brge(args) => resolve_args(args, tails),
            UnitExpr::Brgez(args) => resolve_args(args, tails),
            UnitExpr::Brgt(args) => resolve_args(args, tails),
            UnitExpr::Brgtz(args) => resolve_args(args, tails),
            UnitExpr::Brle(args) => resolve_args(args, tails),
            UnitExpr::Brlez(args) => resolve_args(args, tails),
            UnitExpr::Brlt(args) => resolve_args(args, tails),
            UnitExpr::Brltz(args) => resolve_args(args, tails),
            UnitExpr::Brne(args) => resolve_args(args, tails),
            UnitExpr::Brnez(args) => resolve_args(args, tails),
            UnitExpr::J(args) => resolve_args(args, tails),
            UnitExpr::Jal(args) => resolve_args(args, tails),
            UnitExpr::Jr(args) => resolve_args(args, tails),
            UnitExpr::SEq(args) => resolve_args(args, tails),
            UnitExpr::Sgt(args) => resolve_args(args, tails),
            UnitExpr::Slt(args) => resolve_args(args, tails),
            UnitExpr::Sne(args) => resolve_args(args, tails),
            UnitExpr::Add(args) => resolve_args(args, tails),
            UnitExpr::Div(args) => resolve_args(args, tails),
            UnitExpr::Mod(args) => resolve_args(args, tails),
            UnitExpr::Mul(args) => resolve_args(args, tails),
            UnitExpr::Sub(args) => resolve_args(args, tails),
            UnitExpr::Trunc(args) => resolve_args(args, tails),
            UnitExpr::Or(args) => resolve_args(args, tails),
            UnitExpr::Peek(args) => resolve_args(args, tails),
            UnitExpr::Pop(args) => resolve_args(args, tails),
            UnitExpr::Push(args) => resolve_args(args, tails),
            UnitExpr::Alias(args) => resolve_args(args, tails),
            UnitExpr::Hcf(args) => resolve_args(args, tails),
            UnitExpr::Move(args) => resolve_args(args, tails),
            UnitExpr::Sleep(args) => resolve_args(args, tails),
            UnitExpr::Yield(args) => resolve_args(args, tails),
            UnitExpr::Empty => Ok(()),
            UnitExpr::Dummy => Ok(()),
        }
    }
}

/// Whether every variable of the arguments that renumbering touches is in the map.
fn args_mapped<L: Literal>(args: &Vec<UnitArg<L>>, map: &HashMap<usize, usize>) -> (b: bool)
    ensures
        b == args_vars_in(args@, map@),
{
    let mut i: usize = 0;
    while i < args.len()
        invariant
            i <= args@.len(),
            forall|j: int| 0 <= j < i ==> (#[trigger] args@[j]).vars_in(map@),
        decreases args.len() - i,
    {
        if !args[i].var_mapped(map) {
            return false;
        }
        i = i + 1;
    }
    true
}

/// Every chain tail index among `args` names one of `tails`.
pub open spec fn all_resolvable<L: Literal>(args: Seq<UnitArg<L>>, tails: Seq<i64>) -> bool {
    forall|j: int| 0 <= j < args.len() ==> (#[trigger] args[j]).resolvable(tails)
}

/// Replaces each chain tail index among the arguments by the tail's line.
fn resolve_args<L: Literal>(args: &mut Vec<UnitArg<L>>, tails: &Vec<i64>) -> (r: MypsLexerResult<()>)
    ensures
        r is Ok <==> all_resolvable(old(args)@, tails@),
        r is Ok ==> final(args)@ == old(args)@.map_values(|a: UnitArg<L>| a.resolved(tails@)),
{
    let ghost orig = args@;
    let mut i: usize = 0;
    while i < args.len()
        invariant
            orig == old(args)@,
            args@.len() == orig.len(),
            i <= orig.len(),
            forall|j: int| 0 <= j < i ==> (#[trigger] orig[j]).resolvable(tails@),
            forall|j: int| 0 <= j < i ==> #[trigger] args@[j] == orig[j].resolved(tails@),
            forall|j: int| i <= j < orig.len() ==> #[trigger] args@[j] == orig[j],
        decreases orig.len() - i,
    {
        let r = args[i].resolve(tails);
        if r.is_err() {
            assert(!orig[i as int].resolvable(tails@));
            return r;
        }
        i = i + 1;
    }
    assert(args@ =~= orig.map_values(|a: UnitArg<L>| a.resolved(tails@)));
    Ok(())
}

/// The variable `v` renumbered by `map`, if there is one.
pub open spec fn renumbered(v: Option<usize>, map: VarMap) -> Option<usize> {
    match v {
        Some(x) => Some(map[x]),
        None => None,
    }
}

/// Renumbering by `map` replaces the variable of an argument, wherever it stands (a register,
/// a number, a device, a network or a line), by its image under `map`, and keeps the kind of
/// the argument; an argument that holds no variable is left as it is.
pub proof fn lemma_renumbering_replaces_every_variable<L: Literal>(a: UnitArg<L>, map: VarMap)
    requires
        a.vars_in(map),
    ensures
        a.mapped(map).var_of() == renumbered(a.var_of(), map),
        a.mapped(map).kind() == a.kind(),
        a.var_of() is None ==> a.mapped(map) == a,
{
}

/// Every variable of the arguments that renumbering touches is in the map.
pub open spec fn args_vars_in<L: Literal>(args: Seq<UnitArg<L>>, map: VarMap) -> bool {
    forall|i: int| 0 <= i < args.len() ==> (#[trigger] args[i]).vars_in(map)
}

/// Renumbers the variables of each argument.
fn map_args<L: Literal>(args: &mut Vec<UnitArg<L>>, map: &HashMap<usize, usize>)
    requires
        args_vars_in(old(args)@, map@),
    ensures
        final(args)@ == old(args)@.map_values(|a: UnitArg<L>| a.mapped(map@)),
{
    let ghost orig = args@;
    let mut i: usize = 0;
    while i < args.len()
        invariant
            args@.len() == orig.len(),
            i <= orig.len(),
            forall|j: int| 0 <= j < orig.len() ==> (#[trigger] orig[j]).vars_in(map@),
            forall|j: int| 0 <= j < i ==> #[trigger] args@[j] == orig[j].mapped(map@),
            forall|j: int| i <= j < orig.len() ==> #[trigger] args@[j] == orig[j],
        decreases orig.len() - i,
    {
        args[i].map_var(map);
        i = i + 1;
    }
    assert(args@ =~= orig.map_values(|a: UnitArg<L>| a.mapped(map@)));
}


/// A line of IC10 code: an instruction and the comment of the MYPS line it came from.
#[derive(Debug)]
pub struct Unit<L> {
    pub unit_expr: UnitExpr<L>,
    pub comment: Option<String>,
}

impl<L: Literal> Unit<L> {
    pub fn new(unit_expr: UnitExpr<L>, comment: Option<String>) -> (u: Self)
        ensures
            u.unit_expr == unit_expr,
            u.comment == comment,
    {
        Self { unit_expr, comment }
    }

    /// The arguments of the unit's instruction, in order.
    pub fn iter_args(&self) -> (r: &[UnitArg<L>])
        ensures
            r@ == self.unit_expr.args(),
    {
        self.unit_expr.iter_args()
    }

    /// The arguments of the unit's instruction, to change in place; `None` for an empty or
    /// placeholder unit.
    pub fn iter_args_mut(&mut self) -> (r: Option<&mut Vec<UnitArg<L>>>)
        ensures
            r is None <==> (old(self).unit_expr is Empty || old(self).unit_expr is Dummy),
            r matches Some(v) ==> v@ == old(self).unit_expr.args(),
            r matches Some(v) ==> final(self).unit_expr.code() == old(self).unit_expr.code()
                && final(self).unit_expr.args() == final(v)@ && final(self).comment == old(self).comment,
            r is None ==> *final(self) == *old(self),
    {
        self.unit_expr.iter_args_mut()
    }

    pub fn is_logical(&self) -> (b: bool)
        ensures
            b <==> self.unit_expr is Or,
    {
        self.unit_expr.is_logical()
    }

    pub fn is_select(&self) -> (b: bool)
        ensures
            b <==> (self.unit_expr is SEq || self.unit_expr is Slt || self.unit_expr is Sgt
                || self.unit_expr is Sne),
    {
        self.unit_expr.is_select()
    }

    pub fn is_logical_or_select(&self) -> (b: bool)
        ensures
            b <==> (self.unit_expr is Or || self.unit_expr is SEq || self.unit_expr is Slt
                || self.unit_expr is Sgt || self.unit_expr is Sne),
    {
        self.unit_expr.is_logical_or_select()
    }

    /// Renumbers the variables of the instruction; the comment stays.
    pub fn map_vars(&mut self, map: &HashMap<usize, usize>)
        requires
            old(self).unit_expr.vars_in(map@),
        ensures
            final(self).unit_expr.code() == old(self).unit_expr.code(),
            final(self).unit_expr.args() == old(self).unit_expr.args().map_values(
                |a: UnitArg<L>| a.mapped(map@),
            ),
            forall|j: int| 0 <= j < old(self).unit_expr.args().len() ==> (#[trigger] final(self).unit_expr.args()[j]).var_of()
                == renumbered(old(self).unit_expr.args()[j].var_of(), map@) && final(self).unit_expr.args()[j].kind()
                == old(self).unit_expr.args()[j].kind(),
            final(self).comment == old(self).comment,
    {
        self.unit_expr.map_vars(map);
    }
}

/// The key of an alias: a variable or a name.
#[derive(Clone, PartialEq, Eq, Hash, Debug)]
pub enum UnitAliasKey {
    Var(UnitVar),
    String(String),
}

/// What an alias stands for.
#[derive(Clone, Copy, PartialEq, Debug)]
pub enum UnitAlias<L> {
    Var(UnitVar),
    Num(UnitNum<L>),
    Dev(UnitDev),
    Net(UnitDevNet<L>),
}

impl<L: Literal> UnitAlias<L> {
    pub fn try_as_var(&self) -> (r: Option<UnitVar>)
        ensures
            r == (match *self {
                UnitAlias::Var(v) => Some(v),
                _ => None,
            }),
    {
        match self {
            UnitAlias::Var(uv) => Some(*uv),
            _ => None,
        }
    }
}

/// What the translated code shows.
#[derive(Clone, Copy, PartialEq, Eq, Debug, Structural)]
pub struct TranslatorConf {
    /// Display lines that are entirely empty
    pub show_empty: bool,
    /// Display comments on lines
    pub show_comments: bool,
    /// Display lines that have no statement, but have comments
    pub show_empty_comments: bool,
}

impl TranslatorConf {
    pub fn show_empty(self) -> (c: Self)
        ensures
            c == (TranslatorConf { show_empty: true, ..self }),
    {
        let mut c = self;
        c.show_empty = true;
        c
    }

    pub fn show_comments(self) -> (c: Self)
        ensures
            c == (TranslatorConf { show_comments: true, ..self }),
    {
        let mut c = self;
        c.show_comments = true;
        c
    }

    pub fn show_empty_comments(self) -> (c: Self)
        ensures
            c == (TranslatorConf { show_empty_comments: true, ..self }),
    {
        let mut c = self;
        c.show_empty_comments = true;
        c
    }
}

impl Default for TranslatorConf {
    fn default() -> (c: Self)
        ensures
            c == (TranslatorConf { show_empty: false, show_comments: false, show_empty_comments: false }),
    {
        Self { show_empty: false, show_comments: false, show_empty_comments: false }
    }
}

/// The number of the instruction named `name` (see `UnitExpr::code`), or -1.
pub open spec fn name_code(name: Seq<char>) -> int {
    if name == "bdns"@ {
        0
    } else if name == "bdnsal"@ {
        1
    } else if name == "bdse"@ {
        2
    } else if name == "bdseal"@ {
        3
    } else if name == "brdns"@ {
        4
    } else if name == "brdse"@ {
        5
    } else if name == "l"@ {
        6
    } else if name == "lb"@ {
        7
    } else if name == "ls"@ {
        8
    } else if name == "s"@ {
        9
    } else if name == "sb"@ {
        10
    } else if name == "breq"@ {
        11
    } else if name == "breqz"@ {
        12
    } else if name == "brge"@ {
        13
    } else if name == "brgez"@ {
        14
    } else if name == "brgt"@ {
        15
    } else if name == "brgtz"@ {
        16
    } else if name == "brle"@ {
        17
    } else if name == "brlez"@ {
        18
    } else if name == "brlt"@ {
        19
    } else if name == "brltz"@ {
        20
    } else if name == "brne"@ {
        21
    } else if name == "brnez"@ {
        22
    } else if name == "j"@ {
        23
    } else if name == "jal"@ {
        24
    } else if name == "jr"@ {
        25
    } else if name == "seq"@ {
        26
    } else if name == "sgt"@ {
        27
    } else if name == "slt"@ {
        28
    } else if name == "sne"@ {
        29
    } else if name == "add"@ {
        30
    } else if name == "div"@ {
        31
    } else if name == "mod"@ {
        32
    } else if name == "mul"@ {
        33
    } else if name == "sub"@ {
        34
    } else if name == "trunc"@ {
        35
    } else if name == "or"@ {
        36
    } else if name == "peek"@ {
        37
    } else if name == "pop"@ {
        38
    } else if name == "push"@ {
        39
    } else if name == "alias"@ {
        40
    } else if name == "hcf"@ {
        41
    } else if name == "move"@ {
        42
    } else if name == "sleep"@ {
        43
    } else if name == "yield"@ {
        44
    } else if name == "empty"@ {
        45
    } else if name == "dummy"@ {
        46
    } else {
        -1
    }
}

/// An instruction whose number is the one that a name gives is the instruction of that name.
pub proof fn lemma_instruction_is_the_one_named<L: Literal>(e: UnitExpr<L>, name: Seq<char>)
    requires
        e.code() == name_code(name),
    ensures
        e.mnemonic() == name,
{
}

/// The number of arguments that an instruction's number asks for is the number of its
/// operands.
pub proof fn lemma_arity_is_operand_count<L: Literal>(e: UnitExpr<L>)
    ensures
        code_arity(e.code()) == e.operand_count(),
{
}

/// The number of arguments of the instruction of number `code`.
pub open spec fn code_arity(code: int) -> int {
    if code == 0 {
        2
    } else if code == 1 {
        2
    } else if code == 2 {
        2
    } else if code == 3 {
        2
    } else if code == 4 {
        2
    } else if code == 5 {
        2
    } else if code == 6 {
        3
    } else if code == 7 {
        4
    } else if code == 8 {
        4
    } else if code == 9 {
        3
    } else if code == 10 {
        3
    } else if code == 11 {
        3
    } else if code == 12 {
        2
    } else if code == 13 {
        3
    } else if code == 14 {
        2
    } else if code == 15 {
        3
    } else if code == 16 {
        2
    } else if code == 17 {
        3
    } else if code == 18 {
        2
    } else if code == 19 {
        3
    } else if code == 20 {
        2
    } else if code == 21 {
        3
    } else if code == 22 {
        2
    } else if code == 23 {
        1
    } else if code == 24 {
        1
    } else if code == 25 {
        1
    } else if code == 26 {
        3
    } else if code == 27 {
        3
    } else if code == 28 {
        3
    } else if code == 29 {
        3
    } else if code == 30 {
        3
    } else if code == 31 {
        3
    } else if code == 32 {
        3
    } else if code == 33 {
        3
    } else if code == 34 {
        3
    } else if code == 35 {
        2
    } else if code == 36 {
        3
    } else if code == 37 {
        1
    } else if code == 38 {
        1
    } else if code == 39 {
        1
    } else if code == 40 {
        2
    } else if code == 41 {
        0
    } else if code == 42 {
        2
    } else if code == 43 {
        1
    } else if code == 44 {
        0
    } else {
        0
    }
}

/// Whether `a` reads `b`.
fn text_is(a: &String, b: &str) -> (r: bool)
    ensures
        r == (a@ == b@),
{
    let t = b.to_owned();
    *a == t
}

/// The number of the instruction named `name`, or -1.
fn code_of_name(name: &String) -> (c: i64)
    ensures
        c == name_code(name@),
{
    if text_is(name, "bdns") {
        0
    } else if text_is(name, "bdnsal") {
        1
    } else if text_is(name, "bdse") {
        2
    } else if text_is(name, "bdseal") {
        3
    } else if text_is(name, "brdns") {
        4
    } else if text_is(name, "brdse") {
        5
    } else if text_is(name, "l") {
        6
    } else if text_is(name, "lb") {
        7
    } else if text_is(name, "ls") {
        8
    } else if text_is(name, "s") {
        9
    } else if text_is(name, "sb") {
        10
    } else if text_is(name, "breq") {
        11
    } else if text_is(name, "breqz") {
        12
    } else if text_is(name, "brge") {
        13
    } else if text_is(name, "brgez") {
        14
    } else if text_is(name, "brgt") {
        15
    } else if text_is(name, "brgtz") {
        16
    } else if text_is(name, "brle") {
        17
    } else if text_is(name, "brlez") {
        18
    } else if text_is(name, "brlt") {
        19
    } else if text_is(name, "brltz") {
        20
    } else if text_is(name, "brne") {
        21
    } else if text_is(name, "brnez") {
        22
    } else if text_is(name, "j") {
        23
    } else if text_is(name, "jal") {
        24
    } else if text_is(name, "jr") {
        25
    } else if text_is(name, "seq") {
        26
    } else if text_is(name, "sgt") {
        27
    } else if text_is(name, "slt") {
        28
    } else if text_is(name, "sne") {
        29
    } else if text_is(name, "add") {
        30
    } else if text_is(name, "div") {
        31
    } else if text_is(name, "mod") {
        32
    } else if text_is(name, "mul") {
        33
    } else if text_is(name, "sub") {
        34
    } else if text_is(name, "trunc") {
        35
    } else if text_is(name, "or") {
        36
    } else if text_is(name, "peek") {
        37
    } else if text_is(name, "pop") {
        38
    } else if text_is(name, "push") {
        39
    } else if text_is(name, "alias") {
        40
    } else if text_is(name, "hcf") {
        41
    } else if text_is(name, "move") {
        42
    } else if text_is(name, "sleep") {
        43
    } else if text_is(name, "yield") {
        44
    } else if text_is(name, "empty") {
        45
    } else if text_is(name, "dummy") {
        46
    } else {
        -1
    }
}

/// The number of arguments of the instruction of number `code`.
fn arity_of_code(code: i64) -> (n: usize)
    ensures
        n == code_arity(code as int),
{
    if code == 0 {
        2
    } else if code == 1 {
        2
    } else if code == 2 {
        2
    } else if code == 3 {
        2
    } else if code == 4 {
        2
    } else if code == 5 {
        2
    } else if code == 6 {
        3
    } else if code == 7 {
        4
    } else if code == 8 {
        4
    } else if code == 9 {
        3
    } else if code == 10 {
        3
    } else if code == 11 {
        3
    } else if code == 12 {
        2
    } else if code == 13 {
        3
    } else if code == 14 {
        2
    } else if code == 15 {
        3
    } else if code == 16 {
        2
    } else if code == 17 {
        3
    } else if code == 18 {
        2
    } else if code == 19 {
        3
    } else if code == 20 {
        2
    } else if code == 21 {
        3
    } else if code == 22 {
        2
    } else if code == 23 {
        1
    } else if code == 24 {
        1
    } else if code == 25 {
        1
    } else if code == 26 {
        3
    } else if code == 27 {
        3
    } else if code == 28 {
        3
    } else if code == 29 {
        3
    } else if code == 30 {
        3
    } else if code == 31 {
        3
    } else if code == 32 {
        3
    } else if code == 33 {
        3
    } else if code == 34 {
        3
    } else if code == 35 {
        2
    } else if code == 36 {
        3
    } else if code == 37 {
        1
    } else if code == 38 {
        1
    } else if code == 39 {
        1
    } else if code == 40 {
        2
    } else if code == 41 {
        0
    } else if code == 42 {
        2
    } else if code == 43 {
        1
    } else if code == 44 {
        0
    } else {
        0
    }
}

impl<L: Literal> UnitExpr<L> {
    /// The instruction of number `code` (below 45) with `args`.
    fn with_code(code: i64, args: Vec<UnitArg<L>>) -> (e: Self)
        requires
            0 <= code < 45,
        ensures
            e.code() == code,
            e.args() == args@,
    {
        if code == 0 {
            UnitExpr::Bdns(args)
        } else if code == 1 {
            UnitExpr::Bdnsal(args)
        } else if code == 2 {
            UnitExpr::Bdse(args)
        } else if code == 3 {
            UnitExpr::Bdseal(args)
        } else if code == 4 {
            UnitExpr::Brdns(args)
        } else if code == 5 {
            UnitExpr::Brdse(args)
        } else if code == 6 {
            UnitExpr::L(args)
        } else if code == 7 {
            UnitExpr::Lb(args)
        } else if code == 8 {
            UnitExpr::Ls(args)
        } else if code == 9 {
            UnitExpr::S(args)
        } else if code == 10 {
            UnitExpr::Sb(args)
        } else if code == 11 {
            UnitExpr::Breq(args)
        } else if code == 12 {
            UnitExpr::Breqz(args)
        } else if code == 13 {
            UnitExpr::Brge(args)
        } else if code == 14 {
            UnitExpr::Brgez(args)
        } else if code == 15 {
            UnitExpr::Brgt(args)
        } else if code == 16 {
            UnitExpr::Brgtz(args)
        } else if code == 17 {
            UnitExpr::Brle(args)
        } else if code == 18 {
            UnitExpr::Brlez(args)
        } else if code == 19 {
            UnitExpr::Brlt(args)
        } else if code == 20 {
            UnitExpr::Brltz(args)
        } else if code == 21 {
            UnitExpr::Brne(args)
        } else if code == 22 {
            UnitExpr::Brnez(args)
        } else if code == 23 {
            UnitExpr::J(args)
        } else if code == 24 {
            UnitExpr::Jal(args)
        } else if code == 25 {
            UnitExpr::Jr(args)
        } else if code == 26 {
            UnitExpr::SEq(args)
        } else if code == 27 {
            UnitExpr::Sgt(args)
        } else if code == 28 {
            UnitExpr::Slt(args)
        } else if code == 29 {
            UnitExpr::Sne(args)
        } else if code == 30 {
            UnitExpr::Add(args)
        } else if code == 31 {
            UnitExpr::Div(args)
        } else if code == 32 {
            UnitExpr::Mod(args)
        } else if code == 33 {
            UnitExpr::Mul(args)
        } else if code == 34 {
            UnitExpr::Sub(args)
        } else if code == 35 {
            UnitExpr::Trunc(args)
        } else if code == 36 {
            UnitExpr::Or(args)
        } else if code == 37 {
            UnitExpr::Peek(args)
        } else if code == 38 {
            UnitExpr::Pop(args)
        } else if code == 39 {
            UnitExpr::Push(args)
        } else if code == 40 {
            UnitExpr::Alias(args)
        } else if code == 41 {
            UnitExpr::Hcf(args)
        } else if code == 42 {
            UnitExpr::Move(args)
        } else if code == 43 {
            UnitExpr::Sleep(args)
        } else if code == 44 {
            UnitExpr::Yield(args)
        } else {
            UnitExpr::Yield(args)
        }
    }

    /// The instruction named `name`, with `args`: `empty` and `dummy` take no arguments
    /// and any they are given are dropped; any other instruction needs its number of
    /// arguments.
    pub fn try_from_pair(name: String, args: Vec<UnitArg<L>>) -> (r: MypsLexerResult<Self>)
        ensures
            name_code(name@) == -1 ==> (r matches Err(MypsLexerError::UndefinedFunction(s)) && s@ == name@),
            name_code(name@) == 45 ==> (r matches Ok(e) && e is Empty),
            name_code(name@) == 46 ==> (r matches Ok(e) && e is Dummy),
            0 <= name_code(name@) < 45 && args@.len() == code_arity(name_code(name@)) ==> (r matches Ok(e)
                && e.code() == name_code(name@) && e.args() == args@),
            0 <= name_code(name@) < 45 && args@.len() != code_arity(name_code(name@)) ==> (r matches Err(
                MypsLexerError::WrongNumArgs(k, x, f)) && k@ == name@ && x == code_arity(name_code(name@))
                && f == args@.len()),
            r matches Ok(e) ==> e.mnemonic() == name@,
            r matches Ok(e) ==> e.args().len() == e.operand_count(),
    {
        proof {
            if 0 <= name_code(name@) {
                assert(name_code(name@) <= 46);
            }
        }
        let code = code_of_name(&name);
        if code == -1 {
            Err(MypsLexerError::undefined_function(&name))
        } else if code == 45 {
            Ok(UnitExpr::Empty)
        } else if code == 46 {
            Ok(UnitExpr::Dummy)
        } else {
            let n_args = arity_of_code(code);
            if args.len() != n_args {
                return Err(MypsLexerError::wrong_num_args(name.as_str(), n_args, args.len()));
            }
            Ok(Self::with_code(code, args))
        }
    }
}

} // verus!
