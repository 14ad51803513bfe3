//! IC10 MIPS registers: their syntax and the errors of reading their values.
//!
//! A memory register is `r` and a number (`r0`), read through as many more `r`s as it has
//! (`rr0` is the register whose number `r0` holds); a device register is `d` and a number
//! (`d0`), or `d` and a memory register (`dr0`); any other name is an alias.
use vstd::prelude::*;

verus! {

/// A register.
#[derive(PartialEq, Debug)]
pub enum Register {
    Memory(Box<Register>),
    Device(Box<Register>),
    Alias(String),
}

/// Why a register's value cannot be had.
#[derive(PartialEq, Debug)]
pub enum StateError {
    /// The register is of a kind that holds no value.
    InvalidRegister(Register),
    /// No memory register has that alias.
    InvalidAlias(String),
    /// A memory index past the last register.
    InvalidMemoryIndex(usize),
}

/// A register as a mathematical value.
pub enum RegisterView {
    Memory(Box<RegisterView>),
    Device(Box<RegisterView>),
    Alias(Seq<char>),
}

impl Register {
    pub open spec fn view_reg(&self) -> RegisterView
        decreases self,
    {
        match self {
            Register::Memory(r) => RegisterView::Memory(Box::new(r.view_reg())),
            Register::Device(r) => RegisterView::Device(Box::new(r.view_reg())),
            Register::Alias(s) => RegisterView::Alias(s@),
        }
    }

    /// The name of the register's kind.
    pub fn kind_name(&self) -> (s: String)
        ensures
            s@ == match self {
                Register::Memory(_) => "Memory"@,
                Register::Device(_) => "Device"@,
                Register::Alias(_) => "Alias"@,
            },
    {
        match self {
            Register::Memory(_) => "Memory".to_owned(),
            Register::Device(_) => "Device".to_owned(),
            Register::Alias(_) => "Alias".to_owned(),
        }
    }

    /// The register written `text`, if it is one.
    pub fn new(text: &str) -> (r: Option<Register>)
        ensures
            match (r, spec_register(text@)) {
                (Some(x), Some(v)) => x.view_reg() == v,
                (None, None) => true,
                _ => false,
            },
    {
        MipsParser::register(text)
    }
}

/// The characters of a number.
pub open spec fn all_digits(s: Seq<char>) -> bool {
    s.len() > 0 && forall|i: int| 0 <= i < s.len() ==> '0' <= #[trigger] s[i] <= '9'
}

/// A name: a letter or `_`, then letters, digits and `_`.
pub open spec fn is_name(s: Seq<char>) -> bool {
    &&& s.len() > 0
    &&& (('a' <= s[0] <= 'z') || ('A' <= s[0] <= 'Z') || s[0] == '_')
    &&& forall|i: int| 1 <= i < s.len() ==> name_char(#[trigger] s[i])
}

pub open spec fn name_char(c: char) -> bool {
    ('a' <= c <= 'z') || ('A' <= c <= 'Z') || ('0' <= c <= '9') || c == '_'
}

/// A memory register: `r` and a number, or `r` and a memory register read through.
pub open spec fn spec_mem(s: Seq<char>) -> Option<RegisterView>
    decreases s.len(),
{
    if s.len() >= 2 && s[0] == 'r' {
        if all_digits(s.skip(1)) {
            Some(RegisterView::Memory(Box::new(RegisterView::Alias(s))))
        } else if s[1] == 'r' {
            match spec_mem(s.skip(1)) {
                Some(m) => Some(RegisterView::Memory(Box::new(m))),
                None => None,
            }
        } else {
            None
        }
    } else {
        None
    }
}

/// A device register: `d` and a number, or `d` and a memory register.
pub open spec fn spec_dev(s: Seq<char>) -> Option<RegisterView> {
    if s.len() >= 2 && s[0] == 'd' {
        if all_digits(s.skip(1)) {
            Some(RegisterView::Device(Box::new(RegisterView::Alias(s))))
        } else {
            match spec_mem(s.skip(1)) {
                Some(m) => Some(RegisterView::Device(Box::new(m))),
                None => None,
            }
        }
    } else {
        None
    }
}

/// The register written `s`: a memory register, else a device register, else an alias.
pub open spec fn spec_register(s: Seq<char>) -> Option<RegisterView> {
    if spec_mem(s) is Some {
        spec_mem(s)
    } else if spec_dev(s) is Some {
        spec_dev(s)
    } else if is_name(s) {
        Some(RegisterView::Alias(s))
    } else {
        None
    }
}

/// The parser of IC10 MIPS registers.
pub struct MipsParser;

fn digits_from(s: &Vec<char>, from: usize) -> (b: bool)
    requires
        from <= s@.len(),
    ensures
        b == all_digits(s@.skip(from as int)),
{
    if from >= s.len() {
        return false;
    }
    let mut i = from;
    while i < s.len()
        invariant
            from <= i <= s@.len(),
            from < s@.len(),
            forall|j: int| from <= j < i ==> '0' <= #[trigger] s@[j] <= '9',
        decreases s.len() - i,
    {
        if !('0' <= s[i] && s[i] <= '9') {
            assert(s@.skip(from as int)[i - from] == s@[i as int]);
            return false;
        }
        i = i + 1;
    }
    assert forall|j: int| 0 <= j < s@.skip(from as int).len() implies '0' <= #[trigger] s@.skip(from as int)[j] <= '9' by {
        assert(s@.skip(from as int)[j] == s@[from + j]);
    }
    true
}

fn text_of(text: &str, from: usize) -> (t: String)
    requires
        from <= text@.len(),
    ensures
        t@ == text@.skip(from as int),
{
    let n = text.unicode_len();
    text.substring_char(from, n).to_owned()
}

impl MipsParser {
    fn mem_from(text: &str, s: &Vec<char>, from: usize) -> (r: Option<Register>)
        requires
            from <= s@.len(),
            s@ == text@,
        ensures
            match (r, spec_mem(s@.skip(from as int))) {
                (Some(x), Some(v)) => x.view_reg() == v,
                (None, None) => true,
                _ => false,
            },
        decreases s@.len() - from,
    {
        let ghost t = s@.skip(from as int);
        if s.len() - from >= 2 && s[from] == 'r' {
            assert(t[0] == s@[from as int]);
            assert(t[1] == s@[from + 1]);
            assert(t.skip(1) == s@.skip(from + 1));
            if digits_from(s, from + 1) {
                let name = text_of(text, from);
                let a = Register::Alias(name);
                assert(a.view_reg() == RegisterView::Alias(t));
                Some(Register::Memory(Box::new(a)))
            } else if s[from + 1] == 'r' {
                match Self::mem_from(text, s, from + 1) {
                    Some(m) => Some(Register::Memory(Box::new(m))),
                    None => None,
                }
            } else {
                None
            }
        } else {
            proof {
                if s@.len() >= from + 2 {
                    assert(t[0] == s@[from as int]);
                }
            }
            None
        }
    }

    fn dev_from(text: &str, s: &Vec<char>) -> (r: Option<Register>)
        requires
            s@ == text@,
        ensures
            match (r, spec_dev(s@)) {
                (Some(x), Some(v)) => x.view_reg() == v,
                (None, None) => true,
                _ => false,
            },
    {
        if s.len() >= 2 && s[0] == 'd' {
            if digits_from(s, 1) {
                let name = text_of(text, 0);
                assert(s@.skip(0) == s@);
                let a = Register::Alias(name);
                assert(a.view_reg() == RegisterView::Alias(s@));
                Some(Register::Device(Box::new(a)))
            } else {
                match Self::mem_from(text, s, 1) {
                    Some(m) => Some(Register::Device(Box::new(m))),
                    None => None,
                }
            }
        } else {
            None
        }
    }

    fn name_of(s: &Vec<char>) -> (b: bool)
        ensures
            b == is_name(s@),
    {
        if s.len() == 0 {
            return false;
        }
        let c = s[0];
        if !(('a' <= c && c <= 'z') || ('A' <= c && c <= 'Z') || c == '_') {
            return false;
        }
        let mut i: usize = 1;
        while i < s.len()
            invariant
                1 <= i <= s@.len(),
                forall|j: int| 1 <= j < i ==> name_char(#[trigger] s@[j]),
            decreases s.len() - i,
        {
            let c = s[i];
            if !(('a' <= c && c <= 'z') || ('A' <= c && c <= 'Z') || ('0' <= c && c <= '9') || c == '_') {
                return false;
            }
            i = i + 1;
        }
        true
    }

    /// The register written `text`, if it is one.
    pub fn register(text: &str) -> (r: Option<Register>)
        ensures
            match (r, spec_register(text@)) {
                (Some(x), Some(v)) => x.view_reg() == v,
                (None, None) => true,
                _ => false,
            },
    {
        let mut s: Vec<char> = Vec::new();
        for c in it: text.chars()
            invariant
                s@ == it.seq().take(it.index()),
        {
            s.push(c);
        }
        assert(s@ == text@);
        assert(s@.skip(0) == s@);
        let m = Self::mem_from(text, &s, 0);
        if m.is_some() {
            return m;
        }
        let d = Self::dev_from(text, &s);
        if d.is_some() {
            return d;
        }
        if Self::name_of(&s) {
            let name = text_of(text, 0);
            Some(Register::Alias(name))
        } else {
            None
        }
    }
}

} // verus!
