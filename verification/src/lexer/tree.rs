//! Parse trees of MYPS programs, as the lexer reads them.
//!
//! A node holds the rule that matched, the text it matched and its inner nodes. Number
//! literals also hold their value, read from the text by whoever built the tree: the values
//! are of the caller's literal type.
use vstd::prelude::*;

use super::error::{AstError, MypsLexerError, MypsLexerResult};

verus! {

/// The rules of the MYPS program grammar whose nodes the lexer reads.
#[allow(non_camel_case_types)]
#[derive(Clone, Copy, PartialEq, Eq, Debug, Structural)]
pub enum Rule {
    EOI,
    program,
    line,
    indent,
    item,
    comment,
    empty,
    // Blocks
    branch,
    b_loop,
    b_if,
    b_elif,
    b_else,
    b_while,
    b_for,
    b_def,
    // Statements
    stmt,
    stmt_assign_value,
    stmt_assign_self,
    stmt_func_nullary,
    stmt_func_unary,
    stmt_func_user,
    // L-values
    lv,
    lv_param,
    var_fix,
    var,
    // R-values
    rv,
    rv_net_param,
    rv_dev_param,
    rv_dev_slot,
    param,
    rv_func,
    rv_func_nullary,
    rv_func_unary,
    rv_func_binary,
    f_peek,
    f_pop,
    f_abs,
    f_acos,
    f_asin,
    f_atan,
    f_ceil,
    f_cos,
    f_exp,
    f_floor,
    f_ln,
    f_rand,
    f_round,
    f_sin,
    f_sqrt,
    f_tan,
    f_trunc,
    f_max,
    f_min,
    // Expressions
    expr_unary,
    expr_binary,
    expr_ternary,
    op_inv,
    op_not,
    op_or,
    op_xor,
    op_and,
    op_eq,
    op_ge,
    op_gt,
    op_le,
    op_lt,
    op_ne,
    op_add,
    op_sub,
    op_rem,
    op_div,
    op_mul,
    // Devices and numbers
    dev_lit,
    dev_self,
    dev_base,
    dev_net,
    integer,
    int_lit,
    num,
    num_lit,
    batch_avg,
    batch_sum,
    batch_min,
    batch_max,
}

/// A node of a parse tree.
#[derive(Debug)]
pub struct PairTree<L> {
    pub rule: Rule,
    /// The text the node matched.
    pub text: String,
    /// For a number literal (`num_lit`, `int_lit`), its value.
    pub value: Option<L>,
    pub inner: Vec<PairTree<L>>,
}

impl<L> PairTree<L> {
    pub fn as_rule(&self) -> (r: Rule)
        ensures
            r == self.rule,
    {
        self.rule
    }

    /// The one inner node.
    pub fn only_inner(&self) -> (r: MypsLexerResult<&PairTree<L>>)
        ensures
            self.inner@.len() == 1 <==> r is Ok,
            r matches Ok(c) ==> *c == self.inner@[0],
            self.inner@.len() == 0 ==> r matches Err(MypsLexerError::AstError(AstError::InsufficientPairs)),
            self.inner@.len() > 1 ==> r matches Err(MypsLexerError::AstError(AstError::ExcessPairs)),
    {
        if self.inner.len() == 0 {
            Err(MypsLexerError::AstError(AstError::InsufficientPairs))
        } else if self.inner.len() > 1 {
            Err(MypsLexerError::AstError(AstError::ExcessPairs))
        } else {
            Ok(&self.inner[0])
        }
    }

    /// The inner node at `i`.
    pub fn nth_inner(&self, i: usize) -> (r: MypsLexerResult<&PairTree<L>>)
        ensures
            i < self.inner@.len() <==> r is Ok,
            r matches Ok(c) ==> *c == self.inner@[i as int],
            r is Err ==> r matches Err(MypsLexerError::AstError(AstError::InsufficientPairs)),
    {
        if i < self.inner.len() {
            Ok(&self.inner[i])
        } else {
            Err(MypsLexerError::AstError(AstError::InsufficientPairs))
        }
    }

    /// The inner node at `i`, which must be the last.
    pub fn final_inner(&self, i: usize) -> (r: MypsLexerResult<&PairTree<L>>)
        ensures
            i + 1 == self.inner@.len() <==> r is Ok,
            r matches Ok(c) ==> *c == self.inner@[i as int],
            i >= self.inner@.len() ==> r matches Err(MypsLexerError::AstError(AstError::InsufficientPairs)),
            i + 1 < self.inner@.len() ==> r matches Err(MypsLexerError::AstError(AstError::ExcessPairs)),
    {
        if i >= self.inner.len() {
            Err(MypsLexerError::AstError(AstError::InsufficientPairs))
        } else if i + 1 < self.inner.len() {
            Err(MypsLexerError::AstError(AstError::ExcessPairs))
        } else {
            Ok(&self.inner[i])
        }
    }
}

// ------------------------------------------------------------------------------------------
// Integer literals
// ------------------------------------------------------------------------------------------

pub open spec fn is_digit(c: char) -> bool {
    '0' <= c <= '9'
}

/// The value of a string of decimal digits.
pub open spec fn digits_value(s: Seq<char>) -> int
    decreases s.len(),
{
    if s.len() == 0 {
        0
    } else {
        digits_value(s.drop_last()) * 10 + (s.last() as int - '0' as int)
    }
}

/// A non-empty string of decimal digits.
pub open spec fn all_digits(d: Seq<char>) -> bool {
    d.len() > 0 && forall|k: int| 0 <= k < d.len() ==> is_digit(#[trigger] d[k])
}

/// The length of the sign that starts `s`: one for `-` or `+`, else none.
pub open spec fn sign_len(s: Seq<char>) -> int {
    if s.len() > 0 && (s[0] == '-' || s[0] == '+') {
        1
    } else {
        0
    }
}

/// The integer that `s` writes: an optional sign, then one or more decimal digits.
pub open spec fn int_text(s: Seq<char>) -> Option<int> {
    let d = s.subrange(sign_len(s), s.len() as int);
    if all_digits(d) {
        Some(if s.len() > 0 && s[0] == '-' { -digits_value(d) } else { digits_value(d) })
    } else {
        None
    }
}

/// The `i64` that `s` writes, if it writes an integer and that integer fits.
pub open spec fn i64_text(s: Seq<char>) -> Option<i64> {
    match int_text(s) {
        Some(x) => if i64::MIN <= x <= i64::MAX {
            Some(x as i64)
        } else {
            None
        },
        None => None,
    }
}

proof fn lemma_digits_value_nonneg(s: Seq<char>)
    requires
        forall|k: int| 0 <= k < s.len() ==> is_digit(#[trigger] s[k]),
    ensures
        digits_value(s) >= 0,
    decreases s.len(),
{
    if s.len() > 0 {
        lemma_digits_value_nonneg(s.drop_last());
    }
}

/// Reads an `i64` from its decimal text, as `str::parse` does.
pub fn parse_i64(text: &String) -> (r: MypsLexerResult<i64>)
    ensures
        r is Ok <==> i64_text(text@) is Some,
        r matches Ok(x) ==> i64_text(text@) == Some(x),
        r matches Err(e) ==> (e matches MypsLexerError::ParseInt(t) && t@ == text@),
{
    let s = text.as_str();
    let n = s.unicode_len();
    let ghost t = text@;
    let mut start: usize = 0;
    let mut neg = false;
    if n > 0 {
        let c = s.get_char(0);
        if c == '-' {
            neg = true;
            start = 1;
        } else if c == '+' {
            start = 1;
        }
    }
    assert(start == sign_len(t));
    assert(neg == (t.len() > 0 && t[0] == '-'));
    let ghost d = t.subrange(start as int, n as int);
    if start >= n {
        return Err(MypsLexerError::ParseInt(text.clone()));
    }
    // The magnitude, while it stays at most 2^63.
    let limit: u64 = 9223372036854775808;
    let mut m: u64 = 0;
    let mut i: usize = start;
    while i < n
        invariant
            t == text@,
            n == t.len(),
            s@ == t,
            start <= i <= n,
            start < n,
            d == t.subrange(start as int, n as int),
            forall|k: int| start <= k < i ==> is_digit(#[trigger] t[k]),
            m == digits_value(t.subrange(start as int, i as int)),
            m <= limit,
            limit == 9223372036854775808u64,
            neg == (t.len() > 0 && t[0] == '-'),
            start == sign_len(t),
        decreases n - i,
    {
        let c = s.get_char(i);
        if !('0' <= c && c <= '9') {
            proof {
                assert(!is_digit(d[i - start]));
            }
            return Err(MypsLexerError::ParseInt(text.clone()));
        }
        let digit: u64 = (c as u64) - ('0' as u64);
        proof {
            assert(t.subrange(start as int, i + 1).drop_last() == t.subrange(start as int, i as int));
        }
        if m > (limit - digit) / 10 {
            proof {
                let p = t.subrange(start as int, i + 1);
                assert(digits_value(p) > limit) by (nonlinear_arith)
                    requires
                        digits_value(p) == m * 10 + digit,
                        m > (limit - digit) / 10,
                        digit <= 9,
                        limit == 9223372036854775808u64,
                ;
                if all_digits(d) {
                    assert(p == d.take(p.len() as int));
                    lemma_digits_prefix_grows(d, p.len() as int);
                }
            }
            return Err(MypsLexerError::ParseInt(text.clone()));
        }
        assert(m * 10 + digit <= limit) by (nonlinear_arith)
            requires
                m <= (limit - digit) / 10,
                digit <= 9,
                limit == 9223372036854775808u64,
        ;
        m = m * 10 + digit;
        i = i + 1;
    }
    proof {
        assert(t.subrange(start as int, i as int) == d);
        lemma_digits_value_nonneg(d);
    }
    if neg {
        if m == limit {
            Ok(i64::MIN)
        } else {
            Ok(-(m as i64))
        }
    } else if m == limit {
        Err(MypsLexerError::ParseInt(text.clone()))
    } else {
        Ok(m as i64)
    }
}

/// Adding digits never makes the value smaller.
proof fn lemma_digits_prefix_grows(d: Seq<char>, j: int)
    requires
        0 <= j <= d.len(),
        forall|k: int| 0 <= k < d.len() ==> is_digit(#[trigger] d[k]),
    ensures
        digits_value(d) >= digits_value(d.take(j)),
    decreases d.len() - j,
{
    if j < d.len() {
        lemma_digits_prefix_grows(d, j + 1);
        assert(d.take(j + 1).drop_last() == d.take(j));
        lemma_digits_value_nonneg(d.take(j));
    } else {
        assert(d.take(j) == d);
    }
}

} // verus!
