//! The MYPS grammar for l-values, r-values and assignments.
//!
//! Parsing follows parsing-expression-grammar semantics: ordered choice that commits to
//! the first alternative that matches, greedy repetition, and blanks (spaces and tabs)
//! skipped between the elements of non-atomic rules. A parse yields the flattened pairs
//! of the parse tree in pre-order, each pair a rule and the span of characters it matched.
use vstd::prelude::*;

use crate::spans::all_in;
use crate::words::{is_b_op_rule, mode_text, op_text, words_in, words_read};

verus! {

broadcast use crate::spans::group_spans, crate::words::group_words;

/// The rules of the grammar. Silent rules (such as `l_value`) produce no pair of their own.
#[allow(non_camel_case_types)]
#[derive(Clone, Copy, PartialEq, Eq, Debug, Structural)]
pub enum Rule {
    EOI,
    int_lit,
    num_lit,
    mem_lit,
    dev_lit,
    alias,
    param,
    dev_batch,
    l_param,
    batch_avg,
    batch_sum,
    batch_min,
    batch_max,
    r_batch,
    r_param,
    add,
    sub,
    mul,
    div,
    rem,
    and,
    or,
    xor,
    eq,
    ne,
    ge,
    gt,
    le,
    lt,
    inv,
    not,
    b_expr,
    u_expr,
    assign_l_value,
    assign_r_value,
    l_value,
    r_value,
    l_value_line,
    r_value_line,
    assign_l_value_line,
    assign_r_value_line,
}

/// A node of the parse tree: the rule that matched and the character span `start..end`.
#[derive(Clone, Copy, PartialEq, Eq, Debug, Structural)]
pub struct Pair {
    pub rule: Rule,
    pub start: usize,
    pub end: usize,
}

impl Pair {
    pub fn as_rule(&self) -> (r: Rule)
        ensures
            r == self.rule,
    {
        self.rule
    }
}

/// The rule given to the parser did not match the input.
#[derive(Clone, Copy, PartialEq, Eq, Debug, Structural)]
pub struct ParseError {
    pub rule: Rule,
}

/// Outcome of a rule at a position: the end of the match and the pairs it produced.
pub type Res = Option<(int, Seq<Pair>)>;

pub open spec fn res_view(r: Option<(usize, Vec<Pair>)>) -> Res {
    match r {
        Some((e, v)) => Some((e as int, v@)),
        None => None,
    }
}

pub open spec fn ends_within(r: Res, i: int, n: int) -> bool {
    r matches Some((e, _)) ==> i <= e <= n
}

/// The pairs of a match from `i` lie within the match.
pub open spec fn spans_in(r: Res, i: int) -> bool {
    match r {
        Some((e, t)) => all_in(t, i, e),
        None => true,
    }
}

pub open spec fn tok(r: Rule, i: int, e: int) -> Pair {
    Pair { rule: r, start: i as usize, end: e as usize }
}

pub open spec fn or_else(a: Res, b: Res) -> Res {
    if a is Some {
        a
    } else {
        b
    }
}

// ------------------------------------------------------------------------------------------
// Characters
// ------------------------------------------------------------------------------------------

pub open spec fn is_digit(c: char) -> bool {
    '0' <= c <= '9'
}

pub open spec fn is_alpha(c: char) -> bool {
    ('a' <= c <= 'z') || ('A' <= c <= 'Z')
}

pub open spec fn is_ident_start(c: char) -> bool {
    is_alpha(c) || c == '_'
}

pub open spec fn is_ident_char(c: char) -> bool {
    is_alpha(c) || is_digit(c) || c == '_'
}

pub open spec fn is_blank(c: char) -> bool {
    c == ' ' || c == '\t'
}

/// Classes of characters that the grammar scans runs of.
#[derive(Clone, Copy, PartialEq, Eq, Debug, Structural)]
pub enum Class {
    Digit,
    Ident,
    Blank,
    LetterR,
}

pub open spec fn in_class(k: Class, c: char) -> bool {
    match k {
        Class::Digit => is_digit(c),
        Class::Ident => is_ident_char(c),
        Class::Blank => is_blank(c),
        Class::LetterR => c == 'r',
    }
}

fn in_class_exec(k: Class, c: char) -> (b: bool)
    ensures
        b == in_class(k, c),
{
    match k {
        Class::Digit => '0' <= c && c <= '9',
        Class::Ident => ('a' <= c && c <= 'z') || ('A' <= c && c <= 'Z') || ('0' <= c && c <= '9')
            || c == '_',
        Class::Blank => c == ' ' || c == '\t',
        Class::LetterR => c == 'r',
    }
}

/// End of the longest run of characters of class `k` that starts at `i`.
pub open spec fn scan(s: Seq<char>, i: int, k: Class) -> int
    decreases s.len() - i,
{
    if 0 <= i < s.len() && in_class(k, s[i]) {
        scan(s, i + 1, k)
    } else {
        i
    }
}

pub open spec fn ws(s: Seq<char>, i: int) -> int {
    scan(s, i, Class::Blank)
}

pub proof fn lemma_scan(s: Seq<char>, i: int, k: Class)
    requires
        0 <= i <= s.len(),
    ensures
        i <= scan(s, i, k) <= s.len(),
        forall|j: int| i <= j < scan(s, i, k) ==> in_class(k, #[trigger] s[j]),
        scan(s, i, k) == s.len() || !in_class(k, s[scan(s, i, k)]),
    decreases s.len() - i,
{
    if i < s.len() && in_class(k, s[i]) {
        lemma_scan(s, i + 1, k);
    }
}

fn scan_exec(s: &Vec<char>, i: usize, k: Class) -> (r: usize)
    requires
        i <= s.len(),
    ensures
        r as int == scan(s@, i as int, k),
        i <= r <= s.len(),
{
    let mut j = i;
    while j < s.len() && in_class_exec(k, s[j])
        invariant
            i <= j <= s.len(),
            scan(s@, j as int, k) == scan(s@, i as int, k),
        decreases s.len() - j,
    {
        j = j + 1;
    }
    proof {
        lemma_scan(s@, i as int, k);
    }
    j
}

fn ws_exec(s: &Vec<char>, i: usize) -> (r: usize)
    requires
        i <= s.len(),
    ensures
        r as int == ws(s@, i as int),
        i <= r <= s.len(),
{
    scan_exec(s, i, Class::Blank)
}

pub open spec fn at(s: Seq<char>, i: int, c: char) -> bool {
    0 <= i < s.len() && s[i] == c
}

fn at_exec(s: &Vec<char>, i: usize, c: char) -> (b: bool)
    ensures
        b == at(s@, i as int, c),
{
    i < s.len() && s[i] == c
}

pub open spec fn ident_at(s: Seq<char>, i: int) -> bool {
    0 <= i < s.len() && is_ident_char(s[i])
}

fn ident_at_exec(s: &Vec<char>, i: usize) -> (b: bool)
    ensures
        b == ident_at(s@, i as int),
{
    i < s.len() && in_class_exec(Class::Ident, s[i])
}

/// The three characters `a b c` at `i`, not followed by an identifier character.
pub open spec fn keyword(s: Seq<char>, i: int, a: char, b: char, c: char) -> bool {
    at(s, i, a) && at(s, i + 1, b) && at(s, i + 2, c) && !ident_at(s, i + 3)
}

fn keyword_exec(s: &Vec<char>, i: usize, a: char, b: char, c: char) -> (r: bool)
    requires
        i <= s.len(),
    ensures
        r == keyword(s@, i as int, a, b, c),
{
    at_exec(s, i, a) && at_exec(s, i + 1, b) && at_exec(s, i + 2, c) && !ident_at_exec(s, i + 3)
}

// ------------------------------------------------------------------------------------------
// Terminal rules
// ------------------------------------------------------------------------------------------

pub open spec fn valid(s: Seq<char>, i: int) -> bool {
    0 <= i <= s.len()
}

/// `int_lit = @{ "-"? ~ ASCII_DIGIT+ }`
pub open spec fn spec_int_lit(s: Seq<char>, i: int) -> Res {
    let j = if at(s, i, '-') { i + 1 } else { i };
    let e = scan(s, j, Class::Digit);
    if valid(s, i) && e > j {
        Some((e, seq![tok(Rule::int_lit, i, e)]))
    } else {
        None
    }
}

fn p_int_lit(s: &Vec<char>, i: usize) -> (r: Option<(usize, Vec<Pair>)>)
    requires
        i <= s.len(),
    ensures
        res_view(r) == spec_int_lit(s@, i as int),
        ends_within(res_view(r), i as int, s@.len() as int),
        spans_in(res_view(r), i as int),
        words_in(s@, res_view(r)),
{
    let j = if at_exec(s, i, '-') { i + 1 } else { i };
    let e = scan_exec(s, j, Class::Digit);
    if e > j {
        let v = vec![Pair { rule: Rule::int_lit, start: i, end: e }];
        Some((e, v))
    } else {
        None
    }
}

/// `num_lit = @{ "-"? ~ ASCII_DIGIT+ ~ ("." ~ ASCII_DIGIT+)? }`
pub open spec fn spec_num_lit(s: Seq<char>, i: int) -> Res {
    let j = if at(s, i, '-') { i + 1 } else { i };
    let k = scan(s, j, Class::Digit);
    let f = scan(s, k + 1, Class::Digit);
    let e = if at(s, k, '.') && f > k + 1 { f } else { k };
    if valid(s, i) && k > j {
        Some((e, seq![tok(Rule::num_lit, i, e)]))
    } else {
        None
    }
}

fn p_num_lit(s: &Vec<char>, i: usize) -> (r: Option<(usize, Vec<Pair>)>)
    requires
        i <= s.len(),
    ensures
        res_view(r) == spec_num_lit(s@, i as int),
        ends_within(res_view(r), i as int, s@.len() as int),
        spans_in(res_view(r), i as int),
        words_in(s@, res_view(r)),
{
    let j = if at_exec(s, i, '-') { i + 1 } else { i };
    let k = scan_exec(s, j, Class::Digit);
    if k > j {
        let mut e = k;
        if at_exec(s, k, '.') {
            let f = scan_exec(s, k + 1, Class::Digit);
            if f > k + 1 {
                e = f;
            }
        }
        let v = vec![Pair { rule: Rule::num_lit, start: i, end: e }];
        Some((e, v))
    } else {
        None
    }
}

fn node(rule: Rule, i: usize, e: usize, t: Vec<Pair>) -> (v: Vec<Pair>)
    ensures
        v@ == seq![tok(rule, i as int, e as int)] + t@,
{
    let mut v = vec![Pair { rule, start: i, end: e }];
    let mut t = t;
    v.append(&mut t);
    v
}

fn join(a: Vec<Pair>, b: Vec<Pair>) -> (v: Vec<Pair>)
    ensures
        v@ == a@ + b@,
{
    let mut a = a;
    let mut b = b;
    a.append(&mut b);
    a
}

/// `mem_lit = ${ "r"+ ~ int_lit }`
pub open spec fn spec_mem_lit(s: Seq<char>, i: int) -> Res {
    let k = scan(s, i, Class::LetterR);
    if valid(s, i) && k > i {
        match spec_int_lit(s, k) {
            Some((e, t)) => Some((e, seq![tok(Rule::mem_lit, i, e)] + t)),
            None => None,
        }
    } else {
        None
    }
}

fn p_mem_lit(s: &Vec<char>, i: usize) -> (r: Option<(usize, Vec<Pair>)>)
    requires
        i <= s.len(),
    ensures
        res_view(r) == spec_mem_lit(s@, i as int),
        ends_within(res_view(r), i as int, s@.len() as int),
        spans_in(res_view(r), i as int),
        words_in(s@, res_view(r)),
{
    let k = scan_exec(s, i, Class::LetterR);
    if k > i {
        match p_int_lit(s, k) {
            Some((e, t)) => Some((e, node(Rule::mem_lit, i, e, t))),
            None => None,
        }
    } else {
        None
    }
}

/// `dev_lit = ${ "d" ~ "r"* ~ int_lit }`
pub open spec fn spec_dev_lit(s: Seq<char>, i: int) -> Res {
    if valid(s, i) && at(s, i, 'd') {
        match spec_int_lit(s, scan(s, i + 1, Class::LetterR)) {
            Some((e, t)) => Some((e, seq![tok(Rule::dev_lit, i, e)] + t)),
            None => None,
        }
    } else {
        None
    }
}

fn p_dev_lit(s: &Vec<char>, i: usize) -> (r: Option<(usize, Vec<Pair>)>)
    requires
        i <= s.len(),
    ensures
        res_view(r) == spec_dev_lit(s@, i as int),
        ends_within(res_view(r), i as int, s@.len() as int),
        spans_in(res_view(r), i as int),
        words_in(s@, res_view(r)),
{
    if at_exec(s, i, 'd') {
        let k = scan_exec(s, i + 1, Class::LetterR);
        match p_int_lit(s, k) {
            Some((e, t)) => Some((e, node(Rule::dev_lit, i, e, t))),
            None => None,
        }
    } else {
        None
    }
}

/// Register and device names (`r0`, `rr3`, `d1`, `dr2`) are reserved: no alias can take them.
pub open spec fn reserved(s: Seq<char>, i: int) -> bool {
    let k = if at(s, i, 'd') { scan(s, i + 1, Class::LetterR) } else { scan(s, i, Class::LetterR) };
    let e = scan(s, k, Class::Digit);
    (at(s, i, 'd') || k > i) && e > k && !ident_at(s, e)
}

fn reserved_exec(s: &Vec<char>, i: usize) -> (b: bool)
    requires
        i <= s.len(),
    ensures
        b == reserved(s@, i as int),
{
    let d = at_exec(s, i, 'd');
    let k = if d { scan_exec(s, i + 1, Class::LetterR) } else { scan_exec(s, i, Class::LetterR) };
    let e = scan_exec(s, k, Class::Digit);
    (d || k > i) && e > k && !ident_at_exec(s, e)
}

/// `alias = @{ !reserved ~ (ASCII_ALPHA | "_") ~ (ASCII_ALPHANUMERIC | "_")* }`
pub open spec fn spec_alias(s: Seq<char>, i: int) -> Res {
    if valid(s, i) && !reserved(s, i) && 0 <= i < s.len() && is_ident_start(s[i]) {
        let e = scan(s, i, Class::Ident);
        Some((e, seq![tok(Rule::alias, i, e)]))
    } else {
        None
    }
}

fn ident_start_exec(s: &Vec<char>, i: usize) -> (b: bool)
    ensures
        b == (0 <= i < s@.len() && is_ident_start(s@[i as int])),
{
    if i < s.len() {
        let c = s[i];
        ('a' <= c && c <= 'z') || ('A' <= c && c <= 'Z') || c == '_'
    } else {
        false
    }
}

fn p_alias(s: &Vec<char>, i: usize) -> (r: Option<(usize, Vec<Pair>)>)
    requires
        i <= s.len(),
    ensures
        res_view(r) == spec_alias(s@, i as int),
        ends_within(res_view(r), i as int, s@.len() as int),
        spans_in(res_view(r), i as int),
        words_in(s@, res_view(r)),
{
    if !reserved_exec(s, i) && ident_start_exec(s, i) {
        let e = scan_exec(s, i, Class::Ident);
        Some((e, vec![Pair { rule: Rule::alias, start: i, end: e }]))
    } else {
        None
    }
}

/// `param = @{ !"all" ~ (ASCII_ALPHA | "_") ~ (ASCII_ALPHANUMERIC | "_")* }`, where the
/// whole word `all` is kept for batch selectors.
pub open spec fn spec_param(s: Seq<char>, i: int) -> Res {
    if valid(s, i) && 0 <= i < s.len() && is_ident_start(s[i]) && !keyword(s, i, 'a', 'l', 'l') {
        let e = scan(s, i, Class::Ident);
        Some((e, seq![tok(Rule::param, i, e)]))
    } else {
        None
    }
}

fn p_param(s: &Vec<char>, i: usize) -> (r: Option<(usize, Vec<Pair>)>)
    requires
        i <= s.len(),
    ensures
        res_view(r) == spec_param(s@, i as int),
        ends_within(res_view(r), i as int, s@.len() as int),
        spans_in(res_view(r), i as int),
        words_in(s@, res_view(r)),
{
    if ident_start_exec(s, i) && !keyword_exec(s, i, 'a', 'l', 'l') {
        let e = scan_exec(s, i, Class::Ident);
        Some((e, vec![Pair { rule: Rule::param, start: i, end: e }]))
    } else {
        None
    }
}

pub open spec fn word(s: Seq<char>, i: int, r: Rule, n: int) -> Res {
    Some((i + n, seq![tok(r, i, i + n)]))
}

fn word_exec(i: usize, r: Rule, n: usize) -> (res: Option<(usize, Vec<Pair>)>)
    requires
        i + n <= usize::MAX,
    ensures
        res_view(res) == word(Seq::empty(), i as int, r, n as int),
        ends_within(res_view(res), i as int, (i + n) as int),
{
    Some((i + n, vec![Pair { rule: r, start: i, end: i + n }]))
}

/// `batch_mode = _{ batch_avg | batch_sum | batch_min | batch_max }`
pub open spec fn spec_batch_mode(s: Seq<char>, i: int) -> Res {
    if !valid(s, i) {
        None
    } else if keyword(s, i, 'a', 'v', 'g') {
        word(s, i, Rule::batch_avg, 3)
    } else if keyword(s, i, 's', 'u', 'm') {
        word(s, i, Rule::batch_sum, 3)
    } else if keyword(s, i, 'm', 'i', 'n') {
        word(s, i, Rule::batch_min, 3)
    } else if keyword(s, i, 'm', 'a', 'x') {
        word(s, i, Rule::batch_max, 3)
    } else {
        None
    }
}

fn p_batch_mode(s: &Vec<char>, i: usize) -> (r: Option<(usize, Vec<Pair>)>)
    requires
        i <= s.len(),
    ensures
        res_view(r) == spec_batch_mode(s@, i as int),
        ends_within(res_view(r), i as int, s@.len() as int),
        spans_in(res_view(r), i as int),
        words_in(s@, res_view(r)),
{
    proof {
        lemma_batch_mode_reads_its_text(s@, i as int);
    }
    if keyword_exec(s, i, 'a', 'v', 'g') {
        word_exec(i, Rule::batch_avg, 3)
    } else if keyword_exec(s, i, 's', 'u', 'm') {
        word_exec(i, Rule::batch_sum, 3)
    } else if keyword_exec(s, i, 'm', 'i', 'n') {
        word_exec(i, Rule::batch_min, 3)
    } else if keyword_exec(s, i, 'm', 'a', 'x') {
        word_exec(i, Rule::batch_max, 3)
    } else {
        None
    }
}

/// `u_op = _{ inv | not }` with `inv = { "-" }` and `not = { "!" }`
pub open spec fn spec_u_op(s: Seq<char>, i: int) -> Res {
    if !valid(s, i) {
        None
    } else if at(s, i, '-') {
        word(s, i, Rule::inv, 1)
    } else if at(s, i, '!') {
        word(s, i, Rule::not, 1)
    } else {
        None
    }
}

fn p_u_op(s: &Vec<char>, i: usize) -> (r: Option<(usize, Vec<Pair>)>)
    requires
        i <= s.len(),
    ensures
        res_view(r) == spec_u_op(s@, i as int),
        ends_within(res_view(r), i as int, s@.len() as int),
        spans_in(res_view(r), i as int),
        words_in(s@, res_view(r)),
{
    proof {
        lemma_u_op_reads_its_text(s@, i as int);
    }
    if at_exec(s, i, '-') {
        word_exec(i, Rule::inv, 1)
    } else if at_exec(s, i, '!') {
        word_exec(i, Rule::not, 1)
    } else {
        None
    }
}

/// `b_op = _{ add | sub | mul | div | rem | eq | ne | ge | gt | le | lt | and | or | xor }`
pub open spec fn spec_b_op(s: Seq<char>, i: int) -> Res {
    if !valid(s, i) {
        None
    } else if at(s, i, '+') {
        word(s, i, Rule::add, 1)
    } else if at(s, i, '-') {
        word(s, i, Rule::sub, 1)
    } else if at(s, i, '*') {
        word(s, i, Rule::mul, 1)
    } else if at(s, i, '/') {
        word(s, i, Rule::div, 1)
    } else if at(s, i, '%') {
        word(s, i, Rule::rem, 1)
    } else if at(s, i, '=') && at(s, i + 1, '=') {
        word(s, i, Rule::eq, 2)
    } else if at(s, i, '!') && at(s, i + 1, '=') {
        word(s, i, Rule::ne, 2)
    } else if at(s, i, '>') && at(s, i + 1, '=') {
        word(s, i, Rule::ge, 2)
    } else if at(s, i, '>') {
        word(s, i, Rule::gt, 1)
    } else if at(s, i, '<') && at(s, i + 1, '=') {
        word(s, i, Rule::le, 2)
    } else if at(s, i, '<') {
        word(s, i, Rule::lt, 1)
    } else if keyword(s, i, 'a', 'n', 'd') {
        word(s, i, Rule::and, 3)
    } else if at(s, i, 'o') && at(s, i + 1, 'r') && !ident_at(s, i + 2) {
        word(s, i, Rule::or, 2)
    } else if keyword(s, i, 'x', 'o', 'r') {
        word(s, i, Rule::xor, 3)
    } else {
        None
    }
}

fn p_b_op(s: &Vec<char>, i: usize) -> (r: Option<(usize, Vec<Pair>)>)
    requires
        i <= s.len(),
    ensures
        res_view(r) == spec_b_op(s@, i as int),
        ends_within(res_view(r), i as int, s@.len() as int),
        spans_in(res_view(r), i as int),
        words_in(s@, res_view(r)),
        res_view(r) matches Some((e, t)) ==> t.len() == 1 && is_b_op_rule(t[0].rule) && s@.subrange(i as int, e)
            == op_text(t[0].rule),
{
    proof {
        lemma_b_op_reads_its_text(s@, i as int);
    }
    if at_exec(s, i, '+') {
        word_exec(i, Rule::add, 1)
    } else if at_exec(s, i, '-') {
        word_exec(i, Rule::sub, 1)
    } else if at_exec(s, i, '*') {
        word_exec(i, Rule::mul, 1)
    } else if at_exec(s, i, '/') {
        word_exec(i, Rule::div, 1)
    } else if at_exec(s, i, '%') {
        word_exec(i, Rule::rem, 1)
    } else if at_exec(s, i, '=') && at_exec(s, i + 1, '=') {
        word_exec(i, Rule::eq, 2)
    } else if at_exec(s, i, '!') && at_exec(s, i + 1, '=') {
        word_exec(i, Rule::ne, 2)
    } else if at_exec(s, i, '>') && at_exec(s, i + 1, '=') {
        word_exec(i, Rule::ge, 2)
    } else if at_exec(s, i, '>') {
        word_exec(i, Rule::gt, 1)
    } else if at_exec(s, i, '<') && at_exec(s, i + 1, '=') {
        word_exec(i, Rule::le, 2)
    } else if at_exec(s, i, '<') {
        word_exec(i, Rule::lt, 1)
    } else if keyword_exec(s, i, 'a', 'n', 'd') {
        word_exec(i, Rule::and, 3)
    } else if at_exec(s, i, 'o') && at_exec(s, i + 1, 'r') && !ident_at_exec(s, i + 2) {
        word_exec(i, Rule::or, 2)
    } else if keyword_exec(s, i, 'x', 'o', 'r') {
        word_exec(i, Rule::xor, 3)
    } else {
        None
    }
}

/// A binary operator read at `i` is the operator whose text stands there: its one token
/// spans exactly that text.
pub proof fn lemma_b_op_reads_its_text(s: Seq<char>, i: int)
    ensures
        spec_b_op(s, i) matches Some((e, t)) ==> t.len() == 1 && is_b_op_rule(t[0].rule) && t[0] == tok(t[0].rule, i, e)
            && s.subrange(i, e) == op_text(t[0].rule),
{
    if let Some((e, t)) = spec_b_op(s, i) {
        assert(s.subrange(i, e) =~= op_text(t[0].rule));
    }
}

/// A unary operator read at `i` is the operator whose text stands there.
pub proof fn lemma_u_op_reads_its_text(s: Seq<char>, i: int)
    ensures
        spec_u_op(s, i) matches Some((e, t)) ==> t.len() == 1 && (t[0].rule is inv || t[0].rule is not) && t[0] == tok(
            t[0].rule,
            i,
            e,
        ) && s.subrange(i, e) == op_text(t[0].rule),
{
    if let Some((e, t)) = spec_u_op(s, i) {
        assert(s.subrange(i, e) =~= op_text(t[0].rule));
    }
}

/// A batch mode read at `i` is the mode whose word stands there.
pub proof fn lemma_batch_mode_reads_its_text(s: Seq<char>, i: int)
    ensures
        spec_batch_mode(s, i) matches Some((e, t)) ==> t.len() == 1 && t[0] == tok(t[0].rule, i, e) && s.subrange(i, e)
            == mode_text(t[0].rule) && mode_text(t[0].rule).len() > 0,
{
    if let Some((e, t)) = spec_batch_mode(s, i) {
        assert(s.subrange(i, e) =~= mode_text(t[0].rule));
    }
}

/// A choice between an integer literal and an alias, used before `.all` and batch modes.
pub open spec fn spec_int_or_alias(s: Seq<char>, i: int) -> Res {
    or_else(spec_int_lit(s, i), spec_alias(s, i))
}

fn p_int_or_alias(s: &Vec<char>, i: usize) -> (r: Option<(usize, Vec<Pair>)>)
    requires
        i <= s.len(),
    ensures
        res_view(r) == spec_int_or_alias(s@, i as int),
        ends_within(res_view(r), i as int, s@.len() as int),
        spans_in(res_view(r), i as int),
        words_in(s@, res_view(r)),
{
    let a = p_int_lit(s, i);
    if a.is_some() {
        a
    } else {
        p_alias(s, i)
    }
}

/// `dev_batch = ${ (int_lit | alias) ~ ".all" }`
pub open spec fn spec_dev_batch(s: Seq<char>, i: int) -> Res {
    match spec_int_or_alias(s, i) {
        Some((k, t)) => if at(s, k, '.') && keyword(s, k + 1, 'a', 'l', 'l') {
            Some((k + 4, seq![tok(Rule::dev_batch, i, k + 4)] + t))
        } else {
            None
        },
        None => None,
    }
}

fn p_dev_batch(s: &Vec<char>, i: usize) -> (r: Option<(usize, Vec<Pair>)>)
    requires
        i <= s.len(),
    ensures
        res_view(r) == spec_dev_batch(s@, i as int),
        ends_within(res_view(r), i as int, s@.len() as int),
        spans_in(res_view(r), i as int),
        words_in(s@, res_view(r)),
{
    match p_int_or_alias(s, i) {
        Some((k, t)) => if at_exec(s, k, '.') && keyword_exec(s, k + 1, 'a', 'l', 'l') {
            Some((k + 4, node(Rule::dev_batch, i, k + 4, t)))
        } else {
            None
        },
        None => None,
    }
}

/// `l_param = ${ (dev_batch | dev_lit | alias) ~ "." ~ param }`
pub open spec fn spec_l_param(s: Seq<char>, i: int) -> Res {
    match or_else(spec_dev_batch(s, i), or_else(spec_dev_lit(s, i), spec_alias(s, i))) {
        Some((k, t)) => if at(s, k, '.') {
            match spec_param(s, k + 1) {
                Some((e, u)) => Some((e, seq![tok(Rule::l_param, i, e)] + t + u)),
                None => None,
            }
        } else {
            None
        },
        None => None,
    }
}

fn p_l_param(s: &Vec<char>, i: usize) -> (r: Option<(usize, Vec<Pair>)>)
    requires
        i <= s.len(),
    ensures
        res_view(r) == spec_l_param(s@, i as int),
        ends_within(res_view(r), i as int, s@.len() as int),
        spans_in(res_view(r), i as int),
        words_in(s@, res_view(r)),
{
    let mut base = p_dev_batch(s, i);
    if base.is_none() {
        base = p_dev_lit(s, i);
    }
    if base.is_none() {
        base = p_alias(s, i);
    }
    match base {
        Some((k, t)) => if at_exec(s, k, '.') {
            match p_param(s, k + 1) {
                Some((e, u)) => Some((e, node(Rule::l_param, i, e, join(t, u)))),
                None => None,
            }
        } else {
            None
        },
        None => None,
    }
}

/// `l_value = _{ l_param | mem_lit | alias }`
pub open spec fn spec_l_value(s: Seq<char>, i: int) -> Res {
    or_else(spec_l_param(s, i), or_else(spec_mem_lit(s, i), spec_alias(s, i)))
}

fn p_l_value(s: &Vec<char>, i: usize) -> (r: Option<(usize, Vec<Pair>)>)
    requires
        i <= s.len(),
    ensures
        res_view(r) == spec_l_value(s@, i as int),
        ends_within(res_view(r), i as int, s@.len() as int),
        spans_in(res_view(r), i as int),
        words_in(s@, res_view(r)),
{
    let a = p_l_param(s, i);
    if a.is_some() {
        return a;
    }
    let b = p_mem_lit(s, i);
    if b.is_some() {
        return b;
    }
    p_alias(s, i)
}

/// `r_batch = ${ (int_lit | alias) ~ "." ~ batch_mode }`
pub open spec fn spec_r_batch(s: Seq<char>, i: int) -> Res {
    match spec_int_or_alias(s, i) {
        Some((k, t)) => if at(s, k, '.') {
            match spec_batch_mode(s, k + 1) {
                Some((e, u)) => Some((e, seq![tok(Rule::r_batch, i, e)] + t + u)),
                None => None,
            }
        } else {
            None
        },
        None => None,
    }
}

fn p_r_batch(s: &Vec<char>, i: usize) -> (r: Option<(usize, Vec<Pair>)>)
    requires
        i <= s.len(),
    ensures
        res_view(r) == spec_r_batch(s@, i as int),
        ends_within(res_view(r), i as int, s@.len() as int),
        spans_in(res_view(r), i as int),
        words_in(s@, res_view(r)),
{
    match p_int_or_alias(s, i) {
        Some((k, t)) => if at_exec(s, k, '.') {
            match p_batch_mode(s, k + 1) {
                Some((e, u)) => Some((e, node(Rule::r_batch, i, e, join(t, u)))),
                None => None,
            }
        } else {
            None
        },
        None => None,
    }
}

/// `r_param = ${ (r_batch | dev_lit | alias) ~ "." ~ param }`
pub open spec fn spec_r_param(s: Seq<char>, i: int) -> Res {
    match or_else(spec_r_batch(s, i), or_else(spec_dev_lit(s, i), spec_alias(s, i))) {
        Some((k, t)) => if at(s, k, '.') {
            match spec_param(s, k + 1) {
                Some((e, u)) => Some((e, seq![tok(Rule::r_param, i, e)] + t + u)),
                None => None,
            }
        } else {
            None
        },
        None => None,
    }
}

fn p_r_param(s: &Vec<char>, i: usize) -> (r: Option<(usize, Vec<Pair>)>)
    requires
        i <= s.len(),
    ensures
        res_view(r) == spec_r_param(s@, i as int),
        ends_within(res_view(r), i as int, s@.len() as int),
        spans_in(res_view(r), i as int),
        words_in(s@, res_view(r)),
{
    let mut base = p_r_batch(s, i);
    if base.is_none() {
        base = p_dev_lit(s, i);
    }
    if base.is_none() {
        base = p_alias(s, i);
    }
    match base {
        Some((k, t)) => if at_exec(s, k, '.') {
            match p_param(s, k + 1) {
                Some((e, u)) => Some((e, node(Rule::r_param, i, e, join(t, u)))),
                None => None,
            }
        } else {
            None
        },
        None => None,
    }
}

// ------------------------------------------------------------------------------------------
// Expressions
// ------------------------------------------------------------------------------------------

/// `atom = _{ "(" ~ r_value ~ ")" | r_param | num_lit | mem_lit | alias }`
pub open spec fn spec_atom(s: Seq<char>, i: int) -> Res
    decreases s.len() - i, 0int,
{
    if !valid(s, i) {
        None
    } else {
        let paren: Res = if at(s, i, '(') {
            let j = ws(s, i + 1);
            if i < j <= s.len() {
                match spec_r_value(s, j) {
                    Some((k, t)) => {
                        let m = ws(s, k);
                        if at(s, m, ')') {
                            Some((m + 1, t))
                        } else {
                            None
                        }
                    },
                    None => None,
                }
            } else {
                None
            }
        } else {
            None
        };
        or_else(
            paren,
            or_else(
                spec_r_param(s, i),
                or_else(spec_num_lit(s, i), or_else(spec_mem_lit(s, i), spec_alias(s, i))),
            ),
        )
    }
}

/// The repetition `(b_op ~ atom)*` of a binary expression, starting after an atom that
/// ends at `i`. It stops, consuming nothing, where the next operator or atom fails.
pub open spec fn spec_b_tail(s: Seq<char>, i: int) -> Res
    decreases s.len() - i, 0int,
{
    if !valid(s, i) {
        None
    } else {
        let stop: Res = Some((i, Seq::empty()));
        match spec_b_op(s, ws(s, i)) {
            Some((k, o)) => {
                let m = ws(s, k);
                if i < m <= s.len() {
                    match spec_atom(s, m) {
                        Some((e, a)) => if m <= e <= s.len() {
                            match spec_b_tail(s, e) {
                                Some((f, t)) => Some((f, o + a + t)),
                                None => stop,
                            }
                        } else {
                            stop
                        },
                        None => stop,
                    }
                } else {
                    stop
                }
            },
            None => stop,
        }
    }
}

/// `b_expr = { atom ~ (b_op ~ atom)+ }`
pub open spec fn spec_b_expr(s: Seq<char>, i: int) -> Res
    decreases s.len() - i, 1int,
{
    if !valid(s, i) {
        None
    } else {
        match spec_atom(s, i) {
            Some((k, a)) => if i <= k <= s.len() {
                match spec_b_tail(s, k) {
                    Some((e, t)) => if e > k {
                        Some((e, seq![tok(Rule::b_expr, i, e)] + a + t))
                    } else {
                        None
                    },
                    None => None,
                }
            } else {
                None
            },
            None => None,
        }
    }
}

/// `u_expr = { u_op ~ atom }`
pub open spec fn spec_u_expr(s: Seq<char>, i: int) -> Res
    decreases s.len() - i, 1int,
{
    if !valid(s, i) {
        None
    } else {
        match spec_u_op(s, i) {
            Some((k, o)) => {
                let m = ws(s, k);
                if i < m <= s.len() {
                    match spec_atom(s, m) {
                        Some((e, a)) => Some((e, seq![tok(Rule::u_expr, i, e)] + o + a)),
                        None => None,
                    }
                } else {
                    None
                }
            },
            None => None,
        }
    }
}

/// `r_value = _{ b_expr | atom | u_expr }`
pub open spec fn spec_r_value(s: Seq<char>, i: int) -> Res
    decreases s.len() - i, 2int,
{
    if !valid(s, i) {
        None
    } else {
        or_else(spec_b_expr(s, i), or_else(spec_atom(s, i), spec_u_expr(s, i)))
    }
}

fn p_atom(s: &Vec<char>, i: usize) -> (r: Option<(usize, Vec<Pair>)>)
    requires
        i <= s.len(),
    ensures
        res_view(r) == spec_atom(s@, i as int),
        ends_within(res_view(r), i as int, s@.len() as int),
        spans_in(res_view(r), i as int),
        words_in(s@, res_view(r)),
    decreases s.len() - i, 0int,
{
    if at_exec(s, i, '(') {
        let j = ws_exec(s, i + 1);
        if i < j && j <= s.len() {
            match p_r_value(s, j) {
                Some((k, t)) => {
                    let m = ws_exec(s, k);
                    if at_exec(s, m, ')') {
                        return Some((m + 1, t));
                    }
                },
                None => {},
            }
        }
    }
    let a = p_r_param(s, i);
    if a.is_some() {
        return a;
    }
    let b = p_num_lit(s, i);
    if b.is_some() {
        return b;
    }
    let c = p_mem_lit(s, i);
    if c.is_some() {
        return c;
    }
    p_alias(s, i)
}

fn p_b_tail(s: &Vec<char>, i: usize) -> (r: Option<(usize, Vec<Pair>)>)
    requires
        i <= s.len(),
    ensures
        res_view(r) == spec_b_tail(s@, i as int),
        ends_within(res_view(r), i as int, s@.len() as int),
        spans_in(res_view(r), i as int),
        words_in(s@, res_view(r)),
    decreases s.len() - i, 0int,
{
    let j = ws_exec(s, i);
    match p_b_op(s, j) {
        Some((k, o)) => {
            let m = ws_exec(s, k);
            if i < m && m <= s.len() {
                match p_atom(s, m) {
                    Some((e, a)) => if m <= e && e <= s.len() {
                        match p_b_tail(s, e) {
                            Some((f, t)) => Some((f, join(join(o, a), t))),
                            None => Some((i, Vec::new())),
                        }
                    } else {
                        Some((i, Vec::new()))
                    },
                    None => Some((i, Vec::new())),
                }
            } else {
                Some((i, Vec::new()))
            }
        },
        None => Some((i, Vec::new())),
    }
}

fn p_b_expr(s: &Vec<char>, i: usize) -> (r: Option<(usize, Vec<Pair>)>)
    requires
        i <= s.len(),
    ensures
        res_view(r) == spec_b_expr(s@, i as int),
        ends_within(res_view(r), i as int, s@.len() as int),
        spans_in(res_view(r), i as int),
        words_in(s@, res_view(r)),
    decreases s.len() - i, 1int,
{
    match p_atom(s, i) {
        Some((k, a)) => if i <= k && k <= s.len() {
            match p_b_tail(s, k) {
                Some((e, t)) => if e > k {
                    Some((e, node(Rule::b_expr, i, e, join(a, t))))
                } else {
                    None
                },
                None => None,
            }
        } else {
            None
        },
        None => None,
    }
}

fn p_u_expr(s: &Vec<char>, i: usize) -> (r: Option<(usize, Vec<Pair>)>)
    requires
        i <= s.len(),
    ensures
        res_view(r) == spec_u_expr(s@, i as int),
        ends_within(res_view(r), i as int, s@.len() as int),
        spans_in(res_view(r), i as int),
        words_in(s@, res_view(r)),
    decreases s.len() - i, 1int,
{
    match p_u_op(s, i) {
        Some((k, o)) => {
            let m = ws_exec(s, k);
            if i < m && m <= s.len() {
                match p_atom(s, m) {
                    Some((e, a)) => Some((e, node(Rule::u_expr, i, e, join(o, a)))),
                    None => None,
                }
            } else {
                None
            }
        },
        None => None,
    }
}

fn p_r_value(s: &Vec<char>, i: usize) -> (r: Option<(usize, Vec<Pair>)>)
    requires
        i <= s.len(),
    ensures
        res_view(r) == spec_r_value(s@, i as int),
        ends_within(res_view(r), i as int, s@.len() as int),
        spans_in(res_view(r), i as int),
        words_in(s@, res_view(r)),
    decreases s.len() - i, 2int,
{
    let a = p_b_expr(s, i);
    if a.is_some() {
        return a;
    }
    let b = p_atom(s, i);
    if b.is_some() {
        return b;
    }
    p_u_expr(s, i)
}

// ------------------------------------------------------------------------------------------
// Assignments and lines
// ------------------------------------------------------------------------------------------

/// `assign_l_value = { alias ~ "=" ~ (dev_batch | dev_lit) }`
pub open spec fn spec_assign_l_value(s: Seq<char>, i: int) -> Res {
    match spec_alias(s, i) {
        Some((k, a)) => {
            let j = ws(s, k);
            if at(s, j, '=') {
                let m = ws(s, j + 1);
                match or_else(spec_dev_batch(s, m), spec_dev_lit(s, m)) {
                    Some((e, d)) => Some((e, seq![tok(Rule::assign_l_value, i, e)] + a + d)),
                    None => None,
                }
            } else {
                None
            }
        },
        None => None,
    }
}

fn p_assign_l_value(s: &Vec<char>, i: usize) -> (r: Option<(usize, Vec<Pair>)>)
    requires
        i <= s.len(),
    ensures
        res_view(r) == spec_assign_l_value(s@, i as int),
        ends_within(res_view(r), i as int, s@.len() as int),
        spans_in(res_view(r), i as int),
        words_in(s@, res_view(r)),
{
    match p_alias(s, i) {
        Some((k, a)) => {
            let j = ws_exec(s, k);
            if at_exec(s, j, '=') {
                let m = ws_exec(s, j + 1);
                let mut d = p_dev_batch(s, m);
                if d.is_none() {
                    d = p_dev_lit(s, m);
                }
                match d {
                    Some((e, d)) => Some((e, node(Rule::assign_l_value, i, e, join(a, d)))),
                    None => None,
                }
            } else {
                None
            }
        },
        None => None,
    }
}

/// `assign_r_value = { l_value ~ "=" ~ r_value }`
pub open spec fn spec_assign_r_value(s: Seq<char>, i: int) -> Res {
    match spec_l_value(s, i) {
        Some((k, l)) => {
            let j = ws(s, k);
            if at(s, j, '=') {
                match spec_r_value(s, ws(s, j + 1)) {
                    Some((e, r)) => Some((e, seq![tok(Rule::assign_r_value, i, e)] + l + r)),
                    None => None,
                }
            } else {
                None
            }
        },
        None => None,
    }
}

fn p_assign_r_value(s: &Vec<char>, i: usize) -> (r: Option<(usize, Vec<Pair>)>)
    requires
        i <= s.len(),
    ensures
        res_view(r) == spec_assign_r_value(s@, i as int),
        ends_within(res_view(r), i as int, s@.len() as int),
        spans_in(res_view(r), i as int),
        words_in(s@, res_view(r)),
{
    match p_l_value(s, i) {
        Some((k, l)) => {
            let j = ws_exec(s, k);
            if at_exec(s, j, '=') {
                let m = ws_exec(s, j + 1);
                match p_r_value(s, m) {
                    Some((e, r)) => Some((e, node(Rule::assign_r_value, i, e, join(l, r)))),
                    None => None,
                }
            } else {
                None
            }
        },
        None => None,
    }
}

/// A whole line: blanks, the inner rule, blanks, and the end of input (`EOI`).
pub open spec fn finish(s: Seq<char>, r: Res) -> Res {
    match r {
        Some((k, t)) => if ws(s, k) == s.len() {
            Some((s.len() as int, t.push(tok(Rule::EOI, s.len() as int, s.len() as int))))
        } else {
            None
        },
        None => None,
    }
}

/// Keeps a one-pair result only when its pair is of the rule asked for.
pub open spec fn only(r: Res, rule: Rule) -> Res {
    match r {
        Some((e, t)) => if t.len() > 0 && t[0].rule == rule {
            r
        } else {
            None
        },
        None => None,
    }
}

/// What parsing `rule` from the start of `s` gives.
pub open spec fn spec_parse(rule: Rule, s: Seq<char>) -> Res {
    match rule {
        Rule::EOI => if s.len() == 0 {
            Some((0, seq![tok(Rule::EOI, 0, 0)]))
        } else {
            None
        },
        Rule::int_lit => spec_int_lit(s, 0),
        Rule::num_lit => spec_num_lit(s, 0),
        Rule::mem_lit => spec_mem_lit(s, 0),
        Rule::dev_lit => spec_dev_lit(s, 0),
        Rule::alias => spec_alias(s, 0),
        Rule::param => spec_param(s, 0),
        Rule::dev_batch => spec_dev_batch(s, 0),
        Rule::l_param => spec_l_param(s, 0),
        Rule::batch_avg | Rule::batch_sum | Rule::batch_min | Rule::batch_max => only(
            spec_batch_mode(s, 0),
            rule,
        ),
        Rule::r_batch => spec_r_batch(s, 0),
        Rule::r_param => spec_r_param(s, 0),
        Rule::inv | Rule::not => only(spec_u_op(s, 0), rule),
        Rule::b_expr => spec_b_expr(s, 0),
        Rule::u_expr => spec_u_expr(s, 0),
        Rule::assign_l_value => spec_assign_l_value(s, 0),
        Rule::assign_r_value => spec_assign_r_value(s, 0),
        Rule::l_value => spec_l_value(s, 0),
        Rule::r_value => spec_r_value(s, 0),
        Rule::l_value_line => finish(s, spec_l_value(s, ws(s, 0))),
        Rule::r_value_line => finish(s, spec_r_value(s, ws(s, 0))),
        Rule::assign_l_value_line => finish(s, spec_assign_l_value(s, ws(s, 0))),
        Rule::assign_r_value_line => finish(s, spec_assign_r_value(s, ws(s, 0))),
        _ => only(spec_b_op(s, 0), rule),
    }
}

/// The rules that match a whole line.
pub open spec fn is_line_rule(rule: Rule) -> bool {
    rule is l_value_line || rule is r_value_line || rule is assign_l_value_line || rule is assign_r_value_line
}

/// A line rule that matches reads the whole input, and its last pair is `EOI`, empty, at the
/// end of the input.
pub proof fn lemma_line_ends_with_eoi(rule: Rule, s: Seq<char>)
    requires
        is_line_rule(rule),
        spec_parse(rule, s) is Some,
    ensures
        spec_parse(rule, s).unwrap().0 == s.len(),
        spec_parse(rule, s).unwrap().1.len() > 0,
        spec_parse(rule, s).unwrap().1.last() == tok(Rule::EOI, s.len() as int, s.len() as int),
{
}

fn finish_exec(s: &Vec<char>, r: Option<(usize, Vec<Pair>)>, Ghost(i): Ghost<int>) -> (f: Option<(usize, Vec<Pair>)>)
    requires
        r matches Some((k, _)) ==> k <= s.len(),
        0 <= i <= s.len(),
        spans_in(res_view(r), i),
        words_in(s@, res_view(r)),
    ensures
        res_view(f) == finish(s@, res_view(r)),
        spans_in(res_view(f), i),
        words_in(s@, res_view(f)),
{
    match r {
        Some((k, t)) => if ws_exec(s, k) == s.len() {
            let mut t = t;
            let ghost t0 = t@;
            t.push(Pair { rule: Rule::EOI, start: s.len(), end: s.len() });
            assert(all_in(t@, i, s.len() as int)) by {
                assert forall|j: int| 0 <= j < t@.len() implies i <= (#[trigger] t@[j]).start <= t@[j].end <= s.len() by {
                    if j < t0.len() {
                        assert(t@[j] == t0[j]);
                    }
                }
            }
            Some((s.len(), t))
        } else {
            None
        },
        None => None,
    }
}

fn only_exec(r: Option<(usize, Vec<Pair>)>, rule: Rule, Ghost(s): Ghost<Seq<char>>) -> (f: Option<(usize, Vec<Pair>)>)
    ensures
        res_view(f) == only(res_view(r), rule),
        spans_in(res_view(r), 0) ==> spans_in(res_view(f), 0),
        words_in(s, res_view(r)) ==> words_in(s, res_view(f)),
{
    match r {
        Some((e, t)) => if t.len() > 0 && t[0].rule == rule {
            Some((e, t))
        } else {
            None
        },
        None => None,
    }
}

fn parse_chars(rule: Rule, s: &Vec<char>) -> (r: Option<(usize, Vec<Pair>)>)
    ensures
        res_view(r) == spec_parse(rule, s@),
        spans_in(res_view(r), 0),
        words_in(s@, res_view(r)),
        r matches Some((e, _)) ==> e <= s@.len(),
{
    match rule {
        Rule::EOI => if s.len() == 0 {
            Some((0, vec![Pair { rule: Rule::EOI, start: 0, end: 0 }]))
        } else {
            None
        },
        Rule::int_lit => p_int_lit(s, 0),
        Rule::num_lit => p_num_lit(s, 0),
        Rule::mem_lit => p_mem_lit(s, 0),
        Rule::dev_lit => p_dev_lit(s, 0),
        Rule::alias => p_alias(s, 0),
        Rule::param => p_param(s, 0),
        Rule::dev_batch => p_dev_batch(s, 0),
        Rule::l_param => p_l_param(s, 0),
        Rule::batch_avg | Rule::batch_sum | Rule::batch_min | Rule::batch_max => only_exec(p_batch_mode(s, 0), rule, Ghost(s@)),
        Rule::r_batch => p_r_batch(s, 0),
        Rule::r_param => p_r_param(s, 0),
        Rule::inv | Rule::not => only_exec(p_u_op(s, 0), rule, Ghost(s@)),
        Rule::b_expr => p_b_expr(s, 0),
        Rule::u_expr => p_u_expr(s, 0),
        Rule::assign_l_value => p_assign_l_value(s, 0),
        Rule::assign_r_value => p_assign_r_value(s, 0),
        Rule::l_value => p_l_value(s, 0),
        Rule::r_value => p_r_value(s, 0),
        Rule::l_value_line => {
            let i = ws_exec(s, 0);
            finish_exec(s, p_l_value(s, i), Ghost(i as int))
        },
        Rule::r_value_line => {
            let i = ws_exec(s, 0);
            finish_exec(s, p_r_value(s, i), Ghost(i as int))
        },
        Rule::assign_l_value_line => {
            let i = ws_exec(s, 0);
            finish_exec(s, p_assign_l_value(s, i), Ghost(i as int))
        },
        Rule::assign_r_value_line => {
            let i = ws_exec(s, 0);
            finish_exec(s, p_assign_r_value(s, i), Ghost(i as int))
        },
        _ => only_exec(p_b_op(s, 0), rule, Ghost(s@)),
    }
}

/// The characters of a string, in order.
fn chars_of(input: &str) -> (v: Vec<char>)
    ensures
        v@ == input@,
{
    let mut v: Vec<char> = Vec::new();
    for c in it: input.chars()
        invariant
            v@ == it.seq().take(it.index()),
    {
        v.push(c);
    }
    v
}

/// The parser of MYPS values and assignments.
pub struct MypsParser;

impl MypsParser {
    /// Parses `input` by `rule`, from its first character, and gives the pairs of the parse
    /// tree in pre-order. The rules whose name ends in `_line` must match the whole input
    /// (blanks around it aside) and end with an `EOI` pair; the others match a prefix. Each
    /// pair of an operator or a batch mode spans the word of its rule: an `add` pair spans a
    /// `+`, a `gt` pair a `>`, a `batch_avg` pair `avg`, and so on.
    pub fn parse(rule: Rule, input: &str) -> (res: Result<Vec<Pair>, ParseError>)
        ensures
            res is Ok <==> spec_parse(rule, input@) is Some,
            res matches Ok(v) ==> all_in(v@, 0, input@.len() as int),
            res matches Ok(v) ==> v@ == spec_parse(rule, input@).unwrap().1,
            res matches Ok(v) ==> words_read(input@, v@),
            res matches Err(e) ==> e.rule == rule,
    {
        let s = chars_of(input);
        match parse_chars(rule, &s) {
            Some((_, v)) => Ok(v),
            None => Err(ParseError { rule }),
        }
    }
}

} // verus!
