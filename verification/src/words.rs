//! The fixed words of the MYPS grammar: the text of each operator and batch-mode rule, and
//! what it means for the pairs of a parse to read them.
use vstd::prelude::*;

use crate::grammar::{Pair, Res, Rule};

verus! {

/// The text of an operator token: what each operator rule reads.
pub open spec fn op_text(r: Rule) -> Seq<char> {
    match r {
        Rule::add => seq!['+'],
        Rule::sub => seq!['-'],
        Rule::mul => seq!['*'],
        Rule::div => seq!['/'],
        Rule::rem => seq!['%'],
        Rule::eq => seq!['=', '='],
        Rule::ne => seq!['!', '='],
        Rule::ge => seq!['>', '='],
        Rule::gt => seq!['>'],
        Rule::le => seq!['<', '='],
        Rule::lt => seq!['<'],
        Rule::and => seq!['a', 'n', 'd'],
        Rule::or => seq!['o', 'r'],
        Rule::xor => seq!['x', 'o', 'r'],
        Rule::inv => seq!['-'],
        Rule::not => seq!['!'],
        _ => Seq::empty(),
    }
}

/// The rule is one of a binary operator.
pub open spec fn is_b_op_rule(r: Rule) -> bool {
    r is add || r is sub || r is mul || r is div || r is rem || r is eq || r is ne || r is ge || r is gt || r is le
        || r is lt || r is and || r is or || r is xor
}

/// The word that a batch-mode rule reads.
pub open spec fn mode_text(r: Rule) -> Seq<char> {
    match r {
        Rule::batch_avg => seq!['a', 'v', 'g'],
        Rule::batch_sum => seq!['s', 'u', 'm'],
        Rule::batch_min => seq!['m', 'i', 'n'],
        Rule::batch_max => seq!['m', 'a', 'x'],
        _ => Seq::empty(),
    }
}

/// The rule reads a fixed word: an operator or a batch mode.
pub open spec fn is_word_rule(r: Rule) -> bool {
    is_b_op_rule(r) || r is inv || r is not || r is batch_avg || r is batch_sum || r is batch_min || r is batch_max
}

/// The fixed word that a rule reads.
pub open spec fn word_text(r: Rule) -> Seq<char> {
    if r is batch_avg || r is batch_sum || r is batch_min || r is batch_max {
        mode_text(r)
    } else {
        op_text(r)
    }
}

/// A pair of a rule that reads a fixed word spans that word in `s`.
pub open spec fn reads_its_word(s: Seq<char>, p: Pair) -> bool {
    is_word_rule(p.rule) ==> p.start <= p.end <= s.len() && s.subrange(p.start as int, p.end as int) == word_text(p.rule)
}

/// Every pair of `t` that reads a fixed word spans that word in `s`.
pub open spec fn words_read(s: Seq<char>, t: Seq<Pair>) -> bool {
    forall|k: int| 0 <= k < t.len() ==> reads_its_word(s, #[trigger] t[k])
}

/// The pairs of a match read their words.
pub open spec fn words_in(s: Seq<char>, r: Res) -> bool {
    match r {
        Some((_, t)) => words_read(s, t),
        None => true,
    }
}

pub broadcast proof fn lemma_words_read_add(s: Seq<char>, t: Seq<Pair>, u: Seq<Pair>)
    requires
        words_read(s, t),
        words_read(s, u),
    ensures
        #[trigger] words_read(s, t + u),
{
    assert forall|k: int| 0 <= k < (t + u).len() implies reads_its_word(s, #[trigger] (t + u)[k]) by {
        if k < t.len() {
            assert((t + u)[k] == t[k]);
        } else {
            assert((t + u)[k] == u[k - t.len()]);
        }
    }
}

pub broadcast proof fn lemma_words_read_one(s: Seq<char>, p: Pair)
    requires
        reads_its_word(s, p),
    ensures
        #[trigger] words_read(s, seq![p]),
{
    assert(seq![p][0] == p);
}

pub broadcast proof fn lemma_words_read_empty(s: Seq<char>)
    ensures
        #[trigger] words_read(s, Seq::<Pair>::empty()),
{
}

pub broadcast group group_words {
    lemma_words_read_add,
    lemma_words_read_one,
    lemma_words_read_empty,
}

} // verus!
