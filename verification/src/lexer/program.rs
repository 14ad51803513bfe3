//! The block structure of a MYPS program: lines, by their indentation, nest into blocks.
use vstd::prelude::*;

use super::analyze::{calls, defined, item_ok, stmt_ok};
use super::ast::{chain_index, Block, Branch, Item, ItemInner, Literal, Statement};
use super::error::{MypsLexerError, MypsLexerResult};
use super::nodes::{lines_match, line_item_is, program_heads, read_lines, statement_is};
use super::tree::{PairTree, Rule};

verus! {

/// What a line holds: a block header or a statement, or the error met reading its node.
#[derive(Debug)]
pub enum LineItem<L> {
    Branch(Branch<L>),
    Stmt(Statement<L>),
    Failed(MypsLexerError),
}

/// A non-empty line of a program: its indent (in levels), its item and its comment.
#[derive(Debug)]
pub struct Line<L> {
    pub indent: usize,
    pub item: LineItem<L>,
    pub comment: Option<String>,
}

/// The user functions of a program: name, body (a block headed `Function(name)`), and the
/// comment of the `def` line.
pub type Functions<L> = Vec<(String, Block<L>, Option<String>)>;

/// No two functions share a name.
pub open spec fn names_unique<L>(fs: Seq<(String, Block<L>, Option<String>)>) -> bool {
    forall|i: int, j: int|
        0 <= i < fs.len() && 0 <= j < fs.len() && i != j ==> (#[trigger] fs[i]).0@ != (
        #[trigger] fs[j]).0@
}

/// Each function's block is headed by `Function` with the function's name.
pub open spec fn headed_by_name<L>(fs: Seq<(String, Block<L>, Option<String>)>) -> bool {
    forall|i: int|
        0 <= i < fs.len() ==> ((#[trigger] fs[i]).1.branch matches Branch::Function(n) && n@
            == fs[i].0@)
}

pub open spec fn fn_names<L>(fs: Seq<(String, Block<L>, Option<String>)>) -> Seq<String> {
    fs.map_values(|f: (String, Block<L>, Option<String>)| f.0)
}

/// Whether a function of that name is in `fs`.
fn has_function<L: Literal>(fs: &Functions<L>, name: &String) -> (b: bool)
    ensures
        b == defined(fn_names(fs@), name@),
{
    let mut i: usize = 0;
    while i < fs.len()
        invariant
            i <= fs.len(),
            forall|j: int| 0 <= j < i ==> (#[trigger] fs@[j]).0@ != name@,
        decreases fs.len() - i,
    {
        if fs[i].0 == *name {
            assert(fn_names(fs@)[i as int] == fs@[i as int].0);
            return true;
        }
        i = i + 1;
    }
    assert forall|j: int| 0 <= j < fn_names(fs@).len() implies (#[trigger] fn_names(fs@)[j])@
        != name@ by {
        assert(fn_names(fs@)[j] == fs@[j].0);
    }
    false
}

/// The open blocks while lines are read: for each, its items so far, its comment and its
/// header. The outermost is the program block.
pub struct Nesting<L> {
    pub items: Vec<Vec<Item<L>>>,
    pub comments: Vec<Option<String>>,
    pub branches: Vec<Branch<L>>,
}

impl<L: Literal> Nesting<L> {
    pub open spec fn wf(&self) -> bool {
        &&& self.items@.len() >= 1
        &&& self.comments@.len() == self.items@.len()
        &&& self.branches@.len() == self.items@.len()
        &&& self.comments@[0] is None
        &&& self.branches@[0] is Program
    }

    pub open spec fn depth(&self) -> nat {
        self.items@.len()
    }

    /// Adds an item to the innermost open block.
    fn push_item(&mut self, item: Item<L>)
        requires
            old(self).wf(),
        ensures
            final(self).wf(),
            final(self).depth() == old(self).depth(),
            final(self).items@.last()@ == old(self).items@.last()@.push(item),
            final(self).items@.drop_last() == old(self).items@.drop_last(),
            final(self).branches@ == old(self).branches@,
            final(self).comments@ == old(self).comments@,
    {
        let mut head = self.items.pop().unwrap();
        head.push(item);
        self.items.push(head);
    }

    /// Opens a block under `branch`.
    fn open_block(&mut self, branch: Branch<L>, comment: Option<String>)
        requires
            old(self).wf(),
        ensures
            final(self).wf(),
            final(self).depth() == old(self).depth() + 1,
            final(self).items@.drop_last() == old(self).items@,
            final(self).items@.last()@.len() == 0,
            final(self).branches@ == old(self).branches@.push(branch),
    {
        self.items.push(Vec::new());
        self.comments.push(comment);
        self.branches.push(branch);
    }

    /// Closes the innermost open block: a `def` becomes a function (unless one of that name
    /// exists, or the block is nested in another); any other block becomes an item of the
    /// block around it. The indent of the block is dropped from `indent_stack`.
    fn nest_next_block(&mut self, functions: &mut Functions<L>, indent_stack: &mut Vec<usize>) -> (r:
        MypsLexerResult<()>)
        requires
            old(self).wf(),
            old(self).depth() >= 2,
            names_unique(old(functions)@),
            headed_by_name(old(functions)@),
        ensures
            final(self).wf(),
            final(self).depth() == old(self).depth() - 1,
            final(indent_stack)@ == if old(indent_stack)@.len() > 0 {
                old(indent_stack)@.drop_last()
            } else {
                old(indent_stack)@
            },
            names_unique(final(functions)@),
            headed_by_name(final(functions)@),
            r is Err ==> (r matches Err(MypsLexerError::RedefinedFunction(_)) || r matches Err(
                MypsLexerError::NestedFunction(_))),
            r is Ok ==> forall|id: usize, any: bool| #[trigger] final(self).holds_header(final(functions)@, id, any) <==> old(self).holds_header(
                old(functions)@,
                id,
                any,
            ),
    {
        let ghost o = *self;
        let ghost ofs = functions@;
        let ghost top = (o.items@.len() - 1) as int;
        let items = self.items.pop().unwrap();
        let comment = self.comments.pop().unwrap();
        let branch = self.branches.pop().unwrap();
        indent_stack.pop();
        proof {
            assert(items == o.items@[top]);
            assert(branch == o.branches@[top]);
            assert(self.items@ == o.items@.drop_last());
            assert(self.branches@ == o.branches@.drop_last());
        }
        match branch {
            Branch::Def(name) => {
                if has_function(functions, &name) {
                    return Err(MypsLexerError::redefined_function(&name));
                } else if indent_stack.len() > 1 {
                    return Err(MypsLexerError::nested_function(&name));
                } else {
                    let function_block = Block { branch: Branch::Function(name.clone()), items };
                    proof {
                        assert forall|j: int| 0 <= j < functions@.len() implies (
                        #[trigger] functions@[j]).0@ != name@ by {
                            assert(fn_names(functions@)[j] == functions@[j].0);
                        }
                    }
                    let ghost fb = function_block;
                    functions.push((name, function_block, comment));
                    proof {
                        assert forall|id: usize, any: bool| #[trigger] self.holds_header(functions@, id, any) <==> o.holds_header(ofs, id, any) by {
                            assert(functions@ == ofs.push(functions@.last()));
                            assert(functions@.last().1 == fb);
                            if o.holds_header(ofs, id, any) {
                                if exists|j: int, q: int| 0 <= j < o.items@.len() && 0 <= q < o.items@[j]@.len() && has_header(
                                    #[trigger] o.items@[j]@[q], id, any) {
                                    let (j, q) = choose|j: int, q: int| 0 <= j < o.items@.len() && 0 <= q < o.items@[j]@.len()
                                        && has_header(#[trigger] o.items@[j]@[q], id, any);
                                    if j == top {
                                        assert(has_header(body_item(fb), id, any)) by {
                                            assert(fb.items@[q] == o.items@[top]@[q]);
                                        }
                                        assert(has_header(body_item(functions@[ofs.len() as int].1), id, any));
                                    } else {
                                        assert(self.items@[j] == o.items@[j]);
                                    }
                                } else if exists|j: int| 0 <= j < o.branches@.len() && is_header(#[trigger] o.branches@[j], id, any) {
                                    let j = choose|j: int| 0 <= j < o.branches@.len() && is_header(#[trigger] o.branches@[j], id, any);
                                    assert(j != top);
                                    assert(self.branches@[j] == o.branches@[j]);
                                } else {
                                    let f = choose|f: int| 0 <= f < ofs.len() && has_header(body_item(#[trigger] ofs[f].1), id, any);
                                    assert(functions@[f] == ofs[f]);
                                }
                            }
                            if self.holds_header(functions@, id, any) {
                                if exists|j: int, q: int| 0 <= j < self.items@.len() && 0 <= q < self.items@[j]@.len() && has_header(
                                    #[trigger] self.items@[j]@[q], id, any) {
                                    let (j, q) = choose|j: int, q: int| 0 <= j < self.items@.len() && 0 <= q < self.items@[j]@.len()
                                        && has_header(#[trigger] self.items@[j]@[q], id, any);
                                    assert(self.items@[j] == o.items@[j]);
                                } else if exists|j: int| 0 <= j < self.branches@.len() && is_header(#[trigger] self.branches@[j], id, any) {
                                    let j = choose|j: int| 0 <= j < self.branches@.len() && is_header(#[trigger] self.branches@[j], id, any);
                                    assert(self.branches@[j] == o.branches@[j]);
                                } else {
                                    let f = choose|f: int| 0 <= f < functions@.len() && has_header(body_item(#[trigger] functions@[f].1), id, any);
                                    if f == ofs.len() {
                                        let q = choose|q: int| 0 <= q < fb.items@.len() && has_header(#[trigger] fb.items@[q], id, any);
                                        assert(o.items@[top]@[q] == fb.items@[q]);
                                    } else {
                                        assert(functions@[f] == ofs[f]);
                                    }
                                }
                            }
                        }
                    }
                }
            },
            branch => {
                let block = Block { branch, items };
                let blk_item = Item::block(block, comment);
                let ghost blk = blk_item;
                let ghost mid = *self;
                self.push_item(blk_item);
                proof {
                    let par = top - 1;
                    assert(self.items@.len() == top);
                    assert(blk.item_inner == ItemInner::Block(block));
                    assert(block.branch == branch && block.items == items);
                    assert forall|j: int| 0 <= j < par implies #[trigger] self.items@[j] == o.items@[j] by {
                        assert(self.items@.drop_last()[j] == mid.items@.drop_last()[j]);
                        assert(mid.items@[j] == o.items@[j]);
                    }
                    assert forall|id: usize, any: bool| #[trigger] self.holds_header(functions@, id, any) <==> o.holds_header(ofs, id, any) by {
                        assert(has_header(blk, id, any) <==> (is_header(branch, id, any) || exists|q: int|
                            0 <= q < items@.len() && has_header(#[trigger] items@[q], id, any))) by {
                            reveal_with_fuel(has_header, 2);
                        }
                        assert(self.items@[par]@ == o.items@[par]@.push(blk));
                        if o.holds_header(ofs, id, any) {
                            if exists|j: int, q: int| 0 <= j < o.items@.len() && 0 <= q < o.items@[j]@.len() && has_header(
                                #[trigger] o.items@[j]@[q], id, any) {
                                let (j, q) = choose|j: int, q: int| 0 <= j < o.items@.len() && 0 <= q < o.items@[j]@.len()
                                    && has_header(#[trigger] o.items@[j]@[q], id, any);
                                if j == top {
                                    assert(has_header(items@[q], id, any));
                                    assert(self.items@[par]@[o.items@[par]@.len() as int] == blk);
                                } else if j == par {
                                    assert(self.items@[par]@[q] == o.items@[par]@[q]);
                                } else {
                                    assert(self.items@[j] == o.items@[j]);
                                }
                            } else if exists|j: int| 0 <= j < o.branches@.len() && is_header(#[trigger] o.branches@[j], id, any) {
                                let j = choose|j: int| 0 <= j < o.branches@.len() && is_header(#[trigger] o.branches@[j], id, any);
                                if j == top {
                                    assert(self.items@[par]@[o.items@[par]@.len() as int] == blk);
                                } else {
                                    assert(self.branches@[j] == o.branches@[j]);
                                }
                            }
                        }
                        if self.holds_header(functions@, id, any) {
                            if exists|j: int, q: int| 0 <= j < self.items@.len() && 0 <= q < self.items@[j]@.len() && has_header(
                                #[trigger] self.items@[j]@[q], id, any) {
                                let (j, q) = choose|j: int, q: int| 0 <= j < self.items@.len() && 0 <= q < self.items@[j]@.len()
                                    && has_header(#[trigger] self.items@[j]@[q], id, any);
                                if j == par {
                                    if q == o.items@[par]@.len() {
                                        assert(self.items@[par]@[q] == blk);
                                        if !is_header(branch, id, any) {
                                            let q2 = choose|q2: int| 0 <= q2 < items@.len() && has_header(#[trigger] items@[q2], id, any);
                                            assert(o.items@[top]@[q2] == items@[q2]);
                                        }
                                    } else {
                                        assert(self.items@[par]@[q] == o.items@[par]@[q]);
                                    }
                                } else {
                                    assert(self.items@[j] == o.items@[j]);
                                }
                            } else if exists|j: int| 0 <= j < self.branches@.len() && is_header(#[trigger] self.branches@[j], id, any) {
                                let j = choose|j: int| 0 <= j < self.branches@.len() && is_header(#[trigger] self.branches@[j], id, any);
                                assert(self.branches@[j] == o.branches@[j]);
                            }
                        }
                    }
                }
            },
        }
        Ok(())
    }
}

/// The header is an `if` numbered `id`, or, where `any`, an `if`, `elif` or `else` of the
/// chain `id`.
pub open spec fn is_header<L>(branch: Branch<L>, id: usize, any: bool) -> bool {
    match branch {
        Branch::If(x, _) => x == id,
        Branch::Elif(x, _) => any && x == id,
        Branch::Else(x) => any && x == id,
        _ => false,
    }
}

/// The item holds a block whose header is such (see `is_header`), at any depth.
pub open spec fn has_header<L>(item: Item<L>, id: usize, any: bool) -> bool
    decreases item,
{
    match item.item_inner {
        ItemInner::Stmt(_) => false,
        ItemInner::Block(b) => is_header(b.branch, id, any) || exists|q: int|
            0 <= q < b.items@.len() && has_header(#[trigger] b.items@[q], id, any),
    }
}

/// The item holds an `if` block numbered `id`, at any depth.
pub open spec fn has_if<L>(item: Item<L>, id: usize) -> bool {
    has_header(item, id, false)
}

/// Some function of `fs` holds a block whose header is such (see `is_header`).
pub open spec fn fns_have_header<L>(fs: Seq<(String, Block<L>, Option<String>)>, id: usize, any: bool) -> bool {
    exists|f: int| 0 <= f < fs.len() && has_header(body_item(#[trigger] fs[f].1), id, any)
}

/// The number of `if` header lines.
pub open spec fn count_ifs<L>(lines: Seq<Line<L>>) -> nat
    decreases lines.len(),
{
    if lines.len() == 0 {
        0
    } else {
        count_ifs(lines.drop_last()) + if lines.last().item matches LineItem::Branch(Branch::If(..)) {
            1nat
        } else {
            0nat
        }
    }
}

impl<L: Literal> Nesting<L> {
    /// The open blocks, or the functions `fs`, hold a block whose header is such (see
    /// `is_header`): among the items so far or as an open header.
    pub open spec fn holds_header(&self, fs: Seq<(String, Block<L>, Option<String>)>, id: usize, any: bool) -> bool {
        ||| exists|j: int, q: int| 0 <= j < self.items@.len() && 0 <= q < self.items@[j]@.len() && has_header(
            #[trigger] self.items@[j]@[q],
            id,
            any,
        )
        ||| exists|j: int| 0 <= j < self.branches@.len() && is_header(#[trigger] self.branches@[j], id, any)
        ||| fns_have_header(fs, id, any)
    }
}

/// Opening a block keeps the `if` blocks held, and adds its header's.
proof fn lemma_holds_after_open<L: Literal>(o: Nesting<L>, n: Nesting<L>, fs: Seq<(String, Block<L>, Option<String>)>, branch: Branch<L>)
    requires
        o.branches@.len() == o.items@.len(),
        n.items@.drop_last() == o.items@,
        n.items@.len() == o.items@.len() + 1,
        n.items@.last()@.len() == 0,
        n.branches@ == o.branches@.push(branch),
    ensures
        forall|id: usize, any: bool| #[trigger] n.holds_header(fs, id, any) <==> (o.holds_header(fs, id, any) || is_header(branch, id, any)),
{
    let top = o.items@.len() as int;
    assert forall|id: usize, any: bool| #[trigger] n.holds_header(fs, id, any) <==> (o.holds_header(fs, id, any) || is_header(branch, id, any)) by {
        if o.holds_header(fs, id, any) {
            if exists|j: int, q: int| 0 <= j < o.items@.len() && 0 <= q < o.items@[j]@.len() && has_header(#[trigger] o.items@[j]@[q], id, any) {
                let (j, q) = choose|j: int, q: int| 0 <= j < o.items@.len() && 0 <= q < o.items@[j]@.len() && has_header(#[trigger] o.items@[j]@[q], id, any);
                assert(n.items@.drop_last()[j] == n.items@[j]);
            } else if exists|j: int| 0 <= j < o.branches@.len() && is_header(#[trigger] o.branches@[j], id, any) {
                let j = choose|j: int| 0 <= j < o.branches@.len() && is_header(#[trigger] o.branches@[j], id, any);
                assert(n.branches@[j] == o.branches@[j]);
            }
        }
        if is_header(branch, id, any) {
            assert(n.branches@[top] == branch);
        }
        if n.holds_header(fs, id, any) {
            if exists|j: int, q: int| 0 <= j < n.items@.len() && 0 <= q < n.items@[j]@.len() && has_header(#[trigger] n.items@[j]@[q], id, any) {
                let (j, q) = choose|j: int, q: int| 0 <= j < n.items@.len() && 0 <= q < n.items@[j]@.len() && has_header(#[trigger] n.items@[j]@[q], id, any);
                assert(j != top);
                assert(n.items@.drop_last()[j] == n.items@[j]);
            } else if exists|j: int| 0 <= j < n.branches@.len() && is_header(#[trigger] n.branches@[j], id, any) {
                let j = choose|j: int| 0 <= j < n.branches@.len() && is_header(#[trigger] n.branches@[j], id, any);
                if j < top {
                    assert(n.branches@[j] == o.branches@[j]);
                }
            }
        }
    }
}

/// Adding an item to the innermost block keeps the `if` blocks held, and adds the item's.
proof fn lemma_holds_after_push<L: Literal>(o: Nesting<L>, n: Nesting<L>, fs: Seq<(String, Block<L>, Option<String>)>, item: Item<L>)
    requires
        o.items@.len() >= 1,
        n.items@.len() == o.items@.len(),
        n.items@.drop_last() == o.items@.drop_last(),
        n.items@.last()@ == o.items@.last()@.push(item),
        n.branches@ == o.branches@,
    ensures
        forall|id: usize, any: bool| #[trigger] n.holds_header(fs, id, any) <==> (o.holds_header(fs, id, any) || has_header(item, id, any)),
{
    let top = o.items@.len() - 1;
    assert forall|id: usize, any: bool| #[trigger] n.holds_header(fs, id, any) <==> (o.holds_header(fs, id, any) || has_header(item, id, any)) by {
        assert forall|j: int| 0 <= j < top implies #[trigger] n.items@[j] == o.items@[j] by {
            assert(n.items@.drop_last()[j] == o.items@.drop_last()[j]);
            assert(n.items@.drop_last()[j] == n.items@[j]);
            assert(o.items@.drop_last()[j] == o.items@[j]);
        }
        assert(n.items@[top]@ == o.items@[top]@.push(item));
        if o.holds_header(fs, id, any) {
            if exists|j: int, q: int| 0 <= j < o.items@.len() && 0 <= q < o.items@[j]@.len() && has_header(#[trigger] o.items@[j]@[q], id, any) {
                let (j, q) = choose|j: int, q: int| 0 <= j < o.items@.len() && 0 <= q < o.items@[j]@.len() && has_header(#[trigger] o.items@[j]@[q], id, any);
                if j == top {
                    assert(n.items@[top]@[q] == o.items@[top]@[q]);
                } else {
                    assert(n.items@[j] == o.items@[j]);
                    assert(has_header(n.items@[j]@[q], id, any));
                }
            } else if exists|j: int| 0 <= j < o.branches@.len() && is_header(#[trigger] o.branches@[j], id, any) {
                let j = choose|j: int| 0 <= j < o.branches@.len() && is_header(#[trigger] o.branches@[j], id, any);
                assert(n.branches@[j] == o.branches@[j]);
            }
        }
        if has_header(item, id, any) {
            assert(n.items@[top]@[o.items@[top]@.len() as int] == item);
        }
        if n.holds_header(fs, id, any) {
            if exists|j: int, q: int| 0 <= j < n.items@.len() && 0 <= q < n.items@[j]@.len() && has_header(#[trigger] n.items@[j]@[q], id, any) {
                let (j, q) = choose|j: int, q: int| 0 <= j < n.items@.len() && 0 <= q < n.items@[j]@.len() && has_header(#[trigger] n.items@[j]@[q], id, any);
                if j == top && q < o.items@[top]@.len() {
                    assert(n.items@[top]@[q] == o.items@[top]@[q]);
                } else if j < top {
                    assert(n.items@[j] == o.items@[j]);
                    assert(has_header(o.items@[j]@[q], id, any));
                }
            } else if exists|j: int| 0 <= j < n.branches@.len() && is_header(#[trigger] n.branches@[j], id, any) {
                let j = choose|j: int| 0 <= j < n.branches@.len() && is_header(#[trigger] n.branches@[j], id, any);
                assert(n.branches@[j] == o.branches@[j]);
            }
        }
    }
}

/// An `if` or `elif` block.
pub open spec fn is_if_block<L>(item: Item<L>) -> bool {
    item.item_inner matches ItemInner::Block(block) && (block.branch is If || block.branch is Elif)
}

/// The program of a flat list of lines: its statements in order, and no functions.
pub open spec fn flat_program<L>(r: MypsLexerResult<(Item<L>, Functions<L>)>, lines: Seq<Line<L>>) -> bool {
    &&& r matches Ok((item, fs))
    &&& r->Ok_0.1@.len() == 0
    &&& r->Ok_0.0.item_inner matches ItemInner::Block(b)
    &&& r->Ok_0.0.item_inner->Block_0.items@ == stmt_items(lines)
}

/// Whether the last item of `items` is an `if` or `elif` block.
fn ends_with_if<L: Literal>(items: &Vec<Item<L>>) -> (b: bool)
    ensures
        b <==> (items@.len() > 0 && is_if_block(items@.last())),
{
    if items.len() == 0 {
        false
    } else {
        items[items.len() - 1].is_if()
    }
}

/// The line's item is the error met reading it, and `r` fails with that error.
pub open spec fn failed_with<L>(line: Line<L>, r: MypsLexerResult<(Item<L>, Functions<L>)>) -> bool {
    line.item matches LineItem::Failed(e) && r == Err::<(Item<L>, Functions<L>), MypsLexerError>(e)
}

/// The statements of flat lines read no undefined name (no name is defined) and call no
/// user function (none is defined).
pub open spec fn flat_ok<L>(lines: Seq<Line<L>>) -> bool {
    forall|i: int|
        0 <= i < lines.len() ==> stmt_ok((#[trigger] lines[i]).item->Stmt_0, Seq::empty()) && !(
        lines[i].item->Stmt_0 is FunctionCall && lines[i].item->Stmt_0->FunctionCall_0 is User)
}

/// The program of flat lines passes the checks exactly when its statements do.
proof fn lemma_flat_ok<L>(item: Item<L>, lines: Seq<Line<L>>)
    requires
        flat(lines),
        item.item_inner matches ItemInner::Block(b) && b.branch is Program && b.items@ == stmt_items(lines),
    ensures
        program_ok(item, Seq::empty()) <==> flat_ok(lines),
{
    let items = item.item_inner->Block_0.items@;
    let fs = Seq::<(String, Block<L>, Option<String>)>::empty();
    assert forall|i: int| 0 <= i < lines.len() implies #[trigger] items[i] == Item {
        comment: lines[i].comment,
        item_inner: ItemInner::Stmt(lines[i].item->Stmt_0),
    } by {}
    if program_ok(item, fs) {
        assert forall|i: int| 0 <= i < lines.len() implies stmt_ok((#[trigger] lines[i]).item->Stmt_0, Seq::empty())
            && !(lines[i].item->Stmt_0 is FunctionCall && lines[i].item->Stmt_0->FunctionCall_0 is User) by {
            assert(item_ok(items[i], Seq::empty()));
            if lines[i].item->Stmt_0 is FunctionCall && lines[i].item->Stmt_0->FunctionCall_0 is User {
                let k = lines[i].item->Stmt_0->FunctionCall_0->User_0@;
                assert(calls(items[i], k));
                assert(calls(item, k));
                lemma_reached_call(item, fs, k);
                assert(defined(fn_names(fs), k));
            }
        }
    }
    if flat_ok(lines) {
        assert forall|i: int| 0 <= i < items.len() implies item_ok(#[trigger] items[i], Seq::empty()) by {
            assert(stmt_ok(lines[i].item->Stmt_0, Seq::empty()));
        }
        assert(item_ok(item, Seq::empty()));
        assert forall|k: Seq<char>| !#[trigger] calls(item, k) by {
            if calls(item, k) {
                let i = choose|i: int| 0 <= i < items.len() && calls(#[trigger] items[i], k);
                assert(!(lines[i].item->Stmt_0 is FunctionCall && lines[i].item->Stmt_0->FunctionCall_0 is User));
            }
        }
        assert(call_closed(item, fs, Set::empty()));
        assert forall|k: Seq<char>| !#[trigger] reached(item, fs, k) by {
            assert(call_closed(item, fs, Set::empty()));
        }
    }
}

/// All lines are statements at indent 0.
pub open spec fn flat<L>(lines: Seq<Line<L>>) -> bool {
    forall|i: int| 0 <= i < lines.len() ==> (#[trigger] lines[i]).indent == 0 && lines[i].item is Stmt
}

/// The items of statement lines, in order.
pub open spec fn stmt_items<L>(lines: Seq<Line<L>>) -> Seq<Item<L>> {
    lines.map_values(|l: Line<L>| Item { comment: l.comment, item_inner: ItemInner::Stmt(l.item->Stmt_0) })
}

/// An item is the block of a whole program.
pub open spec fn is_program_item<L>(item: Item<L>) -> bool {
    &&& item.comment is None
    &&& item.item_inner matches ItemInner::Block(b) && b.branch is Program
}

/// Nests the lines of a program into blocks by their indents: each block header opens a
/// block that the lines indented further than it fill. `if` headers are numbered in order;
/// an `elif` or `else` must follow an `if` or `elif` block, and takes the number of the block
/// it follows. `def` blocks become the functions.
pub fn compile_program_item<L: Literal>(lines: Vec<Line<L>>) -> (r: MypsLexerResult<(Item<L>, Functions<L>)>)
    requires
        forall|i: int| 0 <= i < lines@.len() ==> (#[trigger] lines@[i]).indent < usize::MAX,
    ensures
        r matches Ok((item, fs)) ==> is_program_item(item) && names_unique(fs@) && headed_by_name(fs@),
        r is Err ==> (r matches Err(MypsLexerError::ExpectedIndent(_)) || r matches Err(
            MypsLexerError::WrongIndent(_, _)) || r matches Err(MypsLexerError::MisplacedElif)
            || r matches Err(MypsLexerError::MisplacedElse) || r matches Err(
            MypsLexerError::RedefinedFunction(_)) || r matches Err(MypsLexerError::NestedFunction(_))
            || r matches Err(MypsLexerError::WrongRule(_)) || exists|i: int|
            0 <= i < lines@.len() && failed_with(#[trigger] lines@[i], r)),
        flat(lines@) ==> flat_program(r, lines@),
        r matches Ok((item, fs)) ==> forall|id: usize| (has_if(item, id) || fns_have_header(fs@, id, false)) <==> id < count_ifs(
            lines@,
        ),
        r matches Ok((item, fs)) ==> forall|id: usize| has_header(item, id, true) || fns_have_header(fs@, id, true) ==> id
            < count_ifs(lines@),
{
    let ghost orig = lines@;
    let mut rest = lines;
    let mut functions: Functions<L> = Vec::new();
    let mut nest = Nesting { items: vec![Vec::new()], comments: vec![None], branches: vec![Branch::Program] };
    let mut indent_stack: Vec<usize> = vec![0];
    let mut curr_indent: usize = 0;
    let mut expect_indent = false;
    let mut ifs_seen: usize = 0;
    let mut i: usize = 0;
    let n = rest.len();
    while i < n
        invariant
            n == orig.len(),
            i <= n,
            ifs_seen <= i,
            rest@ == orig.subrange(i as int, n as int),
            orig == lines@,
            curr_indent < usize::MAX,
            forall|j: int| 0 <= j < orig.len() ==> (#[trigger] orig[j]).indent < usize::MAX,
            nest.wf(),
            names_unique(functions@),
            headed_by_name(functions@),
            flat(orig) ==> nest.depth() == 1 && nest.items@[0]@ == stmt_items(orig.take(i as int))
                && !expect_indent && curr_indent == 0 && functions@.len() == 0 && indent_stack@ == seq![0usize],
            ifs_seen == count_ifs(orig.take(i as int)),
            forall|id: usize| #[trigger] nest.holds_header(functions@, id, false) <==> id < ifs_seen,
            forall|id: usize| #[trigger] nest.holds_header(functions@, id, true) ==> id < ifs_seen,
        decreases n - i,
    {
        let line = rest.remove(0);
        assert(line == orig[i as int]);
        let ghost line_item = orig[i as int].item;
        let Line { indent, item, comment } = line;
        if expect_indent {
            if indent <= curr_indent {
                return Err(MypsLexerError::expected_indent(curr_indent + 1));
            }
            indent_stack.push(indent);
            curr_indent = indent;
            expect_indent = false;
        } else if indent < curr_indent {
            loop
                invariant
                    orig == lines@,
                    !flat(orig),
                    nest.wf(),
                    names_unique(functions@),
                    headed_by_name(functions@),
                    forall|id: usize| #[trigger] nest.holds_header(functions@, id, false) <==> id < ifs_seen,
                    forall|id: usize| #[trigger] nest.holds_header(functions@, id, true) ==> id < ifs_seen,
                decreases nest.depth(),
            {
                if indent_stack.len() == 0 {
                    break;
                }
                let top = indent_stack[indent_stack.len() - 1];
                if !(indent < top) {
                    break;
                }
                if nest.items.len() < 2 {
                    break;
                }
                nest.nest_next_block(&mut functions, &mut indent_stack)?;
            }
            curr_indent = if indent_stack.len() > 0 { indent_stack[indent_stack.len() - 1] } else { 0 };
            if indent != curr_indent {
                return Err(MypsLexerError::wrong_indent(curr_indent, indent));
            }
        }
        match item {
            LineItem::Branch(branch) => {
                let branch = match branch {
                    Branch::If(_, cond) => {
                        let id = ifs_seen;
                        ifs_seen = ifs_seen + 1;
                        Branch::If(id, cond)
                    },
                    Branch::Elif(_, cond) => {
                        let head = &nest.items[nest.items.len() - 1];
                        if !ends_with_if(head) {
                            return Err(MypsLexerError::misplaced_elif());
                        }
                        match head[head.len() - 1].if_elif_else_index() {
                            Some(id) => {
                                proof {
                                    let top = nest.items@.len() - 1;
                                    let q = head@.len() - 1;
                                    assert(head@[q] == nest.items@[top]@[q]);
                                    assert(has_header(head@[q], id, true));
                                    assert(nest.holds_header(functions@, id, true));
                                }
                                Branch::Elif(id, cond)
                            },
                            None => {
                                return Err(MypsLexerError::misplaced_elif());
                            },
                        }
                    },
                    Branch::Else(_) => {
                        let head = &nest.items[nest.items.len() - 1];
                        if !ends_with_if(head) {
                            return Err(MypsLexerError::misplaced_else());
                        }
                        match head[head.len() - 1].if_elif_else_index() {
                            Some(id) => {
                                proof {
                                    let top = nest.items@.len() - 1;
                                    let q = head@.len() - 1;
                                    assert(head@[q] == nest.items@[top]@[q]);
                                    assert(has_header(head@[q], id, true));
                                    assert(nest.holds_header(functions@, id, true));
                                }
                                Branch::Else(id)
                            },
                            None => {
                                return Err(MypsLexerError::misplaced_else());
                            },
                        }
                    },
                    Branch::Function(_) => {
                        return Err(MypsLexerError::wrong_rule("a block header or a statement"));
                    },
                    other => other,
                };
                let ghost before = nest;
                let ghost b = branch;
                nest.open_block(branch, comment);
                proof {
                    lemma_holds_after_open(before, nest, functions@, b);
                }
                expect_indent = true;
            },
            LineItem::Failed(e) => {
                let r = Err(e);
                assert(failed_with(orig[i as int], r));
                return r;
            },
            LineItem::Stmt(stmt) => {
                let st = Item::statement(stmt, comment);
                let ghost before = nest;
                let ghost sti = st;
                nest.push_item(st);
                proof {
                    lemma_holds_after_push(before, nest, functions@, sti);
                    assert forall|id: usize, any: bool| !has_header(sti, id, any) by {}
                    if flat(orig) {
                        assert(orig.take(i + 1) == orig.take(i as int).push(orig[i as int]));
                        assert(stmt_items(orig.take(i + 1)) == stmt_items(orig.take(i as int)).push(
                            stmt_items(orig)[i as int]));
                    }
                }
            },
        }
        proof {
            assert(orig.take(i + 1).drop_last() == orig.take(i as int));
            assert(orig.take(i + 1).last() == orig[i as int]);
        }
        i = i + 1;
    }
    proof {
        assert(orig.take(n as int) == orig);
    }
    while nest.items.len() > 1
        invariant
            orig == lines@,
            nest.wf(),
            names_unique(functions@),
            headed_by_name(functions@),
            flat(orig) ==> nest.depth() == 1 && nest.items@[0]@ == stmt_items(orig) && functions@.len() == 0,
            forall|id: usize| #[trigger] nest.holds_header(functions@, id, false) <==> id < count_ifs(orig),
            forall|id: usize| #[trigger] nest.holds_header(functions@, id, true) ==> id < count_ifs(orig),
        decreases nest.depth(),
    {
        nest.nest_next_block(&mut functions, &mut indent_stack)?;
    }
    let ghost last = nest;
    let program_items = nest.items.pop().unwrap();
    let comment = nest.comments.pop().unwrap();
    let program_branch = nest.branches.pop().unwrap();
    let program_block = Block::new(program_branch, program_items);
    let program_item = Item::block(program_block, comment);
    proof {
        assert(program_items == last.items@[0]);
        assert forall|id: usize, any: bool| (has_header(program_item, id, any) || fns_have_header(functions@, id, any))
            == #[trigger] last.holds_header(functions@, id, any) by {
            if exists|j: int, q: int| 0 <= j < last.items@.len() && 0 <= q < last.items@[j]@.len() && has_header(
                #[trigger] last.items@[j]@[q], id, any) {
                let (j, q) = choose|j: int, q: int| 0 <= j < last.items@.len() && 0 <= q < last.items@[j]@.len()
                    && has_header(#[trigger] last.items@[j]@[q], id, any);
                assert(j == 0);
                assert(program_block.items@[q] == last.items@[0]@[q]);
            }
            if exists|j: int| 0 <= j < last.branches@.len() && is_header(#[trigger] last.branches@[j], id, any) {
                let j = choose|j: int| 0 <= j < last.branches@.len() && is_header(#[trigger] last.branches@[j], id, any);
                assert(j == 0);
            }
            if has_header(program_item, id, any) {
                let q = choose|q: int| 0 <= q < program_block.items@.len() && has_header(#[trigger] program_block.items@[q], id, any);
                assert(has_header(last.items@[0]@[q], id, any));
            }
        }
        assert forall|id: usize| (has_if(program_item, id) || fns_have_header(functions@, id, false)) <==> id < count_ifs(orig) by {
            assert(last.holds_header(functions@, id, false) <==> id < count_ifs(orig));
        }
        assert forall|id: usize| has_header(program_item, id, true) || fns_have_header(functions@, id, true) implies id
            < count_ifs(orig) by {
            assert(last.holds_header(functions@, id, true) ==> id < count_ifs(orig));
        }
    }
    Ok((program_item, functions))
}

/// The index of the function named `name`.
fn find_function<L: Literal>(fs: &Functions<L>, name: &String) -> (r: Option<usize>)
    ensures
        r matches Some(i) ==> i < fs@.len() && fs@[i as int].0@ == name@,
        r is None ==> !defined(fn_names(fs@), name@),
{
    let mut i: usize = 0;
    while i < fs.len()
        invariant
            i <= fs.len(),
            forall|j: int| 0 <= j < i ==> (#[trigger] fs@[j]).0@ != name@,
        decreases fs.len() - i,
    {
        if fs[i].0 == *name {
            return Some(i);
        }
        i = i + 1;
    }
    assert forall|j: int| 0 <= j < fn_names(fs@).len() implies (#[trigger] fn_names(fs@)[j])@
        != name@ by {
        assert(fn_names(fs@)[j] == fs@[j].0);
    }
    None
}

/// The item of a function body.
pub open spec fn body_item<L>(b: Block<L>) -> Item<L> {
    Item { comment: None, item_inner: ItemInner::Block(b) }
}

/// `c` holds every function that the program calls, and every function that the body of a
/// function it holds calls.
pub open spec fn call_closed<L>(item: Item<L>, fs: Seq<(String, Block<L>, Option<String>)>, c: Set<Seq<char>>) -> bool {
    &&& forall|k: Seq<char>| #[trigger] calls(item, k) ==> c.contains(k)
    &&& forall|i: int, k: Seq<char>|
        0 <= i < fs.len() && c.contains(fs[i].0@) && #[trigger] calls(body_item(fs[i].1), k) ==> c.contains(k)
}

/// The function named `k` is reached from the program through calls: every set closed
/// under calls holds it.
pub open spec fn reached<L>(item: Item<L>, fs: Seq<(String, Block<L>, Option<String>)>, k: Seq<char>) -> bool {
    forall|c: Set<Seq<char>>| #[trigger] call_closed(item, fs, c) ==> c.contains(k)
}

/// A program passes the checks: it reads no variable that is not an alias (no aliases are
/// defined by the checks, so it reads none), and every function that it reaches through
/// calls is defined and has a body that passes them too.
pub open spec fn program_ok<L>(item: Item<L>, fs: Seq<(String, Block<L>, Option<String>)>) -> bool {
    &&& item_ok(item, Seq::empty())
    &&& forall|k: Seq<char>| #[trigger] reached(item, fs, k) ==> defined(fn_names(fs), k)
    &&& forall|i: int| 0 <= i < fs.len() && #[trigger] reached(item, fs, fs[i].0@) ==> item_ok(body_item(fs[i].1), Seq::empty())
}

/// A function that the program calls is reached.
proof fn lemma_reached_call<L>(item: Item<L>, fs: Seq<(String, Block<L>, Option<String>)>, k: Seq<char>)
    requires
        calls(item, k),
    ensures
        reached(item, fs, k),
{
}

/// A function that the body of a reached function calls is reached.
proof fn lemma_reached_step<L>(item: Item<L>, fs: Seq<(String, Block<L>, Option<String>)>, i: int, k: Seq<char>)
    requires
        0 <= i < fs.len(),
        reached(item, fs, fs[i].0@),
        calls(body_item(fs[i].1), k),
    ensures
        reached(item, fs, k),
{
    assert forall|c: Set<Seq<char>>| #[trigger] call_closed(item, fs, c) implies c.contains(k) by {
        assert(c.contains(fs[i].0@));
    }
}

/// How many of the flags are set.
pub open spec fn count_set(s: Seq<bool>) -> nat
    decreases s.len(),
{
    if s.len() == 0 {
        0
    } else {
        count_set(s.drop_last()) + if s.last() { 1nat } else { 0nat }
    }
}

/// The count of set flags is at most their number.
proof fn lemma_count_bound(s: Seq<bool>)
    ensures
        count_set(s) <= s.len(),
    decreases s.len(),
{
    if s.len() > 0 {
        lemma_count_bound(s.drop_last());
    }
}

/// Setting a flag that was clear adds one to the count.
proof fn lemma_count_set(s: Seq<bool>, i: int)
    requires
        0 <= i < s.len(),
        !s[i],
    ensures
        count_set(s.update(i, true)) == count_set(s) + 1,
    decreases s.len(),
{
    if i == s.len() - 1 {
        assert(s.update(i, true).drop_last() =~= s.drop_last());
    } else {
        lemma_count_set(s.drop_last(), i);
        assert(s.update(i, true).drop_last() =~= s.drop_last().update(i, true));
    }
}

/// Marks the functions named in `names` as needed; fails on a name that no function has.
fn mark_needed<L: Literal>(functions: &Functions<L>, names: &Vec<String>, needed: &mut Vec<bool>) -> (r: MypsLexerResult<()>)
    requires
        old(needed)@.len() == functions@.len(),
    ensures
        final(needed)@.len() == functions@.len(),
        forall|i: int| 0 <= i < functions@.len() && #[trigger] final(needed)@[i] ==> old(needed)@[i] || defined(names@,
            functions@[i].0@),
        forall|i: int| 0 <= i < functions@.len() && #[trigger] old(needed)@[i] ==> final(needed)@[i],
        r is Ok ==> forall|k: Seq<char>| #[trigger] defined(names@, k) ==> exists|j: int|
            0 <= j < functions@.len() && final(needed)@[j] && (#[trigger] functions@[j]).0@ == k,
        r matches Err(e) ==> (e matches MypsLexerError::UndefinedFunction(s) && defined(names@, s@) && !defined(
            fn_names(functions@),
            s@,
        )),
{
    let mut q: usize = 0;
    while q < names.len()
        invariant
            q <= names@.len(),
            needed@.len() == functions@.len(),
            forall|i: int| 0 <= i < functions@.len() && #[trigger] needed@[i] ==> old(needed)@[i] || defined(names@,
                functions@[i].0@),
            forall|i: int| 0 <= i < functions@.len() && #[trigger] old(needed)@[i] ==> needed@[i],
            forall|qq: int| 0 <= qq < q ==> exists|j: int|
                0 <= j < functions@.len() && needed@[j] && (#[trigger] functions@[j]).0@ == (#[trigger] names@[qq])@,
        decreases names.len() - q,
    {
        match find_function(functions, &names[q]) {
            None => {
                proof {
                    assert(defined(names@, names@[q as int]@));
                }
                return Err(MypsLexerError::undefined_function(&names[q]));
            },
            Some(i) => {
                let ghost n0 = needed@;
                needed.set(i, true);
                proof {
                    assert(defined(names@, functions@[i as int].0@)) by {
                        assert(names@[q as int]@ == functions@[i as int].0@);
                    }
                    assert forall|qq: int| 0 <= qq < q + 1 implies exists|j: int|
                        0 <= j < functions@.len() && needed@[j] && (#[trigger] functions@[j]).0@ == (#[trigger] names@[qq])@ by {
                        if qq < q {
                            let j = choose|j: int| 0 <= j < functions@.len() && n0[j] && (#[trigger] functions@[j]).0@ == names@[qq]@;
                            assert(needed@[j]);
                        } else {
                            assert(needed@[i as int]);
                        }
                    }
                }
            },
        }
        q = q + 1;
    }
    proof {
        assert forall|k: Seq<char>| #[trigger] defined(names@, k) implies exists|j: int|
            0 <= j < functions@.len() && needed@[j] && (#[trigger] functions@[j]).0@ == k by {
            let qq = choose|qq: int| 0 <= qq < names@.len() && (#[trigger] names@[qq])@ == k;
        }
    }
    Ok(())
}

/// Checks a program and its functions: the program item, then, through calls, the body of
/// each function that it reaches, once each, and that every function called is defined.
pub fn check_program<L: Literal>(item: &Item<L>, functions: &Functions<L>) -> (r: MypsLexerResult<()>)
    requires
        names_unique(functions@),
    ensures
        r is Ok <==> program_ok(*item, functions@),
        r matches Err(e) ==> e is UndefinedAlias || e is UndefinedFunction,
        r matches Err(MypsLexerError::UndefinedFunction(k)) ==> reached(*item, functions@, k@) && !defined(
            fn_names(functions@),
            k@,
        ),
        r matches Err(MypsLexerError::UndefinedAlias(_)) ==> !item_ok(*item, Seq::empty()) || exists|i: int|
            0 <= i < functions@.len() && #[trigger] reached(*item, functions@, functions@[i].0@) && !item_ok(
                body_item(functions@[i].1),
                Seq::empty(),
            ),
{
    let aliases: Vec<String> = Vec::new();
    let mut top: Vec<String> = Vec::new();
    item.analyze(&aliases, &mut top)?;
    assert(forall|k: Seq<char>| defined(top@, k) <==> calls(*item, k));
    let n = functions.len();
    let mut needed: Vec<bool> = Vec::new();
    let mut checked: Vec<bool> = Vec::new();
    while needed.len() < n
        invariant
            needed@.len() == checked@.len(),
            needed@.len() <= n,
            forall|i: int| 0 <= i < needed@.len() ==> !(#[trigger] needed@[i]) && !checked@[i],
        decreases n - needed@.len(),
    {
        needed.push(false);
        checked.push(false);
    }
    assert forall|i: int| 0 <= i < n implies !#[trigger] checked@[i] by {
        assert(!needed@[i]);
    }
    let r = mark_needed(functions, &top, &mut needed);
    if r.is_err() {
        proof {
            let k = r->Err_0->UndefinedFunction_0@;
            lemma_reached_call(*item, functions@, k);
        }
        return r;
    }
    proof {
        assert forall|i: int| 0 <= i < n && #[trigger] needed@[i] implies reached(*item, functions@, functions@[i].0@) by {
            lemma_reached_call(*item, functions@, functions@[i].0@);
        }
        lemma_count_bound(checked@);
    }
    loop
        invariant
            aliases@ == Seq::<String>::empty(),
            names_unique(functions@),
            n == functions@.len(),
            needed@.len() == n,
            checked@.len() == n,
            item_ok(*item, Seq::empty()),
            forall|i: int| 0 <= i < n && #[trigger] needed@[i] ==> reached(*item, functions@, functions@[i].0@),
            forall|k: Seq<char>| #[trigger] calls(*item, k) ==> exists|j: int|
                0 <= j < n && needed@[j] && (#[trigger] functions@[j]).0@ == k,
            forall|i: int| 0 <= i < n && #[trigger] checked@[i] ==> needed@[i] && item_ok(body_item(functions@[i].1), Seq::empty()),
            forall|i: int, k: Seq<char>| 0 <= i < n && checked@[i] && #[trigger] calls(body_item(functions@[i].1), k) ==> exists|j: int|
                0 <= j < n && needed@[j] && (#[trigger] functions@[j]).0@ == k,
            count_set(checked@) <= n,
        decreases n - count_set(checked@),
    {
        let mut i: usize = 0;
        while i < n && !(needed[i] && !checked[i])
            invariant
                i <= n,
                n == needed@.len(),
                n == checked@.len(),
                forall|x: int| 0 <= x < i ==> !(#[trigger] needed@[x] && !checked@[x]),
            decreases n - i,
        {
            i = i + 1;
        }
        if i == n {
            proof {
                let c = Set::new(|k: Seq<char>| exists|j: int| 0 <= j < n && needed@[j] && (#[trigger] functions@[j]).0@ == k);
                assert(call_closed(*item, functions@, c)) by {
                    assert forall|ii: int, k: Seq<char>| 0 <= ii < functions@.len() && c.contains(functions@[ii].0@)
                        && #[trigger] calls(body_item(functions@[ii].1), k) implies c.contains(k) by {
                        let j = choose|j: int| 0 <= j < n && needed@[j] && (#[trigger] functions@[j]).0@ == functions@[ii].0@;
                        assert(j == ii);
                        assert(checked@[ii]);
                    }
                }
                assert forall|k: Seq<char>| #[trigger] reached(*item, functions@, k) implies defined(fn_names(functions@), k) by {
                    assert(c.contains(k));
                    let j = choose|j: int| 0 <= j < n && needed@[j] && (#[trigger] functions@[j]).0@ == k;
                    assert(fn_names(functions@)[j] == functions@[j].0);
                }
                assert forall|ii: int| 0 <= ii < functions@.len() && #[trigger] reached(*item, functions@, functions@[ii].0@)
                    implies item_ok(body_item(functions@[ii].1), Seq::empty()) by {
                    assert(c.contains(functions@[ii].0@));
                    let j = choose|j: int| 0 <= j < n && needed@[j] && (#[trigger] functions@[j]).0@ == functions@[ii].0@;
                    assert(j == ii);
                    assert(checked@[ii]);
                }
            }
            return Ok(());
        }
        let mut more: Vec<String> = Vec::new();
        let ra = functions[i].1.analyze(&aliases, &mut more);
        proof {
            assert(body_item(functions@[i as int].1) == (Item { comment: None, item_inner: ItemInner::Block(functions@[i as int].1) }));
        }
        if ra.is_err() {
            return ra;
        }
        assert(forall|k: Seq<char>| defined(more@, k) <==> calls(body_item(functions@[i as int].1), k));
        let ghost needed0 = needed@;
        let rm = mark_needed(functions, &more, &mut needed);
        if rm.is_err() {
            proof {
                let k = rm->Err_0->UndefinedFunction_0@;
                lemma_reached_step(*item, functions@, i as int, k);
            }
            return rm;
        }
        let ghost checked0 = checked@;
        checked.set(i, true);
        proof {
            lemma_count_set(checked0, i as int);
            lemma_count_bound(checked@);
            assert forall|x: int| 0 <= x < n && #[trigger] needed@[x] implies reached(*item, functions@, functions@[x].0@) by {
                if !needed0[x] {
                    lemma_reached_step(*item, functions@, i as int, functions@[x].0@);
                }
            }
            assert forall|x: int, k: Seq<char>| 0 <= x < n && checked@[x] && #[trigger] calls(body_item(functions@[x].1), k)
                implies exists|j: int| 0 <= j < n && needed@[j] && (#[trigger] functions@[j]).0@ == k by {
                if x == i {
                    assert(defined(more@, k));
                } else {
                    assert(checked0[x]);
                    let j = choose|j: int| 0 <= j < n && needed0[j] && (#[trigger] functions@[j]).0@ == k;
                    assert(needed@[j]);
                }
            }
            assert forall|k: Seq<char>| #[trigger] calls(*item, k) implies exists|j: int|
                0 <= j < n && needed@[j] && (#[trigger] functions@[j]).0@ == k by {
                let j = choose|j: int| 0 <= j < n && needed0[j] && (#[trigger] functions@[j]).0@ == k;
                assert(needed@[j]);
            }
        }
    }
}

/// Lexes the lines of a program: nests them into the program item and its functions, then
/// checks them (see [`check_program`]).
pub fn lex_lines<L: Literal>(lines: Vec<Line<L>>) -> (r: MypsLexerResult<(Item<L>, Functions<L>)>)
    requires
        forall|i: int| 0 <= i < lines@.len() ==> (#[trigger] lines@[i]).indent < usize::MAX,
    ensures
        r matches Ok((item, fs)) ==> is_program_item(item) && names_unique(fs@) && headed_by_name(fs@)
            && program_ok(item, fs@),
        flat(lines@) && r is Ok ==> flat_program(r, lines@),
        flat(lines@) ==> (r is Ok <==> flat_ok(lines@)),
{
    let ghost orig = lines@;
    let (program_item, functions) = compile_program_item(lines)?;
    proof {
        if flat(orig) {
            lemma_flat_ok(program_item, orig);
            assert(functions@ =~= Seq::<(String, Block<L>, Option<String>)>::empty());
        }
    }
    check_program(&program_item, &functions)?;
    Ok((program_item, functions))
}

/// Lexes the node of a whole program: reads its lines (see [`read_lines`]) and lexes them
/// (see [`lex_lines`]).
pub fn lex_program_pair<L: Literal>(program: &PairTree<L>) -> (r: MypsLexerResult<(Item<L>, Functions<L>)>)
    ensures
        program_heads(program.inner@) is None ==> r is Err,
        r matches Ok((item, fs)) ==> is_program_item(item) && names_unique(fs@) && headed_by_name(fs@)
            && program_ok(item, fs@),
        program_heads(program.inner@) is Some && flat_heads(program_heads(program.inner@)->0) && heads_accepted(
            program_heads(program.inner@)->0,
        ) ==> r is Ok,
        program_heads(program.inner@) is Some && flat_heads(program_heads(program.inner@)->0) ==> (r matches Ok(
            (item, fs),
        ) ==> fs@.len() == 0 && heads_items(program_heads(program.inner@)->0, item.item_inner->Block_0.items@)),
{
    let ghost c = program.inner@;
    let lines = read_lines(program)?;
    proof {
        let hs = program_heads(c)->0;
        if program_heads(c) is Some && flat_heads(hs) {
            assert forall|i: int| 0 <= i < lines@.len() implies (#[trigger] lines@[i]).indent == 0
                && lines@[i].item is Stmt && statement_is(hs[i].1, lines@[i].item->Stmt_0) by {
                assert(line_item_is(hs[i].1, lines@[i].item));
                if lines@[i].item is Failed {
                    let s = choose|s: Statement<L>| statement_is(hs[i].1, s);
                    assert(statement_is(hs[i].1, s));
                }
            }
            assert(flat(lines@));
            if heads_accepted(hs) {
                assert forall|i: int| 0 <= i < lines@.len() implies stmt_ok((#[trigger] lines@[i]).item->Stmt_0, Seq::empty())
                    && !(lines@[i].item->Stmt_0 is FunctionCall && lines@[i].item->Stmt_0->FunctionCall_0 is User) by {
                    assert(statement_is(hs[i].1, lines@[i].item->Stmt_0));
                }
            }
        }
    }
    let mut i: usize = 0;
    while i < lines.len()
        invariant
            i <= lines@.len(),
            forall|j: int| 0 <= j < i ==> (#[trigger] lines@[j]).indent < usize::MAX,
            c == program.inner@,
            program_heads(c) is Some && flat_heads(program_heads(c)->0) ==> flat(lines@),
        decreases lines@.len() - i,
    {
        if lines[i].indent == usize::MAX {
            return Err(MypsLexerError::DepthOverflow);
        }
        i = i + 1;
    }
    let ghost ls = lines@;
    let r = lex_lines(lines);
    proof {
        let hs = program_heads(c)->0;
        if program_heads(c) is Some && flat_heads(hs) {
            if r is Ok {
                let items = r->Ok_0.0.item_inner->Block_0.items@;
                assert forall|i: int| 0 <= i < hs.len() implies (#[trigger] items[i]).item_inner matches ItemInner::Stmt(s)
                    && statement_is(hs[i].1, s) && items[i].comment == hs[i].2 by {
                    assert(items[i] == stmt_items(ls)[i]);
                    assert(statement_is(hs[i].1, ls[i].item->Stmt_0));
                }
            }
        }
    }
    r
}

/// Lines of a program at indent 0, each a statement node that gives a statement.
pub open spec fn flat_heads<L>(hs: Seq<(int, PairTree<L>, Option<String>)>) -> bool {
    forall|i: int|
        0 <= i < hs.len() ==> (#[trigger] hs[i]).0 == 0 && hs[i].1.rule == Rule::stmt && exists|s: Statement<L>|
            statement_is(hs[i].1, s)
}

/// Every statement that the lines give is accepted.
pub open spec fn heads_accepted<L>(hs: Seq<(int, PairTree<L>, Option<String>)>) -> bool {
    forall|i: int, s: Statement<L>| 0 <= i < hs.len() && #[trigger] statement_is(hs[i].1, s) ==> stmt_accepted(s)
}

/// A statement that a program of statements alone accepts: it reads no undefined name and
/// calls no user function.
pub open spec fn stmt_accepted<L>(s: Statement<L>) -> bool {
    stmt_ok(s, Seq::empty()) && !(s is FunctionCall && s->FunctionCall_0 is User)
}

/// The items are the statements of the lines, with their comments.
pub open spec fn heads_items<L>(hs: Seq<(int, PairTree<L>, Option<String>)>, items: Seq<Item<L>>) -> bool {
    &&& items.len() == hs.len()
    &&& forall|i: int|
        0 <= i < hs.len() ==> ((#[trigger] items[i]).item_inner matches ItemInner::Stmt(s) && statement_is(
            hs[i].1,
            s,
        ) && items[i].comment == hs[i].2)
}

} // verus!
