//! The code that statements of scalars are lowered to: the blocks, and how they end.

use vstd::prelude::*;

use super::branches::{
    built, continues, cost, fits, is_open, lemma_built, lemma_simple_lowered, took,
};
use super::calls::{declaration, l_rest, uncelled};
use super::control::{arms_ok, assignment, block_ok, known_after, simple, stat_ok};
use super::counting::{
    head, lemma_at_loop, lemma_head, lemma_loop_var, lemma_prologue, lemma_tail, prologue,
    step_cost, tail, Head, Prologue, Tail,
};
use super::instrs;
use crate::ast::{BlockV, ExprV, StatKindV, StatV};
use crate::ir::lower::{
    l_arm, l_arms, l_assign, l_block, l_body, l_expr, l_join, l_loop_var, l_merge, l_stat,
    unfold_l_args, unfold_l_arm, unfold_l_arms, unfold_l_assigns, unfold_l_block, unfold_l_body,
    unfold_l_if, unfold_l_join, unfold_l_locals, unfold_l_numeric_for, unfold_l_stat,
    unfold_l_stats, unfold_l_while, Low, Tables,
};
use crate::ir::{BlockId, OpV, Terminator, ValueId};
use crate::resolve::SymbolId;

verus! {

/// An upper bound of what a statement takes.
pub open spec fn stat_cost(s: StatV) -> nat
    decreases s, 0int,
{
    match s.kind {
        StatKindV::Local { names, exprs } => if exprs.len() > 0 {
            cost(exprs[0])
        } else {
            0
        },
        StatKindV::Assign { targets, exprs } => if exprs.len() > 0 {
            cost(exprs[0])
        } else {
            0
        },
        StatKindV::Call(e) => cost(e),
        StatKindV::Do(b) => block_cost(b, 0),
        StatKindV::While { cond, body } => cost(cond) + block_cost(body, 0) + 3,
        StatKindV::If { arms, else_block } => arms_cost(arms, 0) + match else_block {
            Some(b) => block_cost(b, 0),
            None => 0,
        } + 1,
        StatKindV::NumericFor { var, start, end, step, body } => cost(start) + cost(end)
            + step_cost(step) + block_cost(body, 0) + 25,
        _ => 0,
    }
}

/// An upper bound of what a block takes from statement `i` on.
pub open spec fn block_cost(b: BlockV, i: int) -> nat
    decreases b, b.stats.len() - i,
{
    if 0 <= i < b.stats.len() {
        stat_cost(b.stats[i]) + block_cost(b, i + 1)
    } else {
        match b.ret {
            Some(x) => if x.exprs.len() > 0 {
                cost(x.exprs[0])
            } else {
                0
            },
            None => 0,
        }
    }
}

/// An upper bound of what the arms of a conditional take from `i` on.
pub open spec fn arms_cost(arms: Seq<(ExprV, BlockV)>, i: int) -> nat
    decreases arms, arms.len() - i,
{
    if 0 <= i < arms.len() {
        cost(arms[i].0) + block_cost(arms[i].1, 0) + 2 + arms_cost(arms, i + 1)
    } else {
        0
    }
}

/// Whether `later` is what `low` becomes in lowering a statement of cost `c`.
pub open spec fn lowered(low: Low, later: Low, c: nat, terminated: bool) -> bool {
    &&& built(low, later)
    &&& uncelled(later)
    &&& took(low, later, c)
    &&& !terminated ==> is_open(later)
}

/// Whether lowering can go on from `low`.
pub open spec fn can_lower(low: Low, c: nat, looped: bool) -> bool {
    &&& uncelled(low)
    &&& is_open(low)
    &&& fits(low, c)
    &&& looped ==> low.exits.len() > 0
}

/// A block that ends.
pub(crate) proof fn lemma_end(low: Low, term: Terminator)
    requires
        is_open(low),
        uncelled(low),
    ensures
        lowered(low, low.terminate(term), 0, true),
        instrs(low.terminate(term)) == instrs(low),
        low.terminate(term).blocks[low.current].term == term,
        low.terminate(term).current == low.current,
        low.terminate(term).blocks.len() == low.blocks.len(),
        low.terminate(term).values == low.values,
        low.terminate(term).next_temp == low.next_temp,
{
    reveal(Low::set_term);
}

/// A write adds an instruction.
proof fn lemma_stmt_open(low: Low, op: OpV)
    requires
        is_open(low),
        uncelled(low),
    ensures
        lowered(low, low.stmt(op), 0, false),
{
    reveal(Low::stmt);
}

/// Three blocks for a loop, and a jump to the first.
pub open spec fn at_header(low: Low) -> (Low, BlockId, BlockId, BlockId) {
    let (st1, header) = low.new_block();
    let (st2, body_b) = st1.new_block();
    let (st3, exit) = st2.new_block();
    (st3.terminate(Terminator::Jump(header)).switch(header), header, body_b, exit)
}

pub(crate) proof fn lemma_at_header(low: Low)
    requires
        is_open(low),
        uncelled(low),
        fits(low, 3),
    ensures
        ({
            let (a, header, body_b, exit) = at_header(low);
            &&& lowered(low, a, 3, false)
            &&& header == low.blocks.len()
            &&& body_b == header + 1
            &&& exit == header + 2
            &&& a.blocks.len() == low.blocks.len() + 3
            &&& a.values == low.values
            &&& a.next_temp == low.next_temp
            &&& a.current == header
            &&& instrs(a).len() == 0
            &&& a.blocks[body_b as int].instrs.len() == 0
            &&& a.blocks[body_b as int].term == Terminator::Unreachable
            &&& a.blocks[exit as int].instrs.len() == 0
            &&& a.blocks[exit as int].term == Terminator::Unreachable
            &&& a.blocks[low.current].instrs == instrs(low)
            &&& a.blocks[low.current].term == Terminator::Jump(header)
        }),
{
    reveal(Low::new_block);
    reveal(Low::set_term);
    reveal(Low::switch);
}

/// A condition that decides between two blocks; the first is filled next.
pub open spec fn at_branch(low: Low, c: ValueId, yes: BlockId, no: BlockId) -> Low {
    low.terminate(Terminator::Branch { cond: c, then_blk: yes, else_blk: no }).switch(yes)
}

/// Whether a block is reserved: it exists, is empty, and has not ended.
pub open spec fn reserved(low: Low, b: BlockId) -> bool {
    &&& b < low.blocks.len()
    &&& low.blocks[b as int].instrs.len() == 0
    &&& low.blocks[b as int].term == Terminator::Unreachable
}

proof fn lemma_at_branch(low0: Low, low: Low, c: ValueId, yes: BlockId, no: BlockId)
    requires
        built(low0, low),
        is_open(low),
        uncelled(low),
        reserved(low, yes),
        yes != low.current,
        yes >= low0.blocks.len(),
    ensures
        ({
            let a = at_branch(low, c, yes, no);
            &&& built(low0, a)
            &&& is_open(a)
            &&& uncelled(a)
            &&& a.current == yes
            &&& instrs(a).len() == 0
            &&& a.blocks.len() == low.blocks.len()
            &&& a.values == low.values
            &&& a.next_temp == low.next_temp
            &&& a.exits == low.exits
            &&& a.blocks[low.current].instrs == instrs(low)
            &&& a.blocks[low.current].term == (Terminator::Branch {
                cond: c,
                then_blk: yes,
                else_blk: no,
            })
            &&& forall|b: int| 0 <= b < low.blocks.len() && b != low.current ==> a.blocks[b]
                == #[trigger] low.blocks[b]
        }),
{
    reveal(Low::set_term);
    reveal(Low::switch);
    let a = at_branch(low, c, yes, no);
    assert forall|b: int| 0 <= b < low0.blocks.len() && b != low0.current implies a.blocks[b]
        == #[trigger] low0.blocks[b] by {
        assert(low.blocks[b] == low0.blocks[b]);
    }
}

/// Going on in a reserved block.
proof fn lemma_switch(low0: Low, low: Low, b: BlockId)
    requires
        built(low0, low),
        uncelled(low),
        reserved(low, b),
        b >= low0.blocks.len(),
    ensures
        built(low0, low.switch(b)),
        is_open(low.switch(b)),
        uncelled(low.switch(b)),
        instrs(low.switch(b)).len() == 0,
        low.switch(b).current == b,
        low.switch(b).blocks == low.blocks,
        low.switch(b).values == low.values,
        low.switch(b).next_temp == low.next_temp,
{
    reveal(Low::switch);
}

/// A block that was reserved before a stretch of lowering in another block still is.
proof fn lemma_reserved(low: Low, later: Low, b: BlockId)
    requires
        built(low, later),
        reserved(low, b),
        b != low.current,
    ensures
        reserved(later, b),
        later.current != b,
{
    assert(later.blocks[b as int] == low.blocks[b as int]);
}

/// A statement is lowered to code that goes on from the current block.
pub(crate) proof fn lemma_stat_lowered(
    t: Tables,
    low: Low,
    known: Set<SymbolId>,
    s: StatV,
    looped: bool,
)
    requires
        stat_ok(t.res, known, s, looped),
        can_lower(low, stat_cost(s), looped),
    ensures
        l_stat(t, low, s) is Ok,
        lowered(low, (l_stat(t, low, s)->Ok_0).0, stat_cost(s), (l_stat(t, low, s)->Ok_0).1),
    decreases s, 1int,
{
    unfold_l_stat(t, low, s);
    match s.kind {
        StatKindV::Empty => {},
        StatKindV::Break => lemma_end(low, Terminator::Jump(low.exits.last())),
        StatKindV::Local { names, exprs } => lemma_local_shape(t, low, known, s),
        StatKindV::Assign { targets, exprs } => lemma_assign_shape(t, low, known, s),
        StatKindV::Call(e) => lemma_simple_lowered(t, low, known, e),
        StatKindV::Do(b) => {
            unfold_l_block(t, low, b);
            assert(l_block(t, low, b) == l_rest(t, low, b, 0));
            lemma_block_lowered(t, low, known, b, 0, looped);
        },
        StatKindV::While { cond, body } => {
            unfold_l_while(t, low, s);
            lemma_while_shape(t, low, known, cond, body);
        },
        StatKindV::If { arms, else_block } => {
            lemma_if_shape(t, low, known, s, looped);
        },
        StatKindV::NumericFor { .. } => lemma_for_shape(t, low, known, s),
        _ => {},
    }
}

/// `local x = e`: the code of the expression and a write.
pub(crate) proof fn lemma_local_shape(t: Tables, low: Low, known: Set<SymbolId>, s: StatV)
    requires
        s.kind is Local,
        stat_ok(t.res, known, s, true),
        uncelled(low),
        is_open(low),
        fits(low, stat_cost(s)),
    ensures
        ({
            let (_, id, e) = declaration(t.res, s)->0;
            let (a, v) = l_expr(t, low, e)->Ok_0;
            let c = a.ensure_local(t, id);
            let d = c.stmt(OpV::LocalSet(id, v));
            &&& l_stat(t, low, s) == Ok::<(Low, bool), crate::ir::LowerErrorV>((d, false))
            &&& lowered(low, d, stat_cost(s), false)
            &&& fits(low, cost(e))
            &&& is_open(a)
            &&& is_open(c)
            &&& c.blocks == a.blocks
            &&& c.current == a.current
            &&& built(a, d)
        }),
{
    let (_, id, e) = declaration(t.res, s)->0;
    let names = s.kind->Local_names;
    let exprs = s.kind->Local_exprs;
    unfold_l_stat(t, low, s);
    lemma_simple_lowered(t, low, known, e);
    let (a, v) = l_expr(t, low, e)->Ok_0;
    let vals = Seq::<ValueId>::empty().push(v);
    unfold_l_args(t, low, exprs, 0, Seq::empty());
    unfold_l_args(t, a, exprs, 1, vals);
    unfold_l_locals(t, a, names, vals, 0);
    unfold_l_locals(t, a.bind(t, id, v), names, vals, 1);
    reveal(Low::bind);
    reveal(Low::ensure_local);
    let c = a.ensure_local(t, id);
    let d = c.stmt(OpV::LocalSet(id, v));
    lemma_stmt_open(c, OpV::LocalSet(id, v));
    assert(built(a, c));
    lemma_built(a, c, d);
    lemma_built(low, a, d);
}

/// `x = e`: the code of the expression and a write.
pub(crate) proof fn lemma_assign_shape(t: Tables, low: Low, known: Set<SymbolId>, s: StatV)
    requires
        s.kind is Assign,
        stat_ok(t.res, known, s, true),
        uncelled(low),
        is_open(low),
        fits(low, stat_cost(s)),
    ensures
        ({
            let (id, e) = assignment(t.res, s)->0;
            let (a, v) = l_expr(t, low, e)->Ok_0;
            let c = a.ensure_local(t, id);
            let d = c.stmt(OpV::LocalSet(id, v));
            &&& l_stat(t, low, s) == Ok::<(Low, bool), crate::ir::LowerErrorV>((d, false))
            &&& lowered(low, d, stat_cost(s), false)
            &&& fits(low, cost(e))
            &&& is_open(a)
            &&& is_open(c)
            &&& c.blocks == a.blocks
            &&& c.current == a.current
            &&& built(a, d)
        }),
{
    let (id, e) = assignment(t.res, s)->0;
    let targets = s.kind->Assign_targets;
    let exprs = s.kind->Assign_exprs;
    unfold_l_stat(t, low, s);
    lemma_simple_lowered(t, low, known, e);
    let (a, v) = l_expr(t, low, e)->Ok_0;
    let vals = Seq::<ValueId>::empty().push(v);
    unfold_l_args(t, low, exprs, 0, Seq::empty());
    unfold_l_args(t, a, exprs, 1, vals);
    reveal(l_assign);
    reveal(Low::write);
    assert(crate::ir::lower::upvalue_at(a.upvalues, id, 0) is None);
    let c = a.ensure_local(t, id);
    let d = c.stmt(OpV::LocalSet(id, v));
    unfold_l_assigns(t, a, targets, vals, 0);
    unfold_l_assigns(t, d, targets, vals, 1);
    reveal(Low::ensure_local);
    lemma_stmt_open(c, OpV::LocalSet(id, v));
    assert(built(a, c));
    lemma_built(a, c, d);
    lemma_built(low, a, d);
}

/// What is left of a block is lowered to code that goes on from the current block.
pub(crate) proof fn lemma_block_lowered(
    t: Tables,
    low: Low,
    known: Set<SymbolId>,
    b: BlockV,
    i: int,
    looped: bool,
)
    requires
        0 <= i <= b.stats.len(),
        block_ok(t.res, known, b, i, looped),
        can_lower(low, block_cost(b, i), looped),
    ensures
        l_rest(t, low, b, i) is Ok,
        lowered(
            low,
            (l_rest(t, low, b, i)->Ok_0).0,
            block_cost(b, i),
            (l_rest(t, low, b, i)->Ok_0).1,
        ),
    decreases b, b.stats.len() - i,
{
    unfold_l_stats(t, low, b.stats, i);
    if i < b.stats.len() {
        let s = b.stats[i];
        lemma_stat_lowered(t, low, known, s, looped);
        let (a, terminated) = l_stat(t, low, s)->Ok_0;
        if !terminated {
            lemma_block_lowered(t, a, known_after(t.res, known, s), b, i + 1, looped);
            lemma_built(low, a, (l_rest(t, a, b, i + 1)->Ok_0).0);
        }
    } else {
        match b.ret {
            None => {},
            Some(x) => {
                if x.exprs.len() > 0 {
                    let e = x.exprs[0];
                    lemma_simple_lowered(t, low, known, e);
                    let (a, v) = l_expr(t, low, e)->Ok_0;
                    lemma_end(a, Terminator::Return(Some(v)));
                    lemma_built(low, a, a.terminate(Terminator::Return(Some(v))));
                } else {
                    lemma_end(low, Terminator::Return(None));
                }
            },
        }
    }
}

/// The states of lowering in a loop: at the header, after the condition, in the body, after
/// the body, and at the exit.
pub open spec fn while_states(t: Tables, low: Low, cond: ExprV, body: BlockV) -> (
    Low,
    Low,
    Low,
    (Low, bool),
    Low,
) {
    let (h0, header, body_b, exit) = at_header(low);
    let (h1, c) = l_expr(t, h0, cond)->Ok_0;
    let b0 = at_branch(h1, c, body_b, exit).enter_loop(exit);
    let (b1, terminated) = l_rest(t, b0, body, 0)->Ok_0;
    let b2 = if terminated {
        b1.leave_loop()
    } else {
        b1.leave_loop().terminate(Terminator::Jump(header))
    };
    (h0, h1, b0, (b1, terminated), b2.switch(exit))
}

pub(crate) proof fn lemma_while_shape(
    t: Tables,
    low: Low,
    known: Set<SymbolId>,
    cond: ExprV,
    body: BlockV,
)
    requires
        simple(t.res, known, cond),
        block_ok(t.res, known, body, 0, true),
        uncelled(low),
        is_open(low),
        fits(low, cost(cond) + block_cost(body, 0) + 3),
    ensures
        ({
            let (a, header, body_b, exit) = at_header(low);
            let (h0, h1, b0, (b1, terminated), end) = while_states(t, low, cond, body);
            let c = (l_expr(t, h0, cond)->Ok_0).1;
            &&& l_expr(t, h0, cond) is Ok
            &&& l_rest(t, b0, body, 0) is Ok
            &&& match l_expr(t, h0, cond) {
                Ok((x, c)) => match l_body(t, at_branch(x, c, body_b, exit), body, exit, header) {
                    Ok((y, _)) => y.switch(exit) == end,
                    Err(_) => false,
                },
                Err(_) => false,
            }
            &&& lowered(low, end, cost(cond) + block_cost(body, 0) + 3, false)
            &&& can_lower(h0, cost(cond), false)
            &&& built(h0, h1)
            &&& is_open(h1)
            &&& can_lower(b0, block_cost(body, 0), true)
            &&& b0.current == body_b
            &&& instrs(b0).len() == 0
            &&& b0.exits.last() == exit
            &&& lowered(b0, b1, block_cost(body, 0), terminated)
            &&& end.current == exit
            &&& instrs(end).len() == 0
            &&& b0.blocks[h1.current].instrs == instrs(h1)
            &&& b0.blocks[h1.current].term == (Terminator::Branch {
                cond: c,
                then_blk: body_b,
                else_blk: exit,
            })
            &&& h1.current != body_b
            &&& h1.current != exit
            &&& b0.blocks.len() == h1.blocks.len()
            &&& forall|b: int| 0 <= b < h1.blocks.len() && b != h1.current ==> b0.blocks[b]
                == #[trigger] h1.blocks[b]
            &&& b1.current != exit
            &&& !terminated ==> end.blocks[b1.current].instrs == instrs(b1)
                && end.blocks[b1.current].term == Terminator::Jump(header)
            &&& forall|b: int| 0 <= b < b1.blocks.len() && (b != b1.current || terminated)
                ==> end.blocks[b] == #[trigger] b1.blocks[b]
            &&& end.blocks.len() == b1.blocks.len()
            &&& low.next_temp <= h0.next_temp <= h1.next_temp <= b0.next_temp <= b1.next_temp
        }),
    decreases body, body.stats.len() + 1,
{
    lemma_at_header(low);
    let (h0, header, body_b, exit) = at_header(low);
    lemma_simple_lowered(t, h0, known, cond);
    let (h1, c) = l_expr(t, h0, cond)->Ok_0;
    lemma_reserved(h0, h1, body_b);
    lemma_reserved(h0, h1, exit);
    lemma_built(low, h0, h1);
    lemma_at_branch(low, h1, c, body_b, exit);
    let br = at_branch(h1, c, body_b, exit);
    assert(reserved(br, exit));
    reveal(Low::enter_loop);
    reveal(Low::leave_loop);
    let b0 = br.enter_loop(exit);
    lemma_block_lowered(t, b0, known, body, 0, true);
    let (b1, terminated) = l_rest(t, b0, body, 0)->Ok_0;
    unfold_l_body(t, br, body, exit, header);
    unfold_l_block(t, b0, body);
    assert(l_block(t, b0, body) == l_rest(t, b0, body, 0));
    lemma_reserved(b0, b1, exit);
    let b2 = b1.leave_loop();
    assert(b2.exits =~= low.exits);
    assert(built(low, b2)) by {
        assert forall|b: int| 0 <= b < low.blocks.len() && b != low.current implies b2.blocks[b]
            == #[trigger] low.blocks[b] by {
            assert(br.blocks[b] == low.blocks[b]);
            assert(b0.blocks[b] == br.blocks[b]);
            assert(b1.blocks[b] == b0.blocks[b]);
        }
        assert(b1.blocks[low.current] == b0.blocks[low.current]);
    }
    if !terminated {
        lemma_end(b2, Terminator::Jump(header));
        let b3 = b2.terminate(Terminator::Jump(header));
        assert(reserved(b3, exit)) by {
            reveal(Low::set_term);
        }
        lemma_built(low, b2, b3);
        lemma_switch(low, b3, exit);
        reveal(Low::set_term);
    } else {
        lemma_switch(low, b2, exit);
    }
}

/// Two more blocks.
pub open spec fn two_blocks(low: Low) -> (Low, BlockId, BlockId) {
    let (st1, body_b) = low.new_block();
    let (st2, next_b) = st1.new_block();
    (st2, body_b, next_b)
}

proof fn lemma_two_blocks(low: Low)
    requires
        is_open(low),
        uncelled(low),
        fits(low, 2),
    ensures
        ({
            let (a, body_b, next_b) = two_blocks(low);
            &&& lowered(low, a, 2, false)
            &&& body_b == low.blocks.len()
            &&& next_b == body_b + 1
            &&& a.blocks.len() == low.blocks.len() + 2
            &&& a.values == low.values
            &&& a.next_temp == low.next_temp
            &&& a.current == low.current
            &&& instrs(a) == instrs(low)
            &&& reserved(a, body_b)
            &&& reserved(a, next_b)
        }),
{
    reveal(Low::new_block);
}

/// The states of lowering in an arm of a conditional: after the condition, in the body, after
/// the body, and at what follows.
pub open spec fn arm_states(t: Tables, low: Low, arm: (ExprV, BlockV)) -> (
    Low,
    Low,
    (Low, bool),
    Low,
) {
    let (a, c) = l_expr(t, low, arm.0)->Ok_0;
    let (a2, body_b, next_b) = two_blocks(a);
    let b0 = at_branch(a2, c, body_b, next_b);
    let (b1, terminated) = l_rest(t, b0, arm.1, 0)->Ok_0;
    (a, b0, (b1, terminated), b1.switch(next_b))
}

pub(crate) proof fn lemma_arm_shape(
    t: Tables,
    low: Low,
    known: Set<SymbolId>,
    arm: (ExprV, BlockV),
    looped: bool,
)
    requires
        simple(t.res, known, arm.0),
        block_ok(t.res, known, arm.1, 0, looped),
        can_lower(low, cost(arm.0) + block_cost(arm.1, 0) + 2, looped),
    ensures
        ({
            let (a, b0, (b1, terminated), end) = arm_states(t, low, arm);
            let c = (l_expr(t, low, arm.0)->Ok_0).1;
            let (a2, body_b, next_b) = two_blocks(a);
            &&& l_expr(t, low, arm.0) is Ok
            &&& l_rest(t, b0, arm.1, 0) is Ok
            &&& l_arm(t, low, arm) == Ok::<(Low, Option<BlockId>), crate::ir::LowerErrorV>(
                (
                    end,
                    if terminated {
                        None
                    } else {
                        Some(b1.current as u32)
                    },
                ),
            )
            &&& lowered(low, end, cost(arm.0) + block_cost(arm.1, 0) + 2, false)
            &&& built(low, a)
            &&& is_open(a)
            &&& can_lower(b0, block_cost(arm.1, 0), looped)
            &&& b0.current == body_b
            &&& body_b == a.blocks.len()
            &&& next_b == body_b + 1
            &&& instrs(b0).len() == 0
            &&& b0.exits == low.exits
            &&& lowered(b0, b1, block_cost(arm.1, 0), terminated)
            &&& end.current == next_b
            &&& end.blocks == b1.blocks
            &&& instrs(end).len() == 0
            &&& b0.blocks[a.current].instrs == instrs(a)
            &&& b0.blocks[a.current].term == (Terminator::Branch {
                cond: c,
                then_blk: body_b,
                else_blk: next_b,
            })
            &&& b0.blocks.len() == a.blocks.len() + 2
            &&& forall|b: int| 0 <= b < a.blocks.len() && b != a.current ==> b0.blocks[b]
                == #[trigger] a.blocks[b]
            &&& b1.current != next_b
            &&& b1.current >= low.blocks.len()
            &&& b1.current <= u32::MAX
            &&& low.next_temp <= a.next_temp <= b0.next_temp <= b1.next_temp
        }),
    decreases arm.1, arm.1.stats.len() + 1,
{
    lemma_simple_lowered(t, low, known, arm.0);
    let (a, c) = l_expr(t, low, arm.0)->Ok_0;
    lemma_two_blocks(a);
    let (a2, body_b, next_b) = two_blocks(a);
    lemma_built(low, a, a2);
    lemma_at_branch(low, a2, c, body_b, next_b);
    let b0 = at_branch(a2, c, body_b, next_b);
    assert(reserved(b0, next_b));
    assert forall|b: int| 0 <= b < a.blocks.len() && b != a.current implies b0.blocks[b]
        == #[trigger] a.blocks[b] by {
        assert(a2.blocks[b] == a.blocks[b]);
    }
    lemma_block_lowered(t, b0, known, arm.1, 0, looped);
    let (b1, terminated) = l_rest(t, b0, arm.1, 0)->Ok_0;
    unfold_l_arm(t, low, arm);
    unfold_l_block(t, b0, arm.1);
    assert(l_block(t, b0, arm.1) == l_rest(t, b0, arm.1, 0));
    lemma_reserved(b0, b1, next_b);
    assert(built(low, b1)) by {
        assert forall|b: int| 0 <= b < low.blocks.len() && b != low.current implies b1.blocks[b]
            == #[trigger] low.blocks[b] by {
            assert(b0.blocks[b] == low.blocks[b]);
        }
        assert(b1.blocks[low.current] == b0.blocks[low.current]);
    }
    lemma_switch(low, b1, next_b);
}

/// Whether blocks wait for where control goes on from them.
pub open spec fn waiting(low: Low, bs: Seq<BlockId>) -> bool {
    forall|k: int| #![trigger bs[k]]
        0 <= k < bs.len() ==> bs[k] < low.blocks.len() && low.blocks[bs[k] as int].term
            == Terminator::Unreachable
}

/// Whether blocks come after those of `low`, but for the first `n`.
pub open spec fn newer(low: Low, bs: Seq<BlockId>, n: int) -> bool {
    forall|k: int| #![trigger bs[k]] n <= k < bs.len() ==> bs[k] >= low.blocks.len()
}

/// Whether a block is none of `bs`.
pub open spec fn not_among(b: int, bs: Seq<BlockId>) -> bool {
    forall|k: int| 0 <= k < bs.len() ==> b != #[trigger] bs[k]
}

/// Blocks that wait go on waiting while another is filled.
pub(crate) proof fn lemma_waiting(low: Low, later: Low, bs: Seq<BlockId>)
    requires
        built(low, later),
        waiting(low, bs),
        not_among(low.current, bs),
    ensures
        waiting(later, bs),
        not_among(later.current, bs),
        forall|k: int| #![trigger bs[k]]
            0 <= k < bs.len() ==> later.blocks[bs[k] as int] == low.blocks[bs[k] as int],
{
    assert forall|k: int| #![trigger bs[k]] 0 <= k < bs.len() implies later.blocks[bs[k] as int]
        == low.blocks[bs[k] as int] by {
        assert(bs[k] != low.current);
    }
}

/// The arms are lowered one after another; what comes next goes on in a block of its own.
pub(crate) proof fn lemma_arms_lowered(
    t: Tables,
    low: Low,
    known: Set<SymbolId>,
    arms: Seq<(ExprV, BlockV)>,
    i: int,
    acc: Seq<BlockId>,
    looped: bool,
)
    requires
        0 <= i <= arms.len(),
        arms_ok(t.res, known, arms, i, looped),
        can_lower(low, arms_cost(arms, i), looped),
        waiting(low, acc),
        not_among(low.current, acc),
    ensures
        l_arms(t, low, arms, i, acc) is Ok,
        ({
            let (end, falls) = l_arms(t, low, arms, i, acc)->Ok_0;
            &&& lowered(low, end, arms_cost(arms, i), false)
            &&& waiting(end, falls)
            &&& not_among(end.current, falls)
            &&& acc.len() <= falls.len()
            &&& forall|k: int| 0 <= k < acc.len() ==> falls[k] == #[trigger] acc[k]
            &&& newer(low, falls, acc.len() as int)
        }),
    decreases arms, arms.len() - i,
{
    unfold_l_arms(t, low, arms, i, acc);
    if i < arms.len() {
        lemma_arm_shape(t, low, known, arms[i], looped);
        let (a, b0, (b1, terminated), end) = arm_states(t, low, arms[i]);
        lemma_waiting(low, end, acc);
        let next = if terminated {
            acc
        } else {
            acc.push(b1.current as u32)
        };
        assert(waiting(end, next)) by {
            assert forall|k: int| #![trigger next[k]] 0 <= k < next.len() implies next[k]
                < end.blocks.len() && end.blocks[next[k] as int].term == Terminator::Unreachable by {
                if k < acc.len() {
                    assert(next[k] == acc[k]);
                }
            }
        }
        assert(not_among(end.current, next)) by {
            assert forall|k: int| 0 <= k < next.len() implies end.current != #[trigger] next[k] by {
                if k < acc.len() {
                    assert(next[k] == acc[k]);
                }
            }
        }
        lemma_arms_lowered(t, end, known, arms, i + 1, next, looped);
        let (last, falls) = l_arms(t, end, arms, i + 1, next)->Ok_0;
        lemma_built(low, end, last);
        assert forall|k: int| 0 <= k < acc.len() implies falls[k] == #[trigger] acc[k] by {
            assert(next[k] == acc[k]);
        }
        assert forall|k: int| #![trigger falls[k]] acc.len() <= k < falls.len() implies falls[k]
            >= low.blocks.len() by {
            if k < next.len() {
                assert(falls[k] == next[k]);
            }
        }
    }
}

/// The blocks `bs` jump to `to`; nothing else changes.
proof fn lemma_join(st: Low, bs: Seq<BlockId>, to: BlockId, i: int)
    requires
        0 <= i <= bs.len(),
        forall|k: int| 0 <= k < bs.len() ==> (#[trigger] bs[k]) < st.blocks.len(),
    ensures
        ({
            let d = l_join(st, bs, to, i);
            &&& d == (Low { blocks: d.blocks, ..st })
            &&& d.blocks.len() == st.blocks.len()
            &&& forall|b: int| 0 <= b < st.blocks.len() ==> (#[trigger] d.blocks[b]).instrs
                == st.blocks[b].instrs
            &&& forall|k: int| #![trigger bs[k]]
                i <= k < bs.len() ==> d.blocks[bs[k] as int].term == Terminator::Jump(to)
            &&& forall|b: int| 0 <= b < st.blocks.len() && not_among(b, bs) ==> (
            #[trigger] d.blocks[b]) == st.blocks[b]
            &&& forall|b: int| 0 <= b < st.blocks.len() ==> (#[trigger] d.blocks[b]).term
                == st.blocks[b].term || d.blocks[b].term == Terminator::Jump(to)
        }),
    decreases bs.len() - i,
{
    unfold_l_join(st, bs, to, i);
    if i < bs.len() {
        let a = st.set_term(bs[i] as int, Terminator::Jump(to));
        reveal(Low::set_term);
        lemma_join(a, bs, to, i + 1);
        let d = l_join(st, bs, to, i);
        assert forall|b: int| 0 <= b < st.blocks.len() && not_among(b, bs) implies (
        #[trigger] d.blocks[b]) == st.blocks[b] by {
            assert(b != bs[i]);
            assert(a.blocks[b] == st.blocks[b]);
        }
        assert forall|k: int| #![trigger bs[k]] i <= k < bs.len() implies d.blocks[bs[k] as int].term
            == Terminator::Jump(to) by {
            if k == i {
                assert(a.blocks[bs[i] as int].term == Terminator::Jump(to));
            }
        }
    }
}

/// Where control goes on after a conditional.
proof fn lemma_merge(low: Low, st: Low, bs: Seq<BlockId>)
    requires
        bs.len() > 0,
        built(low, st),
        uncelled(st),
        waiting(st, bs),
        st.blocks.len() < u32::MAX,
        forall|k: int| #![trigger bs[k]]
            0 <= k < bs.len() ==> bs[k] >= low.blocks.len() || bs[k] == low.current,
    ensures
        ({
            let (d, terminated) = l_merge(st, bs);
            &&& !terminated
            &&& built(low, d)
            &&& is_open(d)
            &&& uncelled(d)
            &&& d.values == st.values
            &&& d.next_temp == st.next_temp
            &&& d.blocks.len() == st.blocks.len() + 1
            &&& d.current == st.blocks.len()
            &&& instrs(d).len() == 0
            &&& forall|k: int| #![trigger bs[k]]
                0 <= k < bs.len() ==> d.blocks[bs[k] as int].term == Terminator::Jump(
                    st.blocks.len() as u32,
                )
            &&& forall|b: int| 0 <= b < st.blocks.len() ==> (#[trigger] d.blocks[b]).instrs
                == st.blocks[b].instrs
            &&& forall|b: int| #![trigger d.blocks[b]]
                0 <= b < st.blocks.len() && st.blocks[b].term != Terminator::Unreachable
                    ==> d.blocks[b] == st.blocks[b]
        }),
{
    reveal(l_merge);
    reveal(Low::new_block);
    reveal(Low::switch);
    let (st1, merge) = st.new_block();
    lemma_join(st1, bs, merge, 0);
    let (d, _) = l_merge(st, bs);
    let j = l_join(st1, bs, merge, 0);
    assert forall|b: int| #![trigger d.blocks[b]]
        0 <= b < st.blocks.len() && st.blocks[b].term != Terminator::Unreachable implies d.blocks[b]
        == st.blocks[b] by {
        assert(not_among(b, bs)) by {
            assert forall|k: int| 0 <= k < bs.len() implies b != #[trigger] bs[k] by {
                assert(st.blocks[bs[k] as int].term == Terminator::Unreachable);
            }
        }
        assert(j.blocks[b] == st1.blocks[b]);
    }
    assert(not_among(merge as int, bs));
    assert(j.blocks[merge as int] == st1.blocks[merge as int]);
    assert forall|b: int| 0 <= b < low.blocks.len() && b != low.current implies d.blocks[b]
        == #[trigger] low.blocks[b] by {
        assert(not_among(b, bs)) by {
            assert forall|k: int| 0 <= k < bs.len() implies b != #[trigger] bs[k] by {}
        }
        assert(j.blocks[b] == st1.blocks[b]);
    }
    assert(continues(low.blocks[low.current], d.blocks[low.current])) by {
        let (x, y, z) = (
            low.blocks[low.current],
            st.blocks[low.current],
            d.blocks[low.current],
        );
        assert(z.instrs == y.instrs);
    }
}

/// The states of lowering in a conditional: after the arms, the blocks that wait, and after the
/// last alternative.
pub open spec fn if_states(
    t: Tables,
    low: Low,
    arms: Seq<(ExprV, BlockV)>,
    else_block: Option<BlockV>,
) -> (Low, Seq<BlockId>, (Low, bool), Seq<BlockId>) {
    let (a, falls) = l_arms(t, low, arms, 0, Seq::empty())->Ok_0;
    let (b, terminated) = match else_block {
        None => (a, false),
        Some(eb) => l_rest(t, a, eb, 0)->Ok_0,
    };
    let bs = if terminated {
        falls
    } else {
        falls.push(b.current as u32)
    };
    (a, falls, (b, terminated), bs)
}

/// A conditional is lowered to code that goes on from the current block.
pub(crate) proof fn lemma_if_shape(
    t: Tables,
    low: Low,
    known: Set<SymbolId>,
    s: StatV,
    looped: bool,
)
    requires
        s.kind is If,
        stat_ok(t.res, known, s, looped),
        can_lower(low, stat_cost(s), looped),
    ensures
        ({
            let (arms, else_block) = (s.kind->If_arms, s.kind->If_else_block);
            let (a, falls, (b, terminated), bs) = if_states(t, low, arms, else_block);
            let empty = Seq::<BlockId>::empty();
            let (d, ended) = l_merge(b, bs);
            &&& l_stat(t, low, s) == Ok::<(Low, bool), crate::ir::LowerErrorV>((d, ended))
            &&& lowered(low, d, stat_cost(s), ended)
            &&& ended == (bs.len() == 0)
            &&& ended ==> d == b
            &&& can_lower(low, arms_cost(arms, 0), looped)
            &&& l_arms(t, low, arms, 0, empty) == Ok::<
                (Low, Seq<BlockId>),
                crate::ir::LowerErrorV,
            >((a, falls))
            &&& lowered(low, a, arms_cost(arms, 0), false)
            &&& waiting(a, falls)
            &&& not_among(a.current, falls)
            &&& else_block matches Some(eb) ==> can_lower(a, block_cost(eb, 0), looped) && l_rest(
                t,
                a,
                eb,
                0,
            ) == Ok::<(Low, bool), crate::ir::LowerErrorV>((b, terminated)) && lowered(
                a,
                b,
                block_cost(eb, 0),
                terminated,
            )
            &&& else_block is None ==> b == a && !terminated
            &&& built(a, b)
            &&& b.current <= u32::MAX
            &&& bs.len() > 0 ==> {
                &&& d.current == b.blocks.len()
                &&& d.blocks.len() == b.blocks.len() + 1
                &&& d.blocks.len() <= u32::MAX
                &&& instrs(d).len() == 0
                &&& waiting(b, bs)
                &&& forall|k: int| #![trigger bs[k]]
                    0 <= k < bs.len() ==> d.blocks[bs[k] as int].term == Terminator::Jump(
                        b.blocks.len() as u32,
                    )
                &&& forall|i: int| 0 <= i < b.blocks.len() ==> (#[trigger] d.blocks[i]).instrs
                    == b.blocks[i].instrs
                &&& forall|i: int| #![trigger d.blocks[i]]
                    0 <= i < b.blocks.len() && b.blocks[i].term != Terminator::Unreachable
                        ==> d.blocks[i] == b.blocks[i]
            }
        }),
    decreases s, 0int,
{
    let (arms, else_block) = (s.kind->If_arms, s.kind->If_else_block);
    let empty = Seq::<BlockId>::empty();
    unfold_l_stat(t, low, s);
    unfold_l_if(t, low, s);
    lemma_arms_lowered(t, low, known, arms, 0, empty, looped);
    let (a, falls, (b, terminated), bs) = if_states(t, low, arms, else_block);
    match else_block {
        None => {},
        Some(eb) => {
            unfold_l_block(t, a, eb);
            assert(l_block(t, a, eb) == l_rest(t, a, eb, 0));
            lemma_block_lowered(t, a, known, eb, 0, looped);
        },
    }
    lemma_built(low, a, b);
    lemma_waiting(a, b, falls);
    assert(waiting(b, bs)) by {
        assert forall|k: int| #![trigger bs[k]] 0 <= k < bs.len() implies bs[k] < b.blocks.len()
            && b.blocks[bs[k] as int].term == Terminator::Unreachable by {
            if k < falls.len() {
                assert(bs[k] == falls[k]);
            }
        }
    }
    if bs.len() > 0 {
        assert forall|k: int| #![trigger bs[k]] 0 <= k < bs.len() implies bs[k]
            >= low.blocks.len() || bs[k] == low.current by {
            if k < falls.len() {
                assert(bs[k] == falls[k]);
            }
        }
        lemma_merge(low, b, bs);
    } else {
        reveal(l_merge);
    }
}

/// The states of lowering in a counting loop: before it, up to its body, in the body, after the
/// body, and from there on.
pub open spec fn for_states(
    t: Tables,
    low: Low,
    s: StatV,
) -> (Prologue, Head, Low, (Low, bool), Tail) {
    match s.kind {
        StatKindV::NumericFor { var, start, end, step, body } => {
            let id = t.res.def_of(var.span)->0;
            let pr = prologue(t, low, id, start, end, step);
            let hd = head(pr.s7, pr.counter, pr.end_l, pr.step_l);
            let b0 = l_loop_var(t, hd.b0, id, pr.counter).enter_loop(hd.x.exit);
            let (b1, terminated) = l_rest(t, b0, body, 0)->Ok_0;
            (pr, hd, b0, (b1, terminated), tail(b1, terminated, pr.counter, pr.step_l, hd.x))
        },
        _ => arbitrary(),
    }
}

/// A counting loop is lowered to code that goes on from the current block.
pub(crate) proof fn lemma_for_shape(t: Tables, low: Low, known: Set<SymbolId>, s: StatV)
    requires
        s.kind is NumericFor,
        stat_ok(t.res, known, s, true),
        uncelled(low),
        is_open(low),
        fits(low, stat_cost(s)),
    ensures
        ({
            let id = t.res.def_of(s.kind->NumericFor_var.span)->0;
            let body = s.kind->NumericFor_body;
            let (pr, hd, b0, (b1, terminated), tl) = for_states(t, low, s);
            &&& l_stat(t, low, s) == Ok::<(Low, bool), crate::ir::LowerErrorV>((tl.end, false))
            &&& lowered(low, tl.end, stat_cost(s), false)
            &&& lowered(low, pr.s7, (stat_cost(s) - block_cost(body, 0) - 22) as nat, false)
            &&& fits(pr.s7, 18)
            &&& fits(hd.b0, 1)
            &&& can_lower(b0, block_cost(body, 0), true)
            &&& l_rest(t, b0, body, 0) is Ok
            &&& lowered(b0, b1, block_cost(body, 0), terminated)
            &&& b0.current == hd.x.body
            &&& b0.exits.last() == hd.x.exit
            &&& b0.blocks == l_loop_var(t, hd.b0, id, pr.counter).blocks
            &&& b0.next_temp == hd.b0.next_temp
            &&& hd.b0.next_temp == pr.s7.next_temp
            &&& built(pr.s7, b1.leave_loop())
            &&& uncelled(b1)
            &&& reserved(b1, hd.x.latch)
            &&& reserved(b1, hd.x.exit)
            &&& b1.current != hd.x.latch
            &&& b1.current != hd.x.exit
            &&& hd.x.latch != hd.x.exit
            &&& hd.x.latch >= pr.s7.blocks.len()
            &&& hd.x.exit >= pr.s7.blocks.len()
            &&& fits(b1, 3)
            &&& tl.end.current == hd.x.exit
            &&& instrs(tl.end).len() == 0
            &&& hd.x.header == pr.s7.blocks.len()
        }),
    decreases s, 0int,
{
    let id = t.res.def_of(s.kind->NumericFor_var.span)->0;
    let (start, end, step, body) = (
        s.kind->NumericFor_start,
        s.kind->NumericFor_end,
        s.kind->NumericFor_step,
        s.kind->NumericFor_body,
    );
    let (pr, hd, b0, (b1, terminated), tl) = for_states(t, low, s);
    unfold_l_stat(t, low, s);
    unfold_l_numeric_for(t, low, s);
    lemma_prologue(t, low, known, id, start, end, step);
    lemma_head(pr.s7, pr.counter, pr.end_l, pr.step_l);
    lemma_at_loop(pr.s7);
    lemma_loop_var(t, hd.b0, id, pr.counter);
    let bv = l_loop_var(t, hd.b0, id, pr.counter);
    let x = hd.x;
    assert(bv.blocks[x.latch as int] == hd.b0.blocks[x.latch as int]);
    assert(bv.blocks[x.exit as int] == hd.b0.blocks[x.exit as int]);
    lemma_built(pr.s7, hd.b0, bv);
    reveal(Low::enter_loop);
    reveal(Low::leave_loop);
    lemma_block_lowered(t, b0, known.insert(id), body, 0, true);
    unfold_l_body(t, bv, body, x.exit, x.latch);
    unfold_l_block(t, b0, body);
    assert(l_block(t, b0, body) == l_rest(t, b0, body, 0));
    lemma_reserved(b0, b1, x.latch);
    lemma_reserved(b0, b1, x.exit);
    let b2 = b1.leave_loop();
    assert(b2.exits =~= pr.s7.exits);
    assert(built(pr.s7, b2)) by {
        assert forall|b: int| 0 <= b < pr.s7.blocks.len() && b != pr.s7.current implies b2.blocks[b]
            == #[trigger] pr.s7.blocks[b] by {
            assert(bv.blocks[b] == pr.s7.blocks[b]);
            assert(b0.blocks[b] == bv.blocks[b]);
            assert(b1.blocks[b] == b0.blocks[b]);
        }
        assert(b1.blocks[pr.s7.current] == b0.blocks[pr.s7.current]);
    }
    lemma_tail(pr.s7, b1, terminated, pr.counter, pr.step_l, x);
    lemma_built(low, pr.s7, tl.end);
}

} // verus!
