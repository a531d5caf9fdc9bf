use vstd::prelude::*;
use crate::cfg::{BlockView, Term, empty_block};
use crate::ast::{Expr, SourceFile, Statement, expr_size, stmts_size};
use crate::cfg::Label;
use crate::lemmas::lemma_expr_frame;
use crate::lowering::{LowerState, lookup, lower_expr_spec, lower_spec, lower_stmt_spec, lower_stmts_spec};
use crate::tac::{Instr, Register};

verus! {

/// The registers a block defines: its parameters, then its instructions'
/// destinations, in order.
pub open spec fn defs(b: BlockView) -> Seq<Register> {
    b.params + b.instrs.map_values(|i: Instr| i.spec_dst())
}

/// Some block of `bs` defines `r`.
pub open spec fn defined(bs: Seq<BlockView>, r: Register) -> bool {
    exists|l: int, k: int| 0 <= l < bs.len() && 0 <= k < defs(bs[l]).len() && #[trigger] defs(bs[l])[k] == r
}

/// Within a block, defined registers strictly increase; no register is
/// defined in two places.
pub open spec fn registers_fresh(bs: Seq<BlockView>) -> bool {
    &&& forall|l: int, k1: int, k2: int|
        0 <= l < bs.len() && 0 <= k1 < k2 < defs(bs[l]).len() ==> (#[trigger] defs(bs[l])[k1]).0 < (
        #[trigger] defs(bs[l])[k2]).0
    &&& forall|l1: int, l2: int, k1: int, k2: int|
        0 <= l1 < bs.len() && 0 <= l2 < bs.len() && l1 != l2 && 0 <= k1 < defs(bs[l1]).len() && 0 <= k2
            < defs(bs[l2]).len() ==> #[trigger] defs(bs[l1])[k1] != #[trigger] defs(bs[l2])[k2]
}

/// An instruction reads only registers that are defined and were allocated before its result.
pub open spec fn instr_reads_defined(bs: Seq<BlockView>, i: Instr) -> bool {
    match i {
        Instr::Const { .. } => true,
        Instr::Add { dst, lhs, rhs } => lhs.0 < dst.0 && rhs.0 < dst.0 && defined(bs, lhs) && defined(bs, rhs),
    }
}

/// A terminator reads only defined registers.
pub open spec fn term_reads_defined(bs: Seq<BlockView>, t: Term) -> bool {
    match t {
        Term::CondBr { cond, .. } => defined(bs, cond),
        Term::Br { args, .. } => forall|j: int| 0 <= j < args.len() ==> defined(bs, #[trigger] args[j]),
        Term::Ret(r) => defined(bs, r),
        Term::RetVoid => true,
    }
}

/// Every operand is a defined register; an instruction's operands were allocated before its result.
pub open spec fn uses_follow_defs(bs: Seq<BlockView>) -> bool {
    &&& forall|l: int, k: int|
        0 <= l < bs.len() && 0 <= k < bs[l].instrs.len() ==> instr_reads_defined(bs, #[trigger] bs[l].instrs[k])
    &&& forall|l: int| 0 <= l < bs.len() ==> term_reads_defined(bs, #[trigger] bs[l].term)
}

/// Every label a terminator names is a block of `bs`, and every branch passes
/// as many arguments as its target has parameters.
pub open spec fn branches_match(bs: Seq<BlockView>) -> bool {
    forall|l: int|
        0 <= l < bs.len() ==> match #[trigger] bs[l].term {
            Term::CondBr { t, f, .. } => t.0 < bs.len() && f.0 < bs.len(),
            Term::Br { label, args } => label.0 < bs.len() && args.len() == bs[label.0 as int].params.len(),
            _ => true,
        }
}

/// Blocks are reserved three at a time after the entry; the third of each
/// three is a join.
pub open spec fn is_join(l: int) -> bool {
    l > 0 && l % 3 == 0
}

impl LowerState {
    /// The blocks as they would stand if the open block were sealed with `ret`.
    pub open spec fn snapshot(self) -> Seq<BlockView> {
        self.seal(Term::RetVoid).blocks
    }
}

/// Every register number below `n` is defined somewhere in `bs`.
pub open spec fn all_defined_below(bs: Seq<BlockView>, n: nat) -> bool {
    forall|m: nat| m < n ==> #[trigger] defined(bs, Register(m as u16))
}

/// Every register defined in `bs` is numbered below `n`.
pub open spec fn defs_below(bs: Seq<BlockView>, n: nat) -> bool {
    forall|l: int, k: int| 0 <= l < bs.len() && 0 <= k < defs(bs[l]).len() ==> (#[trigger] defs(bs[l])[k]).0 < n
}

/// Every instruction reads registers allocated before its result, and every
/// terminator reads registers numbered below `n`.
pub open spec fn reads_below(bs: Seq<BlockView>, n: nat) -> bool {
    &&& forall|l: int, k: int|
        0 <= l < bs.len() && 0 <= k < bs[l].instrs.len() ==> match #[trigger] bs[l].instrs[k] {
            Instr::Const { .. } => true,
            Instr::Add { dst, lhs, rhs } => lhs.0 < dst.0 && rhs.0 < dst.0,
        }
    &&& forall|l: int| 0 <= l < bs.len() ==> term_reads_below(#[trigger] bs[l].term, n)
}

/// The terminator reads only registers numbered below `n`.
pub open spec fn term_reads_below(t: Term, n: nat) -> bool {
    match t {
        Term::CondBr { cond, .. } => cond.0 < n,
        Term::Br { args, .. } => forall|j: int| 0 <= j < args.len() ==> (#[trigger] args[j]).0 < n,
        Term::Ret(r) => r.0 < n,
        Term::RetVoid => true,
    }
}

/// The terminator names blocks below `len`, and a branch passes one value to a join.
pub open spec fn term_targets_ok(t: Term, len: nat) -> bool {
    match t {
        Term::CondBr { t, f, .. } => t.0 < len && f.0 < len,
        Term::Br { label, args } => label.0 < len && is_join(label.0 as int) && args.len() == 1,
        _ => true,
    }
}

/// Terminators name existing blocks, branches go to joins, only joins have a
/// parameter, and at most one.
pub open spec fn shape_ok(bs: Seq<BlockView>) -> bool {
    &&& forall|l: int| 0 <= l < bs.len() ==> term_targets_ok(#[trigger] bs[l].term, bs.len())
    &&& forall|l: int|
        0 <= l < bs.len() ==> (if is_join(l) {
            bs[l].params.len() <= 1
        } else {
            bs[l].params.len() == 0
        }) && #[trigger] bs[l].params.len() >= 0
}

/// What holds of the state at every step of lowering.
pub open spec fn state_ok(s: LowerState) -> bool {
    let bs = s.snapshot();
    &&& 0 <= s.cur < s.blocks.len()
    &&& s.blocks.len() % 3 == 1
    &&& s.next <= u16::MAX
    &&& defs_below(bs, s.next)
    &&& all_defined_below(bs, s.next)
    &&& registers_fresh(bs)
    &&& reads_below(bs, s.next)
    &&& forall|i: int| 0 <= i < s.env.len() ==> (#[trigger] s.env[i]).1.0 < s.next
    &&& shape_ok(bs)
}

/// `b` keeps every block of `a`, and every block keeps the definitions it had.
pub open spec fn defs_grow(a: Seq<BlockView>, b: Seq<BlockView>) -> bool {
    &&& a.len() <= b.len()
    &&& forall|l: int|
        0 <= l < a.len() ==> defs(a[l]).len() <= defs(b[l]).len() && forall|k: int|
            0 <= k < defs(a[l]).len() ==> #[trigger] defs(b[l])[k] == defs(a[l])[k]
}

/// What `a` defines, `b` defines too.
pub proof fn lemma_defined_grows(a: Seq<BlockView>, b: Seq<BlockView>, r: Register)
    requires
        defs_grow(a, b),
        defined(a, r),
    ensures
        defined(b, r),
{
    let (l, k) = choose|l: int, k: int| 0 <= l < a.len() && 0 <= k < defs(a[l]).len() && #[trigger] defs(a[l])[k] == r;
    assert(defs(b[l])[k] == r);
}

/// Growth of definitions composes.
pub proof fn lemma_defs_grow_trans(a: Seq<BlockView>, b: Seq<BlockView>, c: Seq<BlockView>)
    requires
        defs_grow(a, b),
        defs_grow(b, c),
    ensures
        defs_grow(a, c),
{
    assert forall|l: int| 0 <= l < a.len() implies defs(a[l]).len() <= defs(c[l]).len() && forall|k: int|
        0 <= k < defs(a[l]).len() ==> #[trigger] defs(c[l])[k] == defs(a[l])[k] by {
        assert forall|k: int| 0 <= k < defs(a[l]).len() implies #[trigger] defs(c[l])[k] == defs(a[l])[k] by {
            assert(defs(b[l])[k] == defs(a[l])[k]);
        }
    }
}

/// Appending a fresh definition to the open block keeps the state sound.
proof fn lemma_push_def(s: LowerState, s1: LowerState)
    requires
        state_ok(s),
        s.next < u16::MAX,
        s1.blocks == s.blocks,
        s1.cur == s.cur,
        s1.env == s.env,
        s1.next == s.next + 1,
        defs(s1.snapshot()[s.cur]) == defs(s.snapshot()[s.cur]).push(s.fresh()),
        s1.snapshot()[s.cur].term == s.snapshot()[s.cur].term,
        s1.params.len() == s.params.len() || is_join(s.cur) && s.params.len() == 0,
        s1.params.len() <= s.params.len() + 1,
        forall|k: int| 0 <= k < s1.instrs.len() ==> match #[trigger] s1.instrs[k] {
            Instr::Const { .. } => true,
            Instr::Add { dst, lhs, rhs } => lhs.0 < dst.0 && rhs.0 < dst.0,
        },
    ensures
        state_ok(s1),
        defs_grow(s.snapshot(), s1.snapshot()),
{
    let bs = s.snapshot();
    let bs1 = s1.snapshot();
    let c = s.cur;
    let n = s.next;
    assert(bs1.len() == bs.len());
    assert forall|l: int| 0 <= l < bs.len() && l != c implies bs1[l] == bs[l] by {}
    assert(defs_grow(bs, bs1));
    assert(defs_below(bs1, n + 1)) by {
        assert forall|l: int, k: int| 0 <= l < bs1.len() && 0 <= k < defs(bs1[l]).len() implies (#[trigger] defs(
            bs1[l],
        )[k]).0 < n + 1 by {
            if l != c || k < defs(bs[c]).len() {
                assert(defs(bs1[l])[k] == defs(bs[l])[k]);
            }
        }
    }
    assert(all_defined_below(bs1, n + 1)) by {
        assert forall|m: nat| m < n + 1 implies #[trigger] defined(bs1, Register(m as u16)) by {
            if m < n {
                lemma_defined_grows(bs, bs1, Register(m as u16));
            } else {
                let k = defs(bs[c]).len() as int;
                assert(defs(bs1[c])[k] == Register(m as u16));
            }
        }
    }
    assert(registers_fresh(bs1)) by {
        assert forall|l: int, k1: int, k2: int|
            0 <= l < bs1.len() && 0 <= k1 < k2 < defs(bs1[l]).len() implies (#[trigger] defs(bs1[l])[k1]).0 < (
            #[trigger] defs(bs1[l])[k2]).0 by {
            if l != c || k2 < defs(bs[c]).len() {
                assert(defs(bs1[l])[k1] == defs(bs[l])[k1]);
                assert(defs(bs1[l])[k2] == defs(bs[l])[k2]);
            } else {
                assert(defs(bs1[l])[k1] == defs(bs[l])[k1]);
            }
        }
        assert forall|l1: int, l2: int, k1: int, k2: int|
            0 <= l1 < bs1.len() && 0 <= l2 < bs1.len() && l1 != l2 && 0 <= k1 < defs(bs1[l1]).len() && 0 <= k2
                < defs(bs1[l2]).len() implies #[trigger] defs(bs1[l1])[k1] != #[trigger] defs(bs1[l2])[k2] by {
            if (l1 != c || k1 < defs(bs[c]).len()) && (l2 != c || k2 < defs(bs[c]).len()) {
                assert(defs(bs1[l1])[k1] == defs(bs[l1])[k1]);
                assert(defs(bs1[l2])[k2] == defs(bs[l2])[k2]);
            } else if l1 == c && k1 == defs(bs[c]).len() {
                assert(defs(bs1[l2])[k2] == defs(bs[l2])[k2]);
            } else {
                assert(defs(bs1[l1])[k1] == defs(bs[l1])[k1]);
            }
        }
    }
    assert(reads_below(bs1, n + 1)) by {
        assert forall|l: int, k: int| 0 <= l < bs1.len() && 0 <= k < bs1[l].instrs.len() implies match #[trigger] bs1[l].instrs[k] {
            Instr::Const { .. } => true,
            Instr::Add { dst, lhs, rhs } => lhs.0 < dst.0 && rhs.0 < dst.0,
        } by {
            if l != c {
                assert(bs1[l] == bs[l]);
            }
        }
        assert forall|l: int| 0 <= l < bs1.len() implies term_reads_below(#[trigger] bs1[l].term, n + 1) by {
            assert(term_reads_below(bs[l].term, n));
        }
    }
    assert(shape_ok(bs1)) by {
        assert forall|l: int| 0 <= l < bs1.len() implies term_targets_ok(#[trigger] bs1[l].term, bs1.len()) by {
            assert(term_targets_ok(bs[l].term, bs.len()));
        }
        assert forall|l: int|
            0 <= l < bs1.len() implies (if is_join(l) {
                bs1[l].params.len() <= 1
            } else {
                bs1[l].params.len() == 0
            }) && #[trigger] bs1[l].params.len() >= 0 by {
            assert(bs[l].params.len() >= 0);
        }
    }
}

/// Emitting an instruction whose result is fresh and whose operands were
/// allocated keeps the state sound.
pub proof fn lemma_emit(s: LowerState, i: Instr)
    requires
        state_ok(s),
        s.next < u16::MAX,
        i.spec_dst() == s.fresh(),
        i matches Instr::Add { lhs, rhs, .. } ==> lhs.0 < s.next && rhs.0 < s.next,
    ensures
        state_ok(s.emit(i)),
        defs_grow(s.snapshot(), s.emit(i).snapshot()),
        forall|l: int| 0 <= l < s.blocks.len() ==> #[trigger] s.emit(i).snapshot()[l].params == s.snapshot()[l].params,
{
    let s1 = s.emit(i);
    let bs = s.snapshot();
    assert(bs[s.cur].instrs == s.instrs);
    assert(s1.instrs.map_values(|x: Instr| x.spec_dst()) =~= s.instrs.map_values(|x: Instr| x.spec_dst()).push(
        i.spec_dst(),
    ));
    assert(defs(s1.snapshot()[s.cur]) =~= defs(bs[s.cur]).push(s.fresh()));
    assert forall|k: int| 0 <= k < s1.instrs.len() implies match #[trigger] s1.instrs[k] {
        Instr::Const { .. } => true,
        Instr::Add { dst, lhs, rhs } => lhs.0 < dst.0 && rhs.0 < dst.0,
    } by {
        if k < s.instrs.len() {
            assert(s1.instrs[k] == bs[s.cur].instrs[k]);
        }
    }
    lemma_push_def(s, s1);
}

/// Giving a fresh join block its parameter keeps the state sound.
pub proof fn lemma_add_param(s: LowerState)
    requires
        state_ok(s),
        s.next < u16::MAX,
        s.params.len() == 0,
        s.instrs.len() == 0,
        is_join(s.cur),
    ensures
        state_ok(s.add_param()),
        defs_grow(s.snapshot(), s.add_param().snapshot()),
        forall|l: int|
            0 <= l < s.blocks.len() && l != s.cur ==> #[trigger] s.add_param().snapshot()[l].params
                == s.snapshot()[l].params,
        s.add_param().params.len() == 1,
{
    let s1 = s.add_param();
    assert(defs(s1.snapshot()[s.cur]) =~= defs(s.snapshot()[s.cur]).push(s.fresh()));
    lemma_push_def(s, s1);
}

/// Reserving three blocks keeps the state sound.
pub proof fn lemma_reserve3(s: LowerState)
    requires
        state_ok(s),
    ensures
        state_ok(s.reserve().reserve().reserve()),
        s.reserve().reserve().reserve().snapshot() == s.snapshot() + seq![empty_block(), empty_block(), empty_block()],
        defs_grow(s.snapshot(), s.reserve().reserve().reserve().snapshot()),
{
    let s1 = s.reserve().reserve().reserve();
    let bs = s.snapshot();
    let bs1 = s1.snapshot();
    assert(bs1 =~= bs + seq![empty_block(), empty_block(), empty_block()]);
    assert forall|l: int| bs.len() <= l < bs1.len() implies defs(#[trigger] bs1[l]) =~= Seq::<Register>::empty() by {
        assert(bs1[l] == empty_block());
    }
    assert forall|l: int| 0 <= l < bs.len() implies #[trigger] bs1[l] == bs[l] by {}
    assert(defs_grow(bs, bs1));
    assert(all_defined_below(bs1, s.next)) by {
        assert forall|m: nat| m < s.next implies #[trigger] defined(bs1, Register(m as u16)) by {
            lemma_defined_grows(bs, bs1, Register(m as u16));
        }
    }
    assert(shape_ok(bs1)) by {
        assert forall|l: int| 0 <= l < bs1.len() implies term_targets_ok(#[trigger] bs1[l].term, bs1.len()) by {
            if l < bs.len() {
                assert(term_targets_ok(bs[l].term, bs.len()));
            }
        }
        assert forall|l: int|
            0 <= l < bs1.len() implies (if is_join(l) {
                bs1[l].params.len() <= 1
            } else {
                bs1[l].params.len() == 0
            }) && #[trigger] bs1[l].params.len() >= 0 by {
            if l < bs.len() {
                assert(bs[l].params.len() >= 0);
            }
        }
    }
    assert(registers_fresh(bs1)) by {
        assert forall|l: int, k1: int, k2: int|
            0 <= l < bs1.len() && 0 <= k1 < k2 < defs(bs1[l]).len() implies (#[trigger] defs(bs1[l])[k1]).0 < (
            #[trigger] defs(bs1[l])[k2]).0 by {
            assert(defs(bs1[l])[k1] == defs(bs[l])[k1]);
            assert(defs(bs1[l])[k2] == defs(bs[l])[k2]);
        }
        assert forall|l1: int, l2: int, k1: int, k2: int|
            0 <= l1 < bs1.len() && 0 <= l2 < bs1.len() && l1 != l2 && 0 <= k1 < defs(bs1[l1]).len() && 0 <= k2
                < defs(bs1[l2]).len() implies #[trigger] defs(bs1[l1])[k1] != #[trigger] defs(bs1[l2])[k2] by {
            assert(defs(bs1[l1])[k1] == defs(bs[l1])[k1]);
            assert(defs(bs1[l2])[k2] == defs(bs[l2])[k2]);
        }
    }
    assert(defs_below(bs1, s.next)) by {
        assert forall|l: int, k: int| 0 <= l < bs1.len() && 0 <= k < defs(bs1[l]).len() implies (#[trigger] defs(
            bs1[l],
        )[k]).0 < s.next by {
            assert(defs(bs1[l])[k] == defs(bs[l])[k]);
        }
    }
    assert(reads_below(bs1, s.next)) by {
        assert forall|l: int, k: int| 0 <= l < bs1.len() && 0 <= k < bs1[l].instrs.len() implies match #[trigger] bs1[l].instrs[k] {
            Instr::Const { .. } => true,
            Instr::Add { dst, lhs, rhs } => lhs.0 < dst.0 && rhs.0 < dst.0,
        } by {
            assert(bs1[l] == bs[l]);
        }
        assert forall|l: int| 0 <= l < bs1.len() implies term_reads_below(#[trigger] bs1[l].term, s.next) by {
            if l < bs.len() {
                assert(term_reads_below(bs[l].term, s.next));
            }
        }
    }
}

/// Sealing the open block and opening a reserved empty one changes nothing
/// but the sealed block's terminator.
pub proof fn lemma_seal_switch(s: LowerState, term: Term, t: int)
    requires
        state_ok(s),
        0 <= t < s.blocks.len(),
        t != s.cur,
        s.blocks[t] == empty_block(),
        term_reads_below(term, s.next),
        term_targets_ok(term, s.blocks.len()),
    ensures
        state_ok(s.seal(term).switch_to(t)),
        s.seal(term).switch_to(t).snapshot() == s.snapshot().update(
            s.cur,
            BlockView { params: s.params, instrs: s.instrs, term },
        ),
        defs_grow(s.snapshot(), s.seal(term).switch_to(t).snapshot()),
{
    let s1 = s.seal(term).switch_to(t);
    let bs = s.snapshot();
    let bs1 = s1.snapshot();
    let c = s.cur;
    assert(bs1 =~= bs.update(c, BlockView { params: s.params, instrs: s.instrs, term }));
    assert forall|l: int| 0 <= l < bs.len() implies defs(#[trigger] bs1[l]) == defs(bs[l]) && bs1[l].params == bs[l].params
        && bs1[l].instrs == bs[l].instrs by {}
    assert(defs_grow(bs, bs1));
    assert(all_defined_below(bs1, s.next)) by {
        assert forall|m: nat| m < s.next implies #[trigger] defined(bs1, Register(m as u16)) by {
            lemma_defined_grows(bs, bs1, Register(m as u16));
        }
    }
    assert(shape_ok(bs1)) by {
        assert forall|l: int| 0 <= l < bs1.len() implies term_targets_ok(#[trigger] bs1[l].term, bs1.len()) by {
            if l != c {
                assert(term_targets_ok(bs[l].term, bs.len()));
            }
        }
        assert forall|l: int|
            0 <= l < bs1.len() implies (if is_join(l) {
                bs1[l].params.len() <= 1
            } else {
                bs1[l].params.len() == 0
            }) && #[trigger] bs1[l].params.len() >= 0 by {
            assert(bs[l].params.len() >= 0);
        }
    }
    assert(registers_fresh(bs1)) by {
        assert forall|l: int, k1: int, k2: int|
            0 <= l < bs1.len() && 0 <= k1 < k2 < defs(bs1[l]).len() implies (#[trigger] defs(bs1[l])[k1]).0 < (
            #[trigger] defs(bs1[l])[k2]).0 by {
            assert(defs(bs1[l]) == defs(bs[l]));
        }
        assert forall|l1: int, l2: int, k1: int, k2: int|
            0 <= l1 < bs1.len() && 0 <= l2 < bs1.len() && l1 != l2 && 0 <= k1 < defs(bs1[l1]).len() && 0 <= k2
                < defs(bs1[l2]).len() implies #[trigger] defs(bs1[l1])[k1] != #[trigger] defs(bs1[l2])[k2] by {
            assert(defs(bs1[l1]) == defs(bs[l1]));
            assert(defs(bs1[l2]) == defs(bs[l2]));
        }
    }
    assert(defs_below(bs1, s.next)) by {
        assert forall|l: int, k: int| 0 <= l < bs1.len() && 0 <= k < defs(bs1[l]).len() implies (#[trigger] defs(
            bs1[l],
        )[k]).0 < s.next by {
            assert(defs(bs1[l]) == defs(bs[l]));
        }
    }
    assert(reads_below(bs1, s.next)) by {
        assert forall|l: int, k: int| 0 <= l < bs1.len() && 0 <= k < bs1[l].instrs.len() implies match #[trigger] bs1[l].instrs[k] {
            Instr::Const { .. } => true,
            Instr::Add { dst, lhs, rhs } => lhs.0 < dst.0 && rhs.0 < dst.0,
        } by {
            assert(bs1[l].instrs == bs[l].instrs);
        }
        assert forall|l: int| 0 <= l < bs1.len() implies term_reads_below(#[trigger] bs1[l].term, s.next) by {
            if l != c {
                assert(term_reads_below(bs[l].term, s.next));
            }
        }
    }
}

/// Blocks that existed keep their parameters, and every join created since
/// has exactly one.
pub open spec fn params_kept(a: LowerState, b: LowerState) -> bool {
    &&& forall|l: int| 0 <= l < a.blocks.len() ==> #[trigger] b.snapshot()[l].params == a.snapshot()[l].params
    &&& forall|l: int|
        a.blocks.len() <= l < b.blocks.len() && is_join(l) ==> #[trigger] b.snapshot()[l].params.len() == 1
}

proof fn lemma_lookup_bound(env: Seq<(Seq<char>, Register)>, name: Seq<char>, n: nat)
    requires
        forall|i: int| 0 <= i < env.len() ==> (#[trigger] env[i]).1.0 < n,
    ensures
        lookup(env, name) matches Some(r) ==> r.0 < n,
    decreases env.len(),
{
    if env.len() > 0 {
        assert(env.last() == env[env.len() - 1]);
        let rest = env.drop_last();
        assert forall|i: int| 0 <= i < rest.len() implies (#[trigger] rest[i]).1.0 < n by {
            assert(rest[i] == env[i]);
        }
        lemma_lookup_bound(rest, name, n);
    }
}

/// Every step of expression lowering keeps the state sound, yields an
/// allocated register, and only ever adds definitions.
pub proof fn lemma_expr_ok(s: LowerState, e: Expr)
    requires
        state_ok(s),
        s.next + expr_size(e) <= u16::MAX,
        s.blocks.len() + 3 * expr_size(e) <= u16::MAX,
    ensures
        lower_expr_spec(s, e) matches Ok((s1, r)) ==> {
            &&& state_ok(s1)
            &&& r.0 < s1.next
            &&& s.next <= s1.next <= s.next + expr_size(e)
            &&& s1.blocks.len() <= s.blocks.len() + 3 * expr_size(e)
            &&& s1.env == s.env
            &&& defs_grow(s.snapshot(), s1.snapshot())
            &&& params_kept(s, s1)
        },
    decreases e,
{
    lemma_expr_frame(s, e);
    match e {
        Expr::Number(val) => {
            lemma_emit(s, Instr::Const { dst: s.fresh(), val });
        },
        Expr::Variable(name) => {
            lemma_lookup_bound(s.env, name@, s.next);
            assert(defs_grow(s.snapshot(), s.snapshot()));
        },
        Expr::Add { lhs, rhs } => {
            lemma_expr_ok(s, *lhs);
            if let Ok((s1, l)) = lower_expr_spec(s, *lhs) {
                lemma_expr_ok(s1, *rhs);
                if let Ok((s2, r)) = lower_expr_spec(s1, *rhs) {
                    let i = Instr::Add { dst: s2.fresh(), lhs: l, rhs: r };
                    lemma_emit(s2, i);
                    let s3 = s2.emit(i);
                    lemma_defs_grow_trans(s.snapshot(), s1.snapshot(), s2.snapshot());
                    lemma_defs_grow_trans(s.snapshot(), s2.snapshot(), s3.snapshot());
                    assert forall|k: int| 0 <= k < s.blocks.len() implies #[trigger] s3.snapshot()[k].params
                        == s.snapshot()[k].params by {
                        assert(s2.snapshot()[k].params == s1.snapshot()[k].params);
                    }
                }
            }
        },
        Expr::If { condition, true_branch, false_branch } => {
            lemma_expr_ok(s, *condition);
            if let Ok((sc, c)) = lower_expr_spec(s, *condition) {
                let t = sc.blocks.len() as int;
                let r3 = sc.reserve().reserve().reserve();
                lemma_reserve3(sc);
                let ct = Term::CondBr { cond: c, t: Label(t as u16), f: Label((t + 1) as u16) };
                lemma_seal_switch(r3, ct, t);
                let s2 = r3.seal(ct).switch_to(t);
                let join = Label((t + 2) as u16);
                lemma_expr_frame(s2, *true_branch);
                lemma_expr_ok(s2, *true_branch);
                if let Ok((s3, tv)) = lower_expr_spec(s2, *true_branch) {
                    let bt = Term::Br { label: join, args: seq![tv] };
                    assert(s3.blocks[t + 1] == s2.blocks[t + 1]);
                    lemma_seal_switch(s3, bt, t + 1);
                    let s4 = s3.seal(bt).switch_to(t + 1);
                    lemma_expr_frame(s4, *false_branch);
                    lemma_expr_ok(s4, *false_branch);
                    if let Ok((s5, fv)) = lower_expr_spec(s4, *false_branch) {
                        let bf = Term::Br { label: join, args: seq![fv] };
                        assert(s5.blocks[t + 2] == s4.blocks[t + 2]);
                        lemma_seal_switch(s5, bf, t + 2);
                        let s6 = s5.seal(bf).switch_to(t + 2);
                        lemma_add_param(s6);
                        let s7 = s6.add_param();
                        lemma_defs_grow_trans(s.snapshot(), sc.snapshot(), r3.snapshot());
                        lemma_defs_grow_trans(s.snapshot(), r3.snapshot(), s2.snapshot());
                        lemma_defs_grow_trans(s.snapshot(), s2.snapshot(), s3.snapshot());
                        lemma_defs_grow_trans(s.snapshot(), s3.snapshot(), s4.snapshot());
                        lemma_defs_grow_trans(s.snapshot(), s4.snapshot(), s5.snapshot());
                        lemma_defs_grow_trans(s.snapshot(), s5.snapshot(), s6.snapshot());
                        lemma_defs_grow_trans(s.snapshot(), s6.snapshot(), s7.snapshot());
                        assert(s7.snapshot()[t + 2].params.len() == 1);
                        assert forall|l: int| 0 <= l < s.blocks.len() implies #[trigger] s7.snapshot()[l].params
                            == s.snapshot()[l].params by {
                            assert(s6.snapshot()[l].params == s5.snapshot()[l].params);
                            assert(s4.snapshot()[l].params == s3.snapshot()[l].params);
                            assert(s3.snapshot()[l].params == s2.snapshot()[l].params);
                            assert(s2.snapshot()[l].params == r3.snapshot()[l].params);
                            assert(r3.snapshot()[l].params == sc.snapshot()[l].params);
                        }
                        assert forall|l: int| s.blocks.len() <= l < s7.blocks.len() && is_join(l) implies #[trigger] s7.snapshot()[l].params.len() == 1 by {
                            if l < t {
                                assert(sc.snapshot()[l].params.len() == 1);
                                assert(r3.snapshot()[l].params == sc.snapshot()[l].params);
                                assert(s2.snapshot()[l].params == r3.snapshot()[l].params);
                                assert(s3.snapshot()[l].params == s2.snapshot()[l].params);
                                assert(s4.snapshot()[l].params == s3.snapshot()[l].params);
                                assert(s5.snapshot()[l].params == s4.snapshot()[l].params);
                                assert(s6.snapshot()[l].params == s5.snapshot()[l].params);
                            } else if l < t + 3 {
                                assert(l == t + 2);
                            } else if l < s3.blocks.len() {
                                assert(s3.snapshot()[l].params.len() == 1);
                                assert(s4.snapshot()[l].params == s3.snapshot()[l].params);
                                assert(s5.snapshot()[l].params == s4.snapshot()[l].params);
                                assert(s6.snapshot()[l].params == s5.snapshot()[l].params);
                            } else {
                                assert(s5.snapshot()[l].params.len() == 1);
                                assert(s6.snapshot()[l].params == s5.snapshot()[l].params);
                            }
                        }
                    }
                }
            }
        },
    }
}

proof fn lemma_stmt_ok(s: LowerState, st: Statement)
    requires
        state_ok(s),
        s.next + expr_size(st.spec_expr()) <= u16::MAX,
        s.blocks.len() + 3 * expr_size(st.spec_expr()) <= u16::MAX,
    ensures
        lower_stmt_spec(s, st) matches Ok(s1) ==> {
            &&& state_ok(s1)
            &&& s.next <= s1.next <= s.next + expr_size(st.spec_expr())
            &&& s.blocks.len() <= s1.blocks.len() <= s.blocks.len() + 3 * expr_size(st.spec_expr())
            &&& params_kept(s, s1)
        },
{
    lemma_expr_frame(s, st.spec_expr());
    lemma_expr_ok(s, st.spec_expr());
    if let Statement::LocalDef { name, val } = st {
        if let Ok((s1, r)) = lower_expr_spec(s, val) {
            let s2 = s1.bind(name@, r);
            assert(s2.snapshot() == s1.snapshot());
            assert forall|i: int| 0 <= i < s2.env.len() implies (#[trigger] s2.env[i]).1.0 < s2.next by {
                if i < s1.env.len() {
                    assert(s2.env[i] == s1.env[i]);
                }
            }
        }
    }
}

proof fn lemma_params_kept_trans(a: LowerState, b: LowerState, c: LowerState)
    requires
        params_kept(a, b),
        params_kept(b, c),
        a.blocks.len() <= b.blocks.len() <= c.blocks.len(),
    ensures
        params_kept(a, c),
{
    assert forall|l: int| 0 <= l < a.blocks.len() implies #[trigger] c.snapshot()[l].params == a.snapshot()[l].params by {
        assert(c.snapshot()[l].params == b.snapshot()[l].params);
    }
    assert forall|l: int| a.blocks.len() <= l < c.blocks.len() && is_join(l) implies #[trigger] c.snapshot()[l].params.len()
        == 1 by {
        if l < b.blocks.len() {
            assert(c.snapshot()[l].params == b.snapshot()[l].params);
        }
    }
}

proof fn lemma_stmts_ok(s: LowerState, ss: Seq<Statement>)
    requires
        state_ok(s),
        s.next + stmts_size(ss) <= u16::MAX,
        s.blocks.len() + 3 * stmts_size(ss) <= u16::MAX,
    ensures
        lower_stmts_spec(s, ss) matches Ok(s1) ==> {
            &&& state_ok(s1)
            &&& s.next <= s1.next <= s.next + stmts_size(ss)
            &&& s.blocks.len() <= s1.blocks.len() <= s.blocks.len() + 3 * stmts_size(ss)
            &&& params_kept(s, s1)
        },
    decreases ss.len(),
{
    if ss.len() == 0 {
        assert(params_kept(s, s));
    } else {
        lemma_stmts_ok(s, ss.drop_last());
        if let Ok(s1) = lower_stmts_spec(s, ss.drop_last()) {
            lemma_stmt_ok(s1, ss.last());
            if let Ok(s2) = lower_stmt_spec(s1, ss.last()) {
                lemma_params_kept_trans(s, s1, s2);
            }
        }
    }
}

/// The state a whole program ends in, before the final `ret`, is sound, and
/// every join block in it has its one parameter.
proof fn lemma_program_ok(src: SourceFile)
    requires
        src.fits(),
    ensures
        lower_stmts_spec(LowerState::initial(), src.0@) matches Ok(f) ==> {
            &&& state_ok(f)
            &&& lower_spec(src) == Ok::<Seq<BlockView>, Seq<char>>(f.snapshot())
            &&& forall|l: int| 0 <= l < f.blocks.len() ==> (#[trigger] f.snapshot()[l].params.len() == (if is_join(l) {
                1int
            } else {
                0
            }))
        },
{
    let s0 = LowerState::initial();
    let bs0 = s0.snapshot();
    assert(bs0 =~= seq![BlockView { params: Seq::empty(), instrs: Seq::empty(), term: Term::RetVoid }]);
    assert(defs(bs0[0]) =~= Seq::<Register>::empty());
    assert(shape_ok(bs0));
    assert(registers_fresh(bs0));
    assert(reads_below(bs0, 0));
    assert(state_ok(s0));
    lemma_stmts_ok(s0, src.0@);
    if let Ok(f) = lower_stmts_spec(s0, src.0@) {
        assert forall|l: int| 0 <= l < f.blocks.len() implies (#[trigger] f.snapshot()[l].params.len() == (if is_join(l) {
            1int
        } else {
            0
        })) by {
            if l == 0 {
                assert(f.snapshot()[0].params == bs0[0].params);
            } else if !is_join(l) {
                assert(f.snapshot()[l].params.len() >= 0);
            }
        }
    }
}

/// In a lowered program the join block of every conditional (each third
/// block after the entry) has exactly one parameter, and no other block has any.
pub proof fn lemma_join_parameters(src: SourceFile)
    requires
        src.fits(),
    ensures
        lower_spec(src) matches Ok(bs) ==> forall|l: int|
            0 <= l < bs.len() ==> #[trigger] bs[l].params.len() == (if is_join(l) {
                1int
            } else {
                0
            }),
{
    lemma_program_ok(src);
}

/// No register is defined twice, and within a block definitions come in
/// increasing register order, the order in which registers are allocated.
pub proof fn lemma_registers_fresh(src: SourceFile)
    requires
        src.fits(),
    ensures
        lower_spec(src) matches Ok(bs) ==> registers_fresh(bs),
{
    lemma_program_ok(src);
}

/// Every register that an instruction or terminator reads is defined in the
/// graph, and an instruction's operands were allocated before its result.
pub proof fn lemma_uses_follow_defs(src: SourceFile)
    requires
        src.fits(),
    ensures
        lower_spec(src) matches Ok(bs) ==> uses_follow_defs(bs),
{
    lemma_program_ok(src);
    if let Ok(f) = lower_stmts_spec(LowerState::initial(), src.0@) {
        let bs = f.snapshot();
        assert forall|r: Register| r.0 < f.next implies defined(bs, r) by {
            assert(Register(r.0 as nat as u16) == r);
            assert(defined(bs, Register(r.0 as nat as u16)));
        }
        assert forall|l: int, k: int| 0 <= l < bs.len() && 0 <= k < bs[l].instrs.len() implies instr_reads_defined(
            bs,
            #[trigger] bs[l].instrs[k],
        ) by {
            let i = bs[l].instrs[k];
            let d = bs[l].params.len() + k;
            assert(defs(bs[l])[d] == i.spec_dst());
            assert(i.spec_dst().0 < f.next);
        }
        assert forall|l: int| 0 <= l < bs.len() implies term_reads_defined(bs, #[trigger] bs[l].term) by {
            assert(term_reads_below(bs[l].term, f.next));
            if let Term::Br { args, .. } = bs[l].term {
                assert forall|j: int| 0 <= j < args.len() implies defined(bs, #[trigger] args[j]) by {
                    assert(args[j].0 < f.next);
                }
            }
        }
    }
}

/// Every label a terminator names is a block of the graph, and every branch
/// passes exactly as many arguments as its target block has parameters.
pub proof fn lemma_branches_match(src: SourceFile)
    requires
        src.fits(),
    ensures
        lower_spec(src) matches Ok(bs) ==> branches_match(bs),
{
    lemma_program_ok(src);
    if let Ok(f) = lower_stmts_spec(LowerState::initial(), src.0@) {
        let bs = f.snapshot();
        assert forall|l: int| 0 <= l < bs.len() implies match #[trigger] bs[l].term {
            Term::CondBr { t, f, .. } => t.0 < bs.len() && f.0 < bs.len(),
            Term::Br { label, args } => label.0 < bs.len() && args.len() == bs[label.0 as int].params.len(),
            _ => true,
        } by {
            assert(term_targets_ok(bs[l].term, bs.len()));
            if let Term::Br { label, args } = bs[l].term {
                assert(bs[label.0 as int].params.len() == 1);
            }
        }
    }
}

} // verus!
