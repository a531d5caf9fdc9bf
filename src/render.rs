use vstd::prelude::*;
use crate::cfg::{BasicBlock, BlockView, Cfg, Label, Term, TerminatorInstr};
use crate::tac::{Instr, Register};
use crate::text::{dec, push_dec, push_str, string_from_chars};

verus! {

/// `%N` for register `N`.
pub open spec fn reg_text(r: Register) -> Seq<char> {
    "%"@ + dec(r.0 as nat)
}

/// `lN` for label `N`.
pub open spec fn label_text(n: nat) -> Seq<char> {
    "l"@ + dec(n)
}

/// Registers separated by `, `.
pub open spec fn regs_text(rs: Seq<Register>) -> Seq<char>
    decreases rs.len(),
{
    if rs.len() == 0 {
        Seq::empty()
    } else if rs.len() == 1 {
        reg_text(rs[0])
    } else {
        regs_text(rs.drop_last()) + ", "@ + reg_text(rs.last())
    }
}

/// A parenthesized register list, or nothing for an empty list.
pub open spec fn args_text(rs: Seq<Register>) -> Seq<char> {
    if rs.len() == 0 {
        Seq::empty()
    } else {
        "("@ + regs_text(rs) + ")"@
    }
}

pub open spec fn instr_text(i: Instr) -> Seq<char> {
    match i {
        Instr::Const { dst, val } => reg_text(dst) + " = "@ + dec(val as nat),
        Instr::Add { dst, lhs, rhs } => reg_text(dst) + " = add "@ + reg_text(lhs) + " "@ + reg_text(rhs),
    }
}

/// Each instruction on its own indented line.
pub open spec fn instrs_text(is: Seq<Instr>) -> Seq<char>
    decreases is.len(),
{
    if is.len() == 0 {
        Seq::empty()
    } else {
        instrs_text(is.drop_last()) + "  "@ + instr_text(is.last()) + "\n"@
    }
}

pub open spec fn term_text(t: Term) -> Seq<char> {
    match t {
        Term::CondBr { cond, t, f } => "cond_br "@ + reg_text(cond) + " "@ + label_text(t.0 as nat) + " "@
            + label_text(f.0 as nat),
        Term::Br { label, args } => "br "@ + label_text(label.0 as nat) + args_text(args),
        Term::Ret(r) => "ret "@ + reg_text(r),
        Term::RetVoid => "ret"@,
    }
}

/// The listing of block `n`: header line, body lines and terminator line.
pub open spec fn block_text(n: nat, b: BlockView) -> Seq<char> {
    label_text(n) + args_text(b.params) + ":\n"@ + instrs_text(b.instrs) + "  "@ + term_text(b.term)
}

/// The listing of a whole graph: each block after a line break.
pub open spec fn listing_text(bs: Seq<BlockView>) -> Seq<char>
    decreases bs.len(),
{
    if bs.len() == 0 {
        Seq::empty()
    } else {
        listing_text(bs.drop_last()) + "\n"@ + block_text((bs.len() - 1) as nat, bs.last())
    }
}

/// `s` with every line break written as the graph format's left-justified break `\l`.
pub open spec fn escape_breaks(s: Seq<char>) -> Seq<char>
    decreases s.len(),
{
    if s.len() == 0 {
        Seq::empty()
    } else if s.last() == '\n' {
        escape_breaks(s.drop_last()) + seq!['\\', 'l']
    } else {
        escape_breaks(s.drop_last()).push(s.last())
    }
}

/// The edges leaving block `n`.
pub open spec fn edges_text(n: nat, t: Term) -> Seq<char> {
    match t {
        Term::CondBr { t, f, .. } => "\n\t"@ + dec(n) + " -> "@ + dec(t.0 as nat) + " [label=\"true\"]"@
            + "\n\t"@ + dec(n) + " -> "@ + dec(f.0 as nat) + " [label=\"false\"]"@,
        Term::Br { label, .. } => "\n\t"@ + dec(n) + " -> "@ + dec(label.0 as nat),
        _ => Seq::empty(),
    }
}

/// The node of block `n` and its edges.
pub open spec fn node_text(n: nat, b: BlockView) -> Seq<char> {
    "\n\t"@ + dec(n) + " [label=\""@ + escape_breaks(block_text(n, b)) + "\\l\"]"@ + edges_text(n, b.term)
}

pub open spec fn nodes_text(bs: Seq<BlockView>) -> Seq<char>
    decreases bs.len(),
{
    if bs.len() == 0 {
        Seq::empty()
    } else {
        nodes_text(bs.drop_last()) + node_text((bs.len() - 1) as nat, bs.last())
    }
}

/// The graph description: a header, one node per block with its edges, and a
/// closing brace.
pub open spec fn graph_text(bs: Seq<BlockView>) -> Seq<char> {
    "digraph {\n\tnode [fontname=\"Menlo,monospace\", shape=box]"@ + nodes_text(bs) + "\n}"@
}

fn push_reg(out: &mut Vec<char>, r: Register)
    ensures
        final(out)@ == old(out)@ + reg_text(r),
{
    push_str(out, "%");
    push_dec(out, r.0 as u64);
    assert(out@ =~= old(out)@ + reg_text(r));
}

fn push_label(out: &mut Vec<char>, n: u64)
    ensures
        final(out)@ == old(out)@ + label_text(n as nat),
{
    push_str(out, "l");
    push_dec(out, n);
    assert(out@ =~= old(out)@ + label_text(n as nat));
}

fn push_args(out: &mut Vec<char>, rs: &Vec<Register>)
    ensures
        final(out)@ == old(out)@ + args_text(rs@),
{
    if rs.len() == 0 {
        assert(out@ =~= old(out)@ + args_text(rs@));
        return;
    }
    push_str(out, "(");
    let ghost start = out@;
    let mut i: usize = 0;
    assert(rs@.take(0) =~= Seq::<Register>::empty());
    assert(start =~= start + regs_text(rs@.take(0)));
    while i < rs.len()
        invariant
            i <= rs.len(),
            out@ == start + regs_text(rs@.take(i as int)),
        decreases rs.len() - i,
    {
        let ghost before = out@;
        assert(rs@.take(i + 1).drop_last() =~= rs@.take(i as int));
        if i != 0 {
            push_str(out, ", ");
        }
        push_reg(out, rs[i]);
        i = i + 1;
        if i == 1 {
            assert(out@ =~= start + regs_text(rs@.take(i as int)));
        } else {
            assert(out@ =~= start + regs_text(rs@.take(i as int)));
        }
    }
    assert(rs@.take(i as int) =~= rs@);
    push_str(out, ")");
    assert(out@ =~= old(out)@ + args_text(rs@));
}

fn push_instr(out: &mut Vec<char>, i: &Instr)
    ensures
        final(out)@ == old(out)@ + instr_text(*i),
{
    match i {
        Instr::Const { dst, val } => {
            push_reg(out, *dst);
            push_str(out, " = ");
            push_dec(out, *val as u64);
        },
        Instr::Add { dst, lhs, rhs } => {
            push_reg(out, *dst);
            push_str(out, " = add ");
            push_reg(out, *lhs);
            push_str(out, " ");
            push_reg(out, *rhs);
        },
    }
    assert(out@ =~= old(out)@ + instr_text(*i));
}

fn push_term(out: &mut Vec<char>, t: &TerminatorInstr)
    ensures
        final(out)@ == old(out)@ + term_text(t.view()),
{
    match t {
        TerminatorInstr::ConditionalBranch { condition, true_branch, false_branch } => {
            push_str(out, "cond_br ");
            push_reg(out, *condition);
            push_str(out, " ");
            push_label(out, true_branch.0 as u64);
            push_str(out, " ");
            push_label(out, false_branch.0 as u64);
        },
        TerminatorInstr::Branch { label, arguments } => {
            push_str(out, "br ");
            push_label(out, label.0 as u64);
            push_args(out, arguments);
        },
        TerminatorInstr::Return(r) => {
            push_str(out, "ret ");
            push_reg(out, *r);
        },
        TerminatorInstr::ReturnVoid => {
            push_str(out, "ret");
        },
    }
    assert(out@ =~= old(out)@ + term_text(t.view()));
}

fn push_block(out: &mut Vec<char>, n: u64, b: &BasicBlock)
    ensures
        final(out)@ == old(out)@ + block_text(n as nat, b.view()),
{
    push_label(out, n);
    push_args(out, &b.arguments);
    push_str(out, ":\n");
    let ghost start = out@;
    let mut i: usize = 0;
    assert(b.instrs@.take(0) =~= Seq::<Instr>::empty());
    assert(start =~= start + instrs_text(b.instrs@.take(0)));
    while i < b.instrs.len()
        invariant
            i <= b.instrs.len(),
            out@ == start + instrs_text(b.instrs@.take(i as int)),
        decreases b.instrs.len() - i,
    {
        assert(b.instrs@.take(i + 1).drop_last() =~= b.instrs@.take(i as int));
        push_str(out, "  ");
        push_instr(out, &b.instrs[i]);
        push_str(out, "\n");
        i = i + 1;
        assert(out@ =~= start + instrs_text(b.instrs@.take(i as int)));
    }
    assert(b.instrs@.take(i as int) =~= b.instrs@);
    push_str(out, "  ");
    push_term(out, &b.terminator);
    assert(out@ =~= old(out)@ + block_text(n as nat, b.view()));
}

impl BasicBlock {
    /// The listing of this block under label `label`.
    pub fn debug(&self, label: Label) -> (r: String)
        ensures
            r@ == block_text(label.0 as nat, self.view()),
    {
        let mut out = Vec::new();
        push_block(&mut out, label.0 as u64, self);
        assert(out@ =~= block_text(label.0 as nat, self.view()));
        string_from_chars(out)
    }
}

fn push_escaped(out: &mut Vec<char>, text: &Vec<char>)
    ensures
        final(out)@ == old(out)@ + escape_breaks(text@),
{
    let mut i: usize = 0;
    assert(text@.take(0) =~= Seq::<char>::empty());
    assert(out@ =~= old(out)@ + escape_breaks(text@.take(0)));
    while i < text.len()
        invariant
            i <= text.len(),
            out@ == old(out)@ + escape_breaks(text@.take(i as int)),
        decreases text.len() - i,
    {
        assert(text@.take(i + 1).drop_last() =~= text@.take(i as int));
        if text[i] == '\n' {
            out.push('\\');
            out.push('l');
        } else {
            out.push(text[i]);
        }
        i = i + 1;
        assert(out@ =~= old(out)@ + escape_breaks(text@.take(i as int)));
    }
    assert(text@.take(i as int) =~= text@);
}

fn push_edges(out: &mut Vec<char>, n: u64, t: &TerminatorInstr)
    ensures
        final(out)@ == old(out)@ + edges_text(n as nat, t.view()),
{
    match t {
        TerminatorInstr::ConditionalBranch { true_branch, false_branch, .. } => {
            push_str(out, "\n\t");
            push_dec(out, n);
            push_str(out, " -> ");
            push_dec(out, true_branch.0 as u64);
            push_str(out, " [label=\"true\"]");
            push_str(out, "\n\t");
            push_dec(out, n);
            push_str(out, " -> ");
            push_dec(out, false_branch.0 as u64);
            push_str(out, " [label=\"false\"]");
        },
        TerminatorInstr::Branch { label, .. } => {
            push_str(out, "\n\t");
            push_dec(out, n);
            push_str(out, " -> ");
            push_dec(out, label.0 as u64);
        },
        _ => {},
    }
    assert(out@ =~= old(out)@ + edges_text(n as nat, t.view()));
}

fn push_node(out: &mut Vec<char>, n: u64, bb: &BasicBlock)
    ensures
        final(out)@ == old(out)@ + node_text(n as nat, bb.view()),
{
    push_str(out, "\n\t");
    push_dec(out, n);
    push_str(out, " [label=\"");
    let mut text = Vec::new();
    push_block(&mut text, n, bb);
    assert(text@ =~= block_text(n as nat, bb.view()));
    push_escaped(out, &text);
    push_str(out, "\\l\"]");
    push_edges(out, n, &bb.terminator);
    assert(out@ =~= old(out)@ + node_text(n as nat, bb.view()));
}

impl Cfg {
    /// The textual listing: every block in order, each after a line break.
    pub fn listing(&self) -> (r: String)
        ensures
            r@ == listing_text(self@),
    {
        let mut out = Vec::new();
        let mut i: usize = 0;
        assert(self@.take(0) =~= Seq::<BlockView>::empty());
        while i < self.bbs.len()
            invariant
                i <= self.bbs.len(),
                out@ == listing_text(self@.take(i as int)),
            decreases self.bbs.len() - i,
        {
            assert(self@.take(i + 1).drop_last() =~= self@.take(i as int));
            push_str(&mut out, "\n");
            push_block(&mut out, i as u64, &self.bbs[i]);
            assert(self@.take(i + 1).last() == self.bbs@[i as int].view());
            i = i + 1;
            assert(out@ =~= listing_text(self@.take(i as int)));
        }
        assert(self@.take(i as int) =~= self@);
        string_from_chars(out)
    }

    /// The graph description: one node per block, labelled with its listing,
    /// and one edge per branch target.
    pub fn graph(&self) -> (r: String)
        ensures
            r@ == graph_text(self@),
    {
        let mut out = Vec::new();
        push_str(&mut out, "digraph {\n\tnode [fontname=\"Menlo,monospace\", shape=box]");
        let ghost start = out@;
        let mut i: usize = 0;
        assert(self@.take(0) =~= Seq::<BlockView>::empty());
        assert(out@ =~= start + nodes_text(self@.take(0)));
        while i < self.bbs.len()
            invariant
                i <= self.bbs.len(),
                out@ == start + nodes_text(self@.take(i as int)),
            decreases self.bbs.len() - i,
        {
            assert(self@.take(i + 1).drop_last() =~= self@.take(i as int));
            push_node(&mut out, i as u64, &self.bbs[i]);
            assert(self@.take(i + 1).last() == self.bbs@[i as int].view());
            i = i + 1;
            assert(out@ =~= start + nodes_text(self@.take(i as int)));
        }
        assert(self@.take(i as int) =~= self@);
        push_str(&mut out, "\n}");
        assert(out@ =~= graph_text(self@));
        string_from_chars(out)
    }
}

/// Rendering reads nothing but the blocks: graphs with the same blocks, one
/// graph rendered twice among them, give identical listings and identical
/// graph descriptions.
pub proof fn lemma_rendering_stable(a: &Cfg, b: &Cfg)
    requires
        a@ == b@,
    ensures
        listing_text(a@) == listing_text(b@),
        graph_text(a@) == graph_text(b@),
{
}

} // verus!
