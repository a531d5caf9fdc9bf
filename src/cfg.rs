use vstd::prelude::*;
use crate::tac::{Instr, Register};

verus! {

/// A whole control-flow graph: block 0 is the entry.
#[derive(Debug)]
pub struct Cfg {
    pub bbs: Vec<BasicBlock>,
}

/// A basic block: parameters, a straight-line body and one terminator.
#[derive(Debug)]
pub struct BasicBlock {
    pub arguments: Vec<Register>,
    pub instrs: Vec<Instr>,
    pub terminator: TerminatorInstr,
}

/// The single control transfer that ends a basic block.
#[derive(Debug)]
pub enum TerminatorInstr {
    ConditionalBranch { condition: Register, true_branch: Label, false_branch: Label },
    Branch { label: Label, arguments: Vec<Register> },
    Return(Register),
    ReturnVoid,
}

/// A block's position in its graph.
#[derive(Clone, Copy, Debug, PartialEq, Eq, Structural)]
pub struct Label(pub u16);

/// Mathematical form of a terminator.
pub enum Term {
    CondBr { cond: Register, t: Label, f: Label },
    Br { label: Label, args: Seq<Register> },
    Ret(Register),
    RetVoid,
}

/// Mathematical form of a basic block.
pub struct BlockView {
    pub params: Seq<Register>,
    pub instrs: Seq<Instr>,
    pub term: Term,
}

/// A block that has been reserved but not yet filled.
pub open spec fn empty_block() -> BlockView {
    BlockView { params: Seq::empty(), instrs: Seq::empty(), term: Term::RetVoid }
}

impl TerminatorInstr {
    pub open spec fn view(&self) -> Term {
        match self {
            TerminatorInstr::ConditionalBranch { condition, true_branch, false_branch } => Term::CondBr {
                cond: *condition,
                t: *true_branch,
                f: *false_branch,
            },
            TerminatorInstr::Branch { label, arguments } => Term::Br { label: *label, args: arguments@ },
            TerminatorInstr::Return(r) => Term::Ret(*r),
            TerminatorInstr::ReturnVoid => Term::RetVoid,
        }
    }
}

impl BasicBlock {
    pub open spec fn view(&self) -> BlockView {
        BlockView { params: self.arguments@, instrs: self.instrs@, term: self.terminator.view() }
    }

    /// An empty block ending in `ret`.
    pub fn placeholder() -> (r: BasicBlock)
        ensures
            r.view() == empty_block(),
    {
        BasicBlock { arguments: Vec::new(), instrs: Vec::new(), terminator: TerminatorInstr::ReturnVoid }
    }
}

/// The mathematical form of a sequence of blocks.
pub open spec fn blocks_view(bbs: Seq<BasicBlock>) -> Seq<BlockView> {
    Seq::new(bbs.len(), |i: int| bbs[i].view())
}

impl Cfg {
    pub open spec fn view(&self) -> Seq<BlockView> {
        blocks_view(self.bbs@)
    }
}

} // verus!
