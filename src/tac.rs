use vstd::prelude::*;

verus! {

/// A virtual register: names exactly one computed value.
#[derive(Clone, Copy, Debug, PartialEq, Eq, Structural)]
pub struct Register(pub u16);

/// A three-address instruction.
#[derive(Clone, Copy, Debug, PartialEq, Eq, Structural)]
pub enum Instr {
    Const { dst: Register, val: u32 },
    Add { dst: Register, lhs: Register, rhs: Register },
}

impl Instr {
    /// The register this instruction defines.
    pub open spec fn spec_dst(self) -> Register {
        match self {
            Instr::Const { dst, .. } => dst,
            Instr::Add { dst, .. } => dst,
        }
    }

    /// The register this instruction defines.
    pub fn dst(&self) -> (r: Register)
        ensures
            r == self.spec_dst(),
    {
        match self {
            Instr::Const { dst, .. } => *dst,
            Instr::Add { dst, .. } => *dst,
        }
    }
}

} // verus!
