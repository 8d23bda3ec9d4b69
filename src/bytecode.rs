use vstd::prelude::*;

verus! {

/// The instruction set of the virtual machine.
#[derive(Debug, Clone, Copy, PartialEq, Eq, Structural)]
pub enum Instruction {
    LoadNumber,
    LoadString,
    LoadGlob,
    StoreGlob,
    LoadLocal,
    StoreLocal,
    LoadTrue,
    LoadFalse,
    LoadNil,
    UnaryNot,
    UnaryMinus,
    UnaryLen,
    BinAdd,
    BinMinus,
    BinMul,
    BinRealDiv,
    BinIntDiv,
    BinPow,
    BinConcat,
    BinMod,
    BinLt,
    BinLe,
    BinEq,
    BinAnd,
    BinOr,
    JumpAbsoluteIfFalse,
    JumpAbsolute,
    FuncDecl,
    Return,
    FuncCall,
    End,
}

/// One instruction and its argument: a pool index, a code index, or 0.
#[derive(Debug, Clone, Copy, PartialEq, Eq, Structural)]
pub struct Bytecode {
    pub inst: Instruction,
    pub arg: usize,
}

/// A compiled program: its code and the pools that the code indexes.
/// Numbers are kept in the canonical decimal form of their literal.
#[derive(Debug)]
pub struct Bytecodes {
    pub bc: Vec<Bytecode>,
    pub nums: Vec<String>,
    pub strs: Vec<String>,
    pub idents: Vec<String>,
}

/// A program or a compiler's state as values: code and three pools.
pub ghost struct ProgramView {
    pub code: Seq<Bytecode>,
    pub nums: Seq<Seq<char>>,
    pub strs: Seq<Seq<char>>,
    pub idents: Seq<Seq<char>>,
}

/// The texts of a pool of strings.
pub open spec fn pool_view(p: Seq<String>) -> Seq<Seq<char>> {
    p.map_values(|s: String| s@)
}

impl View for Bytecodes {
    type V = ProgramView;

    open spec fn view(&self) -> ProgramView {
        ProgramView {
            code: self.bc@,
            nums: pool_view(self.nums@),
            strs: pool_view(self.strs@),
            idents: pool_view(self.idents@),
        }
    }
}

pub open spec fn is_jump(i: Instruction) -> bool {
    i == Instruction::JumpAbsolute || i == Instruction::JumpAbsoluteIfFalse
}

} // verus!
