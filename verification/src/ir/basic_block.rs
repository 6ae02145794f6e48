use vstd::prelude::*;
use crate::ir::value::{Inst, Instruction, is_terminator_model};

verus! {

/// A named straight-line sequence of instructions.
#[derive(Debug, PartialEq)]
pub struct BasicBlock {
    pub name: String,
    pub instructions: Vec<Instruction>,
}

/// Model of a basic block.
pub struct BlockModel {
    pub name: Seq<char>,
    pub insts: Seq<Inst>,
}

/// Models of a sequence of instructions.
pub open spec fn inst_models(s: Seq<Instruction>) -> Seq<Inst> {
    s.map_values(|i: Instruction| i@)
}

impl View for BasicBlock {
    type V = BlockModel;

    open spec fn view(&self) -> BlockModel {
        BlockModel { name: self.name@, insts: inst_models(self.instructions@) }
    }
}

/// The terminator of a block model: its last instruction, when that is a terminator.
pub open spec fn block_terminator(b: BlockModel) -> Option<Inst> {
    if b.insts.len() > 0 && is_terminator_model(b.insts.last()) {
        Some(b.insts.last())
    } else {
        None
    }
}

impl BasicBlock {
    /// An empty block with the given name.
    pub fn new(name: String) -> (r: Self)
        ensures
            r@ == (BlockModel { name: name@, insts: Seq::empty() }),
    {
        let r = Self { name, instructions: Vec::new() };
        assert(r@.insts =~= Seq::<Inst>::empty());
        r
    }

    /// Appends an instruction at the end of the block.
    pub fn append(&mut self, inst: Instruction)
        ensures
            final(self)@ == (BlockModel { name: old(self)@.name, insts: old(self)@.insts.push(inst@) }),
    {
        let ghost i = inst@;
        self.instructions.push(inst);
        assert(self@.insts =~= old(self)@.insts.push(i));
    }

    /// The last instruction, when it is a terminator.
    pub fn terminator(&self) -> (r: Option<&Instruction>)
        ensures
            match r {
                Some(i) => block_terminator(self@) == Some(i@),
                None => block_terminator(self@) is None,
            },
    {
        let n = self.instructions.len();
        if n == 0 {
            None
        } else {
            let last = &self.instructions[n - 1];
            if last.is_terminator() {
                Some(last)
            } else {
                None
            }
        }
    }

    /// A deep copy of this block.
    pub fn copy(&self) -> (r: BasicBlock)
        ensures
            r@ == self@,
    {
        let mut insts: Vec<Instruction> = Vec::new();
        let mut j: usize = 0;
        while j < self.instructions.len()
            invariant
                j <= self.instructions.len(),
                insts@.len() == j,
                forall|k: int| 0 <= k < j ==> #[trigger] insts@[k]@ == self.instructions@[k]@,
            decreases self.instructions.len() - j,
        {
            insts.push(self.instructions[j].copy());
            j = j + 1;
        }
        let r = BasicBlock { name: self.name.clone(), instructions: insts };
        assert(r@.insts =~= self@.insts);
        r
    }
}

impl Clone for BasicBlock {
    fn clone(&self) -> (r: BasicBlock)
        ensures
            r@ == self@,
    {
        self.copy()
    }
}

} // verus!
