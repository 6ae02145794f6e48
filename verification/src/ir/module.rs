use vstd::prelude::*;
use crate::ir::basic_block::BlockModel;
use crate::ir::function::{Function, FunctionModel};
use crate::ir::value::Inst;
use crate::text::string_of;

verus! {

/// A module: a named list of functions.
#[derive(Debug, PartialEq)]
pub struct Module {
    pub name: String,
    pub functions: Vec<Function>,
}

/// Model of a module.
pub struct ModuleModel {
    pub name: Seq<char>,
    pub functions: Seq<FunctionModel>,
}

/// Models of a sequence of functions.
pub open spec fn function_models(s: Seq<Function>) -> Seq<FunctionModel> {
    s.map_values(|f: Function| f@)
}

impl View for Module {
    type V = ModuleModel;

    open spec fn view(&self) -> ModuleModel {
        ModuleModel { name: self.name@, functions: function_models(self.functions@) }
    }
}

/// Sum of a sequence of naturals.
pub open spec fn sum(s: Seq<nat>) -> nat
    decreases s.len(),
{
    if s.len() == 0 {
        0
    } else {
        sum(s.drop_last()) + s.last()
    }
}

/// A prefix sums to no more than the whole, and one more element adds it.
pub proof fn lemma_sum_prefix(s: Seq<nat>, j: int)
    requires
        0 <= j <= s.len(),
    ensures
        sum(s.take(j)) <= sum(s),
        j < s.len() ==> sum(s.take(j + 1)) == sum(s.take(j)) + s[j],
    decreases s.len() - j,
{
    assert(s.take(s.len() as int) =~= s);
    if j < s.len() {
        assert(s.take(j + 1).drop_last() =~= s.take(j));
        lemma_sum_prefix(s, j + 1);
    }
}

/// Number of instructions in each block of a list.
pub open spec fn block_sizes(bs: Seq<BlockModel>) -> Seq<nat> {
    bs.map_values(|b: BlockModel| b.insts.len())
}

/// Number of instructions in a function.
pub open spec fn function_size(f: FunctionModel) -> nat {
    sum(block_sizes(f.blocks))
}

/// Number of instructions in each function of a list.
pub open spec fn function_sizes(fs: Seq<FunctionModel>) -> Seq<nat> {
    fs.map_values(|f: FunctionModel| function_size(f))
}

/// Number of instructions in a module.
pub open spec fn instruction_total(m: ModuleModel) -> nat {
    sum(function_sizes(m.functions))
}

/// Number of blocks in each function of a list.
pub open spec fn function_block_counts(fs: Seq<FunctionModel>) -> Seq<nat> {
    fs.map_values(|f: FunctionModel| f.blocks.len())
}

/// Number of blocks in a module.
pub open spec fn block_total(m: ModuleModel) -> nat {
    sum(function_block_counts(m.functions))
}

/// 1 for a branch, 0 otherwise.
pub open spec fn branch_flags(insts: Seq<Inst>) -> Seq<nat> {
    insts.map_values(|i: Inst| if i is Branch { 1nat } else { 0nat })
}

/// Number of branches among the top-level instructions of each block of a list.
pub open spec fn block_branch_counts(bs: Seq<BlockModel>) -> Seq<nat> {
    bs.map_values(|b: BlockModel| sum(branch_flags(b.insts)))
}

/// Number of branches in each function of a list.
pub open spec fn function_branch_counts(fs: Seq<FunctionModel>) -> Seq<nat> {
    fs.map_values(|f: FunctionModel| sum(block_branch_counts(f.blocks)))
}

/// Number of top-level branch instructions in a module.
pub open spec fn branch_total(m: ModuleModel) -> nat {
    sum(function_branch_counts(m.functions))
}

/// Index of the first function named `name`, if any.
pub open spec fn find_function(fs: Seq<FunctionModel>, name: Seq<char>) -> Option<int>
    decreases fs.len(),
{
    if fs.len() == 0 {
        None
    } else if fs[0].name == name {
        Some(0)
    } else {
        match find_function(fs.drop_first(), name) {
            Some(k) => Some(k + 1),
            None => None,
        }
    }
}

/// `find_function` gives the first index whose function has the name.
pub proof fn lemma_find_function(fs: Seq<FunctionModel>, name: Seq<char>)
    ensures
        match find_function(fs, name) {
            Some(k) => 0 <= k < fs.len() && fs[k].name == name && forall|j: int|
                0 <= j < k ==> fs[j].name != name,
            None => forall|j: int| 0 <= j < fs.len() ==> fs[j].name != name,
        },
    decreases fs.len(),
{
    if fs.len() > 0 && fs[0].name != name {
        lemma_find_function(fs.drop_first(), name);
        assert forall|j: int| 0 < j < fs.len() implies fs[j] == fs.drop_first()[j - 1] by {}
    }
}

/// A first match is what `find_function` finds.
pub proof fn lemma_find_function_at(fs: Seq<FunctionModel>, name: Seq<char>, k: int)
    requires
        0 <= k < fs.len(),
        fs[k].name == name,
        forall|j: int| 0 <= j < k ==> fs[j].name != name,
    ensures
        find_function(fs, name) == Some(k),
{
    lemma_find_function(fs, name);
    match find_function(fs, name) {
        Some(i) => {
            if i < k {
            } else if i > k {
            }
        },
        None => {},
    }
}

/// Index of the first function named `name` in a vector of functions.
pub fn function_index(fs: &Vec<Function>, name: &str) -> (r: Option<usize>)
    ensures
        match r {
            Some(k) => find_function(function_models(fs@), name@) == Some(k as int) && k
                < fs@.len(),
            None => find_function(function_models(fs@), name@) is None,
        },
{
    let key = string_of(name);
    let ghost ms = function_models(fs@);
    proof {
        lemma_find_function(ms, name@);
    }
    let mut j: usize = 0;
    while j < fs.len()
        invariant
            j <= fs.len(),
            ms == function_models(fs@),
            key@ == name@,
            forall|i: int| 0 <= i < j ==> ms[i].name != name@,
        decreases fs.len() - j,
    {
        if fs[j].name == key {
            proof {
                lemma_find_function_at(ms, name@, j as int);
            }
            return Some(j);
        }
        j = j + 1;
    }
    None
}

impl Module {
    /// A module with no functions.
    pub fn new(name: String) -> (r: Self)
        ensures
            r@ == (ModuleModel { name: name@, functions: Seq::empty() }),
    {
        let r = Self { name, functions: Vec::new() };
        assert(r@.functions =~= Seq::<FunctionModel>::empty());
        r
    }

    /// Number of instructions over all blocks of all functions.
    pub fn instruction_count(&self) -> (r: usize)
        requires
            instruction_total(self@) <= usize::MAX,
        ensures
            r == instruction_total(self@),
    {
        let ghost fsz = function_sizes(self@.functions);
        let mut total: usize = 0;
        let mut i: usize = 0;
        while i < self.functions.len()
            invariant
                i <= self.functions.len(),
                fsz == function_sizes(self@.functions),
                sum(fsz) <= usize::MAX,
                total == sum(fsz.take(i as int)),
            decreases self.functions.len() - i,
        {
            let f = &self.functions[i];
            let ghost bsz = block_sizes(f@.blocks);
            proof {
                lemma_sum_prefix(fsz, i as int);
                lemma_sum_prefix(fsz, i as int + 1);
                assert(fsz[i as int] == sum(bsz));
            }
            let mut j: usize = 0;
            while j < f.basic_blocks.len()
                invariant
                    j <= f.basic_blocks.len(),
                    bsz == block_sizes(f@.blocks),
                    sum(fsz.take(i as int)) + sum(bsz) <= usize::MAX,
                    total == sum(fsz.take(i as int)) + sum(bsz.take(j as int)),
                decreases f.basic_blocks.len() - j,
            {
                proof {
                    lemma_sum_prefix(bsz, j as int);
                    lemma_sum_prefix(bsz, j as int + 1);
                }
                total = total + f.basic_blocks[j].instructions.len();
                j = j + 1;
            }
            proof {
                assert(bsz.take(j as int) =~= bsz);
            }
            i = i + 1;
        }
        proof {
            assert(fsz.take(i as int) =~= fsz);
        }
        total
    }

    /// Number of blocks over all functions.
    pub fn block_count(&self) -> (r: usize)
        requires
            block_total(self@) <= usize::MAX,
        ensures
            r == block_total(self@),
    {
        let ghost c = function_block_counts(self@.functions);
        let mut total: usize = 0;
        let mut i: usize = 0;
        while i < self.functions.len()
            invariant
                i <= self.functions.len(),
                c == function_block_counts(self@.functions),
                sum(c) <= usize::MAX,
                total == sum(c.take(i as int)),
            decreases self.functions.len() - i,
        {
            proof {
                lemma_sum_prefix(c, i as int);
                lemma_sum_prefix(c, i as int + 1);
            }
            total = total + self.functions[i].basic_blocks.len();
            i = i + 1;
        }
        proof {
            assert(c.take(i as int) =~= c);
        }
        total
    }

    /// Number of top-level branch instructions over all blocks.
    pub fn branch_count(&self) -> (r: usize)
        requires
            branch_total(self@) <= usize::MAX,
        ensures
            r == branch_total(self@),
    {
        let ghost fc = function_branch_counts(self@.functions);
        let mut total: usize = 0;
        let mut i: usize = 0;
        while i < self.functions.len()
            invariant
                i <= self.functions.len(),
                fc == function_branch_counts(self@.functions),
                sum(fc) <= usize::MAX,
                total == sum(fc.take(i as int)),
            decreases self.functions.len() - i,
        {
            let f = &self.functions[i];
            let ghost bc = block_branch_counts(f@.blocks);
            proof {
                lemma_sum_prefix(fc, i as int);
                lemma_sum_prefix(fc, i as int + 1);
                assert(fc[i as int] == sum(bc));
            }
            let mut j: usize = 0;
            while j < f.basic_blocks.len()
                invariant
                    j <= f.basic_blocks.len(),
                    bc == block_branch_counts(f@.blocks),
                    sum(fc.take(i as int)) + sum(bc) <= usize::MAX,
                    total == sum(fc.take(i as int)) + sum(bc.take(j as int)),
                decreases f.basic_blocks.len() - j,
            {
                let b = &f.basic_blocks[j];
                let ghost fl = branch_flags(b@.insts);
                proof {
                    lemma_sum_prefix(bc, j as int);
                    lemma_sum_prefix(bc, j as int + 1);
                    assert(bc[j as int] == sum(fl));
                }
                let mut k: usize = 0;
                while k < b.instructions.len()
                    invariant
                        k <= b.instructions.len(),
                        fl == branch_flags(b@.insts),
                        sum(fc.take(i as int)) + sum(bc.take(j as int)) + sum(fl) <= usize::MAX,
                        total == sum(fc.take(i as int)) + sum(bc.take(j as int)) + sum(
                            fl.take(k as int),
                        ),
                    decreases b.instructions.len() - k,
                {
                    proof {
                        lemma_sum_prefix(fl, k as int);
                        lemma_sum_prefix(fl, k as int + 1);
                    }
                    match &b.instructions[k] {
                        crate::ir::value::Instruction::Branch { .. } => {
                            total = total + 1;
                        },
                        _ => {},
                    }
                    k = k + 1;
                }
                proof {
                    assert(fl.take(k as int) =~= fl);
                }
                j = j + 1;
            }
            proof {
                assert(bc.take(j as int) =~= bc);
            }
            i = i + 1;
        }
        proof {
            assert(fc.take(i as int) =~= fc);
        }
        total
    }

    /// The first function with the given name.
    pub fn get_function(&self, name: &str) -> (r: Option<&Function>)
        ensures
            match find_function(self@.functions, name@) {
                Some(k) => r matches Some(f) && f@ == self@.functions[k],
                None => r is None,
            },
    {
        match function_index(&self.functions, name) {
            Some(k) => Some(&self.functions[k]),
            None => None,
        }
    }

    /// The first function with the given name, for modification.
    pub fn get_function_mut(&mut self, name: &str) -> (r: Option<&mut Function>)
        ensures
            match find_function(old(self)@.functions, name@) {
                Some(k) => r matches Some(f) && (*f)@ == old(self)@.functions[k]
                    && final(self).functions@ == old(self).functions@.update(k, *final(f))
                    && final(self).name == old(self).name,
                None => r is None && *final(self) == *old(self),
            },
    {
        match function_index(&self.functions, name) {
            Some(k) => Some(&mut self.functions[k]),
            None => None,
        }
    }

    /// A deep copy of this module.
    pub fn copy(&self) -> (r: Module)
        ensures
            r@ == self@,
    {
        let mut fs: Vec<Function> = Vec::new();
        let mut j: usize = 0;
        while j < self.functions.len()
            invariant
                j <= self.functions.len(),
                fs@.len() == j,
                forall|k: int| 0 <= k < j ==> #[trigger] fs@[k]@ == self.functions@[k]@,
            decreases self.functions.len() - j,
        {
            fs.push(self.functions[j].copy());
            j = j + 1;
        }
        let r = Module { name: self.name.clone(), functions: fs };
        assert(r@.functions =~= self@.functions);
        r
    }
}

impl Clone for Module {
    fn clone(&self) -> (r: Module)
        ensures
            r@ == self@,
    {
        self.copy()
    }
}

} // verus!
