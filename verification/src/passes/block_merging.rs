use vstd::prelude::*;
use vstd::hash_map::StringHashMap;
use crate::ir::basic_block::{BasicBlock, BlockModel};
use crate::ir::function::{Function, FunctionModel, block_index, block_models, find_block, lemma_find_block};
use crate::ir::module::{Module, ModuleModel, block_sizes, function_size, sum};
use crate::ir::value::{Inst, Instruction};
use crate::passes::{
    ParamRange, Pass, PassDescriptor, params_by_name, PassError, PassSafety, any_function,
    map_functions, rewrite_functions,
};
use crate::text::{string_eq_str, string_of};

verus! {

broadcast use vstd::std_specs::vec::group_vec_axioms;

/// Whether a top-level instruction transfers control to `label` (a branch counts once even
/// when both its targets are `label`).
pub open spec fn refers_to(i: Inst, label: Seq<char>) -> nat {
    match i {
        Inst::Branch { then_label, else_label, .. } => if then_label == label || else_label == label {
            1
        } else {
            0
        },
        Inst::Jump { label: l } => if l == label {
            1
        } else {
            0
        },
        _ => 0,
    }
}

/// How many instructions of a list transfer control to `label`.
pub open spec fn insts_refs(s: Seq<Inst>, label: Seq<char>) -> nat
    decreases s.len(),
{
    if s.len() == 0 {
        0
    } else {
        insts_refs(s.drop_last(), label) + refers_to(s.last(), label)
    }
}

/// How many instructions of a list of blocks transfer control to `label`.
pub open spec fn predecessor_count(bs: Seq<BlockModel>, label: Seq<char>) -> nat
    decreases bs.len(),
{
    if bs.len() == 0 {
        0
    } else {
        predecessor_count(bs.drop_last(), label) + insts_refs(bs.last().insts, label)
    }
}

/// The label a block ends by jumping to, unless it jumps to itself.
pub open spec fn jump_target(b: BlockModel) -> Option<Seq<char>> {
    if b.insts.len() > 0 {
        match b.insts.last() {
            Inst::Jump { label } => if label != b.name {
                Some(label)
            } else {
                None
            },
            _ => None,
        }
    } else {
        None
    }
}

/// The block that the block at `cur` absorbs: the first one named by its final jump, when
/// that jump is the only transfer to the name in the function.
pub open spec fn merge_target(bs: Seq<BlockModel>, cur: int) -> Option<int> {
    match jump_target(bs[cur]) {
        Some(t) => if predecessor_count(bs, t) == 1 {
            find_block(bs, t)
        } else {
            None
        },
        None => None,
    }
}

/// The blocks after the block at `cur` drops its final jump, takes the instructions of the
/// block at `t`, and that block goes.
pub open spec fn merge_at(bs: Seq<BlockModel>, cur: int, t: int) -> Seq<BlockModel> {
    bs.update(
        cur,
        BlockModel { name: bs[cur].name, insts: bs[cur].insts.drop_last() + bs[t].insts },
    ).remove(t)
}

/// Merging from the block at `cur` onwards: a block that merged is looked at again at the
/// same position; whether any merge happened.
pub open spec fn merge_from(bs: Seq<BlockModel>, cur: int) -> (Seq<BlockModel>, bool)
    decreases bs.len() - cur,
{
    if cur < 0 || cur >= bs.len() {
        (bs, false)
    } else {
        match merge_target(bs, cur) {
            Some(t) => if 0 <= t < bs.len() {
                (merge_from(merge_at(bs, cur, t), cur).0, true)
            } else {
                (bs, false)
            },
            None => merge_from(bs, cur + 1),
        }
    }
}

/// One sweep over the blocks of a function.
pub open spec fn merge_function_map() -> spec_fn(FunctionModel) -> FunctionModel {
    |f: FunctionModel| FunctionModel { blocks: merge_from(f.blocks, 0).0, ..f }
}

/// Whether a sweep merges anything in a function.
pub open spec fn merge_function_changes() -> spec_fn(FunctionModel) -> bool {
    |f: FunctionModel| merge_from(f.blocks, 0).1
}

/// Up to `n` sweeps over every function, stopping after one that merges nothing; whether the
/// first merged anything.
pub open spec fn merge_rounds(m: ModuleModel, n: int) -> (ModuleModel, bool)
    decreases n,
{
    if n <= 0 {
        (m, false)
    } else {
        let m1 = map_functions(m, merge_function_map());
        if !any_function(m, merge_function_changes()) {
            (m1, false)
        } else {
            (merge_rounds(m1, n - 1).0, true)
        }
    }
}

/// The smaller of a count and 2.
pub open spec fn capped(n: nat) -> nat {
    if n < 2 { n } else { 2 }
}

/// Changing one element of a sequence of naturals changes its sum by the difference.
pub proof fn lemma_sum_update(s: Seq<nat>, i: int, v: nat)
    requires
        0 <= i < s.len(),
    ensures
        sum(s.update(i, v)) + s[i] == sum(s) + v,
    decreases s.len(),
{
    if i == s.len() - 1 {
        assert(s.update(i, v).drop_last() =~= s.drop_last());
    } else {
        lemma_sum_update(s.drop_last(), i, v);
        assert(s.update(i, v).drop_last() =~= s.drop_last().update(i, v));
    }
}

/// Removing one element of a sequence of naturals takes it off the sum.
pub proof fn lemma_sum_remove(s: Seq<nat>, i: int)
    requires
        0 <= i < s.len(),
    ensures
        sum(s.remove(i)) + s[i] == sum(s),
    decreases s.len(),
{
    if i == s.len() - 1 {
        assert(s.remove(i) =~= s.drop_last());
    } else {
        lemma_sum_remove(s.drop_last(), i);
        assert(s.remove(i).drop_last() =~= s.drop_last().remove(i));
    }
}

/// One merge takes away one block and one instruction (the jump).
pub proof fn lemma_merge_at_balance(bs: Seq<BlockModel>, cur: int, t: int)
    requires
        0 <= cur < bs.len(),
        merge_target(bs, cur) == Some(t),
    ensures
        0 <= t < bs.len(),
        merge_at(bs, cur, t).len() + 1 == bs.len(),
        sum(block_sizes(merge_at(bs, cur, t))) + 1 == sum(block_sizes(bs)),
{
    let label = jump_target(bs[cur])->0;
    lemma_find_block(bs, label);
    assert(t != cur);
    let merged = BlockModel { name: bs[cur].name, insts: bs[cur].insts.drop_last() + bs[t].insts };
    let sizes = block_sizes(bs);
    let up = sizes.update(cur, merged.insts.len());
    assert(block_sizes(bs.update(cur, merged)) =~= up);
    assert(block_sizes(merge_at(bs, cur, t)) =~= up.remove(t));
    lemma_sum_update(sizes, cur, merged.insts.len());
    lemma_sum_remove(up, t);
}

/// Merging from `cur` on keeps instructions minus blocks, and never adds a block.
pub proof fn lemma_merge_from_balance(bs: Seq<BlockModel>, cur: int)
    ensures
        merge_from(bs, cur).0.len() <= bs.len(),
        sum(block_sizes(merge_from(bs, cur).0)) + bs.len() == sum(block_sizes(bs)) + merge_from(
            bs,
            cur,
        ).0.len(),
    decreases bs.len() - cur,
{
    if 0 <= cur < bs.len() {
        match merge_target(bs, cur) {
            Some(t) => {
                lemma_merge_at_balance(bs, cur, t);
                lemma_merge_from_balance(merge_at(bs, cur, t), cur);
            },
            None => {
                lemma_merge_from_balance(bs, cur + 1);
            },
        }
    }
}

/// Functions correspond one to one, with the same names and parameters; each has no more
/// blocks than before, and has lost exactly as many instructions as blocks.
pub open spec fn merged_from(a: ModuleModel, b: ModuleModel) -> bool {
    &&& b.name == a.name
    &&& b.functions.len() == a.functions.len()
    &&& forall|i: int| #![trigger b.functions[i]] 0 <= i < a.functions.len() ==> {
        &&& b.functions[i].name == a.functions[i].name
        &&& b.functions[i].params == a.functions[i].params
        &&& b.functions[i].return_type == a.functions[i].return_type
        &&& b.functions[i].blocks.len() <= a.functions[i].blocks.len()
        &&& function_size(b.functions[i]) + a.functions[i].blocks.len() == function_size(a.functions[i])
            + b.functions[i].blocks.len()
    }
}

/// Block merging removes one jump with each block it removes, and never adds a block: in
/// every function, instructions minus blocks stays the same.
pub proof fn law_merging_removes_a_jump_per_block(m: ModuleModel, n: int)
    ensures
        merged_from(m, merge_rounds(m, n).0),
    decreases n,
{
    if n > 0 {
        let m1 = map_functions(m, merge_function_map());
        assert forall|i: int| #![trigger m1.functions[i]] 0 <= i < m.functions.len() implies {
            &&& m1.functions[i].name == m.functions[i].name
            &&& m1.functions[i].params == m.functions[i].params
            &&& m1.functions[i].return_type == m.functions[i].return_type
            &&& m1.functions[i].blocks.len() <= m.functions[i].blocks.len()
            &&& function_size(m1.functions[i]) + m.functions[i].blocks.len() == function_size(
                m.functions[i],
            ) + m1.functions[i].blocks.len()
        } by {
            lemma_merge_from_balance(m.functions[i].blocks, 0);
        }
        if any_function(m, merge_function_changes()) {
            let m2 = merge_rounds(m1, n - 1).0;
            law_merging_removes_a_jump_per_block(m1, n - 1);
            assert forall|i: int| #![trigger m2.functions[i]] 0 <= i < m.functions.len() implies {
                &&& m2.functions[i].name == m.functions[i].name
                &&& m2.functions[i].params == m.functions[i].params
                &&& m2.functions[i].return_type == m.functions[i].return_type
                &&& m2.functions[i].blocks.len() <= m.functions[i].blocks.len()
                &&& function_size(m2.functions[i]) + m.functions[i].blocks.len() == function_size(
                    m.functions[i],
                ) + m2.functions[i].blocks.len()
            } by {
                assert(m1.functions[i] == m1.functions[i]);
            }
        }
    }
}

/// Whether a top-level instruction transfers control to `label`.
fn transfers_to(inst: &Instruction, label: &str) -> (r: bool)
    ensures
        r == (refers_to(inst@, label@) == 1),
{
    match inst {
        Instruction::Branch { then_label, else_label, .. } => string_eq_str(then_label, label)
            || string_eq_str(else_label, label),
        Instruction::Jump { label: l } => string_eq_str(l, label),
        _ => false,
    }
}

/// How many instructions of the blocks transfer control to `label`, counted up to 2.
fn count_predecessors(blocks: &Vec<BasicBlock>, label: &str) -> (r: usize)
    ensures
        r == capped(predecessor_count(block_models(blocks@), label@)),
{
    let ghost bs = block_models(blocks@);
    let mut count: usize = 0;
    let mut j: usize = 0;
    proof {
        assert(bs.take(0) =~= Seq::<BlockModel>::empty());
    }
    while j < blocks.len()
        invariant
            j <= blocks.len(),
            bs == block_models(blocks@),
            count == capped(predecessor_count(bs.take(j as int), label@)),
        decreases blocks.len() - j,
    {
        let b = &blocks[j];
        let ghost ms = b@.insts;
        let ghost base = predecessor_count(bs.take(j as int), label@);
        let mut k: usize = 0;
        proof {
            assert(ms.take(0) =~= Seq::<Inst>::empty());
        }
        while k < b.instructions.len()
            invariant
                k <= b.instructions.len(),
                ms == b@.insts,
                count == capped(base + insts_refs(ms.take(k as int), label@)),
            decreases b.instructions.len() - k,
        {
            proof {
                assert(ms.take(k + 1).drop_last() =~= ms.take(k as int));
                assert(ms.take(k + 1).last() == ms[k as int]);
            }
            if transfers_to(&b.instructions[k], label) {
                if count < 2 {
                    count = count + 1;
                }
            }
            k = k + 1;
        }
        proof {
            assert(ms.take(k as int) =~= ms);
            assert(bs.take(j + 1).drop_last() =~= bs.take(j as int));
            assert(bs.take(j + 1).last() == bs[j as int]);
        }
        j = j + 1;
    }
    proof {
        assert(bs.take(j as int) =~= bs);
    }
    count
}

/// The label a block ends by jumping to, unless it jumps to itself.
fn jump_label(b: &BasicBlock) -> (r: Option<String>)
    ensures
        match r {
            Some(t) => jump_target(b@) == Some(t@),
            None => jump_target(b@) is None,
        },
{
    let n = b.instructions.len();
    if n == 0 {
        return None;
    }
    match &b.instructions[n - 1] {
        Instruction::Jump { label } => {
            if *label != b.name {
                Some(label.clone())
            } else {
                None
            }
        },
        _ => None,
    }
}

/// One sweep over the blocks of a function: each block ending in the only jump to another
/// block absorbs it; whether anything merged.
fn merge_function(f: Function) -> (r: (Function, bool))
    ensures
        r.0@ == merge_function_map()(f@),
        r.1 == merge_function_changes()(f@),
{
    let ghost f0 = f@;
    let ghost goal = merge_from(f0.blocks, 0);
    let mut f = f;
    let mut changed = false;
    let mut cur: usize = 0;
    while cur < f.basic_blocks.len()
        invariant
            goal == merge_from(f0.blocks, 0),
            f@.name == f0.name,
            f@.return_type == f0.return_type,
            f@.params == f0.params,
            goal.0 == merge_from(f@.blocks, cur as int).0,
            goal.1 == (changed || merge_from(f@.blocks, cur as int).1),
        decreases f.basic_blocks.len() - cur,
    {
        let ghost bs = f@.blocks;
        let mut merged = false;
        match jump_label(&f.basic_blocks[cur]) {
            Some(t) => {
                if count_predecessors(&f.basic_blocks, t.as_str()) == 1 {
                    match block_index(&f.basic_blocks, t.as_str()) {
                        Some(ti) => {
                            proof {
                                lemma_find_block(bs, t@);
                                assert(merge_target(bs, cur as int) == Some(ti as int));
                                assert(ti != cur);
                            }
                            let ghost before = f.basic_blocks@;
                            let mut tb = f.basic_blocks.remove(ti);
                            let ci = if ti < cur { cur - 1 } else { cur };
                            let mut blk = f.basic_blocks.remove(ci);
                            let ghost blk0 = blk@;
                            blk.instructions.pop();
                            blk.instructions.append(&mut tb.instructions);
                            let ghost nb = blk;
                            f.basic_blocks.insert(ci, blk);
                            proof {
                                assert(blk0 == bs[cur as int]);
                                assert(nb@.insts =~= bs[cur as int].insts.drop_last() + bs[ti as int].insts);
                                assert(nb@.name == bs[cur as int].name);
                                assert(f@.blocks =~= merge_at(bs, cur as int, ti as int)) by {
                                    assert forall|k: int| 0 <= k < f@.blocks.len() implies #[trigger] f@.blocks[k]
                                        == merge_at(bs, cur as int, ti as int)[k] by {
                                        if ti < cur {
                                            if k < ti {
                                                assert(f.basic_blocks@[k] == before[k]);
                                            } else if k < ci {
                                                assert(f.basic_blocks@[k] == before[k + 1]);
                                            } else if k == ci {
                                            } else {
                                                assert(f.basic_blocks@[k] == before[k + 1]);
                                            }
                                        } else {
                                            if k < cur {
                                                assert(f.basic_blocks@[k] == before[k]);
                                            } else if k == cur {
                                            } else if k < ti {
                                                assert(f.basic_blocks@[k] == before[k]);
                                            } else {
                                                assert(f.basic_blocks@[k] == before[k + 1]);
                                            }
                                        }
                                    }
                                }
                            }
                            merged = true;
                            changed = true;
                        },
                        None => {
                            proof {
                                assert(merge_target(bs, cur as int) is None);
                            }
                        },
                    }
                } else {
                    proof {
                        assert(merge_target(bs, cur as int) is None);
                    }
                }
            },
            None => {},
        }
        if !merged {
            cur = cur + 1;
        }
    }
    (f, changed)
}

/// Merges a block into the block that alone jumps to it.
pub struct BlockMergingPass {
    params: StringHashMap<ParamRange>,
}

impl BlockMergingPass {
    #[verifier::type_invariant]
    spec fn wf(self) -> bool {
        &&& self.params@.contains_key("max_iterations"@)
        &&& self.params@[("max_iterations"@)].name@ == "max_iterations"@
        &&& self.params@.dom() =~= set!["max_iterations"@]
    }

    /// The number of sweeps `run` performs at most.
    pub closed spec fn max_iterations(self) -> i32 {
        self.params@[("max_iterations"@)].current
    }

    /// The parameters, keyed by name.
    pub closed spec fn param_map(self) -> Map<Seq<char>, ParamRange> {
        self.params@
    }

    /// A pass with `max_iterations` at its default of 5 (range 1 to 20).
    pub fn new() -> (r: Self)
        ensures
            r.max_iterations() == 5,
            r.param_map().dom() == set!["max_iterations"@],
            r.param_map()[("max_iterations"@)].min == 1,
            r.param_map()[("max_iterations"@)].max == 20,
            r.param_map()[("max_iterations"@)].name@ == "max_iterations"@,
            r.param_map()[("max_iterations"@)].default == 5,
            r.param_map()[("max_iterations"@)].min == 1,
            r.param_map()[("max_iterations"@)].max == 20,
            r.param_map()[("max_iterations"@)].step == 1,
            r.param_map()[("max_iterations"@)].current == 5,
    {
        let mut params: StringHashMap<ParamRange> = StringHashMap::new();
        params.insert(string_of("max_iterations"), ParamRange::new("max_iterations", 5, 1, 20, 1));
        let r = Self { params };
        assert(r.params@.dom() =~= set!["max_iterations"@]);
        r
    }
}

} // verus!

verus! {

impl Pass for BlockMergingPass {
    open spec fn accepts(&self, m: ModuleModel) -> bool {
        true
    }

    open spec fn outcome(&self, m: ModuleModel) -> (ModuleModel, bool) {
        merge_rounds(m, self.max_iterations() as int)
    }

    fn id(&self) -> (r: &'static str)
        ensures
            r@ == "block_merge"@,
    {
        "block_merge"
    }

    fn name(&self) -> (r: &'static str)
        ensures
            r@ == "Block Merging"@,
    {
        "Block Merging"
    }

    fn description(&self) -> (r: &'static str)
        ensures
            r@ == "Merges basic blocks when possible to reduce control flow overhead"@,
    {
        "Merges basic blocks when possible to reduce control flow overhead"
    }

    fn safety(&self) -> (r: PassSafety)
        ensures
            r == PassSafety::Safe,
    {
        PassSafety::Safe
    }

    fn run(&self, module: &mut Module) -> (r: Result<bool, PassError>) {
        proof {
            use_type_invariant(self);
        }
        let max_iterations = match self.params.get("max_iterations") {
            Some(p) => p.current,
            None => 5,
        };
        let ghost goal = merge_rounds(old(module)@, max_iterations as int);
        let mut changed_any = false;
        let mut it: i32 = 0;
        let f = |x: Function| -> (r: (Function, bool))
            ensures
                r.0@ == merge_function_map()(x@),
                r.1 == merge_function_changes()(x@),
            { merge_function(x) };
        while it < max_iterations
            invariant
                0 <= it,
                it <= max_iterations || max_iterations <= 0,
                goal == merge_rounds(old(module)@, max_iterations as int),
                max_iterations == self.max_iterations(),
                goal.0 == merge_rounds(module@, max_iterations - it).0,
                goal.1 == (changed_any || merge_rounds(module@, max_iterations - it).1),
                forall|x: Function| #[trigger] f.requires((x,)),
                forall|x: Function, r: (Function, bool)|
                    #[trigger] f.ensures((x,), r) ==> r.0@ == merge_function_map()(x@) && r.1
                        == merge_function_changes()(x@),
            decreases max_iterations - it,
        {
            let ghost before = module@;
            let changed = rewrite_functions(
                module,
                &f,
                Ghost(merge_function_map()),
                Ghost(merge_function_changes()),
            );
            if !changed {
                proof {
                    assert(merge_rounds(before, (max_iterations - it) as int) == (module@, false));
                }
                return Ok(changed_any);
            }
            changed_any = true;
            it = it + 1;
        }
        Ok(changed_any)
    }

    fn get_param(&self, name: &str) -> (r: Option<i32>)
        ensures
            r == (if self.param_map().contains_key(name@) {
                Some(self.param_map()[name@].current)
            } else {
                None::<i32>
            }),
    {
        match self.params.get(name) {
            Some(p) => Some(p.current),
            None => None,
        }
    }

    fn set_param(&mut self, name: &str, value: i32) -> (r: bool)
        ensures
            r == old(self).param_map().contains_key(name@),
            final(self).param_map().dom() == old(self).param_map().dom(),
            r ==> final(self).param_map()[name@].current == crate::passes::clamp(
                value,
                old(self).param_map()[name@].min,
                old(self).param_map()[name@].max,
            ),
            !r ==> final(self).param_map() == old(self).param_map(),
    {
        proof {
            use_type_invariant(&*self);
        }
        let q = match self.params.get(name) {
            Some(p) => {
                let mut q = p.copy();
                q.set_current(value);
                q
            },
            None => {
                return false;
            },
        };
        let mut params: StringHashMap<ParamRange> = StringHashMap::new();
        params.insert(string_of(name), q);
        assert(params@.dom() =~= set!["max_iterations"@]);
        assert(params@ =~= old(self).params@.insert(name@, q));
        self.params = params;
        true
    }

    fn descriptor(&self) -> (r: PassDescriptor)
        ensures
            r.id@ == "block_merge"@,
            r.safety == PassSafety::Safe,
            r.params@.dom() == self.param_map().dom(),
            forall|k: Seq<char>| #[trigger] r.params@.contains_key(k) ==> crate::passes::same_param(
                r.params@[k],
                self.param_map()[k],
            ),
    {
        proof {
            use_type_invariant(self);
        }
        let mut ps: Vec<ParamRange> = Vec::new();
        match self.params.get("max_iterations") {
            Some(p) => {
                ps.push(p.copy());
            },
            None => {},
        }
        let ghost q = ps@[0];
        proof {
            assert(ps@.drop_last() =~= Seq::<ParamRange>::empty());
            assert(params_by_name(ps@) == params_by_name(Seq::<ParamRange>::empty()).insert(q.name@, q));
            assert(params_by_name(Seq::<ParamRange>::empty()) == Map::<Seq<char>, ParamRange>::empty());
        }
        let r = PassDescriptor::new(
            "block_merge",
            "Block Merging",
            "Merges basic blocks when possible to reduce control flow overhead",
            PassSafety::Safe,
            ps,
        );
        proof {
            assert(r.params@.dom() =~= self.params@.dom());
        }
        r
    }
}

} // verus!
