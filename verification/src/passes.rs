use vstd::prelude::*;
use vstd::hash_map::StringHashMap;
use crate::ir::basic_block::{BasicBlock, BlockModel};
use crate::ir::function::{Function, FunctionModel};
use crate::ir::module::{Module, ModuleModel, sum};
use crate::ir::value::{Inst, Instruction};
use crate::text::string_of;
use crate::passes::pass_registry::{AnyPass, PassKind, PassRegistry, kind_id, kind_safety};

pub mod constant_folding;
pub mod strength_reduction;
pub mod dead_code_elimination;
pub mod dead_code_semantics;
pub mod constant_propagation;
pub mod propagation_semantics;
pub mod cse;
pub mod cse_semantics;
pub mod block_merging;
pub mod merging_semantics;
pub mod loop_unroll;
pub mod unroll_semantics;
pub mod pass_registry;

verus! {

/// Why a pass failed.
#[derive(Debug)]
pub enum PassError {
    Generic(String),
    ParamNotFound(String),
}

/// How much a pass may change a program's behaviour.
#[derive(Debug, Clone, Copy, PartialEq, Eq, Structural)]
pub enum PassSafety {
    Safe,
    Conservative,
    Risky,
}

/// A tunable integer parameter of a pass.
#[derive(Debug)]
pub struct ParamRange {
    pub name: String,
    pub default: i32,
    pub min: i32,
    pub max: i32,
    pub step: i32,
    pub current: i32,
}

/// `value` limited to `[lo, hi]`: first raised to `lo`, then lowered to `hi`.
pub open spec fn clamp(value: i32, lo: i32, hi: i32) -> i32 {
    let raised = if value >= lo { value } else { lo };
    if raised <= hi { raised } else { hi }
}

impl ParamRange {
    /// A parameter whose current value is its default.
    pub fn new(name: &str, default_val: i32, min_val: i32, max_val: i32, step_val: i32) -> (r: Self)
        ensures
            r.name@ == name@,
            r.default == default_val,
            r.min == min_val,
            r.max == max_val,
            r.step == step_val,
            r.current == default_val,
    {
        Self {
            name: string_of(name),
            default: default_val,
            min: min_val,
            max: max_val,
            step: step_val,
            current: default_val,
        }
    }

    /// Sets the current value, clamped into `[min, max]`.
    pub fn set_current(&mut self, value: i32)
        ensures
            final(self).current == clamp(value, old(self).min, old(self).max),
            final(self).name == old(self).name,
            final(self).default == old(self).default,
            final(self).min == old(self).min,
            final(self).max == old(self).max,
            final(self).step == old(self).step,
    {
        let raised = if value >= self.min { value } else { self.min };
        self.current = if raised <= self.max { raised } else { self.max };
    }

    /// A copy of this parameter.
    pub fn copy(&self) -> (r: Self)
        ensures
            r.name@ == self.name@,
            r.default == self.default,
            r.min == self.min,
            r.max == self.max,
            r.step == self.step,
            r.current == self.current,
    {
        Self {
            name: self.name.clone(),
            default: self.default,
            min: self.min,
            max: self.max,
            step: self.step,
            current: self.current,
        }
    }
}

/// Whether two parameters agree in every field, names compared by their characters.
pub open spec fn same_param(a: ParamRange, b: ParamRange) -> bool {
    &&& a.name@ == b.name@
    &&& a.default == b.default
    &&& a.min == b.min
    &&& a.max == b.max
    &&& a.step == b.step
    &&& a.current == b.current
}

/// Setting a parameter within a non-empty range keeps its value in the range.
pub proof fn law_clamp_in_range(value: i32, lo: i32, hi: i32)
    requires
        lo <= hi,
    ensures
        lo <= clamp(value, lo, hi) <= hi,
        lo <= value <= hi ==> clamp(value, lo, hi) == value,
{
}

/// Description of a pass and its current parameters.
pub struct PassDescriptor {
    pub id: &'static str,
    pub name: &'static str,
    pub description: &'static str,
    pub safety: PassSafety,
    pub params: StringHashMap<ParamRange>,
}

/// Parameters keyed by name, a later parameter replacing an earlier one of the same name.
pub open spec fn params_by_name(ps: Seq<ParamRange>) -> Map<Seq<char>, ParamRange>
    decreases ps.len(),
{
    if ps.len() == 0 {
        Map::empty()
    } else {
        params_by_name(ps.drop_last()).insert(ps.last().name@, ps.last())
    }
}

impl PassDescriptor {
    /// A descriptor whose parameters are keyed by their names.
    pub fn new(
        id: &'static str,
        name: &'static str,
        description: &'static str,
        safety: PassSafety,
        param_ranges: Vec<ParamRange>,
    ) -> (r: Self)
        ensures
            r.id == id,
            r.name == name,
            r.description == description,
            r.safety == safety,
            r.params@ == params_by_name(param_ranges@),
    {
        let ghost all = param_ranges@;
        let mut params_map: StringHashMap<ParamRange> = StringHashMap::new();
        let mut rest = param_ranges;
        let ghost mut i: int = 0;
        proof {
            assert(all.take(0) =~= Seq::<ParamRange>::empty());
            assert(all.skip(0) =~= all);
        }
        while rest.len() > 0
            invariant
                0 <= i <= all.len(),
                rest@ == all.skip(i),
                params_map@ == params_by_name(all.take(i)),
            decreases rest.len(),
        {
            let p = rest.remove(0);
            let key = p.name.clone();
            proof {
                assert(p == all[i]);
                assert(all.take(i + 1).drop_last() =~= all.take(i));
                assert(all.skip(i + 1) =~= all.skip(i).drop_first());
            }
            params_map.insert(key, p);
            proof {
                i = i + 1;
            }
        }
        proof {
            assert(all.take(i) =~= all);
        }
        Self { id, name, description, safety, params: params_map }
    }

    /// The current value of the named parameter.
    pub fn get_param(&self, name: &str) -> (r: Option<i32>)
        ensures
            r == (if self.params@.contains_key(name@) {
                Some(self.params@[name@].current)
            } else {
                None::<i32>
            }),
    {
        match self.params.get(name) {
            Some(p) => Some(p.current),
            None => None,
        }
    }
}

/// A block with every instruction replaced by its image under `t`.
pub open spec fn map_block(b: BlockModel, t: spec_fn(Inst) -> Inst) -> BlockModel {
    BlockModel { name: b.name, insts: b.insts.map_values(t) }
}

/// A function with every instruction replaced by its image under `t`.
pub open spec fn map_function(f: FunctionModel, t: spec_fn(Inst) -> Inst) -> FunctionModel {
    FunctionModel { blocks: f.blocks.map_values(|b: BlockModel| map_block(b, t)), ..f }
}

/// A module with every instruction replaced by its image under `t`.
pub open spec fn map_module(m: ModuleModel, t: spec_fn(Inst) -> Inst) -> ModuleModel {
    ModuleModel {
        name: m.name,
        functions: m.functions.map_values(|f: FunctionModel| map_function(f, t)),
    }
}

/// Two modules with the same functions and blocks, in the same order, each block holding as
/// many instructions in both.
pub open spec fn same_shape(a: ModuleModel, b: ModuleModel) -> bool {
    &&& b.name == a.name
    &&& b.functions.len() == a.functions.len()
    &&& forall|i: int| #![trigger b.functions[i]] 0 <= i < a.functions.len() ==> {
        &&& b.functions[i].name == a.functions[i].name
        &&& b.functions[i].params == a.functions[i].params
        &&& b.functions[i].return_type == a.functions[i].return_type
        &&& b.functions[i].blocks.len() == a.functions[i].blocks.len()
        &&& forall|j: int| #![trigger b.functions[i].blocks[j]] 0 <= j < a.functions[i].blocks.len()
            ==> b.functions[i].blocks[j].name == a.functions[i].blocks[j].name
            && b.functions[i].blocks[j].insts.len() == a.functions[i].blocks[j].insts.len()
    }
}

/// Rewriting instruction by instruction keeps the shape.
pub proof fn lemma_map_module_shape(m: ModuleModel, t: spec_fn(Inst) -> Inst)
    ensures
        same_shape(m, map_module(m, t)),
{
}

/// Keeping the shape is transitive.
pub proof fn lemma_same_shape_trans(a: ModuleModel, b: ModuleModel, c: ModuleModel)
    requires
        same_shape(a, b),
        same_shape(b, c),
    ensures
        same_shape(a, c),
{
    assert forall|i: int| #![trigger c.functions[i]] 0 <= i < a.functions.len() implies forall|j: int|
        #![trigger c.functions[i].blocks[j]] 0 <= j < a.functions[i].blocks.len()
            ==> c.functions[i].blocks[j].name == a.functions[i].blocks[j].name
            && c.functions[i].blocks[j].insts.len() == a.functions[i].blocks[j].insts.len() by {
        assert(b.functions[i] == b.functions[i]);
        assert forall|j: int| #![trigger c.functions[i].blocks[j]] 0 <= j
            < a.functions[i].blocks.len() implies c.functions[i].blocks[j].name
            == a.functions[i].blocks[j].name && c.functions[i].blocks[j].insts.len()
            == a.functions[i].blocks[j].insts.len() by {
            assert(b.functions[i].blocks[j] == b.functions[i].blocks[j]);
        }
    }
}

/// Whether some instruction of a block satisfies `c`.
pub open spec fn block_any(b: BlockModel, c: spec_fn(Inst) -> bool) -> bool {
    exists|k: int| 0 <= k < b.insts.len() && #[trigger] c(b.insts[k])
}

/// Whether some instruction of a function satisfies `c`.
pub open spec fn function_any(f: FunctionModel, c: spec_fn(Inst) -> bool) -> bool {
    exists|j: int| 0 <= j < f.blocks.len() && #[trigger] block_any(f.blocks[j], c)
}

/// Whether some instruction of a module satisfies `c`.
pub open spec fn module_any(m: ModuleModel, c: spec_fn(Inst) -> bool) -> bool {
    exists|i: int| 0 <= i < m.functions.len() && #[trigger] function_any(m.functions[i], c)
}

/// Replaces every instruction of a block by what `f` gives for it; whether `f` reported a change.
pub fn rewrite_block<F: Fn(Instruction) -> (Instruction, bool)>(
    b: &mut BasicBlock,
    f: &F,
    Ghost(t): Ghost<spec_fn(Inst) -> Inst>,
    Ghost(c): Ghost<spec_fn(Inst) -> bool>,
) -> (changed: bool)
    requires
        forall|i: Instruction| #[trigger] f.requires((i,)),
        forall|i: Instruction, r: (Instruction, bool)|
            #[trigger] f.ensures((i,), r) ==> r.0@ == t(i@) && r.1 == c(i@),
    ensures
        final(b)@ == map_block(old(b)@, t),
        changed == block_any(old(b)@, c),
{
    let ghost old_insts = b@.insts;
    let mut changed = false;
    let n = b.instructions.len();
    let mut k: usize = 0;
    while k < n
        invariant
            n == b.instructions.len(),
            n == old_insts.len(),
            k <= n,
            b.name == old(b).name,
            old_insts == old(b)@.insts,
            forall|i: Instruction| #[trigger] f.requires((i,)),
            forall|i: Instruction, r: (Instruction, bool)|
                #[trigger] f.ensures((i,), r) ==> r.0@ == t(i@) && r.1 == c(i@),
            forall|j: int| 0 <= j < k ==> #[trigger] b.instructions@[j]@ == t(old_insts[j]),
            forall|j: int| k <= j < n ==> #[trigger] b.instructions@[j]@ == old_insts[j],
            changed == exists|j: int| 0 <= j < k && #[trigger] c(old_insts[j]),
        decreases n - k,
    {
        let ghost before = b.instructions@;
        let inst = b.instructions.remove(k);
        assert(inst == before[k as int]);
        let (new_inst, ch) = f(inst);
        let ghost ni = new_inst;
        b.instructions.insert(k, new_inst);
        assert(b.instructions@ =~= before.update(k as int, ni));
        changed = changed || ch;
        k = k + 1;
    }
    assert(b@.insts =~= old_insts.map_values(t));
    changed
}

/// Replaces every instruction of a function by what `f` gives for it.
pub fn rewrite_function<F: Fn(Instruction) -> (Instruction, bool)>(
    fun: &mut Function,
    f: &F,
    Ghost(t): Ghost<spec_fn(Inst) -> Inst>,
    Ghost(c): Ghost<spec_fn(Inst) -> bool>,
) -> (changed: bool)
    requires
        forall|i: Instruction| #[trigger] f.requires((i,)),
        forall|i: Instruction, r: (Instruction, bool)|
            #[trigger] f.ensures((i,), r) ==> r.0@ == t(i@) && r.1 == c(i@),
    ensures
        final(fun)@ == map_function(old(fun)@, t),
        changed == function_any(old(fun)@, c),
{
    let ghost old_blocks = fun@.blocks;
    let mut changed = false;
    let n = fun.basic_blocks.len();
    let mut k: usize = 0;
    while k < n
        invariant
            n == fun.basic_blocks.len(),
            n == old_blocks.len(),
            k <= n,
            fun.name == old(fun).name,
            fun.return_type == old(fun).return_type,
            fun.params == old(fun).params,
            old_blocks == old(fun)@.blocks,
            forall|i: Instruction| #[trigger] f.requires((i,)),
            forall|i: Instruction, r: (Instruction, bool)|
                #[trigger] f.ensures((i,), r) ==> r.0@ == t(i@) && r.1 == c(i@),
            forall|j: int| 0 <= j < k ==> #[trigger] fun.basic_blocks@[j]@ == map_block(old_blocks[j], t),
            forall|j: int| k <= j < n ==> #[trigger] fun.basic_blocks@[j]@ == old_blocks[j],
            changed == exists|j: int| 0 <= j < k && #[trigger] block_any(old_blocks[j], c),
        decreases n - k,
    {
        let ghost before = fun.basic_blocks@;
        let mut blk = fun.basic_blocks.remove(k);
        assert(blk == before[k as int]);
        let ch = rewrite_block(&mut blk, f, Ghost(t), Ghost(c));
        let ghost nb = blk;
        fun.basic_blocks.insert(k, blk);
        assert(fun.basic_blocks@ =~= before.update(k as int, nb));
        changed = changed || ch;
        k = k + 1;
    }
    assert(fun@.blocks =~= map_function(old(fun)@, t).blocks);
    changed
}

/// Replaces every instruction of a module by what `f` gives for it.
pub fn rewrite_module<F: Fn(Instruction) -> (Instruction, bool)>(
    m: &mut Module,
    f: &F,
    Ghost(t): Ghost<spec_fn(Inst) -> Inst>,
    Ghost(c): Ghost<spec_fn(Inst) -> bool>,
) -> (changed: bool)
    requires
        forall|i: Instruction| #[trigger] f.requires((i,)),
        forall|i: Instruction, r: (Instruction, bool)|
            #[trigger] f.ensures((i,), r) ==> r.0@ == t(i@) && r.1 == c(i@),
    ensures
        final(m)@ == map_module(old(m)@, t),
        changed == module_any(old(m)@, c),
{
    let ghost old_fns = m@.functions;
    let mut changed = false;
    let n = m.functions.len();
    let mut k: usize = 0;
    while k < n
        invariant
            n == m.functions.len(),
            n == old_fns.len(),
            k <= n,
            m.name == old(m).name,
            old_fns == old(m)@.functions,
            forall|i: Instruction| #[trigger] f.requires((i,)),
            forall|i: Instruction, r: (Instruction, bool)|
                #[trigger] f.ensures((i,), r) ==> r.0@ == t(i@) && r.1 == c(i@),
            forall|j: int| 0 <= j < k ==> #[trigger] m.functions@[j]@ == map_function(old_fns[j], t),
            forall|j: int| k <= j < n ==> #[trigger] m.functions@[j]@ == old_fns[j],
            changed == exists|j: int| 0 <= j < k && #[trigger] function_any(old_fns[j], c),
        decreases n - k,
    {
        let ghost before = m.functions@;
        let mut fun = m.functions.remove(k);
        assert(fun == before[k as int]);
        let ch = rewrite_function(&mut fun, f, Ghost(t), Ghost(c));
        let ghost nf = fun;
        m.functions.insert(k, fun);
        assert(m.functions@ =~= before.update(k as int, nf));
        changed = changed || ch;
        k = k + 1;
    }
    assert(m@.functions =~= map_module(old(m)@, t).functions);
    changed
}

/// A module with every function replaced by its image under `t`.
pub open spec fn map_functions(m: ModuleModel, t: spec_fn(FunctionModel) -> FunctionModel) -> ModuleModel {
    ModuleModel { name: m.name, functions: m.functions.map_values(t) }
}

/// Whether some function of a module satisfies `c`.
pub open spec fn any_function(m: ModuleModel, c: spec_fn(FunctionModel) -> bool) -> bool {
    exists|i: int| 0 <= i < m.functions.len() && #[trigger] c(m.functions[i])
}

/// A function with every block replaced by its image under `t`.
pub open spec fn map_blocks(f: FunctionModel, t: spec_fn(BlockModel) -> BlockModel) -> FunctionModel {
    FunctionModel { blocks: f.blocks.map_values(t), ..f }
}

/// Whether some block of a function satisfies `c`.
pub open spec fn any_block(f: FunctionModel, c: spec_fn(BlockModel) -> bool) -> bool {
    exists|j: int| 0 <= j < f.blocks.len() && #[trigger] c(f.blocks[j])
}

/// Replaces every function of a module by what `f` gives for it; whether `f` reported a change.
pub fn rewrite_functions<F: Fn(Function) -> (Function, bool)>(
    m: &mut Module,
    f: &F,
    Ghost(t): Ghost<spec_fn(FunctionModel) -> FunctionModel>,
    Ghost(c): Ghost<spec_fn(FunctionModel) -> bool>,
) -> (changed: bool)
    requires
        forall|x: Function| #[trigger] f.requires((x,)),
        forall|x: Function, r: (Function, bool)|
            #[trigger] f.ensures((x,), r) ==> r.0@ == t(x@) && r.1 == c(x@),
    ensures
        final(m)@ == map_functions(old(m)@, t),
        changed == any_function(old(m)@, c),
{
    let ghost old_fns = m@.functions;
    let mut changed = false;
    let n = m.functions.len();
    let mut k: usize = 0;
    while k < n
        invariant
            n == m.functions.len(),
            n == old_fns.len(),
            k <= n,
            m.name == old(m).name,
            old_fns == old(m)@.functions,
            forall|x: Function| #[trigger] f.requires((x,)),
            forall|x: Function, r: (Function, bool)|
                #[trigger] f.ensures((x,), r) ==> r.0@ == t(x@) && r.1 == c(x@),
            forall|j: int| 0 <= j < k ==> #[trigger] m.functions@[j]@ == t(old_fns[j]),
            forall|j: int| k <= j < n ==> #[trigger] m.functions@[j]@ == old_fns[j],
            changed == exists|j: int| 0 <= j < k && #[trigger] c(old_fns[j]),
        decreases n - k,
    {
        let ghost before = m.functions@;
        let fun = m.functions.remove(k);
        assert(fun == before[k as int]);
        let (nf, ch) = f(fun);
        let ghost g = nf;
        m.functions.insert(k, nf);
        assert(m.functions@ =~= before.update(k as int, g));
        changed = changed || ch;
        k = k + 1;
    }
    assert(m@.functions =~= map_functions(old(m)@, t).functions);
    changed
}

/// Replaces every block of a function by what `f` gives for it; whether `f` reported a change.
pub fn rewrite_blocks<F: Fn(BasicBlock) -> (BasicBlock, bool)>(
    fun: &mut Function,
    f: &F,
    Ghost(t): Ghost<spec_fn(BlockModel) -> BlockModel>,
    Ghost(c): Ghost<spec_fn(BlockModel) -> bool>,
) -> (changed: bool)
    requires
        forall|x: BasicBlock| #[trigger] f.requires((x,)),
        forall|x: BasicBlock, r: (BasicBlock, bool)|
            #[trigger] f.ensures((x,), r) ==> r.0@ == t(x@) && r.1 == c(x@),
    ensures
        final(fun)@ == map_blocks(old(fun)@, t),
        changed == any_block(old(fun)@, c),
{
    let ghost old_blocks = fun@.blocks;
    let mut changed = false;
    let n = fun.basic_blocks.len();
    let mut k: usize = 0;
    while k < n
        invariant
            n == fun.basic_blocks.len(),
            n == old_blocks.len(),
            k <= n,
            fun.name == old(fun).name,
            fun.return_type == old(fun).return_type,
            fun.params == old(fun).params,
            old_blocks == old(fun)@.blocks,
            forall|x: BasicBlock| #[trigger] f.requires((x,)),
            forall|x: BasicBlock, r: (BasicBlock, bool)|
                #[trigger] f.ensures((x,), r) ==> r.0@ == t(x@) && r.1 == c(x@),
            forall|j: int| 0 <= j < k ==> #[trigger] fun.basic_blocks@[j]@ == t(old_blocks[j]),
            forall|j: int| k <= j < n ==> #[trigger] fun.basic_blocks@[j]@ == old_blocks[j],
            changed == exists|j: int| 0 <= j < k && #[trigger] c(old_blocks[j]),
        decreases n - k,
    {
        let ghost before = fun.basic_blocks@;
        let blk = fun.basic_blocks.remove(k);
        assert(blk == before[k as int]);
        let (nb, ch) = f(blk);
        let ghost g = nb;
        fun.basic_blocks.insert(k, nb);
        assert(fun.basic_blocks@ =~= before.update(k as int, g));
        changed = changed || ch;
        k = k + 1;
    }
    assert(fun@.blocks =~= map_blocks(old(fun)@, t).blocks);
    changed
}

/// The sum of pointwise smaller naturals is smaller, strictly if one is strictly smaller.
pub proof fn lemma_sum_le(a: Seq<nat>, b: Seq<nat>)
    requires
        a.len() == b.len(),
        forall|k: int| 0 <= k < a.len() ==> #[trigger] a[k] <= b[k],
    ensures
        sum(a) <= sum(b),
        (exists|k: int| 0 <= k < a.len() && #[trigger] a[k] < b[k]) ==> sum(a) < sum(b),
    decreases a.len(),
{
    if a.len() > 0 {
        lemma_sum_le(a.drop_last(), b.drop_last());
        if exists|k: int| 0 <= k < a.len() && #[trigger] a[k] < b[k] {
            let k = choose|k: int| 0 <= k < a.len() && #[trigger] a[k] < b[k];
            if k < a.len() - 1 {
                assert(a.drop_last()[k] < b.drop_last()[k]);
            }
        }
    }
}

/// A transformation of a whole module.
pub trait Pass {
    /// Modules the pass can run on.
    spec fn accepts(&self, m: ModuleModel) -> bool;

    /// The module the pass leaves behind, and whether it reports a change.
    spec fn outcome(&self, m: ModuleModel) -> (ModuleModel, bool);

    /// Stable identifier.
    fn id(&self) -> &'static str;

    /// Display name.
    fn name(&self) -> &'static str;

    /// One-line description.
    fn description(&self) -> &'static str;

    /// How much the pass may change behaviour.
    fn safety(&self) -> PassSafety;

    /// Transforms the module; whether it changed.
    fn run(&self, module: &mut Module) -> (r: Result<bool, PassError>)
        requires
            self.accepts(old(module)@),
        ensures
            r is Ok,
            r matches Ok(c) ==> (final(module)@, c) == self.outcome(old(module)@),
    ;

    /// Current value of a parameter.
    fn get_param(&self, name: &str) -> Option<i32>;

    /// Sets a parameter (clamped to its range); whether the pass has it.
    fn set_param(&mut self, name: &str, value: i32) -> bool;

    /// Description of the pass and its parameters.
    fn descriptor(&self) -> PassDescriptor;
}

/// Optimization presets.
#[derive(Debug, Clone, Copy, PartialEq, Eq, Structural)]
pub enum OptimizationLevel {
    Safe,
    Conservative,
    Balanced,
}

/// Whether each pass of a sequence can run on the module the earlier ones leave.
pub open spec fn pipeline_accepts(ps: Seq<AnyPass>, m: ModuleModel) -> bool
    decreases ps.len(),
{
    ps.len() == 0 || (ps[0].accepts(m) && pipeline_accepts(ps.drop_first(), ps[0].outcome(m).0))
}

/// The module a sequence of passes leaves, each running on what the earlier ones left, and
/// whether any of them reported a change.
pub open spec fn pipeline(ps: Seq<AnyPass>, m: ModuleModel) -> (ModuleModel, bool)
    decreases ps.len(),
{
    if ps.len() == 0 {
        (m, false)
    } else {
        let (m1, c1) = ps[0].outcome(m);
        let (m2, c2) = pipeline(ps.drop_first(), m1);
        (m2, c1 || c2)
    }
}

/// A pass added at the end of a pipeline runs on what the earlier passes left: the pipeline
/// accepts the module when the earlier passes do and the new one accepts their result, and
/// reports a change when they or it did.
pub proof fn law_pipeline_runs_in_order(ps: Seq<AnyPass>, p: AnyPass, m: ModuleModel)
    ensures
        pipeline_accepts(ps.push(p), m) == (pipeline_accepts(ps, m) && p.accepts(pipeline(ps, m).0)),
        pipeline(ps.push(p), m) == (p.outcome(pipeline(ps, m).0).0, pipeline(ps, m).1 || p.outcome(
            pipeline(ps, m).0,
        ).1),
    decreases ps.len(),
{
    assert(ps.push(p)[0] == if ps.len() == 0 { p } else { ps[0] });
    if ps.len() == 0 {
        assert(ps.push(p).drop_first() =~= Seq::<AnyPass>::empty());
        assert(pipeline(ps.push(p).drop_first(), p.outcome(m).0) == (p.outcome(m).0, false));
        assert(pipeline_accepts(ps.push(p).drop_first(), p.outcome(m).0));
    } else {
        let m1 = ps[0].outcome(m).0;
        law_pipeline_runs_in_order(ps.drop_first(), p, m1);
        assert(ps.push(p).drop_first() =~= ps.drop_first().push(p));
    }
}

/// The identifiers of the passes a preset asks for, in order.
pub open spec fn level_ids(level: OptimizationLevel) -> Seq<Seq<char>> {
    match level {
        OptimizationLevel::Safe => seq!["constant_folding"@],
        OptimizationLevel::Conservative => seq![
            "constant_folding"@,
            "dead_code"@,
            "cse"@,
            "loop_unroll"@,
        ],
        OptimizationLevel::Balanced => seq![
            "constant_folding"@,
            "dead_code"@,
            "cse"@,
            "loop_unroll"@,
            "constant_propagation"@,
            "block_merge"@,
            "strength_reduction"@,
        ],
    }
}

/// The kinds a registry gives for the identifiers it knows, in order.
pub open spec fn registered_kinds(ids: Seq<Seq<char>>, catalog: Map<Seq<char>, PassKind>) -> Seq<PassKind>
    decreases ids.len(),
{
    if ids.len() == 0 {
        Seq::empty()
    } else if catalog.contains_key(ids.last()) {
        registered_kinds(ids.drop_last(), catalog).push(catalog[ids.last()])
    } else {
        registered_kinds(ids.drop_last(), catalog)
    }
}

/// An ordered sequence of passes run one after another.
pub struct PassManager {
    passes: Vec<AnyPass>,
}

impl View for PassManager {
    type V = Seq<AnyPass>;

    closed spec fn view(&self) -> Seq<AnyPass> {
        self.passes@
    }
}

impl PassManager {
    /// An empty pipeline.
    pub fn new() -> (r: Self)
        ensures
            r@ == Seq::<AnyPass>::empty(),
    {
        Self { passes: Vec::new() }
    }

    /// Appends a pass.
    pub fn add(&mut self, pass: AnyPass)
        ensures
            final(self)@ == old(self)@.push(pass),
    {
        self.passes.push(pass);
    }

    /// Removes the pass at `index`, if there is one.
    pub fn remove(&mut self, index: usize)
        ensures
            index < old(self)@.len() ==> final(self)@ == old(self)@.remove(index as int),
            index >= old(self)@.len() ==> final(self)@ == old(self)@,
    {
        if index < self.passes.len() {
            self.passes.remove(index);
        }
    }

    /// Whether every pass of the pipeline can run, each on what the earlier ones leave.
    pub fn accepts_module(&self, module: &Module) -> (r: bool)
        ensures
            r == pipeline_accepts(self@, module@),
    {
        let ghost ps = self@;
        let mut m = module.copy();
        let mut k: usize = 0;
        proof {
            assert(ps.skip(0) =~= ps);
        }
        while k < self.passes.len()
            invariant
                k <= self.passes.len(),
                ps == self@,
                pipeline_accepts(ps, module@) == pipeline_accepts(ps.skip(k as int), m@),
            decreases self.passes.len() - k,
        {
            proof {
                assert(ps.skip(k as int)[0] == ps[k as int]);
                assert(ps.skip(k as int).drop_first() =~= ps.skip(k + 1));
            }
            if !self.passes[k].accepts_module(&m) {
                return false;
            }
            let _ = self.passes[k].run(&mut m);
            k = k + 1;
        }
        true
    }

    /// Runs every pass in order on the module; whether any changed it.
    pub fn run_all(&self, module: &mut Module) -> (r: Result<bool, PassError>)
        requires
            pipeline_accepts(self@, old(module)@),
        ensures
            r is Ok,
            r matches Ok(c) ==> (final(module)@, c) == pipeline(self@, old(module)@),
    {
        let ghost ps = self@;
        let ghost goal = pipeline(ps, old(module)@);
        let mut any_changed = false;
        let mut k: usize = 0;
        proof {
            assert(ps.skip(0) =~= ps);
        }
        while k < self.passes.len()
            invariant
                k <= self.passes.len(),
                ps == self@,
                goal == pipeline(ps, old(module)@),
                pipeline_accepts(ps.skip(k as int), module@),
                goal.0 == pipeline(ps.skip(k as int), module@).0,
                goal.1 == (any_changed || pipeline(ps.skip(k as int), module@).1),
            decreases self.passes.len() - k,
        {
            proof {
                assert(ps.skip(k as int)[0] == ps[k as int]);
                assert(ps.skip(k as int).drop_first() =~= ps.skip(k + 1));
            }
            match self.passes[k].run(module) {
                Ok(c) => {
                    any_changed = any_changed || c;
                },
                Err(e) => {
                    return Err(e);
                },
            }
            k = k + 1;
        }
        Ok(any_changed)
    }

    /// The passes, in order.
    pub fn passes(&self) -> (r: &[AnyPass])
        ensures
            r@ == self@,
    {
        self.passes.as_slice()
    }

    /// Replaces the pipeline by the passes of a preset that the registry knows, fresh.
    pub fn populate_from_level(&mut self, level: OptimizationLevel, registry: &PassRegistry)
        ensures
            final(self)@.len() == registered_kinds(level_ids(level), registry@).len(),
            forall|i: int| 0 <= i < final(self)@.len() ==> (#[trigger] final(self)@[i]).kind()
                == registered_kinds(level_ids(level), registry@)[i] && final(self)@[i].at_defaults(),
    {
        self.passes.clear();
        let ids: Vec<&str> = match level {
            OptimizationLevel::Safe => vec!["constant_folding"],
            OptimizationLevel::Conservative => vec!["constant_folding", "dead_code", "cse", "loop_unroll"],
            OptimizationLevel::Balanced => vec![
                "constant_folding",
                "dead_code",
                "cse",
                "loop_unroll",
                "constant_propagation",
                "block_merge",
                "strength_reduction",
            ],
        };
        let ghost want = level_ids(level);
        proof {
            reveal_strlit("constant_folding");
            reveal_strlit("dead_code");
            reveal_strlit("cse");
            reveal_strlit("loop_unroll");
            reveal_strlit("constant_propagation");
            reveal_strlit("block_merge");
            reveal_strlit("strength_reduction");
            assert(ids@.map_values(|x: &str| x@) =~= want);
            assert(want.take(0) =~= Seq::<Seq<char>>::empty());
        }
        let mut j: usize = 0;
        while j < ids.len()
            invariant
                j <= ids.len(),
                ids@.map_values(|x: &str| x@) == want,
                self@.len() == registered_kinds(want.take(j as int), registry@).len(),
                forall|i: int| 0 <= i < self@.len() ==> (#[trigger] self@[i]).kind()
                    == registered_kinds(want.take(j as int), registry@)[i] && self@[i].at_defaults(),
            decreases ids.len() - j,
        {
            proof {
                assert(want.take(j + 1).drop_last() =~= want.take(j as int));
                assert(want.take(j + 1).last() == ids@[j as int]@);
            }
            match registry.create_pass(ids[j]) {
                Some(p) => {
                    self.add(p);
                },
                None => {},
            }
            j = j + 1;
        }
        proof {
            assert(want.take(j as int) =~= want);
        }
    }

    /// How many passes the pipeline holds.
    pub fn pass_count(&self) -> (r: usize)
        ensures
            r == self@.len(),
    {
        self.passes.len()
    }

    /// The descriptor of the pass at `index`, if there is one.
    pub fn get_pass_info(&self, index: usize) -> (r: Option<PassDescriptor>)
        ensures
            match r {
                Some(d) => index < self@.len() && d.id@ == kind_id(self@[index as int].kind())
                    && d.safety == kind_safety(self@[index as int].kind()) && d.params@.dom()
                    == self@[index as int].param_map().dom() && forall|k: Seq<char>|
                    #[trigger] d.params@.contains_key(k) ==> same_param(
                    d.params@[k],
                    self@[index as int].param_map()[k],
                ),
                None => index >= self@.len(),
            },
    {
        if index < self.passes.len() {
            Some(self.passes[index].descriptor())
        } else {
            None
        }
    }
}

} // verus!
