use vstd::prelude::*;
use vstd::hash_map::StringHashMap;
use crate::ir::basic_block::{BasicBlock, BlockModel, inst_models};
use crate::ir::function::{Function, FunctionModel, block_index, block_models, find_block};
use crate::ir::module::{Module, ModuleModel};
use crate::ir::value::{Inst, Instruction, is_terminator_model};
use crate::passes::{ParamRange, Pass, PassDescriptor, params_by_name, PassError, PassSafety};
use crate::text::{decimal, push_str, push_usize, string_of};

verus! {

broadcast use vstd::std_specs::vec::group_vec_axioms;

/// The most instructions the unrolled copies of a loop body may hold together.
pub const MAX_UNROLLED_INSTRUCTIONS: usize = 1000;

/// Whether the block at `h` heads a loop: it ends in a branch whose taken target is, by
/// first match of name, a block ending in a jump back to the header's name.
pub open spec fn heads_loop(bs: Seq<BlockModel>, h: int) -> bool {
    &&& 0 <= h < bs.len()
    &&& bs[h].insts.len() > 0
    &&& bs[h].insts.last() matches Inst::Branch { then_label, .. }
    &&& find_block(bs, then_label) matches Some(b)
    &&& bs[b].insts.len() > 0
    &&& bs[b].insts.last() matches Inst::Jump { label }
    &&& label == bs[h].name
}

/// The first loop header at or after index `from`.
pub open spec fn first_loop(bs: Seq<BlockModel>, from: int) -> Option<int>
    decreases bs.len() - from,
{
    if from < 0 || from >= bs.len() {
        None
    } else if heads_loop(bs, from) {
        Some(from)
    } else {
        first_loop(bs, from + 1)
    }
}

/// `first_loop` finds a header, and none before it.
pub proof fn lemma_first_loop(bs: Seq<BlockModel>, from: int)
    ensures
        match first_loop(bs, from) {
            Some(h) => from <= h && heads_loop(bs, h),
            None => true,
        },
    decreases bs.len() - from,
{
    if 0 <= from < bs.len() && !heads_loop(bs, from) {
        lemma_first_loop(bs, from + 1);
    }
}

/// The instructions of a list that are not terminators, in order.
pub open spec fn non_terminators(s: Seq<Inst>) -> Seq<Inst>
    decreases s.len(),
{
    if s.len() == 0 {
        s
    } else if is_terminator_model(s.last()) {
        non_terminators(s.drop_last())
    } else {
        non_terminators(s.drop_last()).push(s.last())
    }
}

/// The name of the `i`-th unrolled copy of the block `body`.
pub open spec fn copy_name(body: Seq<char>, i: int) -> Seq<char> {
    body + "_ur"@ + decimal(i)
}

/// The `i`-th unrolled copy (`1 <= i < factor`) of a loop body: its instructions, then a
/// branch on the loop condition to the next copy or the exit, or for the last copy a jump
/// back to the header.
pub open spec fn unrolled_copy(
    body: Seq<char>,
    core: Seq<Inst>,
    cond: Inst,
    header: Seq<char>,
    exit: Seq<char>,
    i: int,
    factor: int,
) -> BlockModel {
    BlockModel {
        name: copy_name(body, i),
        insts: core.push(
            if i < factor - 1 {
                Inst::Branch {
                    condition: Box::new(cond),
                    then_label: copy_name(body, i + 1),
                    else_label: exit,
                }
            } else {
                Inst::Jump { label: header }
            },
        ),
    }
}

/// What unrolling does to one function.
pub enum UnrollStep {
    /// No loop, or an empty loop body: the function stays.
    Skip,
    /// The copies would exceed the size limit: the pass stops and reports no change.
    Stop,
    /// The loop's exit block does not exist: the pass cannot go on.
    Fail,
    /// The function with its first loop unrolled.
    Done(FunctionModel),
}

/// Unrolling the first loop of a function `factor` times (`factor > 1`).
pub open spec fn unroll_function(f: FunctionModel, factor: int) -> UnrollStep {
    let bs = f.blocks;
    match first_loop(bs, 0) {
        None => UnrollStep::Skip,
        Some(h) => match bs[h].insts.last() {
            Inst::Branch { condition, then_label, else_label } => {
                let b = find_block(bs, then_label)->0;
                let core = non_terminators(bs[b].insts);
                if find_block(bs, else_label) is None {
                    UnrollStep::Fail
                } else if core.len() == 0 {
                    UnrollStep::Skip
                } else if factor * core.len() > MAX_UNROLLED_INSTRUCTIONS {
                    UnrollStep::Stop
                } else {
                    let body = BlockModel {
                        name: bs[b].name,
                        insts: core.push(
                            Inst::Branch {
                                condition,
                                then_label: copy_name(then_label, 1),
                                else_label,
                            },
                        ),
                    };
                    let copies = Seq::new(
                        (factor - 1) as nat,
                        |k: int| unrolled_copy(then_label, core, *condition, bs[h].name, else_label, k + 1, factor),
                    );
                    let updated = bs.update(b, body);
                    UnrollStep::Done(
                        FunctionModel { blocks: updated.take(b + 1) + copies + updated.skip(b + 1), ..f },
                    )
                }
            },
            _ => UnrollStep::Skip,
        },
    }
}

/// What unrolling all functions from index `k` on leaves: `None` when a loop's exit block is
/// missing, else the functions and what the pass reports.
pub open spec fn unroll_from(fs: Seq<FunctionModel>, k: int, factor: int, changed: bool) -> Option<
    (Seq<FunctionModel>, bool),
>
    decreases fs.len() - k,
{
    if k < 0 || k >= fs.len() {
        Some((fs, changed))
    } else {
        match unroll_function(fs[k], factor) {
            UnrollStep::Skip => unroll_from(fs, k + 1, factor, changed),
            UnrollStep::Stop => Some((fs, false)),
            UnrollStep::Fail => None,
            UnrollStep::Done(g) => unroll_from(fs.update(k, g), k + 1, factor, true),
        }
    }
}

/// Unrolling a whole module `factor` times.
pub open spec fn unroll_module(m: ModuleModel, factor: int) -> Option<(ModuleModel, bool)> {
    if factor <= 1 {
        Some((m, false))
    } else {
        match unroll_from(m.functions, 0, factor, false) {
            Some((fs, c)) => Some((ModuleModel { name: m.name, functions: fs }, c)),
            None => None,
        }
    }
}

/// Copies of the instructions of a list that are not terminators.
fn body_core(s: &Vec<Instruction>) -> (r: Vec<Instruction>)
    ensures
        inst_models(r@) == non_terminators(inst_models(s@)),
{
    let ghost ms = inst_models(s@);
    let mut out: Vec<Instruction> = Vec::new();
    let mut k: usize = 0;
    proof {
        assert(ms.take(0) =~= Seq::<Inst>::empty());
        assert(inst_models(out@) =~= non_terminators(ms.take(0)));
    }
    while k < s.len()
        invariant
            k <= s.len(),
            ms == inst_models(s@),
            inst_models(out@) == non_terminators(ms.take(k as int)),
        decreases s.len() - k,
    {
        proof {
            assert(ms.take(k + 1).drop_last() =~= ms.take(k as int));
            assert(ms.take(k + 1).last() == s@[k as int]@);
        }
        if !s[k].is_terminator() {
            let ghost before = out@;
            out.push(s[k].copy());
            proof {
                assert(inst_models(out@) =~= inst_models(before).push(s@[k as int]@));
            }
        }
        k = k + 1;
    }
    proof {
        assert(ms.take(k as int) =~= ms);
    }
    out
}

/// Copies of a list of instructions.
fn copy_all(s: &Vec<Instruction>) -> (r: Vec<Instruction>)
    ensures
        inst_models(r@) == inst_models(s@),
{
    let mut out: Vec<Instruction> = Vec::new();
    let mut k: usize = 0;
    while k < s.len()
        invariant
            k <= s.len(),
            out@.len() == k,
            forall|j: int| 0 <= j < k ==> #[trigger] out@[j]@ == s@[j]@,
        decreases s.len() - k,
    {
        out.push(s[k].copy());
        k = k + 1;
    }
    assert(inst_models(out@) =~= inst_models(s@));
    out
}

/// The name of the `i`-th unrolled copy of the block `body`.
fn copy_label(body: &String, i: usize) -> (r: String)
    ensures
        r@ == copy_name(body@, i as int),
{
    let mut out = String::new();
    push_str(&mut out, body.as_str());
    push_str(&mut out, "_ur");
    push_usize(&mut out, i);
    proof {
        assert(out@ =~= body@ + "_ur"@ + decimal(i as int));
    }
    out
}

/// Whether the block at `h` heads a loop.
fn is_loop_header(bs: &Vec<BasicBlock>, h: usize) -> (r: bool)
    requires
        h < bs.len(),
    ensures
        r == heads_loop(block_models(bs@), h as int),
{
    let blk = &bs[h];
    let n = blk.instructions.len();
    if n == 0 {
        return false;
    }
    match &blk.instructions[n - 1] {
        Instruction::Branch { then_label, .. } => match block_index(bs, then_label.as_str()) {
            Some(b) => {
                let body = &bs[b];
                let m = body.instructions.len();
                if m == 0 {
                    return false;
                }
                match &body.instructions[m - 1] {
                    Instruction::Jump { label } => *label == blk.name,
                    _ => false,
                }
            },
            None => false,
        },
        _ => false,
    }
}

/// The index of the first loop header.
fn find_loop(bs: &Vec<BasicBlock>) -> (r: Option<usize>)
    ensures
        match r {
            Some(h) => first_loop(block_models(bs@), 0) == Some(h as int),
            None => first_loop(block_models(bs@), 0) is None,
        },
{
    let ghost ms = block_models(bs@);
    let mut h: usize = 0;
    while h < bs.len()
        invariant
            h <= bs.len(),
            ms == block_models(bs@),
            first_loop(ms, 0) == first_loop(ms, h as int),
        decreases bs.len() - h,
    {
        if is_loop_header(bs, h) {
            return Some(h);
        }
        h = h + 1;
    }
    None
}

/// Unrolling a function's first loop, when the pass does not stop.
pub enum Unrolled {
    Skip,
    Stop,
    Done(Function),
}

/// Whether unrolling the function would stop short: its first loop exits to a block it does
/// not have.
fn unroll_fails(f: &Function, factor: i32) -> (r: bool)
    ensures
        r == (unroll_function(f@, factor as int) is Fail),
{
    let ghost bs = f@.blocks;
    let h = match find_loop(&f.basic_blocks) {
        Some(h) => h,
        None => {
            return false;
        },
    };
    proof {
        lemma_first_loop(bs, 0);
        assert(heads_loop(bs, h as int));
    }
    let header = &f.basic_blocks[h];
    let n = header.instructions.len();
    proof {
        assert(bs[h as int].insts.len() == n);
    }
    match &header.instructions[n - 1] {
        Instruction::Branch { else_label, .. } => block_index(&f.basic_blocks, else_label.as_str()).is_none(),
        _ => false,
    }
}

/// Unrolls the first loop of a function `factor` times.
fn unroll_one(f: &Function, factor: i32) -> (r: Unrolled)
    requires
        factor > 1,
        !(unroll_function(f@, factor as int) is Fail),
    ensures
        match r {
            Unrolled::Skip => unroll_function(f@, factor as int) is Skip,
            Unrolled::Stop => unroll_function(f@, factor as int) is Stop,
            Unrolled::Done(g) => unroll_function(f@, factor as int) == UnrollStep::Done(g@),
        },
{
    let ghost bs = f@.blocks;
    let h = match find_loop(&f.basic_blocks) {
        Some(h) => h,
        None => {
            return Unrolled::Skip;
        },
    };
    proof {
        lemma_first_loop(bs, 0);
        assert(heads_loop(bs, h as int));
    }
    let header = &f.basic_blocks[h];
    let n = header.instructions.len();
    proof {
        assert(bs[h as int].insts.len() == n);
    }
    let (cond, body_name, exit_name) = match &header.instructions[n - 1] {
        Instruction::Branch { condition, then_label, else_label } => (
            condition.copy(),
            then_label.clone(),
            else_label.clone(),
        ),
        _ => {
            return Unrolled::Skip;
        },
    };
    let header_name = header.name.clone();
    let b = match block_index(&f.basic_blocks, body_name.as_str()) {
        Some(b) => b,
        None => {
            return Unrolled::Skip;
        },
    };
    match block_index(&f.basic_blocks, exit_name.as_str()) {
        Some(_) => {},
        None => {
            return Unrolled::Skip;
        },
    }
    let core = body_core(&f.basic_blocks[b].instructions);
    if core.len() == 0 {
        return Unrolled::Skip;
    }
    let len = core.len();
    if len > MAX_UNROLLED_INSTRUCTIONS {
        assert((factor as int) * len > 1000) by (nonlinear_arith)
            requires
                factor > 1,
                len > 1000,
        ;
        return Unrolled::Stop;
    }
    assert((factor as int) * len <= 0x8000_0000 * 1000) by (nonlinear_arith)
        requires
            1 < factor <= 0x7fff_ffff,
            len <= 1000,
    ;
    if (factor as u64) * (len as u64) > 1000u64 {
        return Unrolled::Stop;
    }
    let ghost ccore = inst_models(core@);
    let ghost goal = unroll_function(f@, factor as int);
    let ghost cond_m = cond@;
    let mut copies: Vec<BasicBlock> = Vec::new();
    let mut i: usize = 1;
    let fu = factor as usize;
    while i < fu
        invariant
            1 <= i <= fu,
            fu == factor as int,
            copies@.len() == i - 1,
            ccore == inst_models(core@),
            cond_m == cond@,
            forall|k: int| 0 <= k < i - 1 ==> #[trigger] copies@[k]@ == unrolled_copy(
                body_name@,
                ccore,
                cond_m,
                header_name@,
                exit_name@,
                k + 1,
                factor as int,
            ),
        decreases fu - i,
    {
        let mut nb = BasicBlock::new(copy_label(&body_name, i));
        nb.instructions = copy_all(&core);
        let last = if i < fu - 1 {
            Instruction::Branch {
                condition: Box::new(cond.copy()),
                then_label: copy_label(&body_name, i + 1),
                else_label: exit_name.clone(),
            }
        } else {
            Instruction::Jump { label: header_name.clone() }
        };
        nb.append(last);
        let ghost nbm = nb@;
        proof {
            assert(nbm == unrolled_copy(body_name@, ccore, cond_m, header_name@, exit_name@, i as int, factor as int));
        }
        copies.push(nb);
        i = i + 1;
    }
    let mut body_insts = copy_all(&core);
    let back = Instruction::Branch {
        condition: Box::new(cond.copy()),
        then_label: copy_label(&body_name, 1),
        else_label: exit_name.clone(),
    };
    let ghost before_push = body_insts@;
    let ghost back_m = back@;
    body_insts.push(back);
    proof {
        assert(back_m == Inst::Branch {
            condition: Box::new(cond_m),
            then_label: copy_name(body_name@, 1),
            else_label: exit_name@,
        });
        assert(inst_models(body_insts@) =~= inst_models(before_push).push(back_m));
    }
    let ghost body_m = BlockModel { name: bs[b as int].name, insts: inst_models(body_insts@) };
    let mut g = f.copy();
    let mut blocks = Vec::new();
    std::mem::swap(&mut blocks, &mut g.basic_blocks);
    let mut old_body = blocks.remove(b);
    old_body.instructions = body_insts;
    blocks.insert(b, old_body);
    let ghost updated = block_models(blocks@);
    proof {
        assert(updated =~= bs.update(b as int, body_m));
    }
    let ghost all = copies@;
    let ghost copies_m = Seq::new(
        (factor - 1) as nat,
        |k: int| unrolled_copy(body_name@, ccore, cond_m, header_name@, exit_name@, k + 1, factor as int),
    );
    proof {
        assert(block_models(all) =~= copies_m);
        assert(all.take(0) =~= Seq::<BasicBlock>::empty());
        assert(all.skip(0) =~= all);
        assert(block_models(blocks@) =~= updated.take(b + 1) + block_models(all.take(0)) + updated.skip(b + 1));
    }
    let mut j: usize = 0;
    while copies.len() > 0
        invariant
            j + copies@.len() == all.len(),
            copies@ == all.skip(j as int),
            blocks@.len() == updated.len() + j,
            block_models(blocks@) == updated.take(b + 1) + block_models(all.take(j as int))
                + updated.skip(b + 1),
            b < updated.len(),
        decreases copies.len(),
    {
        let c = copies.remove(0);
        let ghost before = blocks@;
        assert(b + 1 + j <= blocks.len());
        proof {
            assert(c == all[j as int]);
            assert(all.skip(j + 1) =~= all.skip(j as int).drop_first());
        }
        blocks.insert(b + 1 + j, c);
        proof {
            assert(block_models(blocks@) =~= updated.take(b + 1) + block_models(all.take(j + 1))
                + updated.skip(b + 1)) by {
                assert(all.take(j + 1) =~= all.take(j as int).push(c));
                let lhs = block_models(blocks@);
                let old_rhs = updated.take(b + 1) + block_models(all.take(j as int)) + updated.skip(b + 1);
                let rhs = updated.take(b + 1) + block_models(all.take(j + 1)) + updated.skip(b + 1);
                assert(block_models(before) == old_rhs);
                assert(lhs.len() == rhs.len());
                assert forall|k: int| 0 <= k < lhs.len() implies #[trigger] lhs[k] == rhs[k] by {
                    if k < b + 1 {
                        assert(blocks@[k] == before[k]);
                        assert(lhs[k] == block_models(before)[k]);
                        assert(old_rhs[k] == updated[k]);
                        assert(rhs[k] == updated[k]);
                    } else if k < b + 1 + j {
                        assert(blocks@[k] == before[k]);
                        assert(lhs[k] == block_models(before)[k]);
                        assert(old_rhs[k] == block_models(all.take(j as int))[k - b - 1]);
                        assert(rhs[k] == block_models(all.take(j + 1))[k - b - 1]);
                    } else if k == b + 1 + j {
                        assert(lhs[k] == c@);
                        assert(rhs[k] == block_models(all.take(j + 1))[j as int]);
                    } else {
                        assert(blocks@[k] == before[k - 1]);
                        assert(lhs[k] == block_models(before)[k - 1]);
                        assert(old_rhs[k - 1] == updated.skip(b + 1)[k - 1 - (b + 1 + j)]);
                        assert(rhs[k] == updated.skip(b + 1)[k - (b + 1 + j + 1)]);
                    }
                }
            }
        }
        j = j + 1;
    }
    g.basic_blocks = blocks;
    proof {
        assert(all.take(j as int) =~= all);
        assert(g@.blocks =~= updated.take(b + 1) + copies_m + updated.skip(b + 1));
        assert(first_loop(bs, 0) == Some(h as int));
        assert(bs[h as int].insts.last() == Inst::Branch {
            condition: Box::new(cond_m),
            then_label: body_name@,
            else_label: exit_name@,
        });
        assert(find_block(bs, body_name@) == Some(b as int));
        assert(bs[b as int].insts == inst_models(f.basic_blocks@[b as int].instructions@));
        assert(non_terminators(bs[b as int].insts) == ccore);
        assert(find_block(bs, exit_name@) is Some);
        assert(ccore.len() == len);
        assert(factor * ccore.len() <= MAX_UNROLLED_INSTRUCTIONS);
        assert(bs[h as int] == f.basic_blocks@[h as int]@);
        assert(header_name@ == bs[h as int].name);
        assert(body_m == BlockModel {
            name: bs[b as int].name,
            insts: ccore.push(
                Inst::Branch {
                    condition: Box::new(cond_m),
                    then_label: copy_name(body_name@, 1),
                    else_label: exit_name@,
                },
            ),
        });
    }
    Unrolled::Done(g)
}

/// Unrolls the first loop of each function a number of times.
pub struct LoopUnrollPass {
    params: StringHashMap<ParamRange>,
}

impl LoopUnrollPass {
    #[verifier::type_invariant]
    spec fn wf(self) -> bool {
        &&& self.params@.contains_key("factor"@)
        &&& self.params@[("factor"@)].name@ == "factor"@
        &&& self.params@.dom() =~= set!["factor"@]
    }

    /// How many times a loop body is repeated.
    pub closed spec fn factor(self) -> i32 {
        self.params@[("factor"@)].current
    }

    /// The parameters, keyed by name.
    pub closed spec fn param_map(self) -> Map<Seq<char>, ParamRange> {
        self.params@
    }

    /// A pass with `factor` at its default of 2 (range 1 to 10).
    pub fn new() -> (r: Self)
        ensures
            r.factor() == 2,
            r.param_map().dom() == set!["factor"@],
            r.param_map()[("factor"@)].min == 1,
            r.param_map()[("factor"@)].max == 10,
            r.param_map()[("factor"@)].name@ == "factor"@,
            r.param_map()[("factor"@)].default == 2,
            r.param_map()[("factor"@)].min == 1,
            r.param_map()[("factor"@)].max == 10,
            r.param_map()[("factor"@)].step == 1,
            r.param_map()[("factor"@)].current == 2,
    {
        let mut params: StringHashMap<ParamRange> = StringHashMap::new();
        params.insert(string_of("factor"), ParamRange::new("factor", 2, 1, 10, 1));
        let r = Self { params };
        assert(r.params@.dom() =~= set!["factor"@]);
        r
    }
}

} // verus!

verus! {

impl LoopUnrollPass {
    /// Whether the pass can run on the module: it cannot where a loop it would unroll exits
    /// to a block that is missing.
    pub fn accepts_module(&self, module: &Module) -> (r: bool)
        ensures
            r == self.accepts(module@),
    {
        proof {
            use_type_invariant(self);
        }
        let factor = match self.params.get("factor") {
            Some(p) => p.current,
            None => 2,
        };
        if factor <= 1 {
            return true;
        }
        let mut m = module.copy();
        let ghost goal = unroll_from(module@.functions, 0, factor as int, false);
        let mut changed = false;
        let mut k: usize = 0;
        while k < m.functions.len()
            invariant
                factor > 1,
                factor == self.factor(),
                goal == unroll_from(module@.functions, 0, factor as int, false),
                goal == unroll_from(m@.functions, k as int, factor as int, changed),
            decreases m.functions.len() - k,
        {
            let ghost fs = m@.functions;
            if unroll_fails(&m.functions[k], factor) {
                return false;
            }
            match unroll_one(&m.functions[k], factor) {
                Unrolled::Skip => {},
                Unrolled::Stop => {
                    return true;
                },
                Unrolled::Done(g) => {
                    let ghost gm = g@;
                    m.functions[k] = g;
                    proof {
                        assert(m@.functions =~= fs.update(k as int, gm));
                    }
                    changed = true;
                },
            }
            k = k + 1;
        }
        true
    }
}

impl Pass for LoopUnrollPass {
    /// Every loop that would be unrolled has its exit block.
    open spec fn accepts(&self, m: ModuleModel) -> bool {
        unroll_module(m, self.factor() as int) is Some
    }

    open spec fn outcome(&self, m: ModuleModel) -> (ModuleModel, bool) {
        match unroll_module(m, self.factor() as int) {
            Some(r) => r,
            None => (m, false),
        }
    }

    fn id(&self) -> (r: &'static str)
        ensures
            r@ == "loop_unroll"@,
    {
        "loop_unroll"
    }

    fn name(&self) -> (r: &'static str)
        ensures
            r@ == "Loop Unroll"@,
    {
        "Loop Unroll"
    }

    fn description(&self) -> (r: &'static str)
        ensures
            r@ == "Unrolls loops by duplicating loop body"@,
    {
        "Unrolls loops by duplicating loop body"
    }

    fn safety(&self) -> (r: PassSafety)
        ensures
            r == PassSafety::Conservative,
    {
        PassSafety::Conservative
    }

    fn run(&self, module: &mut Module) -> (r: Result<bool, PassError>) {
        proof {
            use_type_invariant(self);
        }
        let factor = match self.params.get("factor") {
            Some(p) => p.current,
            None => 2,
        };
        if factor <= 1 {
            return Ok(false);
        }
        let ghost goal = unroll_from(old(module)@.functions, 0, factor as int, false);
        let mut changed = false;
        let mut k: usize = 0;
        while k < module.functions.len()
            invariant
                factor > 1,
                factor == self.factor(),
                goal == unroll_from(old(module)@.functions, 0, factor as int, false),
                goal is Some,
                goal == unroll_from(module@.functions, k as int, factor as int, changed),
                module@.name == old(module)@.name,
            decreases module.functions.len() - k,
        {
            let ghost fs = module@.functions;
            match unroll_one(&module.functions[k], factor) {
                Unrolled::Skip => {},
                Unrolled::Stop => {
                    return Ok(false);
                },
                Unrolled::Done(g) => {
                    let ghost gm = g@;
                    module.functions[k] = g;
                    proof {
                        assert(module@.functions =~= fs.update(k as int, gm));
                    }
                    changed = true;
                },
            }
            k = k + 1;
        }
        Ok(changed)
    }

    fn get_param(&self, name: &str) -> (r: Option<i32>)
        ensures
            r == (if self.param_map().contains_key(name@) {
                Some(self.param_map()[name@].current)
            } else {
                None::<i32>
            }),
    {
        match self.params.get(name) {
            Some(p) => Some(p.current),
            None => None,
        }
    }

    fn set_param(&mut self, name: &str, value: i32) -> (r: bool)
        ensures
            r == old(self).param_map().contains_key(name@),
            final(self).param_map().dom() == old(self).param_map().dom(),
            r ==> final(self).param_map()[name@].current == crate::passes::clamp(
                value,
                old(self).param_map()[name@].min,
                old(self).param_map()[name@].max,
            ),
            !r ==> final(self).param_map() == old(self).param_map(),
    {
        proof {
            use_type_invariant(&*self);
        }
        let q = match self.params.get(name) {
            Some(p) => {
                let mut q = p.copy();
                q.set_current(value);
                q
            },
            None => {
                return false;
            },
        };
        let mut params: StringHashMap<ParamRange> = StringHashMap::new();
        params.insert(string_of(name), q);
        assert(params@.dom() =~= set!["factor"@]);
        assert(params@ =~= old(self).params@.insert(name@, q));
        self.params = params;
        true
    }

    fn descriptor(&self) -> (r: PassDescriptor)
        ensures
            r.id@ == "loop_unroll"@,
            r.safety == PassSafety::Conservative,
            r.params@.dom() == self.param_map().dom(),
            forall|k: Seq<char>| #[trigger] r.params@.contains_key(k) ==> crate::passes::same_param(
                r.params@[k],
                self.param_map()[k],
            ),
    {
        proof {
            use_type_invariant(self);
        }
        let mut ps: Vec<ParamRange> = Vec::new();
        match self.params.get("factor") {
            Some(p) => {
                ps.push(p.copy());
            },
            None => {},
        }
        let ghost q = ps@[0];
        proof {
            assert(ps@.drop_last() =~= Seq::<ParamRange>::empty());
            assert(params_by_name(ps@) == params_by_name(Seq::<ParamRange>::empty()).insert(q.name@, q));
            assert(params_by_name(Seq::<ParamRange>::empty()) == Map::<Seq<char>, ParamRange>::empty());
        }
        let r = PassDescriptor::new(
            "loop_unroll",
            "Loop Unroll",
            "Unrolls loops by duplicating loop body",
            PassSafety::Conservative,
            ps,
        );
        proof {
            assert(r.params@.dom() =~= self.params@.dom());
        }
        r
    }
}

} // verus!
