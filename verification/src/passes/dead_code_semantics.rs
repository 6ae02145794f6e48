use vstd::prelude::*;
use crate::interpreter::{
    MAX_CALL_DEPTH, MAX_INSTRUCTIONS, Machine, block_rest, call, depth_budget, eval, eval_args, execute,
    find_last_block, inst_size, leave, lemma_find_last_block, list_size, run, step_budget,
};
use crate::ir::basic_block::BlockModel;
use crate::ir::function::FunctionModel;
use crate::ir::module::{ModuleModel, find_function, instruction_total, lemma_find_function};
use crate::ir::value::{Inst, is_terminator_model};
use crate::passes::dead_code_elimination::{
    block_reads, block_used, function_reads, function_used, inst_reads, module_used, prune_block,
    prune_fn_map, prune_fixpoint, prune_map, prune_round, survives, survivors, used_list, used_vars,
};
use crate::passes::strength_reduction::{lemma_reading_keeps_state, reads_only};
use crate::passes::map_blocks;

verus! {

/// Two machine states with the same heap that agree on every name in `used`: both hold it
/// with the same value, or neither does.
pub open spec fn agree_on(used: Set<Seq<char>>, s: Machine, t: Machine) -> bool {
    &&& t.heap == s.heap
    &&& forall|x: Seq<char>| #[trigger] used.contains(x) ==> (s.env.contains_key(x) <==> t.env.contains_key(x))
        && (s.env.contains_key(x) ==> t.env[x] == s.env[x])
}

/// Every value a store to a name outside `used` computes only reads.
pub open spec fn dead_stores_only_read(m: ModuleModel, used: Set<Seq<char>>) -> bool {
    forall|k: int, bi: int, j: int|
        0 <= k < m.functions.len() && 0 <= bi < m.functions[k].blocks.len() && 0 <= j
            < m.functions[k].blocks[bi].insts.len() ==> match #[trigger] m.functions[k].blocks[bi].insts[j] {
            Inst::Store { var_name, value } => used.contains(var_name) || reads_only(*value),
            _ => true,
        }
}

/// Every value the module stores only reads.
pub open spec fn stores_only_read(m: ModuleModel) -> bool {
    forall|k: int, bi: int, j: int|
        0 <= k < m.functions.len() && 0 <= bi < m.functions[k].blocks.len() && 0 <= j
            < m.functions[k].blocks[bi].insts.len() ==> match #[trigger] m.functions[k].blocks[bi].insts[j] {
            Inst::Store { value, .. } => reads_only(*value),
            _ => true,
        }
}

/// What any instruction of the module reads, the module reads.
pub proof fn lemma_reads_in_module(m: ModuleModel, k: int, bi: int, j: int)
    requires
        0 <= k < m.functions.len(),
        0 <= bi < m.functions[k].blocks.len(),
        0 <= j < m.functions[k].blocks[bi].insts.len(),
    ensures
        used_vars(m.functions[k].blocks[bi].insts[j]).subset_of(module_used(m)),
{
    let f = m.functions[k];
    let b = f.blocks[bi];
    let i = b.insts[j];
    assert forall|v: Seq<char>| used_vars(i).contains(v) implies module_used(m).contains(v) by {
        assert(inst_reads()(b.insts[j]).contains(v));
        assert(block_used(b).contains(v));
        assert(block_reads()(f.blocks[bi]).contains(v));
        assert(function_used(f).contains(v));
        assert(function_reads()(m.functions[k]).contains(v));
    }
}

/// A prefix of a list keeps, as a prefix, the survivors it has.
pub proof fn lemma_survivors_prefix(s: Seq<Inst>, used: Set<Seq<char>>, j: int, n: int)
    requires
        0 <= j <= n <= s.len(),
    ensures
        survivors(s.take(j), used).len() <= survivors(s.take(n), used).len(),
        survivors(s.take(n), used).take(survivors(s.take(j), used).len() as int) == survivors(s.take(j), used),
    decreases n - j,
{
    if j == n {
        assert(survivors(s.take(n), used).take(survivors(s.take(j), used).len() as int) =~= survivors(
            s.take(j),
            used,
        ));
    } else {
        lemma_survivors_prefix(s, used, j, n - 1);
        assert(s.take(n).drop_last() =~= s.take(n - 1));
        let a = survivors(s.take(j), used);
        let p = survivors(s.take(n - 1), used);
        let q = survivors(s.take(n), used);
        assert(q.take(a.len() as int) =~= p.take(a.len() as int));
    }
}

/// One more instruction adds itself to the survivors when it survives.
pub proof fn lemma_survivors_step(s: Seq<Inst>, used: Set<Seq<char>>, j: int)
    requires
        0 <= j < s.len(),
    ensures
        survivors(s.take(j + 1), used) == if survives(s[j], used) {
            survivors(s.take(j), used).push(s[j])
        } else {
            survivors(s.take(j), used)
        },
{
    assert(s.take(j + 1).drop_last() =~= s.take(j));
    assert(s.take(j + 1).last() == s[j]);
}

/// Where instruction `j` of a block stands once the block is pruned.
pub open spec fn pruned_position(b: BlockModel, used: Set<Seq<char>>, j: nat) -> nat {
    if j >= b.insts.len() {
        prune_block(b, used).insts.len()
    } else {
        survivors(b.insts.take(j as int), used).len()
    }
}

/// A kept instruction stands at its pruned position; the last always is kept.
pub proof fn lemma_pruned_position(b: BlockModel, used: Set<Seq<char>>, j: int)
    requires
        0 <= j < b.insts.len(),
        survives(b.insts[j], used) || j == b.insts.len() - 1,
    ensures
        pruned_position(b, used, j as nat) < prune_block(b, used).insts.len(),
        prune_block(b, used).insts[pruned_position(b, used, j as nat) as int] == b.insts[j],
        pruned_position(b, used, (j + 1) as nat) == pruned_position(b, used, j as nat) + 1,
{
    let s = b.insts;
    let n = s.len() - 1;
    assert(s.drop_last() =~= s.take(n));
    if j < n {
        lemma_survivors_step(s, used, j);
        lemma_survivors_prefix(s, used, j + 1, n);
        let p = survivors(s.take(j), used).len();
        let q = survivors(s.take(n), used);
        assert(q.take((p + 1) as int) == survivors(s.take(j), used).push(s[j]));
        assert(q[p as int] == q.take((p + 1) as int)[p as int]);
        if j + 1 < s.len() {
        }
    } else {
    }
}

/// A removed instruction leaves the pruned position where it was.
pub proof fn lemma_pruned_position_skip(b: BlockModel, used: Set<Seq<char>>, j: int)
    requires
        0 <= j < b.insts.len() - 1,
        !survives(b.insts[j], used),
    ensures
        pruned_position(b, used, (j + 1) as nat) == pruned_position(b, used, j as nat),
{
    lemma_survivors_step(b.insts, used, j);
}

/// The start of any block is where its pruned form starts.
pub proof fn lemma_pruned_position_start(b: BlockModel, used: Set<Seq<char>>)
    ensures
        pruned_position(b, used, 0) == 0,
{
    if b.insts.len() > 0 {
        assert(b.insts.take(0) =~= Seq::<Inst>::empty());
    }
}

/// The module after one round of pruning.
pub open spec fn pruned(m: ModuleModel) -> ModuleModel {
    prune_round(m).0
}

/// Pruning keeps where each block name leads.
pub proof fn lemma_pruned_blocks_found_alike(bs: Seq<BlockModel>, used: Set<Seq<char>>, name: Seq<char>)
    ensures
        find_last_block(bs.map_values(prune_map(used)), name) == find_last_block(bs, name),
    decreases bs.len(),
{
    if bs.len() > 0 {
        assert(bs.map_values(prune_map(used)).drop_last() =~= bs.drop_last().map_values(prune_map(used)));
        lemma_pruned_blocks_found_alike(bs.drop_last(), used, name);
    }
}

/// Pruning keeps where each function name leads.
pub proof fn lemma_pruned_functions_found_alike(fs: Seq<FunctionModel>, used: Set<Seq<char>>, name: Seq<char>)
    ensures
        find_function(fs.map_values(prune_fn_map(used)), name) == find_function(fs, name),
    decreases fs.len(),
{
    if fs.len() > 0 {
        assert(fs.map_values(prune_fn_map(used)).drop_first() =~= fs.drop_first().map_values(prune_fn_map(used)));
        lemma_pruned_functions_found_alike(fs.drop_first(), used, name);
    }
}

/// Names read by a list include those read by each of its trees.
pub proof fn lemma_used_list_parts(args: Seq<Inst>)
    requires
        args.len() > 0,
    ensures
        used_vars(args[0]).subset_of(used_list(args)),
        used_list(args.drop_first()).subset_of(used_list(args)),
{
}

/// An instruction tree reading only names the module reads evaluates alike in the module and
/// in its pruned form, from states that agree on those names: the same value, and states
/// that still agree.
pub proof fn lemma_pruned_eval(m: ModuleModel, i: Inst, s: Machine, t: Machine, d: u32)
    requires
        used_vars(i).subset_of(module_used(m)),
        agree_on(module_used(m), s, t),
        dead_stores_only_read(m, module_used(m)),
    ensures
        eval(m, i, s, d) matches Ok((v, s1)) ==> (eval(pruned(m), i, t, d) matches Ok((w, t1)) && w == v
            && agree_on(module_used(m), s1, t1)),
    decreases depth_budget(d), 0nat, 0nat, inst_size(i),
{
    let u = module_used(m);
    let pm = pruned(m);
    match i {
        Inst::BinaryOp { lhs, rhs, .. } | Inst::Compare { lhs, rhs, .. } => {
            lemma_pruned_eval(m, *lhs, s, t, d);
            if let Ok((a, s1)) = eval(m, *lhs, s, d) {
                let t1 = eval(pm, *lhs, t, d)->Ok_0.1;
                lemma_pruned_eval(m, *rhs, s1, t1, d);
            }
        },
        Inst::GetElementPtr { base, index } => {
            lemma_pruned_eval(m, *base, s, t, d);
            if let Ok((a, s1)) = eval(m, *base, s, d) {
                let t1 = eval(pm, *base, t, d)->Ok_0.1;
                lemma_pruned_eval(m, *index, s1, t1, d);
            }
        },
        Inst::StorePtr { ptr, value } => {
            lemma_pruned_eval(m, *ptr, s, t, d);
            if let Ok((a, s1)) = eval(m, *ptr, s, d) {
                let t1 = eval(pm, *ptr, t, d)->Ok_0.1;
                lemma_pruned_eval(m, *value, s1, t1, d);
            }
        },
        Inst::Store { var_name, value } => {
            lemma_pruned_eval(m, *value, s, t, d);
        },
        Inst::LoadPtr { ptr } => {
            lemma_pruned_eval(m, *ptr, s, t, d);
        },
        Inst::Return { value } => match value {
            Some(v) => {
                lemma_pruned_eval(m, *v, s, t, d);
            },
            None => {},
        },
        Inst::Variable { name } => {
            assert(used_vars(i).contains(name));
        },
        Inst::Call { function_name, args } => {
            lemma_pruned_args(m, args, s, t, d);
            lemma_pruned_functions_found_alike(m.functions, u, function_name);
            lemma_find_function(m.functions, function_name);
            if let Ok((vals, s1)) = eval_args(m, args, s, d) {
                let t1 = eval_args(pm, args, t, d)->Ok_0.1;
                if let Some(k) = find_function(m.functions, function_name) {
                    if d + 1 <= MAX_CALL_DEPTH {
                        lemma_pruned_call(m, k, vals, s1.heap, (d + 1) as u32);
                    }
                }
            }
        },
        _ => {},
    }
}

/// Argument lists reading only names the module reads evaluate alike in the pruned module.
pub proof fn lemma_pruned_args(m: ModuleModel, args: Seq<Inst>, s: Machine, t: Machine, d: u32)
    requires
        used_list(args).subset_of(module_used(m)),
        agree_on(module_used(m), s, t),
        dead_stores_only_read(m, module_used(m)),
    ensures
        eval_args(m, args, s, d) matches Ok((vs, s1)) ==> (eval_args(pruned(m), args, t, d) matches Ok((ws, t1))
            && ws == vs && agree_on(module_used(m), s1, t1)),
    decreases depth_budget(d), 0nat, 0nat, list_size(args),
{
    if args.len() > 0 {
        lemma_used_list_parts(args);
        lemma_pruned_eval(m, args[0], s, t, d);
        if let Ok((v, s1)) = eval(m, args[0], s, d) {
            let t1 = eval(pruned(m), args[0], t, d)->Ok_0.1;
            lemma_pruned_args(m, args.drop_first(), s1, t1, d);
        }
    }
}

/// A call of a function of the module that gives a value gives the same in the pruned
/// module.
pub proof fn lemma_pruned_call(m: ModuleModel, k: int, args: Seq<i64>, heap: Seq<i64>, d: u32)
    requires
        0 <= k < m.functions.len(),
        dead_stores_only_read(m, module_used(m)),
    ensures
        call(m, m.functions[k], args, heap, d) matches Ok(r) ==> call(pruned(m), pruned(m).functions[k], args, heap, d)
            == Ok::<(i64, Seq<i64>), crate::interpreter::Fault>(r),
    decreases depth_budget(d), (MAX_INSTRUCTIONS + 2) as nat, 0nat, 0nat,
{
    let u = module_used(m);
    let f = m.functions[k];
    let pf = pruned(m).functions[k];
    assert(pf == map_blocks(f, prune_map(u)));
    if d <= MAX_CALL_DEPTH && f.blocks.len() > 0 {
        let s0 = Machine { env: crate::interpreter::bind(f.params, args), heap };
        lemma_find_last_block(f.blocks, f.blocks[0].name);
        if let Some(bi) = find_last_block(f.blocks, f.blocks[0].name) {
            lemma_pruned_position_start(f.blocks[bi], u);
        }
        lemma_pruned_run(m, k, f.blocks[0].name, 0, 0, 0, 0, s0, s0, d);
    }
}

/// Running from a position of a block, when it gives a value, gives the same in the pruned
/// module from the matching position, an earlier step count and an agreeing state.
pub proof fn lemma_pruned_run(
    m: ModuleModel,
    k: int,
    name: Seq<char>,
    j: nat,
    j2: nat,
    start: nat,
    start2: nat,
    s: Machine,
    t: Machine,
    d: u32,
)
    requires
        0 <= k < m.functions.len(),
        agree_on(module_used(m), s, t),
        dead_stores_only_read(m, module_used(m)),
        start2 <= start,
        find_last_block(m.functions[k].blocks, name) matches Some(bi) ==> j2 == pruned_position(
            m.functions[k].blocks[bi],
            module_used(m),
            j,
        ),
    ensures
        run(m, m.functions[k], name, j, start, s, d) matches Ok(r) ==> run(
            pruned(m),
            pruned(m).functions[k],
            name,
            j2,
            start2,
            t,
            d,
        ) == Ok::<(i64, Seq<i64>), crate::interpreter::Fault>(r),
    decreases depth_budget(d), step_budget(start), 2nat, block_rest(m.functions[k], name, j),
{
    let u = module_used(m);
    let pm = pruned(m);
    let f = m.functions[k];
    let pf = pm.functions[k];
    assert(pf == map_blocks(f, prune_map(u)));
    lemma_find_last_block(f.blocks, name);
    lemma_pruned_blocks_found_alike(f.blocks, u, name);
    if start <= MAX_INSTRUCTIONS {
        if let Some(bi) = find_last_block(f.blocks, name) {
            let b = f.blocks[bi];
            let pb = pf.blocks[bi];
            assert(pb == prune_block(b, u));
            if j < b.insts.len() {
                let inst = b.insts[j as int];
                crate::passes::dead_code_elimination::lemma_survivors_len(b.insts.take(j as int), u);
                if survives(inst, u) || j == b.insts.len() - 1 {
                    lemma_pruned_position(b, u, j as int);
                    lemma_reads_in_module(m, k, bi, j as int);
                    lemma_pruned_eval(m, inst, s, t, d);
                    if let Ok((v, s1)) = eval(m, inst, s, d) {
                        let t1 = eval(pm, inst, t, d)->Ok_0.1;
                        if is_terminator_model(inst) {
                            if !(inst is Return) {
                                lemma_pruned_leave(m, k, bi, start, j + 1, start2, j2 + 1, s1, t1, d);
                            }
                        } else {
                            lemma_pruned_run(m, k, name, j + 1, j2 + 1, start, start2, s1, t1, d);
                        }
                    }
                } else {
                    assert(b.insts[j as int] == m.functions[k].blocks[bi].insts[j as int]);
                    lemma_pruned_position_skip(b, u, j as int);
                    if let Inst::Store { var_name, value } = inst {
                        lemma_reading_keeps_state(m, *value, s, d);
                        if let Ok((v, s1)) = eval(m, inst, s, d) {
                            assert(agree_on(u, s1, t));
                            lemma_pruned_run(m, k, name, j + 1, j2, start, start2, s1, t, d);
                        }
                    }
                }
            } else {
                if b.insts.len() > 0 {
                    crate::passes::dead_code_elimination::lemma_survivors_len(b.insts.drop_last(), u);
                }
                lemma_pruned_leave(m, k, bi, start, j, start2, j2, s, t, d);
            }
        }
    }
}

/// Leaving a block, when it gives a value, gives the same in the pruned module after no more
/// steps, from an agreeing state.
pub proof fn lemma_pruned_leave(
    m: ModuleModel,
    k: int,
    bi: int,
    start: nat,
    executed: nat,
    start2: nat,
    executed2: nat,
    s: Machine,
    t: Machine,
    d: u32,
)
    requires
        0 <= k < m.functions.len(),
        0 <= bi < m.functions[k].blocks.len(),
        agree_on(module_used(m), s, t),
        dead_stores_only_read(m, module_used(m)),
        start2 <= start,
        start2 + executed2 <= start + executed,
        executed > 0 && m.functions[k].blocks[bi].insts.len() > 0 ==> executed2 > 0,
    ensures
        leave(m, m.functions[k], m.functions[k].blocks[bi], start, executed, s, d) matches Ok(r) ==> leave(
            pruned(m),
            pruned(m).functions[k],
            pruned(m).functions[k].blocks[bi],
            start2,
            executed2,
            t,
            d,
        ) == Ok::<(i64, Seq<i64>), crate::interpreter::Fault>(r),
    decreases depth_budget(d), step_budget(start), 1nat, 0nat,
{
    let u = module_used(m);
    let pm = pruned(m);
    let f = m.functions[k];
    let pf = pm.functions[k];
    assert(pf == map_blocks(f, prune_map(u)));
    let b = f.blocks[bi];
    let pb = pf.blocks[bi];
    assert(pb == prune_block(b, u));
    if start <= MAX_INSTRUCTIONS && b.insts.len() > 0 && executed > 0 {
        assert(pb.insts.last() == b.insts.last());
        let last = b.insts.len() - 1;
        lemma_reads_in_module(m, k, bi, last);
        match b.insts.last() {
            Inst::Branch { condition, then_label, else_label } => {
                lemma_pruned_eval(m, *condition, s, t, d);
                if let Ok((c, s1)) = eval(m, *condition, s, d) {
                    let t1 = eval(pm, *condition, t, d)->Ok_0.1;
                    let target = if c != 0 { then_label } else { else_label };
                    lemma_find_last_block(f.blocks, target);
                    if let Some(ti) = find_last_block(f.blocks, target) {
                        lemma_pruned_position_start(f.blocks[ti], u);
                    }
                    lemma_pruned_run(m, k, target, 0, 0, start + executed, start2 + executed2, s1, t1, d);
                }
            },
            Inst::Jump { label } => {
                lemma_find_last_block(f.blocks, label);
                if let Some(ti) = find_last_block(f.blocks, label) {
                    lemma_pruned_position_start(f.blocks[ti], u);
                }
                lemma_pruned_run(m, k, label, 0, 0, start + executed, start2 + executed2, s, t, d);
            },
            _ => {},
        }
    }
}

/// Every survivor is an instruction of the list.
pub proof fn lemma_survivors_from(s: Seq<Inst>, used: Set<Seq<char>>)
    ensures
        forall|p: int| #![trigger survivors(s, used)[p]] 0 <= p < survivors(s, used).len() ==> exists|j: int|
            0 <= j < s.len() && #[trigger] s[j] == survivors(s, used)[p],
    decreases s.len(),
{
    if s.len() > 0 {
        lemma_survivors_from(s.drop_last(), used);
        let r = survivors(s.drop_last(), used);
        assert forall|p: int| #![trigger survivors(s, used)[p]] 0 <= p < survivors(s, used).len() implies exists|j: int|
            0 <= j < s.len() && #[trigger] s[j] == survivors(s, used)[p] by {
            if p < r.len() {
                let j = choose|j: int| 0 <= j < s.drop_last().len() && #[trigger] s.drop_last()[j] == r[p];
                assert(s[j] == s.drop_last()[j]);
            } else {
                assert(s[s.len() - 1] == survivors(s, used)[p]);
            }
        }
    }
}

/// Pruning keeps every stored value reading only, when every one did.
pub proof fn lemma_pruned_stores_only_read(m: ModuleModel)
    requires
        stores_only_read(m),
    ensures
        stores_only_read(pruned(m)),
        dead_stores_only_read(m, module_used(m)),
{
    let u = module_used(m);
    let pm = pruned(m);
    assert forall|k: int, bi: int, j: int|
        0 <= k < pm.functions.len() && 0 <= bi < pm.functions[k].blocks.len() && 0 <= j
            < pm.functions[k].blocks[bi].insts.len() implies match #[trigger] pm.functions[k].blocks[bi].insts[j] {
        Inst::Store { value, .. } => reads_only(*value),
        _ => true,
    } by {
        let b = m.functions[k].blocks[bi];
        assert(pm.functions[k] == map_blocks(m.functions[k], prune_map(u)));
        assert(pm.functions[k].blocks[bi] == prune_block(b, u));
        let sv = survivors(b.insts.drop_last(), u);
        lemma_survivors_from(b.insts.drop_last(), u);
        if j < sv.len() {
            let jj = choose|jj: int| 0 <= jj < b.insts.drop_last().len() && #[trigger] b.insts.drop_last()[jj] == sv[j];
            assert(b.insts[jj] == m.functions[k].blocks[bi].insts[jj]);
        } else {
            assert(b.insts[b.insts.len() - 1] == m.functions[k].blocks[bi].insts[b.insts.len() - 1]);
        }
    }
}

/// One round of dead-code elimination keeps what every function gives: run on any arguments,
/// a function that gives a value gives the same one once the module is pruned, provided each
/// dropped store's value only reads (a dropped store that called, stored or failed could
/// have changed the outcome).
pub proof fn law_dce_round_keeps_results(m: ModuleModel, k: int, args: Seq<i64>)
    requires
        0 <= k < m.functions.len(),
        dead_stores_only_read(m, module_used(m)),
    ensures
        execute(m, m.functions[k], args) matches Ok(v) ==> execute(pruned(m), pruned(m).functions[k], args)
            == Ok::<i64, crate::interpreter::Fault>(v),
{
    lemma_pruned_call(m, k, args, Seq::empty(), 0);
}

/// Dead-code elimination keeps what every function gives: in a module whose stored values
/// only read, a function that gives a value on some arguments gives the same one after the
/// pass.
pub proof fn law_dce_keeps_results(m: ModuleModel, k: int, args: Seq<i64>)
    requires
        0 <= k < m.functions.len(),
        stores_only_read(m),
    ensures
        k < prune_fixpoint(m).0.functions.len(),
        execute(m, m.functions[k], args) matches Ok(v) ==> execute(
            prune_fixpoint(m).0,
            prune_fixpoint(m).0.functions[k],
            args,
        ) == Ok::<i64, crate::interpreter::Fault>(v),
    decreases instruction_total(m),
{
    let (m1, c) = prune_round(m);
    crate::passes::dead_code_elimination::lemma_prune_round_shrinks(m);
    lemma_pruned_stores_only_read(m);
    law_dce_round_keeps_results(m, k, args);
    if c {
        law_dce_keeps_results(m1, k, args);
    }
}

} // verus!
