use vstd::prelude::*;
use crate::ir::basic_block::BlockModel;
use crate::ir::function::FunctionModel;
use crate::ir::module::ModuleModel;
use crate::ir::value::Inst;
use crate::interpreter::{
    MAX_INSTRUCTIONS, Machine, bind, bind_first, block_rest, eval, execute, find_last_block, leave,
    lemma_find_last_block, run, step_budget,
};
use crate::ir::value::is_terminator_model;
use crate::passes::constant_propagation::{
    agrees_with, const_step, fold_blocks, fold_insts, function_constants, function_tally, law_propagation_preserves_eval,
    lemma_substitute_keeps_value, propagate_round, propagate_rounds, substitute, substitute_map,
    tally_step,
};
use crate::passes::strength_reduction::{
    all_operands_read_only, lemma_operands_ignore_module, lemma_reading_ignores_module, lemma_reading_keeps_state,
    operands_read_only, reads_only,
};
use crate::passes::{map_block, map_function};

verus! {

/// The instructions of a list of blocks, block after block.
pub open spec fn flat_blocks(bs: Seq<BlockModel>) -> Seq<Inst>
    decreases bs.len(),
{
    if bs.len() == 0 {
        Seq::empty()
    } else {
        flat_blocks(bs.drop_last()) + bs.last().insts
    }
}

/// Folding over two lists one after the other is folding over their concatenation.
pub proof fn lemma_fold_concat<A>(acc: A, s1: Seq<Inst>, s2: Seq<Inst>, step: spec_fn(A, Inst) -> A)
    ensures
        fold_insts(acc, s1 + s2, step) == fold_insts(fold_insts(acc, s1, step), s2, step),
    decreases s2.len(),
{
    if s2.len() == 0 {
        assert(s1 + s2 =~= s1);
    } else {
        assert((s1 + s2).drop_last() =~= s1 + s2.drop_last());
        assert((s1 + s2).last() == s2.last());
        lemma_fold_concat(acc, s1, s2.drop_last(), step);
    }
}

/// Folding block by block is folding over the blocks' instructions in order.
pub proof fn lemma_fold_blocks_flat<A>(acc: A, bs: Seq<BlockModel>, step: spec_fn(A, Inst) -> A)
    ensures
        fold_blocks(acc, bs, step) == fold_insts(acc, flat_blocks(bs), step),
    decreases bs.len(),
{
    if bs.len() > 0 {
        lemma_fold_blocks_flat(acc, bs.drop_last(), step);
        lemma_fold_concat(acc, flat_blocks(bs.drop_last()), bs.last().insts, step);
    }
}

/// Every instruction of a block stands in the flattened list.
pub proof fn lemma_in_flat_blocks(bs: Seq<BlockModel>, bi: int, j: int)
    requires
        0 <= bi < bs.len(),
        0 <= j < bs[bi].insts.len(),
    ensures
        exists|p: int| 0 <= p < flat_blocks(bs).len() && #[trigger] flat_blocks(bs)[p] == bs[bi].insts[j],
    decreases bs.len(),
{
    let fl = flat_blocks(bs);
    let pre = flat_blocks(bs.drop_last());
    if bi == bs.len() - 1 {
        let p = pre.len() + j;
        assert(fl[p] == bs[bi].insts[j]);
    } else {
        lemma_in_flat_blocks(bs.drop_last(), bi, j);
        let p = choose|p: int| 0 <= p < pre.len() && #[trigger] pre[p] == bs.drop_last()[bi].insts[j];
        assert(fl[p] == pre[p]);
    }
}

/// Whether an instruction stores to `y`.
pub open spec fn stores_to(i: Inst, y: Seq<char>) -> bool {
    i matches Inst::Store { var_name, .. } && var_name == y
}

/// The tally of a list knows exactly the names stored to, and a name it marks `false` is
/// stored to at exactly one place.
pub proof fn lemma_tally(s: Seq<Inst>, y: Seq<char>)
    ensures
        fold_insts(Map::empty(), s, tally_step()).contains_key(y) <==> exists|p: int| 0 <= p < s.len()
            && #[trigger] stores_to(s[p], y),
        fold_insts(Map::empty(), s, tally_step()).contains_key(y) && !fold_insts(Map::empty(), s, tally_step())[y]
            ==> forall|p: int, q: int| 0 <= p < s.len() && 0 <= q < s.len() && #[trigger] stores_to(s[p], y)
            && #[trigger] stores_to(s[q], y) ==> p == q,
    decreases s.len(),
{
    if s.len() > 0 {
        let d = s.drop_last();
        lemma_tally(d, y);
        assert forall|p: int| 0 <= p < d.len() implies d[p] == s[p] by {}
        if stores_to(s.last(), y) {
            assert(stores_to(s[s.len() - 1], y));
        }
        if exists|p: int| 0 <= p < s.len() && #[trigger] stores_to(s[p], y) {
            let p = choose|p: int| 0 <= p < s.len() && #[trigger] stores_to(s[p], y);
            if p < s.len() - 1 {
                assert(stores_to(d[p], y));
            }
        }
    }
}

/// A name the constants know was recorded from a store of that constant to it, and the
/// tally marks it as stored to once.
pub proof fn lemma_known(s: Seq<Inst>, tally: Map<Seq<char>, bool>, y: Seq<char>)
    ensures
        fold_insts(Map::empty(), s, const_step(tally)).contains_key(y) ==> {
            &&& tally.contains_key(y) && !tally[y]
            &&& exists|p: int| 0 <= p < s.len() && #[trigger] s[p] == (Inst::Store {
                var_name: y,
                value: Box::new(Inst::Constant { value: fold_insts(Map::empty(), s, const_step(tally))[y] }),
            })
        },
    decreases s.len(),
{
    if s.len() > 0 {
        let d = s.drop_last();
        lemma_known(d, tally, y);
        let kd = fold_insts(Map::empty(), d, const_step(tally));
        let ks = fold_insts(Map::empty(), s, const_step(tally));
        if ks.contains_key(y) {
            if kd.contains_key(y) && ks[y] == kd[y] {
                let p = choose|p: int| 0 <= p < d.len() && #[trigger] d[p] == (Inst::Store {
                    var_name: y,
                    value: Box::new(Inst::Constant { value: kd[y] }),
                });
                assert(s[p] == d[p]);
            } else {
                assert(s[s.len() - 1] == s.last());
            }
        }
    }
}

/// In a function, every top-level store to a name its constants know stores that constant.
pub proof fn lemma_known_stores(m: ModuleModel, k: int, bi: int, j: int, y: Seq<char>)
    requires
        0 <= k < m.functions.len(),
        0 <= bi < m.functions[k].blocks.len(),
        0 <= j < m.functions[k].blocks[bi].insts.len(),
        function_constants(m.functions[k]).contains_key(y),
        stores_to(m.functions[k].blocks[bi].insts[j], y),
    ensures
        m.functions[k].blocks[bi].insts[j] == (Inst::Store {
            var_name: y,
            value: Box::new(Inst::Constant { value: function_constants(m.functions[k])[y] }),
        }),
{
    let f = m.functions[k];
    let fl = flat_blocks(f.blocks);
    let tally = function_tally(f);
    lemma_fold_blocks_flat(Map::<Seq<char>, bool>::empty(), f.blocks, tally_step());
    lemma_fold_blocks_flat(Map::<Seq<char>, i64>::empty(), f.blocks, const_step(tally));
    lemma_known(fl, tally, y);
    lemma_tally(fl, y);
    lemma_in_flat_blocks(f.blocks, bi, j);
    let q = choose|q: int| 0 <= q < fl.len() && #[trigger] fl[q] == m.functions[k].blocks[bi].insts[j];
    let p = choose|p: int| 0 <= p < fl.len() && #[trigger] fl[p] == (Inst::Store {
        var_name: y,
        value: Box::new(Inst::Constant { value: function_constants(f)[y] }),
    });
    assert(stores_to(fl[p], y));
    assert(stores_to(fl[q], y));
}

/// Substitution keeps a tree reading only.
pub proof fn lemma_substitute_reads_only(i: Inst, known: Map<Seq<char>, i64>)
    requires
        reads_only(i),
    ensures
        reads_only(substitute(i, known).0),
    decreases i,
{
    match i {
        Inst::BinaryOp { lhs, rhs, .. } | Inst::Compare { lhs, rhs, .. } => {
            lemma_substitute_reads_only(*lhs, known);
            lemma_substitute_reads_only(*rhs, known);
        },
        _ => {},
    }
}

/// Substitution keeps an instruction's operands reading only, and its kind: terminators stay
/// the same terminators, with the same labels.
pub proof fn lemma_substitute_keeps_kind(i: Inst, known: Map<Seq<char>, i64>)
    requires
        operands_read_only(i),
    ensures
        operands_read_only(substitute(i, known).0),
        is_terminator_model(substitute(i, known).0) == is_terminator_model(i),
        (substitute(i, known).0 is Return) == (i is Return),
        i matches Inst::Jump { label } ==> substitute(i, known).0 == i,
        i matches Inst::Branch { condition, then_label, else_label } ==> substitute(i, known).0 == (Inst::Branch {
            condition: Box::new(substitute(*condition, known).0),
            then_label,
            else_label,
        }),
{
    match i {
        Inst::Store { value, .. } => {
            lemma_substitute_reads_only(*value, known);
        },
        Inst::Return { value } => match value {
            Some(v) => {
                lemma_substitute_reads_only(*v, known);
            },
            None => {},
        },
        Inst::Branch { condition, .. } => {
            lemma_substitute_reads_only(*condition, known);
        },
        Inst::Jump { .. } => {},
        _ => {
            lemma_substitute_reads_only(i, known);
        },
    }
}

/// Substitution keeps where each block name leads.
pub proof fn lemma_substituted_blocks_found_alike(bs: Seq<BlockModel>, known: Map<Seq<char>, i64>, name: Seq<char>)
    ensures
        find_last_block(bs.map_values(|b: BlockModel| map_block(b, substitute_map(known))), name)
            == find_last_block(bs, name),
    decreases bs.len(),
{
    let g = |b: BlockModel| map_block(b, substitute_map(known));
    if bs.len() > 0 {
        assert(bs.map_values(g).drop_last() =~= bs.drop_last().map_values(g));
        lemma_substituted_blocks_found_alike(bs.drop_last(), known, name);
    }
}

/// Running an instruction of the module whose operands only read keeps the machine agreeing
/// with the known constants.
pub proof fn lemma_step_agrees(m: ModuleModel, k: int, bi: int, j: int, s: Machine, d: u32)
    requires
        0 <= k < m.functions.len(),
        0 <= bi < m.functions[k].blocks.len(),
        0 <= j < m.functions[k].blocks[bi].insts.len(),
        operands_read_only(m.functions[k].blocks[bi].insts[j]),
        agrees_with(s, function_constants(m.functions[k])),
    ensures
        eval(m, m.functions[k].blocks[bi].insts[j], s, d) matches Ok((v, s1)) ==> agrees_with(s1, function_constants(m.functions[k])),
{
    let i = m.functions[k].blocks[bi].insts[j];
    let known = function_constants(m.functions[k]);
    match i {
        Inst::Store { var_name, value } => {
            lemma_reading_keeps_state(m, *value, s, d);
            if known.contains_key(var_name) {
                lemma_known_stores(m, k, bi, j, var_name);
            }
        },
        Inst::Return { value } => match value {
            Some(v) => {
                lemma_reading_keeps_state(m, *v, s, d);
            },
            None => {},
        },
        Inst::Branch { .. } | Inst::Jump { .. } => {},
        _ => {
            lemma_reading_keeps_state(m, i, s, d);
        },
    }
}

/// Running from a position of a block, when it gives a value, gives the same after one round
/// of propagation, from a state that agrees with the known constants, in a module whose
/// operands only read.
pub proof fn lemma_propagated_run(m: ModuleModel, k: int, name: Seq<char>, j: nat, start: nat, s: Machine, d: u32)
    requires
        0 <= k < m.functions.len(),
        all_operands_read_only(m),
        agrees_with(s, function_constants(m.functions[k])),
    ensures
        run(m, m.functions[k], name, j, start, s, d) matches Ok(r) ==> run(
            propagate_round(m).0,
            propagate_round(m).0.functions[k],
            name,
            j,
            start,
            s,
            d,
        ) == Ok::<(i64, Seq<i64>), crate::interpreter::Fault>(r),
    decreases step_budget(start), 2nat, block_rest(m.functions[k], name, j),
{
    let known = function_constants(m.functions[k]);
    let pm = propagate_round(m).0;
    let f = m.functions[k];
    let pf = pm.functions[k];
    assert(pf == map_function(f, substitute_map(known)));
    lemma_substituted_blocks_found_alike(f.blocks, known, name);
    lemma_find_last_block(f.blocks, name);
    if start <= MAX_INSTRUCTIONS {
        if let Some(bi) = find_last_block(f.blocks, name) {
            let b = f.blocks[bi];
            let pb = pf.blocks[bi];
            assert(pb == map_block(b, substitute_map(known)));
            if j < b.insts.len() {
                let inst = b.insts[j as int];
                assert(operands_read_only(m.functions[k].blocks[bi].insts[j as int]));
                assert(pb.insts[j as int] == substitute(inst, known).0);
                lemma_substitute_keeps_kind(inst, known);
                lemma_step_agrees(m, k, bi, j as int, s, d);
                if let Ok((v, s1)) = eval(m, inst, s, d) {
                    law_propagation_preserves_eval(m, inst, known, s, d);
                    lemma_operands_ignore_module(m, pm, substitute(inst, known).0, s, d);
                    if is_terminator_model(inst) {
                        if !(inst is Return) {
                            lemma_propagated_leave(m, k, bi, start, j + 1, s1, d);
                        }
                    } else {
                        lemma_propagated_run(m, k, name, j + 1, start, s1, d);
                    }
                }
            } else {
                lemma_propagated_leave(m, k, bi, start, j, s, d);
            }
        }
    }
}

/// Leaving a block, when it gives a value, gives the same after one round of propagation,
/// from a state that agrees with the known constants, in a module whose operands only read.
pub proof fn lemma_propagated_leave(m: ModuleModel, k: int, bi: int, start: nat, executed: nat, s: Machine, d: u32)
    requires
        0 <= k < m.functions.len(),
        0 <= bi < m.functions[k].blocks.len(),
        all_operands_read_only(m),
        agrees_with(s, function_constants(m.functions[k])),
    ensures
        leave(m, m.functions[k], m.functions[k].blocks[bi], start, executed, s, d) matches Ok(r) ==> leave(
            propagate_round(m).0,
            propagate_round(m).0.functions[k],
            propagate_round(m).0.functions[k].blocks[bi],
            start,
            executed,
            s,
            d,
        ) == Ok::<(i64, Seq<i64>), crate::interpreter::Fault>(r),
    decreases step_budget(start), 1nat, 0nat,
{
    let known = function_constants(m.functions[k]);
    let pm = propagate_round(m).0;
    let f = m.functions[k];
    let pf = pm.functions[k];
    assert(pf == map_function(f, substitute_map(known)));
    let b = f.blocks[bi];
    let pb = pf.blocks[bi];
    assert(pb == map_block(b, substitute_map(known)));
    if start <= MAX_INSTRUCTIONS && b.insts.len() > 0 && executed > 0 {
        let last = b.insts.last();
        assert(operands_read_only(m.functions[k].blocks[bi].insts[b.insts.len() - 1]));
        assert(pb.insts.last() == substitute(last, known).0);
        lemma_substitute_keeps_kind(last, known);
        match last {
            Inst::Branch { condition, then_label, else_label } => {
                if let Ok((c, s1)) = eval(m, *condition, s, d) {
                    lemma_reading_keeps_state(m, *condition, s, d);
                    lemma_substitute_keeps_value(m, *condition, known, s, d);
                    lemma_substitute_reads_only(*condition, known);
                    lemma_reading_ignores_module(m, pm, substitute(*condition, known).0, s, d);
                    lemma_propagated_run(m, k, if c != 0 { then_label } else { else_label }, 0, start + executed, s1, d);
                }
            },
            Inst::Jump { label } => {
                lemma_propagated_run(m, k, label, 0, start + executed, s, d);
            },
            _ => {},
        }
    }
}

/// The names a frame starts with are its parameters.
pub proof fn lemma_bound_names(params: Seq<Seq<char>>, args: Seq<i64>, n: nat, x: Seq<char>)
    requires
        n <= params.len(),
        n <= args.len(),
    ensures
        bind_first(params, args, n).contains_key(x) ==> params.contains(x),
    decreases n,
{
    if n > 0 {
        lemma_bound_names(params, args, (n - 1) as nat, x);
        if x == params[n - 1] {
            assert(params.contains(params[n - 1]));
        }
    }
}

/// One round of constant propagation keeps what a function gives, in a module whose operands
/// only read (no calls, no stores inside expressions), when none of the function's parameters
/// is a name the round treats as constant: a value on some arguments stays the same value.
pub proof fn law_propagation_round_keeps_results(m: ModuleModel, k: int, args: Seq<i64>)
    requires
        0 <= k < m.functions.len(),
        all_operands_read_only(m),
        forall|x: Seq<char>| #[trigger] m.functions[k].params.contains(x) ==> !function_constants(m.functions[k]).contains_key(x),
    ensures
        execute(m, m.functions[k], args) matches Ok(v) ==> execute(
            propagate_round(m).0,
            propagate_round(m).0.functions[k],
            args,
        ) == Ok::<i64, crate::interpreter::Fault>(v),
{
    let f = m.functions[k];
    let pf = propagate_round(m).0.functions[k];
    assert(pf == map_function(f, substitute_map(function_constants(m.functions[k]))));
    if f.blocks.len() > 0 {
        let s0 = Machine { env: bind(f.params, args), heap: Seq::empty() };
        let n = if f.params.len() <= args.len() { f.params.len() } else { args.len() };
        assert forall|x: Seq<char>| #[trigger] function_constants(m.functions[k]).contains_key(x) && s0.env.contains_key(x) implies s0.env[x]
            == function_constants(m.functions[k])[x] by {
            lemma_bound_names(f.params, args, n, x);
        }
        lemma_propagated_run(m, k, f.blocks[0].name, 0, 0, s0, 0);
    }
}

/// Every instruction of the flattened list of blocks comes from one of the blocks.
pub proof fn lemma_from_flat_blocks(bs: Seq<BlockModel>, p: int)
    requires
        0 <= p < flat_blocks(bs).len(),
    ensures
        exists|bi: int, j: int| 0 <= bi < bs.len() && 0 <= j < bs[bi].insts.len() && #[trigger] bs[bi].insts[j]
            == flat_blocks(bs)[p],
    decreases bs.len(),
{
    let pre = flat_blocks(bs.drop_last());
    if p < pre.len() {
        lemma_from_flat_blocks(bs.drop_last(), p);
        let (bi, j) = choose|bi: int, j: int| 0 <= bi < bs.drop_last().len() && 0 <= j
            < bs.drop_last()[bi].insts.len() && #[trigger] bs.drop_last()[bi].insts[j] == pre[p];
        assert(bs[bi] == bs.drop_last()[bi]);
    } else {
        let bi = bs.len() - 1;
        let j = p - pre.len();
        assert(bs[bi].insts[j] == flat_blocks(bs)[p]);
    }
}

/// Whether no top-level instruction of the function stores to `x`.
pub open spec fn never_stored(f: FunctionModel, x: Seq<char>) -> bool {
    forall|bi: int, j: int|
        0 <= bi < f.blocks.len() && 0 <= j < f.blocks[bi].insts.len() ==> !stores_to(#[trigger] f.blocks[bi].insts[j], x)
}

/// A name a function's constants know is stored to somewhere in the function.
pub proof fn lemma_known_is_stored(f: FunctionModel, x: Seq<char>)
    requires
        never_stored(f, x),
    ensures
        !function_constants(f).contains_key(x),
{
    let fl = flat_blocks(f.blocks);
    let tally = function_tally(f);
    lemma_fold_blocks_flat(Map::<Seq<char>, i64>::empty(), f.blocks, const_step(tally));
    lemma_known(fl, tally, x);
    if function_constants(f).contains_key(x) {
        let p = choose|p: int| 0 <= p < fl.len() && #[trigger] fl[p] == (Inst::Store {
            var_name: x,
            value: Box::new(Inst::Constant { value: function_constants(f)[x] }),
        });
        lemma_from_flat_blocks(f.blocks, p);
        let (bi, j) = choose|bi: int, j: int| 0 <= bi < f.blocks.len() && 0 <= j < f.blocks[bi].insts.len()
            && #[trigger] f.blocks[bi].insts[j] == fl[p];
        assert(stores_to(f.blocks[bi].insts[j], x));
    }
}

/// A round keeps the operands reading only, and stores to no new name.
pub proof fn lemma_round_keeps_conditions(m: ModuleModel, x: Seq<char>)
    requires
        all_operands_read_only(m),
    ensures
        all_operands_read_only(propagate_round(m).0),
        propagate_round(m).0.functions.len() == m.functions.len(),
        forall|k: int| 0 <= k < m.functions.len() ==> #[trigger] propagate_round(m).0.functions[k].params
            == m.functions[k].params,
        forall|k: int| 0 <= k < m.functions.len() && never_stored(m.functions[k], x) ==> never_stored(
            #[trigger] propagate_round(m).0.functions[k],
            x,
        ),
{
    let pm = propagate_round(m).0;
    assert forall|k: int, bi: int, j: int|
        0 <= k < pm.functions.len() && 0 <= bi < pm.functions[k].blocks.len() && 0 <= j
            < pm.functions[k].blocks[bi].insts.len() implies operands_read_only(
        #[trigger] pm.functions[k].blocks[bi].insts[j],
    ) && (never_stored(m.functions[k], x) ==> !stores_to(pm.functions[k].blocks[bi].insts[j], x)) by {
        let known = function_constants(m.functions[k]);
        let i = m.functions[k].blocks[bi].insts[j];
        assert(pm.functions[k] == map_function(m.functions[k], substitute_map(known)));
        assert(pm.functions[k].blocks[bi] == map_block(m.functions[k].blocks[bi], substitute_map(known)));
        assert(pm.functions[k].blocks[bi].insts[j] == substitute(i, known).0);
        lemma_substitute_keeps_kind(i, known);
    }
    assert forall|k: int| 0 <= k < m.functions.len() && never_stored(m.functions[k], x) implies never_stored(
        #[trigger] pm.functions[k],
        x,
    ) by {
        assert forall|bi: int, j: int| 0 <= bi < pm.functions[k].blocks.len() && 0 <= j < pm.functions[k].blocks[bi].insts.len()
            implies !stores_to(#[trigger] pm.functions[k].blocks[bi].insts[j], x) by {
            assert(!stores_to(pm.functions[k].blocks[bi].insts[j], x));
        }
    }
}

/// Constant propagation keeps what a function gives, in a module whose operands only read
/// (no calls, no stores inside expressions) and whose function never stores to its own
/// parameters: a value on some arguments stays the same value after the pass's rounds.
pub proof fn law_propagation_keeps_results(m: ModuleModel, n: int, k: int, args: Seq<i64>)
    requires
        0 <= k < m.functions.len(),
        all_operands_read_only(m),
        forall|x: Seq<char>| #[trigger] m.functions[k].params.contains(x) ==> never_stored(m.functions[k], x),
    ensures
        k < propagate_rounds(m, n).0.functions.len(),
        execute(m, m.functions[k], args) matches Ok(v) ==> execute(
            propagate_rounds(m, n).0,
            propagate_rounds(m, n).0.functions[k],
            args,
        ) == Ok::<i64, crate::interpreter::Fault>(v),
    decreases n,
{
    if n > 0 {
        let m1 = propagate_round(m).0;
        assert forall|x: Seq<char>| #[trigger] m.functions[k].params.contains(x) implies !function_constants(
            m.functions[k],
        ).contains_key(x) by {
            lemma_known_is_stored(m.functions[k], x);
        }
        law_propagation_round_keeps_results(m, k, args);
        lemma_round_keeps_conditions(m, Seq::empty());
        assert forall|x: Seq<char>| #[trigger] m1.functions[k].params.contains(x) implies never_stored(m1.functions[k], x) by {
            lemma_round_keeps_conditions(m, x);
        }
        if propagate_round(m).1 {
            law_propagation_keeps_results(m1, n - 1, k, args);
        }
    }
}

} // verus!
