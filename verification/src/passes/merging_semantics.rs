use vstd::prelude::*;
use crate::interpreter::{
    MAX_CALL_DEPTH, MAX_INSTRUCTIONS, Machine, bind, block_rest, call, depth_budget, eval, eval_args,
    execute, find_last_block, inst_size, leave, lemma_find_last_block, lemma_find_last_block_at,
    list_size, run, step_budget,
};
use crate::ir::basic_block::BlockModel;
use crate::ir::function::{FunctionModel, find_block, lemma_find_block};
use crate::ir::module::{ModuleModel, find_function, lemma_find_function};
use crate::ir::value::{Inst, is_terminator_model};
use crate::passes::block_merging::{
    insts_refs, jump_target, merge_at, merge_from, merge_function_map, merge_function_changes,
    merge_rounds, merge_target, predecessor_count, refers_to,
};
use crate::passes::{any_function, map_functions};

verus! {

/// No two blocks share a name.
pub open spec fn distinct_names(bs: Seq<BlockModel>) -> bool {
    forall|i: int, j: int| 0 <= i < j < bs.len() ==> #[trigger] bs[i].name != #[trigger] bs[j].name
}

/// A block whose only terminator, if any, is its last instruction.
pub open spec fn ends_only(b: BlockModel) -> bool {
    forall|j: int| 0 <= j < b.insts.len() - 1 ==> !is_terminator_model(#[trigger] b.insts[j])
}

/// Blocks that merging keeps the meaning of: distinct names, terminators only at the end of
/// a block, and nothing transferring control to the first block.
pub open spec fn mergeable_blocks(bs: Seq<BlockModel>) -> bool {
    &&& distinct_names(bs)
    &&& forall|i: int| 0 <= i < bs.len() ==> ends_only(#[trigger] bs[i])
    &&& bs.len() > 0 ==> predecessor_count(bs, bs[0].name) == 0
}

/// With distinct names, a block is where its name leads.
pub proof fn lemma_distinct_found(bs: Seq<BlockModel>, i: int)
    requires
        distinct_names(bs),
        0 <= i < bs.len(),
    ensures
        find_last_block(bs, bs[i].name) == Some(i),
        find_block(bs, bs[i].name) == Some(i),
{
    lemma_find_last_block_at(bs, bs[i].name, i);
    lemma_find_block(bs, bs[i].name);
}

/// The references of a list include those of each of its instructions.
pub proof fn lemma_insts_refs_at(s: Seq<Inst>, label: Seq<char>, j: int)
    requires
        0 <= j < s.len(),
    ensures
        insts_refs(s, label) >= refers_to(s[j], label),
    decreases s.len(),
{
    if j < s.len() - 1 {
        lemma_insts_refs_at(s.drop_last(), label, j);
        assert(s.drop_last()[j] == s[j]);
    }
}

/// The references of a list of blocks include those of any two of its blocks.
pub proof fn lemma_refs_two_blocks(bs: Seq<BlockModel>, label: Seq<char>, x: int, y: int)
    requires
        0 <= x < bs.len(),
        0 <= y < bs.len(),
    ensures
        x != y ==> predecessor_count(bs, label) >= insts_refs(bs[x].insts, label) + insts_refs(bs[y].insts, label),
        predecessor_count(bs, label) >= insts_refs(bs[x].insts, label),
    decreases bs.len(),
{
    let n = bs.len() - 1;
    if x < n && y < n {
        lemma_refs_two_blocks(bs.drop_last(), label, x, y);
        assert(bs.drop_last()[x] == bs[x]);
        assert(bs.drop_last()[y] == bs[y]);
    } else if x < n {
        lemma_refs_two_blocks(bs.drop_last(), label, x, x);
        assert(bs.drop_last()[x] == bs[x]);
    } else if y < n {
        lemma_refs_two_blocks(bs.drop_last(), label, y, y);
        assert(bs.drop_last()[y] == bs[y]);
    }
}

/// What one merge needs and gives: the target is another block than the first and than the
/// merging one, named by the merging block's final jump, and no other instruction of the
/// function transfers control to it.
pub proof fn lemma_merge_facts(bs: Seq<BlockModel>, cur: int, t: int)
    requires
        mergeable_blocks(bs),
        0 <= cur < bs.len(),
        merge_target(bs, cur) == Some(t),
    ensures
        0 < t < bs.len(),
        t != cur,
        bs[cur].insts.len() > 0,
        bs[cur].insts.last() == (Inst::Jump { label: bs[t].name }),
        forall|x: int, j: int| 0 <= x < bs.len() && 0 <= j < bs[x].insts.len() && !(x == cur && j == bs[cur].insts.len() - 1)
            ==> refers_to(#[trigger] bs[x].insts[j], bs[t].name) == 0,
{
    let label = jump_target(bs[cur])->0;
    lemma_find_block(bs, label);
    assert(bs[t].name == label);
    let last = bs[cur].insts.len() - 1;
    assert(refers_to(bs[cur].insts[last], label) == 1);
    lemma_insts_refs_at(bs[cur].insts, label, last);
    if t == 0 {
        lemma_refs_two_blocks(bs, label, cur, cur);
    }
    assert forall|x: int, j: int| 0 <= x < bs.len() && 0 <= j < bs[x].insts.len() && !(x == cur && j == last)
        implies refers_to(#[trigger] bs[x].insts[j], bs[t].name) == 0 by {
        lemma_insts_refs_at(bs[x].insts, label, j);
        if x != cur {
            lemma_refs_two_blocks(bs, label, x, cur);
        } else {
            let s = bs[cur].insts;
            if refers_to(s[j], label) > 0 {
                lemma_two_refs(s, label, j, last);
                lemma_refs_two_blocks(bs, label, cur, cur);
            }
        }
    }
}

/// Two instructions of a list that both refer to a label make two references.
pub proof fn lemma_two_refs(s: Seq<Inst>, label: Seq<char>, i: int, j: int)
    requires
        0 <= i < j < s.len(),
    ensures
        insts_refs(s, label) >= refers_to(s[i], label) + refers_to(s[j], label),
    decreases s.len(),
{
    if j < s.len() - 1 {
        lemma_two_refs(s.drop_last(), label, i, j);
        assert(s.drop_last()[i] == s[i]);
        assert(s.drop_last()[j] == s[j]);
    } else {
        lemma_insts_refs_at(s.drop_last(), label, i);
        assert(s.drop_last()[i] == s[i]);
    }
}

/// The block the merging block becomes.
pub open spec fn merged_block(bs: Seq<BlockModel>, cur: int, t: int) -> BlockModel {
    BlockModel { name: bs[cur].name, insts: bs[cur].insts.drop_last() + bs[t].insts }
}

/// Where block `i` stands once block `t` is gone.
pub open spec fn shifted(i: int, t: int) -> int {
    if i < t { i } else { i - 1 }
}

/// After a merge every block but the target stands at its shifted place, the merging one
/// as the merged block.
pub proof fn lemma_merged_layout(bs: Seq<BlockModel>, cur: int, t: int)
    requires
        0 <= cur < bs.len(),
        0 <= t < bs.len(),
        t != cur,
    ensures
        merge_at(bs, cur, t).len() == bs.len() - 1,
        forall|i: int| 0 <= i < bs.len() && i != t ==> #[trigger] merge_at(bs, cur, t)[shifted(i, t)] == if i == cur {
            merged_block(bs, cur, t)
        } else {
            bs[i]
        },
        forall|i2: int| 0 <= i2 < bs.len() - 1 ==> #[trigger] merge_at(bs, cur, t)[i2] == if i2 < t {
            if i2 == cur { merged_block(bs, cur, t) } else { bs[i2] }
        } else {
            if i2 + 1 == cur { merged_block(bs, cur, t) } else { bs[i2 + 1] }
        },
{
    let up = bs.update(cur, merged_block(bs, cur, t));
    assert(merge_at(bs, cur, t) == up.remove(t));
}

/// A merge keeps the names distinct.
pub proof fn lemma_merged_distinct(bs: Seq<BlockModel>, cur: int, t: int)
    requires
        distinct_names(bs),
        0 <= cur < bs.len(),
        0 <= t < bs.len(),
        t != cur,
    ensures
        distinct_names(merge_at(bs, cur, t)),
        forall|i2: int| 0 <= i2 < bs.len() - 1 ==> #[trigger] merge_at(bs, cur, t)[i2].name != bs[t].name,
{
    lemma_merged_layout(bs, cur, t);
    let ms = merge_at(bs, cur, t);
    assert forall|a: int, b: int| 0 <= a < b < ms.len() implies #[trigger] ms[a].name != #[trigger] ms[b].name by {
        let ia = if a < t { a } else { a + 1 };
        let ib = if b < t { b } else { b + 1 };
        assert(ms[a].name == bs[ia].name);
        assert(ms[b].name == bs[ib].name);
        assert(bs[ia].name != bs[ib].name);
    }
    assert forall|i2: int| 0 <= i2 < bs.len() - 1 implies #[trigger] ms[i2].name != bs[t].name by {
        let ia = if i2 < t { i2 } else { i2 + 1 };
        assert(ms[i2].name == bs[ia].name);
    }
}

/// The module with the blocks of function `fi` replaced by `blocks`.
pub open spec fn with_blocks(m: ModuleModel, fi: int, blocks: Seq<BlockModel>) -> ModuleModel {
    ModuleModel {
        name: m.name,
        functions: m.functions.update(fi, FunctionModel { blocks, ..m.functions[fi] }),
    }
}

/// The module once block `t` of function `fi` is merged into block `cur`.
pub open spec fn merge_in(m: ModuleModel, fi: int, cur: int, t: int) -> ModuleModel {
    with_blocks(m, fi, merge_at(m.functions[fi].blocks, cur, t))
}

/// A merge of block `t` into block `cur` of function `fi`, whose blocks merge safely.
pub open spec fn merge_step(m: ModuleModel, fi: int, cur: int, t: int) -> bool {
    &&& 0 <= fi < m.functions.len()
    &&& mergeable_blocks(m.functions[fi].blocks)
    &&& 0 <= cur < m.functions[fi].blocks.len()
    &&& merge_target(m.functions[fi].blocks, cur) == Some(t)
}

/// Function lists with the same names find the same function for every name.
pub proof fn lemma_same_names_found(fs: Seq<FunctionModel>, gs: Seq<FunctionModel>, name: Seq<char>)
    requires
        fs.len() == gs.len(),
        forall|i: int| #![trigger gs[i]] 0 <= i < fs.len() ==> gs[i].name == fs[i].name,
    ensures
        find_function(gs, name) == find_function(fs, name),
    decreases fs.len(),
{
    if fs.len() > 0 {
        assert forall|i: int| #![trigger gs.drop_first()[i]] 0 <= i < fs.drop_first().len() implies gs.drop_first()[i].name
            == fs.drop_first()[i].name by {
            assert(gs.drop_first()[i] == gs[i + 1]);
            assert(fs.drop_first()[i] == fs[i + 1]);
        }
        lemma_same_names_found(fs.drop_first(), gs.drop_first(), name);
        assert(gs[0].name == fs[0].name);
    }
}

/// After a merge, every block name but the target's leads to the block's shifted place,
/// which holds the merged block for the merging one.
pub proof fn lemma_merged_found(bs: Seq<BlockModel>, cur: int, t: int, bi: int)
    requires
        mergeable_blocks(bs),
        0 <= cur < bs.len(),
        merge_target(bs, cur) == Some(t),
        0 <= bi < bs.len(),
        bi != t,
    ensures
        find_last_block(merge_at(bs, cur, t), bs[bi].name) == Some(shifted(bi, t)),
        merge_at(bs, cur, t)[shifted(bi, t)] == if bi == cur {
            merged_block(bs, cur, t)
        } else {
            bs[bi]
        },
{
    lemma_merge_facts(bs, cur, t);
    lemma_merged_layout(bs, cur, t);
    lemma_merged_distinct(bs, cur, t);
    let ms = merge_at(bs, cur, t);
    assert(ms[shifted(bi, t)] == if bi == cur {
        merged_block(bs, cur, t)
    } else {
        bs[bi]
    });
    lemma_distinct_found(ms, shifted(bi, t));
}

/// Where a position of the blocks `bs` runs on once block `t` is merged into block `cur`:
/// the target's instructions follow those of the merging block, whose final jump is gone;
/// the step count may lag behind, in the target by at least the merging block's length.
pub open spec fn merged_position(
    bs: Seq<BlockModel>,
    cur: int,
    t: int,
    name: Seq<char>,
    j: nat,
    start: nat,
    name2: Seq<char>,
    j2: nat,
    start2: nat,
) -> bool {
    match find_last_block(bs, name) {
        Some(bi) => if bi == t {
            &&& name2 == bs[cur].name
            &&& j2 == bs[cur].insts.len() - 1 + j
            &&& start2 + bs[cur].insts.len() <= start
        } else {
            &&& name2 == name
            &&& j2 == j
            &&& start2 <= start
            &&& bi == cur ==> j < bs[cur].insts.len()
        },
        None => true,
    }
}

/// An instruction tree that gives a value gives the same, from the same state, once a block
/// is merged.
pub proof fn lemma_mstep_eval(m: ModuleModel, fi: int, cur: int, t: int, i: Inst, s: Machine, d: u32)
    requires
        merge_step(m, fi, cur, t),
    ensures
        eval(m, i, s, d) is Ok ==> eval(merge_in(m, fi, cur, t), i, s, d) == eval(m, i, s, d),
    decreases depth_budget(d), 0nat, 0nat, inst_size(i),
{
    match i {
        Inst::BinaryOp { lhs, rhs, .. } | Inst::Compare { lhs, rhs, .. } => {
            lemma_mstep_eval(m, fi, cur, t, *lhs, s, d);
            if let Ok((a, s1)) = eval(m, *lhs, s, d) {
                lemma_mstep_eval(m, fi, cur, t, *rhs, s1, d);
            }
        },
        Inst::GetElementPtr { base, index } => {
            lemma_mstep_eval(m, fi, cur, t, *base, s, d);
            if let Ok((a, s1)) = eval(m, *base, s, d) {
                lemma_mstep_eval(m, fi, cur, t, *index, s1, d);
            }
        },
        Inst::StorePtr { ptr, value } => {
            lemma_mstep_eval(m, fi, cur, t, *ptr, s, d);
            if let Ok((a, s1)) = eval(m, *ptr, s, d) {
                lemma_mstep_eval(m, fi, cur, t, *value, s1, d);
            }
        },
        Inst::Store { value, .. } => {
            lemma_mstep_eval(m, fi, cur, t, *value, s, d);
        },
        Inst::LoadPtr { ptr } => {
            lemma_mstep_eval(m, fi, cur, t, *ptr, s, d);
        },
        Inst::Return { value } => match value {
            Some(v) => {
                lemma_mstep_eval(m, fi, cur, t, *v, s, d);
            },
            None => {},
        },
        Inst::Call { function_name, args } => {
            let m2 = merge_in(m, fi, cur, t);
            lemma_mstep_args(m, fi, cur, t, args, s, d);
            lemma_same_names_found(m.functions, m2.functions, function_name);
            lemma_find_function(m.functions, function_name);
            if let Ok((vals, s1)) = eval_args(m, args, s, d) {
                if let Some(k) = find_function(m.functions, function_name) {
                    if d + 1 <= MAX_CALL_DEPTH {
                        lemma_mstep_call(m, fi, cur, t, k, vals, s1.heap, (d + 1) as u32);
                    }
                }
            }
        },
        _ => {},
    }
}

/// Argument lists that give values give the same once a block is merged.
pub proof fn lemma_mstep_args(m: ModuleModel, fi: int, cur: int, t: int, args: Seq<Inst>, s: Machine, d: u32)
    requires
        merge_step(m, fi, cur, t),
    ensures
        eval_args(m, args, s, d) is Ok ==> eval_args(merge_in(m, fi, cur, t), args, s, d) == eval_args(
            m,
            args,
            s,
            d,
        ),
    decreases depth_budget(d), 0nat, 0nat, list_size(args),
{
    if args.len() > 0 {
        lemma_mstep_eval(m, fi, cur, t, args[0], s, d);
        if let Ok((v, s1)) = eval(m, args[0], s, d) {
            lemma_mstep_args(m, fi, cur, t, args.drop_first(), s1, d);
        }
    }
}

/// A call that gives a value gives the same once a block is merged.
pub proof fn lemma_mstep_call(
    m: ModuleModel,
    fi: int,
    cur: int,
    t: int,
    k: int,
    args: Seq<i64>,
    heap: Seq<i64>,
    d: u32,
)
    requires
        merge_step(m, fi, cur, t),
        0 <= k < m.functions.len(),
    ensures
        call(m, m.functions[k], args, heap, d) is Ok ==> call(
            merge_in(m, fi, cur, t),
            merge_in(m, fi, cur, t).functions[k],
            args,
            heap,
            d,
        ) == call(m, m.functions[k], args, heap, d),
    decreases depth_budget(d), (MAX_INSTRUCTIONS + 2) as nat, 0nat, 0nat,
{
    let f = m.functions[k];
    if d <= MAX_CALL_DEPTH && f.blocks.len() > 0 {
        let s0 = Machine { env: bind(f.params, args), heap };
        if k == fi {
            let bs = f.blocks;
            lemma_merge_facts(bs, cur, t);
            lemma_merged_layout(bs, cur, t);
            lemma_distinct_found(bs, 0);
            assert(merge_at(bs, cur, t)[0].name == bs[0].name);
            lemma_mstep_run_merged(m, fi, cur, t, bs[0].name, 0, 0, bs[0].name, 0, 0, s0, d);
        } else {
            lemma_mstep_run_same(m, fi, cur, t, k, f.blocks[0].name, 0, 0, s0, d);
        }
    }
}

/// In a function other than the merged one, running that gives a value gives the same once
/// a block is merged.
pub proof fn lemma_mstep_run_same(
    m: ModuleModel,
    fi: int,
    cur: int,
    t: int,
    k: int,
    name: Seq<char>,
    j: nat,
    start: nat,
    s: Machine,
    d: u32,
)
    requires
        merge_step(m, fi, cur, t),
        0 <= k < m.functions.len(),
        k != fi,
    ensures
        run(m, m.functions[k], name, j, start, s, d) is Ok ==> run(
            merge_in(m, fi, cur, t),
            m.functions[k],
            name,
            j,
            start,
            s,
            d,
        ) == run(m, m.functions[k], name, j, start, s, d),
    decreases depth_budget(d), step_budget(start), 2nat, block_rest(m.functions[k], name, j),
{
    let f = m.functions[k];
    lemma_find_last_block(f.blocks, name);
    if start <= MAX_INSTRUCTIONS {
        if let Some(bi) = find_last_block(f.blocks, name) {
            let b = f.blocks[bi];
            if j < b.insts.len() {
                let inst = b.insts[j as int];
                lemma_mstep_eval(m, fi, cur, t, inst, s, d);
                if let Ok((v, s1)) = eval(m, inst, s, d) {
                    if is_terminator_model(inst) {
                        if !(inst is Return) {
                            lemma_mstep_leave_same(m, fi, cur, t, k, bi, start, j + 1, s1, d);
                        }
                    } else {
                        lemma_mstep_run_same(m, fi, cur, t, k, name, j + 1, start, s1, d);
                    }
                }
            } else {
                lemma_mstep_leave_same(m, fi, cur, t, k, bi, start, j, s, d);
            }
        }
    }
}

/// In a function other than the merged one, leaving a block gives the same once a block is
/// merged, when it gives a value.
pub proof fn lemma_mstep_leave_same(
    m: ModuleModel,
    fi: int,
    cur: int,
    t: int,
    k: int,
    bi: int,
    start: nat,
    executed: nat,
    s: Machine,
    d: u32,
)
    requires
        merge_step(m, fi, cur, t),
        0 <= k < m.functions.len(),
        k != fi,
        0 <= bi < m.functions[k].blocks.len(),
    ensures
        leave(m, m.functions[k], m.functions[k].blocks[bi], start, executed, s, d) is Ok ==> leave(
            merge_in(m, fi, cur, t),
            m.functions[k],
            m.functions[k].blocks[bi],
            start,
            executed,
            s,
            d,
        ) == leave(m, m.functions[k], m.functions[k].blocks[bi], start, executed, s, d),
    decreases depth_budget(d), step_budget(start), 1nat, 0nat,
{
    let f = m.functions[k];
    let b = f.blocks[bi];
    if start <= MAX_INSTRUCTIONS && b.insts.len() > 0 && executed > 0 {
        match b.insts.last() {
            Inst::Branch { condition, then_label, else_label } => {
                lemma_mstep_eval(m, fi, cur, t, *condition, s, d);
                if let Ok((c, s1)) = eval(m, *condition, s, d) {
                    lemma_mstep_run_same(
                        m,
                        fi,
                        cur,
                        t,
                        k,
                        if c != 0 { then_label } else { else_label },
                        0,
                        start + executed,
                        s1,
                        d,
                    );
                }
            },
            Inst::Jump { label } => {
                lemma_mstep_run_same(m, fi, cur, t, k, label, 0, start + executed, s, d);
            },
            _ => {},
        }
    }
}

/// In the merged function, running that gives a value gives the same once the block is
/// merged, from the matching position.
pub proof fn lemma_mstep_run_merged(
    m: ModuleModel,
    fi: int,
    cur: int,
    t: int,
    name: Seq<char>,
    j: nat,
    start: nat,
    name2: Seq<char>,
    j2: nat,
    start2: nat,
    s: Machine,
    d: u32,
)
    requires
        merge_step(m, fi, cur, t),
        merged_position(m.functions[fi].blocks, cur, t, name, j, start, name2, j2, start2),
    ensures
        run(m, m.functions[fi], name, j, start, s, d) is Ok ==> run(
            merge_in(m, fi, cur, t),
            merge_in(m, fi, cur, t).functions[fi],
            name2,
            j2,
            start2,
            s,
            d,
        ) == run(m, m.functions[fi], name, j, start, s, d),
    decreases depth_budget(d), step_budget(start), 2nat, block_rest(m.functions[fi], name, j),
{
    let m2 = merge_in(m, fi, cur, t);
    let f = m.functions[fi];
    let bs = f.blocks;
    assert(m2.functions[fi].blocks == merge_at(bs, cur, t));
    lemma_merge_facts(bs, cur, t);
    lemma_merged_layout(bs, cur, t);
    lemma_find_last_block(bs, name);
    let len_c = bs[cur].insts.len();
    if start <= MAX_INSTRUCTIONS {
        if let Some(bi) = find_last_block(bs, name) {
            let b = bs[bi];
            if bi == t {
                lemma_merged_found(bs, cur, t, cur);
                let mb = merged_block(bs, cur, t);
                if j < b.insts.len() {
                    let inst = b.insts[j as int];
                    assert(mb.insts[j2 as int] == inst);
                    lemma_mstep_eval(m, fi, cur, t, inst, s, d);
                    if let Ok((v, s1)) = eval(m, inst, s, d) {
                        if is_terminator_model(inst) {
                            if !(inst is Return) {
                                lemma_mstep_leave_merged(m, fi, cur, t, t, start, j + 1, start2, j2 + 1, s1, d);
                            }
                        } else {
                            lemma_mstep_run_merged(m, fi, cur, t, name, j + 1, start, name2, j2 + 1, start2, s1, d);
                        }
                    }
                } else {
                    lemma_mstep_leave_merged(m, fi, cur, t, t, start, j, start2, j2, s, d);
                }
            } else if bi == cur {
                lemma_merged_found(bs, cur, t, cur);
                let mb = merged_block(bs, cur, t);
                let inst = b.insts[j as int];
                if j < len_c - 1 {
                    assert(mb.insts[j as int] == inst);
                    assert(!is_terminator_model(inst)) by {
                        assert(ends_only(bs[cur]));
                    }
                    lemma_mstep_eval(m, fi, cur, t, inst, s, d);
                    if let Ok((v, s1)) = eval(m, inst, s, d) {
                        lemma_mstep_run_merged(m, fi, cur, t, name, j + 1, start, name2, j2 + 1, start2, s1, d);
                    }
                } else {
                    lemma_distinct_found(bs, t);
                    assert(inst == (Inst::Jump { label: bs[t].name }));
                    assert(eval(m, inst, s, d) == Ok::<(i64, Machine), crate::interpreter::Fault>((0i64, s)));
                    assert(leave(m, f, b, start, (j + 1) as nat, s, d) == run(
                        m,
                        f,
                        bs[t].name,
                        0,
                        start + len_c,
                        s,
                        d,
                    ));
                    assert(run(m, f, name, j, start, s, d) == leave(m, f, b, start, (j + 1) as nat, s, d));
                    lemma_mstep_run_merged(m, fi, cur, t, bs[t].name, 0, start + len_c, name2, j2, start2, s, d);
                }
            } else {
                lemma_merged_found(bs, cur, t, bi);
                if j < b.insts.len() {
                    let inst = b.insts[j as int];
                    lemma_mstep_eval(m, fi, cur, t, inst, s, d);
                    if let Ok((v, s1)) = eval(m, inst, s, d) {
                        if is_terminator_model(inst) {
                            if !(inst is Return) {
                                lemma_mstep_leave_merged(m, fi, cur, t, bi, start, j + 1, start2, j + 1, s1, d);
                            }
                        } else {
                            lemma_mstep_run_merged(m, fi, cur, t, name, j + 1, start, name, j + 1, start2, s1, d);
                        }
                    }
                } else {
                    lemma_mstep_leave_merged(m, fi, cur, t, bi, start, j, start2, j, s, d);
                }
            }
        }
    }
}

/// In the merged function, leaving a block other than the merging one gives the same once
/// the block is merged, when it gives a value; the target is left as the merged block.
pub proof fn lemma_mstep_leave_merged(
    m: ModuleModel,
    fi: int,
    cur: int,
    t: int,
    bi: int,
    start: nat,
    executed: nat,
    start2: nat,
    executed2: nat,
    s: Machine,
    d: u32,
)
    requires
        merge_step(m, fi, cur, t),
        0 <= bi < m.functions[fi].blocks.len(),
        bi != cur,
        start2 <= start,
        start2 + executed2 <= start + executed,
        executed > 0 && m.functions[fi].blocks[bi].insts.len() > 0 ==> executed2 > 0,
    ensures
        leave(m, m.functions[fi], m.functions[fi].blocks[bi], start, executed, s, d) is Ok ==> leave(
            merge_in(m, fi, cur, t),
            merge_in(m, fi, cur, t).functions[fi],
            if bi == t {
                merged_block(m.functions[fi].blocks, cur, t)
            } else {
                m.functions[fi].blocks[bi]
            },
            start2,
            executed2,
            s,
            d,
        ) == leave(m, m.functions[fi], m.functions[fi].blocks[bi], start, executed, s, d),
    decreases depth_budget(d), step_budget(start), 1nat, 0nat,
{
    let f = m.functions[fi];
    let bs = f.blocks;
    let b = bs[bi];
    let b2 = if bi == t {
        merged_block(bs, cur, t)
    } else {
        b
    };
    lemma_merge_facts(bs, cur, t);
    if start <= MAX_INSTRUCTIONS && b.insts.len() > 0 && executed > 0 {
        let last = b.insts.len() - 1;
        assert(b2.insts.len() > 0 && b2.insts.last() == b.insts.last());
        assert(refers_to(bs[bi].insts[last], bs[t].name) == 0);
        assert(b.insts.last() == bs[bi].insts[last]);
        match b.insts.last() {
            Inst::Branch { condition, then_label, else_label } => {
                lemma_mstep_eval(m, fi, cur, t, *condition, s, d);
                if let Ok((c, s1)) = eval(m, *condition, s, d) {
                    let target = if c != 0 { then_label } else { else_label };
                    lemma_find_last_block(bs, target);
                    lemma_mstep_run_merged(
                        m,
                        fi,
                        cur,
                        t,
                        target,
                        0,
                        start + executed,
                        target,
                        0,
                        start2 + executed2,
                        s1,
                        d,
                    );
                }
            },
            Inst::Jump { label } => {
                lemma_find_last_block(bs, label);
                lemma_mstep_run_merged(m, fi, cur, t, label, 0, start + executed, label, 0, start2 + executed2, s, d);
            },
            _ => {},
        }
    }
}

/// A list none of whose instructions transfers control to `label` has no reference to it.
pub proof fn lemma_no_refs_insts(s: Seq<Inst>, label: Seq<char>)
    requires
        forall|j: int| 0 <= j < s.len() ==> refers_to(#[trigger] s[j], label) == 0,
    ensures
        insts_refs(s, label) == 0,
    decreases s.len(),
{
    if s.len() > 0 {
        assert forall|j: int| 0 <= j < s.drop_last().len() implies refers_to(#[trigger] s.drop_last()[j], label) == 0 by {
            assert(s.drop_last()[j] == s[j]);
        }
        lemma_no_refs_insts(s.drop_last(), label);
        assert(refers_to(s[s.len() - 1], label) == 0);
    }
}

/// Blocks none of whose instructions transfers control to `label` have no predecessor count
/// for it.
pub proof fn lemma_no_refs_blocks(bs: Seq<BlockModel>, label: Seq<char>)
    requires
        forall|x: int, j: int| 0 <= x < bs.len() && 0 <= j < bs[x].insts.len() ==> refers_to(
            #[trigger] bs[x].insts[j],
            label,
        ) == 0,
    ensures
        predecessor_count(bs, label) == 0,
    decreases bs.len(),
{
    if bs.len() > 0 {
        let n = bs.len() - 1;
        assert forall|x: int, j: int| 0 <= x < bs.drop_last().len() && 0 <= j < bs.drop_last()[x].insts.len()
            implies refers_to(#[trigger] bs.drop_last()[x].insts[j], label) == 0 by {
            assert(bs.drop_last()[x] == bs[x]);
        }
        lemma_no_refs_blocks(bs.drop_last(), label);
        assert forall|j: int| 0 <= j < bs[n].insts.len() implies refers_to(#[trigger] bs[n].insts[j], label) == 0 by {}
        lemma_no_refs_insts(bs[n].insts, label);
    }
}

/// A merge keeps the blocks mergeable.
pub proof fn lemma_merged_mergeable(bs: Seq<BlockModel>, cur: int, t: int)
    requires
        mergeable_blocks(bs),
        0 <= cur < bs.len(),
        merge_target(bs, cur) == Some(t),
    ensures
        mergeable_blocks(merge_at(bs, cur, t)),
{
    lemma_merge_facts(bs, cur, t);
    lemma_merged_layout(bs, cur, t);
    lemma_merged_distinct(bs, cur, t);
    let ms = merge_at(bs, cur, t);
    let mb = merged_block(bs, cur, t);
    let len_c = bs[cur].insts.len();
    assert forall|i: int| 0 <= i < ms.len() implies ends_only(#[trigger] ms[i]) by {
        let ii = if i < t { i } else { i + 1 };
        if ii == cur {
            assert(ms[i] == mb);
            assert forall|j: int| 0 <= j < mb.insts.len() - 1 implies !is_terminator_model(#[trigger] mb.insts[j]) by {
                if j < len_c - 1 {
                    assert(mb.insts[j] == bs[cur].insts[j]);
                    assert(ends_only(bs[cur]));
                } else {
                    assert(mb.insts[j] == bs[t].insts[j - (len_c - 1)]);
                    assert(ends_only(bs[t]));
                }
            }
        } else {
            assert(ms[i] == bs[ii]);
            assert(ends_only(bs[ii]));
        }
    }
    let entry = bs[0].name;
    assert(ms[0].name == entry);
    assert forall|x: int, j: int| 0 <= x < bs.len() && 0 <= j < bs[x].insts.len() implies refers_to(
        #[trigger] bs[x].insts[j],
        entry,
    ) == 0 by {
        lemma_insts_refs_at(bs[x].insts, entry, j);
        lemma_refs_two_blocks(bs, entry, x, x);
    }
    assert forall|x: int, j: int| 0 <= x < ms.len() && 0 <= j < ms[x].insts.len() implies refers_to(
        #[trigger] ms[x].insts[j],
        entry,
    ) == 0 by {
        let xx = if x < t { x } else { x + 1 };
        if xx == cur {
            assert(ms[x] == mb);
            if j < len_c - 1 {
                assert(mb.insts[j] == bs[cur].insts[j]);
            } else {
                assert(mb.insts[j] == bs[t].insts[j - (len_c - 1)]);
            }
        } else {
            assert(ms[x] == bs[xx]);
        }
    }
    lemma_no_refs_blocks(ms, entry);
}

/// Merging the blocks of one function from block `cur` on keeps them mergeable, and keeps
/// what every function of the module gives: a function that gives a value on some arguments
/// gives the same one after.
pub proof fn lemma_merge_from_keeps(m: ModuleModel, fi: int, cur: int, k: int, args: Seq<i64>)
    requires
        0 <= fi < m.functions.len(),
        mergeable_blocks(m.functions[fi].blocks),
        0 <= k < m.functions.len(),
    ensures
        mergeable_blocks(merge_from(m.functions[fi].blocks, cur).0),
        execute(m, m.functions[k], args) is Ok ==> execute(
            with_blocks(m, fi, merge_from(m.functions[fi].blocks, cur).0),
            with_blocks(m, fi, merge_from(m.functions[fi].blocks, cur).0).functions[k],
            args,
        ) == execute(m, m.functions[k], args),
    decreases m.functions[fi].blocks.len() - cur,
{
    let bs = m.functions[fi].blocks;
    if cur < 0 || cur >= bs.len() {
        assert(with_blocks(m, fi, bs) == m) by {
            assert(with_blocks(m, fi, bs).functions =~= m.functions);
        }
    } else {
        match merge_target(bs, cur) {
            Some(t) => {
                lemma_merge_facts(bs, cur, t);
                let m1 = merge_in(m, fi, cur, t);
                let ms = merge_at(bs, cur, t);
                lemma_mstep_call(m, fi, cur, t, k, args, Seq::empty(), 0);
                lemma_merged_mergeable(bs, cur, t);
                assert(m1.functions[fi].blocks == ms);
                lemma_merge_from_keeps(m1, fi, cur, k, args);
                let fin = merge_from(ms, cur).0;
                assert(with_blocks(m1, fi, fin) == with_blocks(m, fi, fin)) by {
                    assert(with_blocks(m1, fi, fin).functions =~= with_blocks(m, fi, fin).functions);
                }
            },
            None => {
                lemma_merge_from_keeps(m, fi, cur + 1, k, args);
            },
        }
    }
}

/// Every function's blocks merge safely.
pub open spec fn mergeable_module(m: ModuleModel) -> bool {
    forall|i: int| 0 <= i < m.functions.len() ==> mergeable_blocks(#[trigger] m.functions[i].blocks)
}

/// The module with its first `n` functions swept once.
pub open spec fn swept_prefix(m: ModuleModel, n: int) -> ModuleModel {
    ModuleModel {
        name: m.name,
        functions: Seq::new(
            m.functions.len(),
            |i: int|
                if i < n {
                    merge_function_map()(m.functions[i])
                } else {
                    m.functions[i]
                },
        ),
    }
}

/// Sweeping the first `n` functions keeps every function mergeable, and keeps what every
/// function gives.
pub proof fn lemma_sweep_prefix(m: ModuleModel, n: int, k: int, args: Seq<i64>)
    requires
        mergeable_module(m),
        0 <= n <= m.functions.len(),
        0 <= k < m.functions.len(),
    ensures
        mergeable_module(swept_prefix(m, n)),
        execute(m, m.functions[k], args) is Ok ==> execute(
            swept_prefix(m, n),
            swept_prefix(m, n).functions[k],
            args,
        ) == execute(m, m.functions[k], args),
    decreases n,
{
    if n == 0 {
        assert(swept_prefix(m, 0) == m) by {
            assert(swept_prefix(m, 0).functions =~= m.functions);
        }
    } else {
        lemma_sweep_prefix(m, n - 1, k, args);
        let p = swept_prefix(m, n - 1);
        let q = swept_prefix(m, n);
        let fi = n - 1;
        assert(p.functions[fi] == m.functions[fi]);
        lemma_merge_from_keeps(p, fi, 0, k, args);
        assert(with_blocks(p, fi, merge_from(p.functions[fi].blocks, 0).0) == q) by {
            assert(with_blocks(p, fi, merge_from(p.functions[fi].blocks, 0).0).functions =~= q.functions);
        }
        assert forall|i: int| 0 <= i < q.functions.len() implies mergeable_blocks(#[trigger] q.functions[i].blocks) by {
            if i != fi {
                assert(q.functions[i] == p.functions[i]);
            }
        }
    }
}

/// Block merging keeps what every function gives: in a module whose functions have distinct
/// block names, terminators only at the ends of blocks and no transfer of control to their
/// entry block, a function that gives a value on some arguments gives the same one after any
/// number of sweeps.
pub proof fn law_merging_keeps_results(m: ModuleModel, n: int, k: int, args: Seq<i64>)
    requires
        mergeable_module(m),
        0 <= k < m.functions.len(),
    ensures
        merge_rounds(m, n).0.functions.len() == m.functions.len(),
        execute(m, m.functions[k], args) is Ok ==> execute(
            merge_rounds(m, n).0,
            merge_rounds(m, n).0.functions[k],
            args,
        ) == execute(m, m.functions[k], args),
    decreases n,
{
    if n > 0 {
        let m1 = map_functions(m, merge_function_map());
        lemma_sweep_prefix(m, m.functions.len() as int, k, args);
        assert(swept_prefix(m, m.functions.len() as int) == m1) by {
            assert(swept_prefix(m, m.functions.len() as int).functions =~= m1.functions);
        }
        if any_function(m, merge_function_changes()) {
            law_merging_keeps_results(m1, n - 1, k, args);
        }
    }
}

} // verus!
