use vstd::prelude::*;
use vstd::hash_set::StringHashSet;
use crate::interpreter::{inst_size, lemma_list_size_elem, list_size};
use crate::ir::basic_block::{BasicBlock, BlockModel, inst_models};
use crate::ir::function::{Function, FunctionModel};
use crate::ir::module::{Module, ModuleModel, block_sizes, function_sizes, instruction_total};
use crate::ir::value::{Inst, Instruction, arg_models, lemma_arg_models};
use crate::passes::{
    Pass, PassDescriptor, PassError, PassSafety, any_block, params_by_name, any_function, lemma_sum_le, map_blocks,
    map_functions, rewrite_blocks, rewrite_functions,
};

verus! {

broadcast use vstd::std_specs::vec::group_vec_axioms;

/// Names an instruction tree reads: its variables (the target of a store is not read).
pub open spec fn used_vars(i: Inst) -> Set<Seq<char>>
    decreases i,
{
    match i {
        Inst::Variable { name } => set![name],
        Inst::BinaryOp { lhs, rhs, .. } => used_vars(*lhs) + used_vars(*rhs),
        Inst::Compare { lhs, rhs, .. } => used_vars(*lhs) + used_vars(*rhs),
        Inst::Store { value, .. } => used_vars(*value),
        Inst::Branch { condition, .. } => used_vars(*condition),
        Inst::Return { value } => match value {
            Some(v) => used_vars(*v),
            None => Set::empty(),
        },
        Inst::Call { args, .. } => used_list(args),
        Inst::GetElementPtr { base, index } => used_vars(*base) + used_vars(*index),
        Inst::LoadPtr { ptr } => used_vars(*ptr),
        Inst::StorePtr { ptr, value } => used_vars(*ptr) + used_vars(*value),
        _ => Set::empty(),
    }
}

/// Names a list of instruction trees reads.
pub open spec fn used_list(s: Seq<Inst>) -> Set<Seq<char>>
    decreases s,
{
    if s.len() == 0 {
        Set::empty()
    } else {
        used_vars(s[0]) + used_list(s.drop_first())
    }
}

/// Names read by the first `j` items of a sequence, `f` giving the names each item reads.
pub open spec fn union_prefix<A>(s: Seq<A>, f: spec_fn(A) -> Set<Seq<char>>, j: int) -> Set<Seq<char>> {
    Set::new(|v: Seq<char>| exists|k: int| 0 <= k < j && #[trigger] f(s[k]).contains(v))
}

/// The names each instruction tree reads.
pub open spec fn inst_reads() -> spec_fn(Inst) -> Set<Seq<char>> {
    |i: Inst| used_vars(i)
}

/// Names read anywhere in a block.
pub open spec fn block_used(b: BlockModel) -> Set<Seq<char>> {
    union_prefix(b.insts, inst_reads(), b.insts.len() as int)
}

/// The names each block reads.
pub open spec fn block_reads() -> spec_fn(BlockModel) -> Set<Seq<char>> {
    |b: BlockModel| block_used(b)
}

/// Names read anywhere in a function.
pub open spec fn function_used(f: FunctionModel) -> Set<Seq<char>> {
    union_prefix(f.blocks, block_reads(), f.blocks.len() as int)
}

/// The names each function reads.
pub open spec fn function_reads() -> spec_fn(FunctionModel) -> Set<Seq<char>> {
    |f: FunctionModel| function_used(f)
}

/// Names read anywhere in a module.
pub open spec fn module_used(m: ModuleModel) -> Set<Seq<char>> {
    union_prefix(m.functions, function_reads(), m.functions.len() as int)
}

/// One more item adds the names it reads.
pub proof fn lemma_union_prefix_step<A>(s: Seq<A>, f: spec_fn(A) -> Set<Seq<char>>, j: int)
    requires
        0 <= j < s.len(),
    ensures
        union_prefix(s, f, j + 1) == union_prefix(s, f, j) + f(s[j]),
        union_prefix(s, f, 0) == Set::<Seq<char>>::empty(),
{
    assert forall|v: Seq<char>| #[trigger] union_prefix(s, f, j + 1).contains(v) implies (union_prefix(s, f, j)
        + f(s[j])).contains(v) by {
        let k = choose|k: int| 0 <= k < j + 1 && #[trigger] f(s[k]).contains(v);
        if k < j {
            assert(union_prefix(s, f, j).contains(v));
        }
    }
    assert forall|v: Seq<char>| #[trigger] (union_prefix(s, f, j) + f(s[j])).contains(v) implies union_prefix(
        s,
        f,
        j + 1,
    ).contains(v) by {
        if union_prefix(s, f, j).contains(v) {
            let k = choose|k: int| 0 <= k < j && #[trigger] f(s[k]).contains(v);
            assert(f(s[k]).contains(v));
        } else {
            assert(f(s[j]).contains(v));
        }
    }
    assert(union_prefix(s, f, j + 1) =~= union_prefix(s, f, j) + f(s[j]));
    assert(union_prefix(s, f, 0) =~= Set::<Seq<char>>::empty());
}

/// Whether an instruction survives: everything but a store to a name nobody reads.
pub open spec fn survives(i: Inst, used: Set<Seq<char>>) -> bool {
    match i {
        Inst::Store { var_name, .. } => used.contains(var_name),
        _ => true,
    }
}

/// The instructions of a list that survive, in order.
pub open spec fn survivors(s: Seq<Inst>, used: Set<Seq<char>>) -> Seq<Inst>
    decreases s.len(),
{
    if s.len() == 0 {
        s
    } else {
        let r = survivors(s.drop_last(), used);
        if survives(s.last(), used) {
            r.push(s.last())
        } else {
            r
        }
    }
}

/// A block without its dead stores; its last instruction always stays.
pub open spec fn prune_block(b: BlockModel, used: Set<Seq<char>>) -> BlockModel {
    if b.insts.len() == 0 {
        b
    } else {
        BlockModel { name: b.name, insts: survivors(b.insts.drop_last(), used).push(b.insts.last()) }
    }
}

/// Pruning with `used` for every block.
pub open spec fn prune_map(used: Set<Seq<char>>) -> spec_fn(BlockModel) -> BlockModel {
    |b: BlockModel| prune_block(b, used)
}

/// Whether pruning with `used` removes something from a block.
pub open spec fn prune_changes(used: Set<Seq<char>>) -> spec_fn(BlockModel) -> bool {
    |b: BlockModel| prune_block(b, used).insts.len() < b.insts.len()
}

/// Pruning with `used` for every block of a function.
pub open spec fn prune_fn_map(used: Set<Seq<char>>) -> spec_fn(FunctionModel) -> FunctionModel {
    |f: FunctionModel| map_blocks(f, prune_map(used))
}

/// Whether pruning with `used` removes something from a function.
pub open spec fn prune_fn_changes(used: Set<Seq<char>>) -> spec_fn(FunctionModel) -> bool {
    |f: FunctionModel| any_block(f, prune_changes(used))
}

/// One round: every block pruned with the names the whole module reads; whether anything went.
pub open spec fn prune_round(m: ModuleModel) -> (ModuleModel, bool) {
    let used = module_used(m);
    (map_functions(m, prune_fn_map(used)), any_function(m, prune_fn_changes(used)))
}

/// The survivors of a list are no more than the list.
pub proof fn lemma_survivors_len(s: Seq<Inst>, used: Set<Seq<char>>)
    ensures
        survivors(s, used).len() <= s.len(),
    decreases s.len(),
{
    if s.len() > 0 {
        lemma_survivors_len(s.drop_last(), used);
    }
}

/// A round never adds instructions, and removes one when it reports a change.
pub proof fn lemma_prune_round_shrinks(m: ModuleModel)
    ensures
        instruction_total(prune_round(m).0) <= instruction_total(m),
        prune_round(m).1 ==> instruction_total(prune_round(m).0) < instruction_total(m),
{
    let used = module_used(m);
    let m2 = prune_round(m).0;
    assert forall|i: int| 0 <= i < m.functions.len() implies #[trigger] function_sizes(m2.functions)[i]
        <= function_sizes(m.functions)[i] && (any_block(m.functions[i], prune_changes(used))
        ==> function_sizes(m2.functions)[i] < function_sizes(m.functions)[i]) by {
        let f = m.functions[i];
        let f2 = m2.functions[i];
        assert(f2 == map_blocks(f, prune_map(used)));
        assert forall|j: int| 0 <= j < f.blocks.len() implies #[trigger] block_sizes(f2.blocks)[j]
            <= block_sizes(f.blocks)[j] by {
            if f.blocks[j].insts.len() > 0 {
                lemma_survivors_len(f.blocks[j].insts.drop_last(), used);
            }
        }
        lemma_sum_le(block_sizes(f2.blocks), block_sizes(f.blocks));
        if any_block(f, prune_changes(used)) {
            let j = choose|j: int| 0 <= j < f.blocks.len() && #[trigger] prune_changes(used)(f.blocks[j]);
            assert(block_sizes(f2.blocks)[j] < block_sizes(f.blocks)[j]);
        }
    }
    lemma_sum_le(function_sizes(m2.functions), function_sizes(m.functions));
    if prune_round(m).1 {
        let i = choose|i: int| 0 <= i < m.functions.len() && #[trigger] prune_fn_changes(used)(m.functions[i]);
        assert(function_sizes(m2.functions)[i] < function_sizes(m.functions)[i]);
    }
}

/// A list none of whose instructions go is its own survivors.
pub proof fn lemma_survivors_same(s: Seq<Inst>, used: Set<Seq<char>>)
    ensures
        survivors(s, used).len() == s.len() ==> survivors(s, used) == s,
    decreases s.len(),
{
    if s.len() > 0 {
        lemma_survivors_len(s.drop_last(), used);
        lemma_survivors_same(s.drop_last(), used);
        assert(s.drop_last().push(s.last()) =~= s);
    }
}

/// A round that reports no change leaves the module as it was.
pub proof fn lemma_prune_round_unchanged(m: ModuleModel)
    ensures
        !prune_round(m).1 ==> prune_round(m).0 == m,
{
    let used = module_used(m);
    let m2 = prune_round(m).0;
    if !prune_round(m).1 {
        assert forall|i: int| 0 <= i < m.functions.len() implies #[trigger] m2.functions[i]
            == m.functions[i] by {
            let f = m.functions[i];
            assert(!prune_fn_changes(used)(f));
            let f2 = m2.functions[i];
            assert forall|j: int| 0 <= j < f.blocks.len() implies #[trigger] f2.blocks[j]
                == f.blocks[j] by {
                let b = f.blocks[j];
                assert(!prune_changes(used)(b));
                assert(f2 == map_blocks(f, prune_map(used)));
                assert(f2.blocks[j] == prune_block(b, used));
                if b.insts.len() > 0 {
                    lemma_survivors_len(b.insts.drop_last(), used);
                    lemma_survivors_same(b.insts.drop_last(), used);
                    assert(survivors(b.insts.drop_last(), used) == b.insts.drop_last());
                    assert(b.insts.drop_last().push(b.insts.last()) =~= b.insts);
                }
            }
            assert(f2.blocks =~= f.blocks);
        }
        assert(m2.functions =~= m.functions);
    }
}

/// Every block keeps its name and its last instruction through a round, and no block or
/// function comes or goes.
pub open spec fn same_frame(a: ModuleModel, b: ModuleModel) -> bool {
    &&& a.name == b.name
    &&& a.functions.len() == b.functions.len()
    &&& forall|i: int| #![trigger b.functions[i]] 0 <= i < a.functions.len() ==> {
        &&& b.functions[i].name == a.functions[i].name
        &&& b.functions[i].params == a.functions[i].params
        &&& b.functions[i].blocks.len() == a.functions[i].blocks.len()
        &&& forall|j: int| #![trigger b.functions[i].blocks[j]] 0 <= j < a.functions[i].blocks.len() ==> {
            &&& b.functions[i].blocks[j].name == a.functions[i].blocks[j].name
            &&& b.functions[i].blocks[j].insts.len() > 0 <==> a.functions[i].blocks[j].insts.len() > 0
            &&& a.functions[i].blocks[j].insts.len() > 0 ==> b.functions[i].blocks[j].insts.last()
                == a.functions[i].blocks[j].insts.last()
        }
    }
}

/// A round keeps the frame.
pub proof fn lemma_prune_round_frame(m: ModuleModel)
    ensures
        same_frame(m, prune_round(m).0),
{
}

/// Keeping the frame is transitive.
pub proof fn lemma_frame_trans(a: ModuleModel, b: ModuleModel, c: ModuleModel)
    requires
        same_frame(a, b),
        same_frame(b, c),
    ensures
        same_frame(a, c),
{
    assert forall|i: int| #![trigger c.functions[i]] 0 <= i < a.functions.len() implies {
        &&& forall|j: int| #![trigger c.functions[i].blocks[j]] 0 <= j < a.functions[i].blocks.len()
            ==> {
            &&& c.functions[i].blocks[j].name == a.functions[i].blocks[j].name
            &&& c.functions[i].blocks[j].insts.len() > 0 <==> a.functions[i].blocks[j].insts.len() > 0
            &&& a.functions[i].blocks[j].insts.len() > 0 ==> c.functions[i].blocks[j].insts.last()
                == a.functions[i].blocks[j].insts.last()
        }
    } by {
        assert(b.functions[i] == b.functions[i]);
        assert forall|j: int| #![trigger c.functions[i].blocks[j]] 0 <= j
            < a.functions[i].blocks.len() implies {
            &&& c.functions[i].blocks[j].name == a.functions[i].blocks[j].name
            &&& c.functions[i].blocks[j].insts.len() > 0 <==> a.functions[i].blocks[j].insts.len() > 0
            &&& a.functions[i].blocks[j].insts.len() > 0 ==> c.functions[i].blocks[j].insts.last()
                == a.functions[i].blocks[j].insts.last()
        } by {
            assert(b.functions[i].blocks[j] == b.functions[i].blocks[j]);
        }
    }
}

/// Rounds of pruning until one removes nothing; whether the first removed anything.
pub open spec fn prune_fixpoint(m: ModuleModel) -> (ModuleModel, bool)
    decreases instruction_total(m),
{
    let (m1, c) = prune_round(m);
    if !c {
        (m1, false)
    } else {
        proof {
            lemma_prune_round_shrinks(m);
        }
        (prune_fixpoint(m1).0, true)
    }
}

/// Dead-code elimination reaches a fixpoint: running it again on its own result removes
/// nothing and reports no change.
pub proof fn law_dce_idempotent(m: ModuleModel)
    ensures
        prune_fixpoint(prune_fixpoint(m).0) == (prune_fixpoint(m).0, false),
    decreases instruction_total(m),
{
    let (m1, c) = prune_round(m);
    lemma_prune_round_shrinks(m);
    lemma_prune_round_unchanged(m);
    if c {
        law_dce_idempotent(m1);
    }
}

/// Dead-code elimination never adds instructions, and removes at least one when it reports
/// a change.
pub proof fn law_dce_never_grows(m: ModuleModel)
    ensures
        instruction_total(prune_fixpoint(m).0) <= instruction_total(m),
        prune_fixpoint(m).1 ==> instruction_total(prune_fixpoint(m).0) < instruction_total(m),
    decreases instruction_total(m),
{
    let (m1, c) = prune_round(m);
    lemma_prune_round_shrinks(m);
    if c {
        law_dce_never_grows(m1);
    }
}

/// Dead-code elimination keeps every function and block, each block's name and its last
/// instruction: only stores before the end of a block go.
pub proof fn law_dce_keeps_blocks_and_terminators(m: ModuleModel)
    ensures
        same_frame(m, prune_fixpoint(m).0),
    decreases instruction_total(m),
{
    let (m1, c) = prune_round(m);
    lemma_prune_round_shrinks(m);
    lemma_prune_round_frame(m);
    if c {
        law_dce_keeps_blocks_and_terminators(m1);
        lemma_frame_trans(m, m1, prune_fixpoint(m1).0);
    }
}


/// Dead-code elimination reports a change exactly when it changed the module.
pub proof fn law_dce_flag_honest(m: ModuleModel)
    ensures
        prune_fixpoint(m).1 == (prune_fixpoint(m).0 != m),
{
    law_dce_never_grows(m);
    lemma_prune_round_unchanged(m);
}

/// The instructions of a list that are not stores, in order.
pub open spec fn non_stores(s: Seq<Inst>) -> Seq<Inst>
    decreases s.len(),
{
    if s.len() == 0 {
        s
    } else {
        let r = non_stores(s.drop_last());
        if s.last() is Store {
            r
        } else {
            r.push(s.last())
        }
    }
}

/// `a` is `b` with some of its items left out, the rest in the order they had.
pub open spec fn kept_in_order(a: Seq<Inst>, b: Seq<Inst>) -> bool
    decreases b.len(),
{
    if b.len() == 0 {
        a.len() == 0
    } else {
        ||| kept_in_order(a, b.drop_last())
        ||| (a.len() > 0 && a.last() == b.last() && kept_in_order(a.drop_last(), b.drop_last()))
    }
}

/// `after` is `before` with some stores taken out: the rest keep their order, and every
/// instruction that is not a store is still there.
pub open spec fn only_stores_gone(before: Seq<Inst>, after: Seq<Inst>) -> bool {
    kept_in_order(after, before) && non_stores(after) == non_stores(before)
}

/// Every block of `b` is the block of `a` at the same place with some stores taken out.
pub open spec fn stores_dropped(a: ModuleModel, b: ModuleModel) -> bool {
    &&& a.functions.len() == b.functions.len()
    &&& forall|i: int| #![trigger b.functions[i]] 0 <= i < a.functions.len() ==> {
        &&& b.functions[i].blocks.len() == a.functions[i].blocks.len()
        &&& forall|j: int| #![trigger b.functions[i].blocks[j]] 0 <= j < a.functions[i].blocks.len()
            ==> only_stores_gone(a.functions[i].blocks[j].insts, b.functions[i].blocks[j].insts)
    }
}

/// Leaving items out twice is leaving items out once.
pub proof fn lemma_kept_in_order_trans(a: Seq<Inst>, b: Seq<Inst>, c: Seq<Inst>)
    requires
        kept_in_order(a, b),
        kept_in_order(b, c),
    ensures
        kept_in_order(a, c),
    decreases c.len(),
{
    if c.len() == 0 {
    } else if kept_in_order(b, c.drop_last()) {
        lemma_kept_in_order_trans(a, b, c.drop_last());
    } else {
        if kept_in_order(a, b.drop_last()) {
            lemma_kept_in_order_trans(a, b.drop_last(), c.drop_last());
        } else {
            lemma_kept_in_order_trans(a.drop_last(), b.drop_last(), c.drop_last());
        }
    }
}

/// The survivors of a list keep their order.
pub proof fn lemma_survivors_kept(s: Seq<Inst>, used: Set<Seq<char>>)
    ensures
        kept_in_order(survivors(s, used), s),
        non_stores(survivors(s, used)) == non_stores(s),
    decreases s.len(),
{
    if s.len() == 0 {
    } else {
        let r = survivors(s.drop_last(), used);
        lemma_survivors_kept(s.drop_last(), used);
        if survives(s.last(), used) {
            let a = r.push(s.last());
            assert(a.drop_last() =~= r);
            assert(a.last() == s.last());
        }
    }
}

/// Pruning a block only takes stores out.
pub proof fn lemma_prune_block_stores(b: BlockModel, used: Set<Seq<char>>)
    ensures
        only_stores_gone(b.insts, prune_block(b, used).insts),
{
    let s = b.insts;
    if s.len() > 0 {
        let r = survivors(s.drop_last(), used);
        let a = r.push(s.last());
        lemma_survivors_kept(s.drop_last(), used);
        assert(a.drop_last() =~= r);
        assert(a.last() == s.last());
    }
}

/// A round only takes stores out.
pub proof fn lemma_prune_round_stores(m: ModuleModel)
    ensures
        stores_dropped(m, prune_round(m).0),
{
    let used = module_used(m);
    let m2 = prune_round(m).0;
    assert forall|i: int| #![trigger m2.functions[i]] 0 <= i < m.functions.len() implies {
        &&& m2.functions[i].blocks.len() == m.functions[i].blocks.len()
        &&& forall|j: int| #![trigger m2.functions[i].blocks[j]] 0 <= j < m.functions[i].blocks.len()
            ==> only_stores_gone(m.functions[i].blocks[j].insts, m2.functions[i].blocks[j].insts)
    } by {
        let f = m.functions[i];
        let f2 = m2.functions[i];
        assert(f2 == map_blocks(f, prune_map(used)));
        assert forall|j: int| #![trigger f2.blocks[j]] 0 <= j < f.blocks.len() implies only_stores_gone(
            f.blocks[j].insts,
            f2.blocks[j].insts,
        ) by {
            assert(f2.blocks[j] == prune_block(f.blocks[j], used));
            lemma_prune_block_stores(f.blocks[j], used);
        }
    }
}

/// Taking stores out twice is taking stores out once.
pub proof fn lemma_stores_dropped_trans(a: ModuleModel, b: ModuleModel, c: ModuleModel)
    requires
        stores_dropped(a, b),
        stores_dropped(b, c),
    ensures
        stores_dropped(a, c),
{
    assert forall|i: int| #![trigger c.functions[i]] 0 <= i < a.functions.len() implies {
        &&& c.functions[i].blocks.len() == a.functions[i].blocks.len()
        &&& forall|j: int| #![trigger c.functions[i].blocks[j]] 0 <= j < a.functions[i].blocks.len()
            ==> only_stores_gone(a.functions[i].blocks[j].insts, c.functions[i].blocks[j].insts)
    } by {
        assert(b.functions[i] == b.functions[i]);
        assert forall|j: int| #![trigger c.functions[i].blocks[j]] 0 <= j
            < a.functions[i].blocks.len() implies only_stores_gone(
            a.functions[i].blocks[j].insts,
            c.functions[i].blocks[j].insts,
        ) by {
            assert(b.functions[i].blocks[j] == b.functions[i].blocks[j]);
            lemma_kept_in_order_trans(
                c.functions[i].blocks[j].insts,
                b.functions[i].blocks[j].insts,
                a.functions[i].blocks[j].insts,
            );
        }
    }
}

/// Dead-code elimination takes out stores and nothing else: in every block the instructions
/// that are left keep their order, and every instruction that is not a store is still there.
pub proof fn law_dce_only_removes_stores(m: ModuleModel)
    ensures
        stores_dropped(m, prune_fixpoint(m).0),
    decreases instruction_total(m),
{
    let (m1, c) = prune_round(m);
    lemma_prune_round_shrinks(m);
    lemma_prune_round_stores(m);
    if c {
        law_dce_only_removes_stores(m1);
        lemma_stores_dropped_trans(m, m1, prune_fixpoint(m1).0);
    }
}

/// A list whose survivors are all of it has only survivors.
pub proof fn lemma_survivors_full(s: Seq<Inst>, used: Set<Seq<char>>)
    ensures
        survivors(s, used).len() == s.len() ==> forall|k: int| 0 <= k < s.len() ==> #[trigger] survives(
            s[k],
            used,
        ),
    decreases s.len(),
{
    if s.len() > 0 {
        lemma_survivors_len(s.drop_last(), used);
        lemma_survivors_full(s.drop_last(), used);
        if survivors(s, used).len() == s.len() {
            assert forall|k: int| 0 <= k < s.len() implies #[trigger] survives(s[k], used) by {
                if k < s.len() - 1 {
                    assert(s[k] == s.drop_last()[k]);
                }
            }
        }
    }
}

/// Once dead-code elimination is done, every store that is not the last instruction of its
/// block writes a name that is read somewhere in the module.
pub proof fn law_dce_leaves_read_stores(m: ModuleModel)
    ensures
        ({
            let r = prune_fixpoint(m).0;
            forall|i: int, j: int, k: int|
                0 <= i < r.functions.len() && 0 <= j < r.functions[i].blocks.len() && 0 <= k
                    < r.functions[i].blocks[j].insts.len() - 1
                    ==> (#[trigger] r.functions[i].blocks[j].insts[k] matches Inst::Store { var_name, .. }
                    ==> module_used(r).contains(var_name))
        }),
{
    let r = prune_fixpoint(m).0;
    let used = module_used(r);
    law_dce_idempotent(m);
    lemma_prune_round_unchanged(r);
    assert(!prune_round(r).1);
    assert forall|i: int, j: int, k: int|
        0 <= i < r.functions.len() && 0 <= j < r.functions[i].blocks.len() && 0 <= k
            < r.functions[i].blocks[j].insts.len() - 1 implies (#[trigger] r.functions[i].blocks[j].insts[k] matches Inst::Store { var_name, .. }
            ==> used.contains(var_name)) by {
        let f = r.functions[i];
        let b = f.blocks[j];
        assert(!prune_fn_changes(used)(f));
        assert(!prune_changes(used)(b));
        let s = b.insts.drop_last();
        lemma_survivors_full(s, used);
        assert(s[k] == b.insts[k]);
        assert(survives(s[k], used));
    }
}

} // verus!

verus! {

/// Names read by the first `j` trees of a list.
pub open spec fn used_prefix(ms: Seq<Inst>, j: int) -> Set<Seq<char>> {
    Set::new(|v: Seq<char>| exists|k: int| 0 <= k < j && #[trigger] used_vars(ms[k]).contains(v))
}

/// One more tree adds the names it reads.
pub proof fn lemma_used_prefix_step(ms: Seq<Inst>, j: int)
    requires
        0 <= j < ms.len(),
    ensures
        used_prefix(ms, j + 1) == used_prefix(ms, j) + used_vars(ms[j]),
{
    assert forall|v: Seq<char>| used_prefix(ms, j + 1).contains(v) implies (used_prefix(ms, j)
        + used_vars(ms[j])).contains(v) by {
        let k = choose|k: int| 0 <= k < j + 1 && #[trigger] used_vars(ms[k]).contains(v);
        if k < j {
            assert(used_prefix(ms, j).contains(v));
        }
    }
    assert forall|v: Seq<char>| (used_prefix(ms, j) + used_vars(ms[j])).contains(v) implies used_prefix(
        ms,
        j + 1,
    ).contains(v) by {
        if used_prefix(ms, j).contains(v) {
            let k = choose|k: int| 0 <= k < j && #[trigger] used_vars(ms[k]).contains(v);
            assert(used_vars(ms[k]).contains(v));
        } else {
            assert(used_vars(ms[j]).contains(v));
        }
    }
    assert(used_prefix(ms, j + 1) =~= used_prefix(ms, j) + used_vars(ms[j]));
}

/// Names read by a list are those read by one of its trees.
pub proof fn lemma_used_list(s: Seq<Inst>)
    ensures
        used_list(s) == used_prefix(s, s.len() as int),
    decreases s.len(),
{
    if s.len() > 0 {
        lemma_used_list(s.drop_first());
        assert forall|k: int| 0 < k < s.len() implies #[trigger] s[k] == s.drop_first()[k - 1] by {}
        assert(used_list(s) =~= used_prefix(s, s.len() as int)) by {
            assert forall|v: Seq<char>| used_list(s).contains(v) implies used_prefix(s, s.len() as int).contains(v) by {
                if !used_vars(s[0]).contains(v) {
                    let k = choose|k: int| 0 <= k < s.len() - 1 && #[trigger] used_vars(s.drop_first()[k]).contains(v);
                    assert(used_vars(s[k + 1]).contains(v));
                } else {
                    assert(used_vars(s[0]).contains(v));
                }
            }
            assert forall|v: Seq<char>| used_prefix(s, s.len() as int).contains(v) implies used_list(s).contains(v) by {
                let k = choose|k: int| 0 <= k < s.len() && #[trigger] used_vars(s[k]).contains(v);
                if k > 0 {
                    assert(used_vars(s.drop_first()[k - 1]).contains(v));
                }
            }
        }
    } else {
        assert(used_list(s) =~= used_prefix(s, s.len() as int));
    }
}

/// The names a set of strings holds.
pub open spec fn names(s: StringHashSet) -> Set<Seq<char>> {
    s@
}

/// Removes stores to variables that are never read.
pub struct DeadCodeEliminationPass;

impl DeadCodeEliminationPass {
    /// The pass.
    pub fn new() -> (r: Self) {
        DeadCodeEliminationPass
    }

    /// Adds every name the instruction tree reads.
    pub fn collect_used_vars(inst: &Instruction, used: &mut StringHashSet)
        ensures
            final(used)@ == old(used)@ + used_vars(inst@),
        decreases inst_size(inst@),
    {
        let ghost start = used@;
        match inst {
            Instruction::Constant { .. } => {},
            Instruction::Variable { name } => {
                used.insert(name.clone());
            },
            Instruction::BinaryOp { lhs, rhs, .. } => {
                Self::collect_used_vars(lhs, used);
                Self::collect_used_vars(rhs, used);
            },
            Instruction::Compare { lhs, rhs, .. } => {
                Self::collect_used_vars(lhs, used);
                Self::collect_used_vars(rhs, used);
            },
            Instruction::Store { value, .. } => {
                Self::collect_used_vars(value, used);
            },
            Instruction::Branch { condition, .. } => {
                Self::collect_used_vars(condition, used);
            },
            Instruction::Jump { .. } => {},
            Instruction::Return { value } => match value {
                Some(v) => {
                    Self::collect_used_vars(v, used);
                },
                None => {},
            },
            Instruction::Call { args, .. } => {
                let ghost ms = arg_models(args@);
                proof {
                    lemma_arg_models(args@);
                    lemma_used_list(ms);
                    assert(used_prefix(ms, 0) =~= Set::empty());
                    assert(used@ =~= start + used_prefix(ms, 0));
                }
                let mut j: usize = 0;
                while j < args.len()
                    invariant
                        j <= args.len(),
                        ms == arg_models(args@),
                        ms.len() == args@.len(),
                        inst_size(inst@) == 1 + list_size(ms),
                        forall|k: int| 0 <= k < args@.len() ==> #[trigger] ms[k] == args@[k].model(),
                        used@ == start + used_prefix(ms, j as int),
                    decreases args.len() - j,
                {
                    proof {
                        lemma_list_size_elem(ms, j as int);
                    }
                    Self::collect_used_vars(&args[j], used);
                    proof {
                        lemma_used_prefix_step(ms, j as int);
                        assert(used@ =~= start + used_prefix(ms, j + 1));
                    }
                    j = j + 1;
                }
                proof {
                    assert(used_prefix(ms, ms.len() as int) =~= used_list(ms));
                    assert(used@ =~= start + used_vars(inst@));
                }
            },
            Instruction::AllocaArray { .. } => {},
            Instruction::GetElementPtr { base, index } => {
                Self::collect_used_vars(base, used);
                Self::collect_used_vars(index, used);
            },
            Instruction::LoadPtr { ptr } => {
                Self::collect_used_vars(ptr, used);
            },
            Instruction::StorePtr { ptr, value } => {
                Self::collect_used_vars(ptr, used);
                Self::collect_used_vars(value, used);
            },
        }
        assert(used@ =~= start + used_vars(inst@));
    }
}


/// The instructions of a block once the first `j` have been looked at: the survivors so far,
/// and, when all have been looked at, the last instruction kept whatever it is.
pub open spec fn pruned_prefix(s: Seq<Inst>, used: Set<Seq<char>>, j: int) -> Seq<Inst> {
    if j == s.len() && j > 0 {
        survivors(s.drop_last(), used).push(s.last())
    } else {
        survivors(s.take(j), used)
    }
}

/// Adds every name a block reads.
fn collect_block(b: &BasicBlock, used: &mut StringHashSet)
    ensures
        final(used)@ == old(used)@ + block_used(b@),
{
    let ghost start = used@;
    let ghost ms = b@.insts;
    proof {
        assert(union_prefix(ms, inst_reads(), 0) =~= Set::<Seq<char>>::empty());
        assert(used@ =~= start + union_prefix(ms, inst_reads(), 0));
    }
    let mut j: usize = 0;
    while j < b.instructions.len()
        invariant
            j <= b.instructions.len(),
            ms == b@.insts,
            used@ == start + union_prefix(ms, inst_reads(), j as int),
        decreases b.instructions.len() - j,
    {
        DeadCodeEliminationPass::collect_used_vars(&b.instructions[j], used);
        proof {
            lemma_union_prefix_step(ms, inst_reads(), j as int);
            assert(used@ =~= start + union_prefix(ms, inst_reads(), j + 1));
        }
        j = j + 1;
    }
}

/// Adds every name a function reads.
fn collect_function(f: &Function, used: &mut StringHashSet)
    ensures
        final(used)@ == old(used)@ + function_used(f@),
{
    let ghost start = used@;
    let ghost bs = f@.blocks;
    proof {
        assert(union_prefix(bs, block_reads(), 0) =~= Set::<Seq<char>>::empty());
        assert(used@ =~= start + union_prefix(bs, block_reads(), 0));
    }
    let mut j: usize = 0;
    while j < f.basic_blocks.len()
        invariant
            j <= f.basic_blocks.len(),
            bs == f@.blocks,
            used@ == start + union_prefix(bs, block_reads(), j as int),
        decreases f.basic_blocks.len() - j,
    {
        collect_block(&f.basic_blocks[j], used);
        proof {
            lemma_union_prefix_step(bs, block_reads(), j as int);
            assert(used@ =~= start + union_prefix(bs, block_reads(), j + 1));
        }
        j = j + 1;
    }
}

/// Every name the module reads.
fn collect_module(m: &Module) -> (r: StringHashSet)
    ensures
        r@ == module_used(m@),
{
    let mut used = StringHashSet::new();
    let ghost fs = m@.functions;
    proof {
        assert(union_prefix(fs, function_reads(), 0) =~= Set::<Seq<char>>::empty());
        assert(used@ =~= union_prefix(fs, function_reads(), 0));
    }
    let mut j: usize = 0;
    while j < m.functions.len()
        invariant
            j <= m.functions.len(),
            fs == m@.functions,
            used@ == union_prefix(fs, function_reads(), j as int),
        decreases m.functions.len() - j,
    {
        collect_function(&m.functions[j], &mut used);
        proof {
            lemma_union_prefix_step(fs, function_reads(), j as int);
            assert(used@ =~= union_prefix(fs, function_reads(), j + 1));
        }
        j = j + 1;
    }
    used
}

/// Removes the stores to unread names from a block, never its last instruction;
/// whether it removed any.
fn prune_dead_stores(b: BasicBlock, used: &StringHashSet) -> (r: (BasicBlock, bool))
    ensures
        r.0@ == prune_block(b@, used@),
        r.1 == prune_changes(used@)(b@),
{
    let ghost b0 = b@;
    let mut b = b;
    let ghost orig = b@.insts;
    let ghost u = used@;
    let ghost n = orig.len() as int;
    let mut changed = false;
    let mut i: usize = 0;
    let ghost mut j: int = 0;
    proof {
        assert(orig.take(0) =~= Seq::<Inst>::empty());
        assert(orig.skip(0) =~= orig);
        assert(b@.insts =~= pruned_prefix(orig, u, 0) + orig.skip(0));
    }
    while i < b.instructions.len()
        invariant
            0 <= j <= n,
            n == orig.len(),
            u == used@,
            b@.name == b0.name,
            orig == b0.insts,
            b@.insts == pruned_prefix(orig, u, j) + orig.skip(j),
            i == pruned_prefix(orig, u, j).len(),
            changed == (pruned_prefix(orig, u, j).len() < j),
            pruned_prefix(orig, u, j).len() <= j,
        decreases b.instructions.len() - i,
    {
        let ghost pre = pruned_prefix(orig, u, j);
        proof {
            assert(b@.insts.len() == b.instructions@.len());
            assert(b.instructions@.len() == i + (n - j));
            assert(b@.insts[i as int] == orig[j]);
            assert(b.instructions@[i as int]@ == orig[j]);
            assert(orig.take(j + 1).drop_last() =~= orig.take(j));
            assert(orig.take(j + 1).last() == orig[j]);
            assert(orig.skip(j).drop_first() =~= orig.skip(j + 1));
        }
        let is_last = i == b.instructions.len() - 1;
        let dead = match &b.instructions[i] {
            Instruction::Store { var_name, .. } => !is_last && !used.contains(var_name.as_str()),
            _ => false,
        };
        if dead {
            let ghost before = b.instructions@;
            b.instructions.remove(i);
            proof {
                assert(j + 1 < n);
                assert(!survives(orig[j], u));
                assert(pruned_prefix(orig, u, j + 1) == pre);
                assert(inst_models(b.instructions@) =~= pre + orig.skip(j + 1)) by {
                    assert(b.instructions@ =~= before.remove(i as int));
                    assert forall|k: int| 0 <= k < b.instructions@.len() implies #[trigger] inst_models(
                        b.instructions@,
                    )[k] == (pre + orig.skip(j + 1))[k] by {
                        if k < i {
                            assert(inst_models(before)[k] == pre[k]);
                        } else {
                            assert(inst_models(before)[k + 1] == orig.skip(j)[k + 1 - i]);
                        }
                    }
                }
                j = j + 1;
            }
            changed = true;
        } else {
            proof {
                assert(survives(orig[j], u) || j + 1 == n);
                if j + 1 == n {
                    assert(orig.take(j) =~= orig.drop_last());
                    assert(orig.last() == orig[j]);
                }
                assert(pruned_prefix(orig, u, j + 1) == pre.push(orig[j]));
                assert(b@.insts =~= pre.push(orig[j]) + orig.skip(j + 1));
                j = j + 1;
            }
            i = i + 1;
        }
    }
    proof {
        assert(orig.skip(j).len() == 0);
        if n == 0 {
            assert(b@.insts =~= orig);
        } else {
            assert(b@.insts =~= pruned_prefix(orig, u, n));
        }
    }
    (b, changed)
}

/// Prunes every block of a function with the given read names; whether anything went.
fn prune_function(f: Function, used: &StringHashSet) -> (r: (Function, bool))
    ensures
        r.0@ == prune_fn_map(used@)(f@),
        r.1 == prune_fn_changes(used@)(f@),
{
    let mut f = f;
    let step = |b: BasicBlock| -> (r: (BasicBlock, bool))
        ensures
            r.0@ == prune_map(used@)(b@),
            r.1 == prune_changes(used@)(b@),
        { prune_dead_stores(b, used) };
    let changed = rewrite_blocks(&mut f, &step, Ghost(prune_map(used@)), Ghost(prune_changes(used@)));
    (f, changed)
}

/// One round of pruning over the whole module; whether anything went.
fn prune_module(m: &mut Module) -> (changed: bool)
    ensures
        (final(m)@, changed) == prune_round(old(m)@),
{
    let used = collect_module(m);
    let step = |f: Function| -> (r: (Function, bool))
        ensures
            r.0@ == prune_fn_map(used@)(f@),
            r.1 == prune_fn_changes(used@)(f@),
        { prune_function(f, &used) };
    rewrite_functions(m, &step, Ghost(prune_fn_map(used@)), Ghost(prune_fn_changes(used@)))
}

impl Pass for DeadCodeEliminationPass {
    open spec fn accepts(&self, m: ModuleModel) -> bool {
        true
    }

    open spec fn outcome(&self, m: ModuleModel) -> (ModuleModel, bool) {
        prune_fixpoint(m)
    }

    fn id(&self) -> (r: &'static str)
        ensures
            r@ == "dead_code"@,
    {
        "dead_code"
    }

    fn name(&self) -> (r: &'static str)
        ensures
            r@ == "Dead Code Elimination"@,
    {
        "Dead Code Elimination"
    }

    fn description(&self) -> (r: &'static str)
        ensures
            r@ == "Removes stores to variables that are never read"@,
    {
        "Removes stores to variables that are never read"
    }

    fn safety(&self) -> (r: PassSafety)
        ensures
            r == PassSafety::Safe,
    {
        PassSafety::Safe
    }

    fn run(&self, module: &mut Module) -> (r: Result<bool, PassError>)
        ensures
            r == Ok::<bool, PassError>(final(module)@ != old(module)@),
    {
        proof {
            law_dce_flag_honest(old(module)@);
        }
        let ghost goal = prune_fixpoint(old(module)@);
        let mut changed_any = false;
        loop
            invariant
                goal == prune_fixpoint(old(module)@),
                goal.1 == (goal.0 != old(module)@),
                goal.0 == prune_fixpoint(module@).0,
                goal.1 == (changed_any || prune_fixpoint(module@).1),
            decreases instruction_total(module@),
        {
            let ghost before = module@;
            let changed = prune_module(module);
            if !changed {
                return Ok(changed_any);
            }
            proof {
                lemma_prune_round_shrinks(before);
            }
            changed_any = true;
        }
    }

    fn get_param(&self, name: &str) -> (r: Option<i32>)
        ensures
            r is None,
    {
        None
    }

    fn set_param(&mut self, name: &str, value: i32) -> (r: bool)
        ensures
            !r,
    {
        false
    }

    fn descriptor(&self) -> (r: PassDescriptor)
        ensures
            r.id@ == "dead_code"@,
            r.name@ == "Dead Code Elimination"@,
            r.description@ == "Removes stores to variables that are never read"@,
            r.safety == PassSafety::Safe,
            r.params@ == Map::<Seq<char>, crate::passes::ParamRange>::empty(),
    {
        let r = PassDescriptor::new(
            "dead_code",
            "Dead Code Elimination",
            "Removes stores to variables that are never read",
            PassSafety::Safe,
            Vec::new(),
        );
        proof {
            assert(params_by_name(Seq::<crate::passes::ParamRange>::empty()) == Map::<Seq<char>, crate::passes::ParamRange>::empty());
        }
        r
    }
}

} // verus!
