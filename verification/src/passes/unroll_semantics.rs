use vstd::prelude::*;
use crate::interpreter::{
    MAX_CALL_DEPTH, MAX_INSTRUCTIONS, Machine, bind, block_rest, call, depth_budget, eval, eval_args,
    execute, find_last_block, inst_size, leave, lemma_find_last_block, lemma_find_last_block_at,
    list_size, run, step_budget,
};
use crate::ir::basic_block::BlockModel;
use crate::ir::function::{FunctionModel, find_block, lemma_find_block};
use crate::ir::module::{ModuleModel, find_function, lemma_find_function};
use crate::ir::value::{Inst, is_terminator_model};
use crate::passes::loop_unroll::{
    UnrollStep, copy_name, first_loop, lemma_first_loop, non_terminators, unroll_from, unroll_function,
    unroll_module, unrolled_copy,
};
use crate::passes::merging_semantics::{distinct_names, ends_only, lemma_distinct_found};

verus! {

/// The header of the loop that unrolling picks in blocks `bs`.
pub open spec fn header_of(bs: Seq<BlockModel>) -> int {
    first_loop(bs, 0)->0
}

/// The label the loop header branches to when its condition holds: the loop body.
pub open spec fn body_label(bs: Seq<BlockModel>) -> Seq<char> {
    bs[header_of(bs)].insts.last()->then_label
}

/// The label the loop header branches to when its condition fails: the loop exit.
pub open spec fn exit_label(bs: Seq<BlockModel>) -> Seq<char> {
    bs[header_of(bs)].insts.last()->else_label
}

/// The condition of the loop header's branch.
pub open spec fn loop_condition(bs: Seq<BlockModel>) -> Inst {
    *(bs[header_of(bs)].insts.last()->Branch_condition)
}

/// The index of the loop body.
pub open spec fn body_of(bs: Seq<BlockModel>) -> int {
    find_block(bs, body_label(bs))->0
}

/// Whether unrolling `f` keeps its meaning: no two blocks share a name, terminators stand
/// only at block ends, the loop header holds nothing but its branch, and no block is already
/// named like a copy of the loop body.
pub open spec fn unroll_safe(f: FunctionModel, factor: int) -> bool {
    &&& distinct_names(f.blocks)
    &&& forall|i: int| 0 <= i < f.blocks.len() ==> ends_only(#[trigger] f.blocks[i])
    &&& first_loop(f.blocks, 0) is Some ==> {
        &&& f.blocks[header_of(f.blocks)].insts.len() == 1
        &&& forall|x: int, i: int|
            #![trigger f.blocks[x], copy_name(body_label(f.blocks), i)]
            0 <= x < f.blocks.len() && 1 <= i < factor ==> f.blocks[x].name != copy_name(
                body_label(f.blocks),
                i,
            )
    }
}

/// Where block `x` of the function stands once the loop body at `b` is followed by its
/// `factor - 1` copies.
pub open spec fn upos(x: int, b: int, factor: int) -> int {
    if x <= b { x } else { x + factor - 1 }
}

/// A list with no terminator keeps all of its instructions.
pub proof fn lemma_non_terminators_all(s: Seq<Inst>)
    requires
        forall|j: int| 0 <= j < s.len() ==> !is_terminator_model(#[trigger] s[j]),
    ensures
        non_terminators(s) == s,
    decreases s.len(),
{
    if s.len() > 0 {
        assert forall|j: int| 0 <= j < s.drop_last().len() implies !is_terminator_model(#[trigger] s.drop_last()[j]) by {
            assert(s.drop_last()[j] == s[j]);
        }
        lemma_non_terminators_all(s.drop_last());
        assert(s.drop_last().push(s.last()) =~= s);
    }
}

/// A copy name is longer than the body's name.
pub proof fn lemma_copy_name_longer(body: Seq<char>, i: int)
    ensures
        copy_name(body, i).len() > body.len(),
        copy_name(body, i) != body,
{
    reveal_strlit("_ur");
}

/// The block the loop body turns into: its instructions but the last, then the loop's
/// branch, to the first copy when the condition holds.
pub open spec fn unrolled_body(bs: Seq<BlockModel>) -> BlockModel {
    BlockModel {
        name: body_label(bs),
        insts: bs[body_of(bs)].insts.drop_last().push(
            Inst::Branch {
                condition: Box::new(loop_condition(bs)),
                then_label: copy_name(body_label(bs), 1),
                else_label: exit_label(bs),
            },
        ),
    }
}

/// The block at index `y` once the loop of `bs` is unrolled `factor` times: the blocks up to
/// the body, the unrolled body, its copies, then the blocks after the body.
pub open spec fn unrolled_at(bs: Seq<BlockModel>, factor: int, y: int) -> BlockModel {
    let b = body_of(bs);
    if y < b {
        bs[y]
    } else if y == b {
        unrolled_body(bs)
    } else if y < b + factor {
        unrolled_copy(
            body_label(bs),
            bs[b].insts.drop_last(),
            loop_condition(bs),
            bs[header_of(bs)].name,
            exit_label(bs),
            y - b,
            factor,
        )
    } else {
        bs[y - factor + 1]
    }
}

/// What unrolling a loop leaves: the header holds just its branch to the body or the exit,
/// the body ends in a jump back to the header, and the unrolled function holds the blocks
/// `unrolled_at` describes.
pub proof fn lemma_unroll_layout(f: FunctionModel, factor: int, g: FunctionModel)
    requires
        factor > 1,
        unroll_safe(f, factor),
        unroll_function(f, factor) == UnrollStep::Done(g),
    ensures
        ({
            let bs = f.blocks;
            let h = header_of(bs);
            let b = body_of(bs);
            &&& 0 <= h < bs.len()
            &&& 0 <= b < bs.len()
            &&& h != b
            &&& bs[h].insts.len() == 1
            &&& bs[h].insts[0] == (Inst::Branch {
                condition: Box::new(loop_condition(bs)),
                then_label: body_label(bs),
                else_label: exit_label(bs),
            })
            &&& bs[b].name == body_label(bs)
            &&& bs[b].insts.len() > 0
            &&& bs[b].insts.last() == (Inst::Jump { label: bs[h].name })
            &&& find_block(bs, exit_label(bs)) is Some
            &&& g.name == f.name
            &&& g.params == f.params
            &&& g.return_type == f.return_type
            &&& g.blocks.len() == bs.len() + factor - 1
            &&& forall|y: int| 0 <= y < g.blocks.len() ==> #[trigger] g.blocks[y] == unrolled_at(bs, factor, y)
        }),
{
    let bs = f.blocks;
    lemma_first_loop(bs, 0);
    let h = header_of(bs);
    let then_label = body_label(bs);
    lemma_find_block(bs, then_label);
    let b = body_of(bs);
    let s = bs[b].insts;
    assert(ends_only(bs[b]));
    assert forall|j: int| 0 <= j < s.drop_last().len() implies !is_terminator_model(#[trigger] s.drop_last()[j]) by {
        assert(s.drop_last()[j] == s[j]);
    }
    lemma_non_terminators_all(s.drop_last());
    assert(non_terminators(s) == s.drop_last());
    let core = s.drop_last();
    let body = unrolled_body(bs);
    let copies = Seq::new(
        (factor - 1) as nat,
        |k: int| unrolled_copy(then_label, core, loop_condition(bs), bs[h].name, exit_label(bs), k + 1, factor),
    );
    let updated = bs.update(b, body);
    assert(g.blocks == updated.take(b + 1) + copies + updated.skip(b + 1));
    assert forall|y: int| 0 <= y < g.blocks.len() implies #[trigger] g.blocks[y] == unrolled_at(bs, factor, y) by {
        if y <= b {
        } else if y < b + factor {
            assert(g.blocks[y] == copies[y - b - 1]);
        } else {
            assert(g.blocks[y] == updated.skip(b + 1)[y - b - factor]);
        }
    }
}

/// Where names lead once the loop is unrolled: each block name of the function to the
/// block's new place (the body's name to the unrolled body), each copy name to one of the
/// copies.
pub proof fn lemma_unroll_found(f: FunctionModel, factor: int, g: FunctionModel)
    requires
        factor > 1,
        unroll_safe(f, factor),
        unroll_function(f, factor) == UnrollStep::Done(g),
    ensures
        forall|x: int|
            0 <= x < f.blocks.len() ==> #[trigger] find_last_block(g.blocks, f.blocks[x].name) == Some(
                upos(x, body_of(f.blocks), factor),
            ),
        forall|i: int|
            1 <= i < factor ==> (#[trigger] find_last_block(g.blocks, copy_name(body_label(f.blocks), i)) matches Some(
                u,
            ) && body_of(f.blocks) < u < body_of(f.blocks) + factor),
{
    let bs = f.blocks;
    let ns = g.blocks;
    let b = body_of(bs);
    let bl = body_label(bs);
    lemma_unroll_layout(f, factor, g);
    assert forall|x: int| 0 <= x < bs.len() implies #[trigger] find_last_block(ns, bs[x].name) == Some(
        upos(x, b, factor),
    ) by {
        let p = upos(x, b, factor);
        assert(ns[p] == unrolled_at(bs, factor, p));
        assert(ns[p].name == bs[x].name);
        assert forall|y: int| p < y < ns.len() implies ns[y].name != bs[x].name by {
            assert(ns[y] == unrolled_at(bs, factor, y));
            if y < b {
                assert(bs[x].name != bs[y].name);
            } else if y == b {
                assert(bs[x].name != bs[b].name);
            } else if y < b + factor {
                assert(bs[x].name != copy_name(bl, y - b));
            } else {
                let z = y - factor + 1;
                assert(bs[x].name != bs[z].name);
            }
        }
        lemma_find_last_block_at(ns, bs[x].name, p);
    }
    assert forall|i: int| 1 <= i < factor implies (#[trigger] find_last_block(ns, copy_name(bl, i)) matches Some(
        u,
    ) && b < u < b + factor) by {
        let cn = copy_name(bl, i);
        lemma_find_last_block(ns, cn);
        assert(ns[b + i] == unrolled_at(bs, factor, b + i));
        assert(ns[b + i].name == cn);
        lemma_copy_name_longer(bl, i);
        if let Some(u) = find_last_block(ns, cn) {
            assert(ns[u] == unrolled_at(bs, factor, u));
            if u < b {
                assert(bs[u].name != cn);
            } else if u >= b + factor {
                let z = u - factor + 1;
                assert(bs[z].name != cn);
            }
        }
    }
}

/// The module with function `fi` replaced by `g`.
pub open spec fn with_function(m: ModuleModel, fi: int, g: FunctionModel) -> ModuleModel {
    ModuleModel { name: m.name, functions: m.functions.update(fi, g) }
}

/// Unrolling the loop of function `fi` into `g`, in a function where unrolling keeps its
/// meaning.
pub open spec fn unroll_step(m: ModuleModel, fi: int, factor: int, g: FunctionModel) -> bool {
    &&& 0 <= fi < m.functions.len()
    &&& factor > 1
    &&& unroll_safe(m.functions[fi], factor)
    &&& unroll_function(m.functions[fi], factor) == UnrollStep::Done(g)
}

/// Where a position of the blocks `bs` runs on once the loop is unrolled into the blocks
/// `ns`: the loop body runs on in the unrolled body or in one of its copies, at the same
/// place, every other block in itself; the step count may lag behind.
pub open spec fn unrolled_position(
    bs: Seq<BlockModel>,
    ns: Seq<BlockModel>,
    factor: int,
    name: Seq<char>,
    j: nat,
    start: nat,
    name2: Seq<char>,
    j2: nat,
    start2: nat,
) -> bool {
    match find_last_block(bs, name) {
        Some(x) => {
            &&& j2 == j
            &&& start2 <= start
            &&& if x == body_of(bs) {
                &&& j < bs[x].insts.len()
                &&& find_last_block(ns, name2) matches Some(u) && body_of(bs) <= u < body_of(bs) + factor
            } else {
                name2 == name
            }
        },
        None => true,
    }
}

/// An instruction tree that gives a value gives the same, from the same state, once a loop
/// is unrolled.
pub proof fn lemma_ustep_eval(m: ModuleModel, fi: int, factor: int, g: FunctionModel, i: Inst, s: Machine, d: u32)
    requires
        unroll_step(m, fi, factor, g),
    ensures
        eval(m, i, s, d) is Ok ==> eval(with_function(m, fi, g), i, s, d) == eval(m, i, s, d),
    decreases depth_budget(d), 0nat, 0nat, inst_size(i),
{
    match i {
        Inst::BinaryOp { lhs, rhs, .. } | Inst::Compare { lhs, rhs, .. } => {
            lemma_ustep_eval(m, fi, factor, g, *lhs, s, d);
            if let Ok((a, s1)) = eval(m, *lhs, s, d) {
                lemma_ustep_eval(m, fi, factor, g, *rhs, s1, d);
            }
        },
        Inst::GetElementPtr { base, index } => {
            lemma_ustep_eval(m, fi, factor, g, *base, s, d);
            if let Ok((a, s1)) = eval(m, *base, s, d) {
                lemma_ustep_eval(m, fi, factor, g, *index, s1, d);
            }
        },
        Inst::StorePtr { ptr, value } => {
            lemma_ustep_eval(m, fi, factor, g, *ptr, s, d);
            if let Ok((a, s1)) = eval(m, *ptr, s, d) {
                lemma_ustep_eval(m, fi, factor, g, *value, s1, d);
            }
        },
        Inst::Store { value, .. } => {
            lemma_ustep_eval(m, fi, factor, g, *value, s, d);
        },
        Inst::LoadPtr { ptr } => {
            lemma_ustep_eval(m, fi, factor, g, *ptr, s, d);
        },
        Inst::Return { value } => match value {
            Some(v) => {
                lemma_ustep_eval(m, fi, factor, g, *v, s, d);
            },
            None => {},
        },
        Inst::Call { function_name, args } => {
            let m2 = with_function(m, fi, g);
            lemma_unroll_layout(m.functions[fi], factor, g);
            lemma_ustep_args(m, fi, factor, g, args, s, d);
            crate::passes::merging_semantics::lemma_same_names_found(m.functions, m2.functions, function_name);
            lemma_find_function(m.functions, function_name);
            if let Ok((vals, s1)) = eval_args(m, args, s, d) {
                if let Some(k) = find_function(m.functions, function_name) {
                    if d + 1 <= MAX_CALL_DEPTH {
                        lemma_ustep_call(m, fi, factor, g, k, vals, s1.heap, (d + 1) as u32);
                    }
                }
            }
        },
        _ => {},
    }
}

/// Argument lists that give values give the same once a loop is unrolled.
pub proof fn lemma_ustep_args(m: ModuleModel, fi: int, factor: int, g: FunctionModel, args: Seq<Inst>, s: Machine, d: u32)
    requires
        unroll_step(m, fi, factor, g),
    ensures
        eval_args(m, args, s, d) is Ok ==> eval_args(with_function(m, fi, g), args, s, d) == eval_args(
            m,
            args,
            s,
            d,
        ),
    decreases depth_budget(d), 0nat, 0nat, list_size(args),
{
    if args.len() > 0 {
        lemma_ustep_eval(m, fi, factor, g, args[0], s, d);
        if let Ok((v, s1)) = eval(m, args[0], s, d) {
            lemma_ustep_args(m, fi, factor, g, args.drop_first(), s1, d);
        }
    }
}

/// A call that gives a value gives the same once a loop is unrolled.
pub proof fn lemma_ustep_call(
    m: ModuleModel,
    fi: int,
    factor: int,
    g: FunctionModel,
    k: int,
    args: Seq<i64>,
    heap: Seq<i64>,
    d: u32,
)
    requires
        unroll_step(m, fi, factor, g),
        0 <= k < m.functions.len(),
    ensures
        call(m, m.functions[k], args, heap, d) is Ok ==> call(
            with_function(m, fi, g),
            with_function(m, fi, g).functions[k],
            args,
            heap,
            d,
        ) == call(m, m.functions[k], args, heap, d),
    decreases depth_budget(d), (MAX_INSTRUCTIONS + 2) as nat, 0nat, 0nat,
{
    let f = m.functions[k];
    if d <= MAX_CALL_DEPTH && f.blocks.len() > 0 {
        let s0 = Machine { env: bind(f.params, args), heap };
        if k == fi {
            let bs = f.blocks;
            lemma_unroll_layout(f, factor, g);
            lemma_unroll_found(f, factor, g);
            lemma_distinct_found(bs, 0);
            assert(g.blocks[0] == unrolled_at(bs, factor, 0));
            assert(g.blocks[0].name == bs[0].name);
            assert(find_last_block(g.blocks, bs[0].name) == Some(upos(0, body_of(bs), factor)));
            lemma_ustep_run(m, fi, factor, g, bs[0].name, 0, 0, bs[0].name, 0, 0, s0, d);
        } else {
            lemma_ustep_run_same(m, fi, factor, g, k, f.blocks[0].name, 0, 0, s0, d);
        }
    }
}

/// In a function other than the unrolled one, running that gives a value gives the same
/// once a loop is unrolled.
pub proof fn lemma_ustep_run_same(
    m: ModuleModel,
    fi: int,
    factor: int,
    g: FunctionModel,
    k: int,
    name: Seq<char>,
    j: nat,
    start: nat,
    s: Machine,
    d: u32,
)
    requires
        unroll_step(m, fi, factor, g),
        0 <= k < m.functions.len(),
        k != fi,
    ensures
        run(m, m.functions[k], name, j, start, s, d) is Ok ==> run(
            with_function(m, fi, g),
            m.functions[k],
            name,
            j,
            start,
            s,
            d,
        ) == run(m, m.functions[k], name, j, start, s, d),
    decreases depth_budget(d), step_budget(start), 2nat, block_rest(m.functions[k], name, j),
{
    let f = m.functions[k];
    lemma_find_last_block(f.blocks, name);
    if start <= MAX_INSTRUCTIONS {
        if let Some(bi) = find_last_block(f.blocks, name) {
            let b = f.blocks[bi];
            if j < b.insts.len() {
                let inst = b.insts[j as int];
                lemma_ustep_eval(m, fi, factor, g, inst, s, d);
                if let Ok((v, s1)) = eval(m, inst, s, d) {
                    if is_terminator_model(inst) {
                        if !(inst is Return) {
                            lemma_ustep_leave_same(m, fi, factor, g, k, bi, start, j + 1, s1, d);
                        }
                    } else {
                        lemma_ustep_run_same(m, fi, factor, g, k, name, j + 1, start, s1, d);
                    }
                }
            } else {
                lemma_ustep_leave_same(m, fi, factor, g, k, bi, start, j, s, d);
            }
        }
    }
}

/// In a function other than the unrolled one, leaving a block gives the same once a loop
/// is unrolled, when it gives a value.
pub proof fn lemma_ustep_leave_same(
    m: ModuleModel,
    fi: int,
    factor: int,
    g: FunctionModel,
    k: int,
    bi: int,
    start: nat,
    executed: nat,
    s: Machine,
    d: u32,
)
    requires
        unroll_step(m, fi, factor, g),
        0 <= k < m.functions.len(),
        k != fi,
        0 <= bi < m.functions[k].blocks.len(),
    ensures
        leave(m, m.functions[k], m.functions[k].blocks[bi], start, executed, s, d) is Ok ==> leave(
            with_function(m, fi, g),
            m.functions[k],
            m.functions[k].blocks[bi],
            start,
            executed,
            s,
            d,
        ) == leave(m, m.functions[k], m.functions[k].blocks[bi], start, executed, s, d),
    decreases depth_budget(d), step_budget(start), 1nat, 0nat,
{
    let f = m.functions[k];
    let b = f.blocks[bi];
    if start <= MAX_INSTRUCTIONS && b.insts.len() > 0 && executed > 0 {
        match b.insts.last() {
            Inst::Branch { condition, then_label, else_label } => {
                lemma_ustep_eval(m, fi, factor, g, *condition, s, d);
                if let Ok((c, s1)) = eval(m, *condition, s, d) {
                    lemma_ustep_run_same(
                        m,
                        fi,
                        factor,
                        g,
                        k,
                        if c != 0 { then_label } else { else_label },
                        0,
                        start + executed,
                        s1,
                        d,
                    );
                }
            },
            Inst::Jump { label } => {
                lemma_ustep_run_same(m, fi, factor, g, k, label, 0, start + executed, s, d);
            },
            _ => {},
        }
    }
}

/// In the unrolled function, running that gives a value gives the same once the loop is
/// unrolled, from the matching position.
pub proof fn lemma_ustep_run(
    m: ModuleModel,
    fi: int,
    factor: int,
    g: FunctionModel,
    name: Seq<char>,
    j: nat,
    start: nat,
    name2: Seq<char>,
    j2: nat,
    start2: nat,
    s: Machine,
    d: u32,
)
    requires
        unroll_step(m, fi, factor, g),
        unrolled_position(m.functions[fi].blocks, g.blocks, factor, name, j, start, name2, j2, start2),
    ensures
        run(m, m.functions[fi], name, j, start, s, d) is Ok ==> run(
            with_function(m, fi, g),
            g,
            name2,
            j2,
            start2,
            s,
            d,
        ) == run(m, m.functions[fi], name, j, start, s, d),
    decreases depth_budget(d), step_budget(start), 2nat, block_rest(m.functions[fi], name, j),
{
    let m2 = with_function(m, fi, g);
    let f = m.functions[fi];
    let bs = f.blocks;
    let ns = g.blocks;
    lemma_unroll_layout(f, factor, g);
    lemma_unroll_found(f, factor, g);
    lemma_find_last_block(bs, name);
    let h = header_of(bs);
    let b = body_of(bs);
    if start <= MAX_INSTRUCTIONS {
        if let Some(x) = find_last_block(bs, name) {
            let blk = bs[x];
            if x == b {
                let u = find_last_block(ns, name2)->0;
                lemma_find_last_block(ns, name2);
                let ub = ns[u];
                assert(ub == unrolled_at(bs, factor, u));
                let len_c = blk.insts.len() - 1;
                assert(ub.insts.len() == blk.insts.len());
                if j < len_c {
                    let inst = blk.insts[j as int];
                    assert(ub.insts[j as int] == inst);
                    assert(!is_terminator_model(inst)) by {
                        assert(ends_only(bs[b]));
                    }
                    lemma_ustep_eval(m, fi, factor, g, inst, s, d);
                    if let Ok((v, s1)) = eval(m, inst, s, d) {
                        lemma_ustep_run(m, fi, factor, g, name, j + 1, start, name2, j2 + 1, start2, s1, d);
                    }
                } else {
                    lemma_ustep_loop_back(m, fi, factor, g, name, j, start, name2, j2, start2, s, d);
                }
            } else {
                assert(find_last_block(ns, bs[x].name) == Some(upos(x, b, factor)));
                assert(ns[upos(x, b, factor)] == unrolled_at(bs, factor, upos(x, b, factor)));
                assert(ns[upos(x, b, factor)] == blk);
                if j < blk.insts.len() {
                    let inst = blk.insts[j as int];
                    lemma_ustep_eval(m, fi, factor, g, inst, s, d);
                    if let Ok((v, s1)) = eval(m, inst, s, d) {
                        if is_terminator_model(inst) {
                            if !(inst is Return) {
                                lemma_ustep_leave(m, fi, factor, g, x, start, j + 1, start2, j + 1, s1, d);
                            }
                        } else {
                            lemma_ustep_run(m, fi, factor, g, name, j + 1, start, name, j + 1, start2, s1, d);
                        }
                    }
                } else {
                    lemma_ustep_leave(m, fi, factor, g, x, start, j, start2, j, s, d);
                }
            }
        }
    }
}

/// In the unrolled function, leaving a block other than the loop body gives the same once
/// the loop is unrolled, when it gives a value.
pub proof fn lemma_ustep_leave(
    m: ModuleModel,
    fi: int,
    factor: int,
    g: FunctionModel,
    x: int,
    start: nat,
    executed: nat,
    start2: nat,
    executed2: nat,
    s: Machine,
    d: u32,
)
    requires
        unroll_step(m, fi, factor, g),
        0 <= x < m.functions[fi].blocks.len(),
        x != body_of(m.functions[fi].blocks),
        start2 <= start,
        start2 + executed2 <= start + executed,
        executed > 0 && m.functions[fi].blocks[x].insts.len() > 0 ==> executed2 > 0,
    ensures
        leave(m, m.functions[fi], m.functions[fi].blocks[x], start, executed, s, d) is Ok ==> leave(
            with_function(m, fi, g),
            g,
            m.functions[fi].blocks[x],
            start2,
            executed2,
            s,
            d,
        ) == leave(m, m.functions[fi], m.functions[fi].blocks[x], start, executed, s, d),
    decreases depth_budget(d), step_budget(start), 1nat, 0nat,
{
    let f = m.functions[fi];
    let bs = f.blocks;
    let blk = bs[x];
    let b = body_of(bs);
    lemma_unroll_layout(f, factor, g);
    lemma_unroll_found(f, factor, g);
    if start <= MAX_INSTRUCTIONS && blk.insts.len() > 0 && executed > 0 {
        match blk.insts.last() {
            Inst::Branch { condition, then_label, else_label } => {
                lemma_ustep_eval(m, fi, factor, g, *condition, s, d);
                if let Ok((c, s1)) = eval(m, *condition, s, d) {
                    let target = if c != 0 {
                        then_label
                    } else {
                        else_label
                    };
                    lemma_find_last_block(bs, target);
                    lemma_ustep_run(
                        m,
                        fi,
                        factor,
                        g,
                        target,
                        0,
                        start + executed,
                        target,
                        0,
                        start2 + executed2,
                        s1,
                        d,
                    );
                }
            },
            Inst::Jump { label } => {
                lemma_find_last_block(bs, label);
                lemma_ustep_run(m, fi, factor, g, label, 0, start + executed, label, 0, start2 + executed2, s, d);
            },
            _ => {},
        }
    }
}

/// At the end of the loop body, running that gives a value gives the same once the loop is
/// unrolled: the body jumps back to the header, which branches on the loop condition; the
/// unrolled body or copy branches on it directly, or its last copy jumps back to the header.
#[verifier::rlimit(40)]
pub proof fn lemma_ustep_loop_back(
    m: ModuleModel,
    fi: int,
    factor: int,
    g: FunctionModel,
    name: Seq<char>,
    j: nat,
    start: nat,
    name2: Seq<char>,
    j2: nat,
    start2: nat,
    s: Machine,
    d: u32,
)
    requires
        unroll_step(m, fi, factor, g),
        unrolled_position(m.functions[fi].blocks, g.blocks, factor, name, j, start, name2, j2, start2),
        start <= MAX_INSTRUCTIONS,
        find_last_block(m.functions[fi].blocks, name) == Some(body_of(m.functions[fi].blocks)),
        j == m.functions[fi].blocks[body_of(m.functions[fi].blocks)].insts.len() - 1,
    ensures
        run(m, m.functions[fi], name, j, start, s, d) is Ok ==> run(
            with_function(m, fi, g),
            g,
            name2,
            j2,
            start2,
            s,
            d,
        ) == run(m, m.functions[fi], name, j, start, s, d),
    decreases depth_budget(d), step_budget(start), 1nat, 1nat,
{
    let m2 = with_function(m, fi, g);
    let f = m.functions[fi];
    let bs = f.blocks;
    let ns = g.blocks;
    lemma_unroll_layout(f, factor, g);
    lemma_unroll_found(f, factor, g);
    let h = header_of(bs);
    let b = body_of(bs);
    let blk = bs[b];
    let u = find_last_block(ns, name2)->0;
    lemma_find_last_block(ns, name2);
    let ub = ns[u];
    assert(ub == unrolled_at(bs, factor, u));
    assert(ub.insts.len() == blk.insts.len());
    let hn = bs[h].name;
    lemma_distinct_found(bs, h);
    let inst = blk.insts[j as int];
    assert(inst == (Inst::Jump { label: hn }));
    let s_h = start + blk.insts.len();
    assert(eval(m, inst, s, d) == Ok::<(i64, Machine), crate::interpreter::Fault>((0i64, s)));
    assert(leave(m, f, blk, start, (j + 1) as nat, s, d) == run(m, f, hn, 0, s_h, s, d));
    assert(run(m, f, name, j, start, s, d) == leave(m, f, blk, start, (j + 1) as nat, s, d));
    let term = ub.insts[j as int];
    if u == b + factor - 1 {
        assert(term == (Inst::Jump { label: hn }));
        assert(eval(m2, term, s, d) == Ok::<(i64, Machine), crate::interpreter::Fault>((0i64, s)));
        assert(run(m2, g, name2, j2, start2, s, d) == leave(m2, g, ub, start2, (j2 + 1) as nat, s, d));
        assert(leave(m2, g, ub, start2, (j2 + 1) as nat, s, d) == run(m2, g, hn, 0, start2 + j2 + 1, s, d));
        lemma_ustep_run(m, fi, factor, g, hn, 0, s_h, hn, 0, (start2 + j2 + 1) as nat, s, d);
    } else {
        let i = u - b;
        let next = copy_name(body_label(bs), i + 1);
        let cond = loop_condition(bs);
        let ex = exit_label(bs);
        assert(term == (Inst::Branch { condition: Box::new(cond), then_label: next, else_label: ex }));
        assert(eval(m2, term, s, d) == Ok::<(i64, Machine), crate::interpreter::Fault>((0i64, s)));
        assert(run(m2, g, name2, j2, start2, s, d) == leave(m2, g, ub, start2, (j2 + 1) as nat, s, d));
        if s_h <= MAX_INSTRUCTIONS {
            assert(bs[h].insts[0] == bs[h].insts.last());
            assert(eval(m, bs[h].insts[0], s, d) == Ok::<(i64, Machine), crate::interpreter::Fault>((0i64, s)));
            assert(run(m, f, hn, 0, s_h, s, d) == leave(m, f, bs[h], s_h, 1, s, d));
            lemma_ustep_eval(m, fi, factor, g, cond, s, d);
            if let Ok((c, s1)) = eval(m, cond, s, d) {
                let t1 = if c != 0 {
                    body_label(bs)
                } else {
                    ex
                };
                let t2 = if c != 0 {
                    next
                } else {
                    ex
                };
                assert(leave(m, f, bs[h], s_h, 1, s, d) == run(m, f, t1, 0, s_h + 1, s1, d));
                assert(leave(m2, g, ub, start2, (j2 + 1) as nat, s, d) == run(m2, g, t2, 0, start2 + j2 + 1, s1, d));
                lemma_distinct_found(bs, b);
                lemma_find_block(bs, ex);
                let e = find_block(bs, ex)->0;
                lemma_distinct_found(bs, e);
                assert(find_last_block(ns, bs[e].name) == Some(upos(e, b, factor)));
                assert(find_last_block(ns, copy_name(body_label(bs), i + 1)) is Some);
                lemma_ustep_run(m, fi, factor, g, t1, 0, (s_h + 1) as nat, t2, 0, (start2 + j2 + 1) as nat, s1, d);
            }
        }
    }
}

/// Unrolling the functions from index `k0` on keeps what every function gives, when each of
/// them unrolls safely.
pub proof fn lemma_unroll_from_keeps(m: ModuleModel, k0: int, factor: int, changed: bool, k: int, args: Seq<i64>)
    requires
        factor > 1,
        forall|i: int| k0 <= i < m.functions.len() ==> unroll_safe(#[trigger] m.functions[i], factor),
        0 <= k < m.functions.len(),
    ensures
        unroll_from(m.functions, k0, factor, changed) matches Some((fs, c)) ==> fs.len() == m.functions.len()
            && (execute(m, m.functions[k], args) is Ok ==> execute(
            ModuleModel { name: m.name, functions: fs },
            fs[k],
            args,
        ) == execute(m, m.functions[k], args)),
    decreases m.functions.len() - k0,
{
    let fs = m.functions;
    if 0 <= k0 < fs.len() {
        match unroll_function(fs[k0], factor) {
            UnrollStep::Skip => {
                lemma_unroll_from_keeps(m, k0 + 1, factor, changed, k, args);
            },
            UnrollStep::Stop => {
                assert(ModuleModel { name: m.name, functions: fs } == m);
            },
            UnrollStep::Fail => {},
            UnrollStep::Done(g) => {
                let m1 = with_function(m, k0, g);
                lemma_unroll_layout(fs[k0], factor, g);
                lemma_ustep_call(m, k0, factor, g, k, args, Seq::empty(), 0);
                assert(forall|i: int| k0 + 1 <= i < m1.functions.len() ==> m1.functions[i] == fs[i]);
                lemma_unroll_from_keeps(m1, k0 + 1, factor, true, k, args);
            },
        }
    } else {
        assert(ModuleModel { name: m.name, functions: fs } == m);
    }
}

/// Loop unrolling keeps what every function gives: in a module where, in every function, no
/// two blocks share a name, terminators stand only at block ends, the header of the loop to
/// unroll holds nothing but its branch, and no block is already named like a copy of the loop
/// body, a function that gives a value on some arguments gives the same one after the pass.
pub proof fn law_unrolling_keeps_results(m: ModuleModel, factor: int, k: int, args: Seq<i64>)
    requires
        forall|i: int| 0 <= i < m.functions.len() ==> unroll_safe(#[trigger] m.functions[i], factor),
        0 <= k < m.functions.len(),
    ensures
        unroll_module(m, factor) matches Some((m2, c)) ==> m2.functions.len() == m.functions.len() && (execute(
            m,
            m.functions[k],
            args,
        ) is Ok ==> execute(m2, m2.functions[k], args) == execute(m, m.functions[k], args)),
{
    if factor > 1 {
        lemma_unroll_from_keeps(m, 0, factor, false, k, args);
    }
}

} // verus!
