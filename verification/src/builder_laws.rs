use vstd::prelude::*;
use crate::interpreter::{Fault, Machine, MAX_CALL_DEPTH, arith, bind, call, eval, execute, find_last_block, run};
use crate::ir::function::FunctionModel;
use crate::ir::module::{ModuleModel, find_function};
use crate::ir::value::{BinaryOp, CompareCondition};
use crate::module_builders::{array_reduce, at_least, bin, blk, factorial_memo, memo_size, gep, load, branch_heavy, call_chain, comp, complex_expr, cst, digital_root, entropy_loop, fib_loop, gcd_euclidean, gcd_seed, simple_sum, multi_exit, nested_loop, prefix_fill, prefix_size, prefix_sum, recursive_calls, ret, sum_example, triangle_numbers, two_phase_product, var};
use crate::ir::basic_block::BlockModel;

verus! {

/// A function of one parameter `x` whose single block returns `x op c` gives `arith(op, a, c)`
/// on the argument `a`, leaving the heap alone.
pub proof fn lemma_call_unary(m: ModuleModel, f: FunctionModel, op: BinaryOp, c: i64, a: i64, heap: Seq<i64>, d: u32)
    requires
        f.params == seq!["x"@],
        f.blocks == seq![blk("entry"@, seq![ret(bin(op, var("x"@), cst(c)))])],
        d <= MAX_CALL_DEPTH,
        arith(op, a, c) is Some,
    ensures
        call(m, f, seq![a], heap, d) == Ok::<(i64, Seq<i64>), Fault>((arith(op, a, c)->0, heap)),
{
    let env = bind(f.params, seq![a]);
    assert(env == Map::<Seq<char>, i64>::empty().insert("x"@, a)) by {
        reveal_with_fuel(crate::interpreter::bind_first, 2);
    }
    let s = Machine { env, heap };
    let body = bin(op, var("x"@), cst(c));
    assert(find_last_block(f.blocks, "entry"@) == Some(0int)) by {
        reveal_with_fuel(find_last_block, 2);
    }
    assert(eval(m, var("x"@), s, d) == Ok::<(i64, Machine), Fault>((a, s)));
    assert(eval(m, cst(c), s, d) == Ok::<(i64, Machine), Fault>((c, s)));
    assert(eval(m, body, s, d) == Ok::<(i64, Machine), Fault>((arith(op, a, c)->0, s)));
    assert(eval(m, ret(body), s, d) == Ok::<(i64, Machine), Fault>((arith(op, a, c)->0, s)));
    assert(run(m, f, "entry"@, 0, 0, s, d) == Ok::<(i64, Seq<i64>), Fault>((arith(op, a, c)->0, heap)));
}

/// A product that fits in 64 bits is computed exactly.
pub proof fn lemma_small_product(x: i64, c: i64)
    requires
        i64::MIN <= x * c <= i64::MAX,
    ensures
        arith(BinaryOp::Mul, x, c) == Some((x * c) as i64),
{
    let p = x * c;
    if p >= 0 {
        assert(p % 0x1_0000_0000_0000_0000int == p);
    } else {
        assert(p % 0x1_0000_0000_0000_0000int == p + 0x1_0000_0000_0000_0000int);
    }
}

/// The call chain computes `add(mul(n))`: its `main` gives `2 * n + 1`.
pub proof fn law_call_chain_computes(n: i32)
    ensures
        execute(call_chain(n), call_chain(n).functions[0], seq![]) == Ok::<i64, Fault>((2 * n + 1) as i64),
{
    let m = call_chain(n);
    let main = m.functions[0];
    let add = m.functions[1];
    let mul = m.functions[2];
    reveal_strlit("entry");
    reveal_strlit("call2");
    reveal_strlit("main");
    reveal_strlit("add");
    reveal_strlit("mul");
    reveal_strlit("x");
    reveal_strlit("v");
    reveal_strlit("t1");
    reveal_strlit("result");
    reveal_strlit("shadow_result");
    let v = n as i64;
    let twice = (2 * n) as i64;
    let out = (2 * n + 1) as i64;
    lemma_small_product(v, 2);
    assert(arith(BinaryOp::Add, twice, 1) == Some(out));
    let fs = m.functions;
    let fs1 = fs.drop_first();
    let fs2 = fs1.drop_first();
    assert(fs[0].name != "mul"@ && fs[0].name != "add"@) by {
        assert(fs[0].name.len() != "mul"@.len());
    }
    assert(fs1[0].name == "add"@);
    assert(fs1[0].name != "mul"@) by {
        assert(fs1[0].name[0] != "mul"@[0]);
    }
    assert(fs2[0].name == "mul"@);
    assert(find_function(fs2, "mul"@) == Some(0int));
    assert(find_function(fs1, "mul"@) == Some(1int));
    assert(find_function(fs, "mul"@) == Some(2int));
    assert(find_function(fs1, "add"@) == Some(0int));
    assert(find_function(fs, "add"@) == Some(1int));
    lemma_call_unary(m, mul, BinaryOp::Mul, 2, v, seq![], 1);
    lemma_call_unary(m, add, BinaryOp::Add, 1, twice, seq![], 1);
    let s0 = Machine { env: bind(seq![], seq![]), heap: seq![] };
    assert(s0.env == Map::<Seq<char>, i64>::empty());
    let e1 = s0.env.insert("v"@, v);
    let s1 = Machine { env: e1, heap: seq![] };
    let e2 = e1.insert("t1"@, twice);
    let s2 = Machine { env: e2, heap: seq![] };
    let e3 = e2.insert("result"@, out);
    let s3 = Machine { env: e3, heap: seq![] };
    let e4 = e3.insert("shadow_result"@, out);
    let s4 = Machine { env: e4, heap: seq![] };
    assert(main.blocks[1].name != "entry"@) by {
        assert(main.blocks[1].name[0] != "entry"@[0]);
    }
    assert(find_last_block(main.blocks.drop_last(), "entry"@) == Some(0int));
    assert(find_last_block(main.blocks, "entry"@) == Some(0int));
    assert(find_last_block(main.blocks, "call2"@) == Some(1int));
    let entry = main.blocks[0].insts;
    let call2 = main.blocks[1].insts;
    // entry: v = n; t1 = mul(v); jump call2
    assert(eval(m, cst(v), s0, 0) == Ok::<(i64, Machine), Fault>((v, s0)));
    assert(eval(m, entry[0], s0, 0) == Ok::<(i64, Machine), Fault>((v, s1)));
    let args1 = seq![var("v"@)];
    assert(eval(m, args1[0], s1, 0) == Ok::<(i64, Machine), Fault>((v, s1)));
    assert(crate::interpreter::eval_args(m, args1.drop_first(), s1, 0) == Ok::<(Seq<i64>, Machine), Fault>((seq![], s1)));
    assert(crate::interpreter::eval_args(m, args1, s1, 0) == Ok::<(Seq<i64>, Machine), Fault>((seq![v], s1))) by {
        assert(seq![v] + Seq::<i64>::empty() =~= seq![v]);
    }
    assert(eval(m, crate::module_builders::call1("mul"@, var("v"@)), s1, 0) == Ok::<(i64, Machine), Fault>((twice, s1)));
    assert(eval(m, entry[1], s1, 0) == Ok::<(i64, Machine), Fault>((twice, s2)));
    assert(eval(m, entry[2], s2, 0) == Ok::<(i64, Machine), Fault>((0, s2)));
    // call2: result = add(t1); shadow_result = t1 + 1; return result
    let args2 = seq![var("t1"@)];
    assert(eval(m, args2[0], s2, 0) == Ok::<(i64, Machine), Fault>((twice, s2)));
    assert(crate::interpreter::eval_args(m, args2.drop_first(), s2, 0) == Ok::<(Seq<i64>, Machine), Fault>((seq![], s2)));
    assert(crate::interpreter::eval_args(m, args2, s2, 0) == Ok::<(Seq<i64>, Machine), Fault>((seq![twice], s2))) by {
        assert(seq![twice] + Seq::<i64>::empty() =~= seq![twice]);
    }
    assert(eval(m, crate::module_builders::call1("add"@, var("t1"@)), s2, 0) == Ok::<(i64, Machine), Fault>((out, s2)));
    assert(eval(m, call2[0], s2, 0) == Ok::<(i64, Machine), Fault>((out, s3)));
    assert(e3["t1"@] == twice) by {
        assert("result"@.len() != "t1"@.len());
    }
    assert(e4["result"@] == out) by {
        assert("shadow_result"@.len() != "result"@.len());
    }
    assert(eval(m, var("t1"@), s3, 0) == Ok::<(i64, Machine), Fault>((twice, s3)));
    assert(eval(m, cst(1), s3, 0) == Ok::<(i64, Machine), Fault>((1, s3)));
    assert(eval(m, bin(BinaryOp::Add, var("t1"@), cst(1)), s3, 0) == Ok::<(i64, Machine), Fault>((out, s3)));
    assert(eval(m, call2[1], s3, 0) == Ok::<(i64, Machine), Fault>((out, s4)));
    assert(eval(m, var("result"@), s4, 0) == Ok::<(i64, Machine), Fault>((out, s4)));
    assert(eval(m, call2[2], s4, 0) == Ok::<(i64, Machine), Fault>((out, s4)));
    // the run, from the last step back
    assert(run(m, main, "call2"@, 2, 3, s4, 0) == Ok::<(i64, Seq<i64>), Fault>((out, seq![])));
    assert(run(m, main, "call2"@, 1, 3, s3, 0) == Ok::<(i64, Seq<i64>), Fault>((out, seq![])));
    assert(run(m, main, "call2"@, 0, 3, s2, 0) == Ok::<(i64, Seq<i64>), Fault>((out, seq![])));
    assert(crate::interpreter::leave(m, main, main.blocks[0], 0, 3, s2, 0) == Ok::<(i64, Seq<i64>), Fault>((out, seq![])));
    assert(run(m, main, "entry"@, 2, 0, s2, 0) == Ok::<(i64, Seq<i64>), Fault>((out, seq![])));
    assert(run(m, main, "entry"@, 1, 0, s1, 0) == Ok::<(i64, Seq<i64>), Fault>((out, seq![])));
    assert(run(m, main, "entry"@, 0, 0, s0, 0) == Ok::<(i64, Seq<i64>), Fault>((out, seq![])));
    assert(call(m, main, seq![], seq![], 0) == Ok::<(i64, Seq<i64>), Fault>((out, seq![])));
}

/// The multi-exit function gives `n` when `n` is positive and `-n` otherwise.
pub proof fn law_multi_exit_computes(n: i32)
    ensures
        execute(multi_exit(n), multi_exit(n).functions[0], seq![]) == Ok::<i64, Fault>(
            if n > 0 { n as i64 } else { (-n) as i64 },
        ),
{
    let m = multi_exit(n);
    let f = m.functions[0];
    let bs = f.blocks;
    reveal_strlit("entry");
    reveal_strlit("cond");
    reveal_strlit("path_a");
    reveal_strlit("path_b");
    reveal_strlit("x");
    reveal_strlit("track_a");
    reveal_strlit("track_b");
    reveal_strlit("a_temp");
    reveal_strlit("b_temp");
    let v = n as i64;
    assert(bs[3].name != "path_a"@) by {
        assert(bs[3].name[5] != "path_a"@[5]);
    }
    assert(bs[3].name != "cond"@ && bs[2].name != "cond"@ && bs[3].name != "entry"@ && bs[2].name != "entry"@) by {
        assert(bs[3].name.len() != "cond"@.len() && bs[3].name.len() != "entry"@.len());
    }
    assert(bs[1].name != "entry"@) by {
        assert(bs[1].name.len() != "entry"@.len());
    }
    assert(find_last_block(bs, "path_b"@) == Some(3int));
    assert(find_last_block(bs.drop_last(), "path_a"@) == Some(2int));
    assert(find_last_block(bs, "path_a"@) == Some(2int));
    assert(find_last_block(bs.drop_last().drop_last(), "cond"@) == Some(1int));
    assert(find_last_block(bs.drop_last(), "cond"@) == Some(1int));
    assert(find_last_block(bs, "cond"@) == Some(1int));
    assert(find_last_block(bs.drop_last().drop_last().drop_last(), "entry"@) == Some(0int));
    assert(find_last_block(bs.drop_last().drop_last(), "entry"@) == Some(0int));
    assert(find_last_block(bs.drop_last(), "entry"@) == Some(0int));
    assert(find_last_block(bs, "entry"@) == Some(0int));
    let s0 = Machine { env: bind(seq![], seq![]), heap: seq![] };
    assert(s0.env == Map::<Seq<char>, i64>::empty());
    let e1 = s0.env.insert("x"@, v);
    let e2 = e1.insert("track_a"@, 0);
    let e3 = e2.insert("track_b"@, 0);
    let s1 = Machine { env: e1, heap: seq![] };
    let s2 = Machine { env: e2, heap: seq![] };
    let s3 = Machine { env: e3, heap: seq![] };
    assert(e3["x"@] == v) by {
        assert("track_a"@.len() != "x"@.len());
        assert("track_b"@.len() != "x"@.len());
    }
    let entry = bs[0].insts;
    assert(eval(m, cst(v), s0, 0) == Ok::<(i64, Machine), Fault>((v, s0)));
    assert(eval(m, entry[0], s0, 0) == Ok::<(i64, Machine), Fault>((v, s1)));
    assert(eval(m, cst(0), s1, 0) == Ok::<(i64, Machine), Fault>((0, s1)));
    assert(eval(m, entry[1], s1, 0) == Ok::<(i64, Machine), Fault>((0, s2)));
    assert(eval(m, cst(0), s2, 0) == Ok::<(i64, Machine), Fault>((0, s2)));
    assert(eval(m, entry[2], s2, 0) == Ok::<(i64, Machine), Fault>((0, s3)));
    assert(eval(m, entry[3], s3, 0) == Ok::<(i64, Machine), Fault>((0, s3)));
    let cond = comp(CompareCondition::Gt, var("x"@), cst(0));
    let c: i64 = if v > 0 { 1 } else { 0 };
    assert(eval(m, var("x"@), s3, 0) == Ok::<(i64, Machine), Fault>((v, s3)));
    assert(eval(m, cst(0), s3, 0) == Ok::<(i64, Machine), Fault>((0, s3)));
    assert(eval(m, cond, s3, 0) == Ok::<(i64, Machine), Fault>((c, s3)));
    assert(eval(m, bs[1].insts[0], s3, 0) == Ok::<(i64, Machine), Fault>((0, s3)));
    let out: i64 = if n > 0 { n as i64 } else { (-n) as i64 };
    if n > 0 {
        let pa = bs[2].insts;
        let e4 = e3.insert("track_a"@, (v + 10) as i64);
        let e5 = e4.insert("a_temp"@, 999);
        let s4 = Machine { env: e4, heap: seq![] };
        let s5 = Machine { env: e5, heap: seq![] };
        assert(e5["x"@] == v) by {
            assert("track_a"@.len() != "x"@.len());
            assert("a_temp"@.len() != "x"@.len());
        }
        assert(eval(m, var("x"@), s3, 0) == Ok::<(i64, Machine), Fault>((v, s3)));
        assert(eval(m, cst(10), s3, 0) == Ok::<(i64, Machine), Fault>((10, s3)));
        assert(eval(m, bin(BinaryOp::Add, var("x"@), cst(10)), s3, 0) == Ok::<(i64, Machine), Fault>(((v + 10) as i64, s3)));
        assert(eval(m, pa[0], s3, 0) == Ok::<(i64, Machine), Fault>(((v + 10) as i64, s4)));
        assert(eval(m, cst(999), s4, 0) == Ok::<(i64, Machine), Fault>((999, s4)));
        assert(eval(m, pa[1], s4, 0) == Ok::<(i64, Machine), Fault>((999, s5)));
        assert(eval(m, var("x"@), s5, 0) == Ok::<(i64, Machine), Fault>((v, s5)));
        assert(eval(m, pa[2], s5, 0) == Ok::<(i64, Machine), Fault>((v, s5)));
        assert(run(m, f, "path_a"@, 2, 5, s5, 0) == Ok::<(i64, Seq<i64>), Fault>((out, seq![])));
        assert(run(m, f, "path_a"@, 1, 5, s4, 0) == Ok::<(i64, Seq<i64>), Fault>((out, seq![])));
        assert(run(m, f, "path_a"@, 0, 5, s3, 0) == Ok::<(i64, Seq<i64>), Fault>((out, seq![])));
    } else {
        let pb = bs[3].insts;
        let e4 = e3.insert("track_b"@, (v - 5) as i64);
        let e5 = e4.insert("b_temp"@, 999);
        let s4 = Machine { env: e4, heap: seq![] };
        let s5 = Machine { env: e5, heap: seq![] };
        assert(e3["x"@] == v);
        assert(eval(m, var("x"@), s3, 0) == Ok::<(i64, Machine), Fault>((v, s3)));
        assert(eval(m, cst(5), s3, 0) == Ok::<(i64, Machine), Fault>((5, s3)));
        assert(eval(m, bin(BinaryOp::Sub, var("x"@), cst(5)), s3, 0) == Ok::<(i64, Machine), Fault>(((v - 5) as i64, s3)));
        assert(eval(m, pb[0], s3, 0) == Ok::<(i64, Machine), Fault>(((v - 5) as i64, s4)));
        assert(eval(m, cst(999), s4, 0) == Ok::<(i64, Machine), Fault>((999, s4)));
        assert(eval(m, pb[1], s4, 0) == Ok::<(i64, Machine), Fault>((999, s5)));
        assert(eval(m, cst(out), s5, 0) == Ok::<(i64, Machine), Fault>((out, s5)));
        assert(eval(m, pb[2], s5, 0) == Ok::<(i64, Machine), Fault>((out, s5)));
        assert(run(m, f, "path_b"@, 2, 5, s5, 0) == Ok::<(i64, Seq<i64>), Fault>((out, seq![])));
        assert(run(m, f, "path_b"@, 1, 5, s4, 0) == Ok::<(i64, Seq<i64>), Fault>((out, seq![])));
        assert(run(m, f, "path_b"@, 0, 5, s3, 0) == Ok::<(i64, Seq<i64>), Fault>((out, seq![])));
    }
    assert(crate::interpreter::leave(m, f, bs[1], 4, 1, s3, 0) == Ok::<(i64, Seq<i64>), Fault>((out, seq![])));
    assert(run(m, f, "cond"@, 0, 4, s3, 0) == Ok::<(i64, Seq<i64>), Fault>((out, seq![])));
    assert(crate::interpreter::leave(m, f, bs[0], 0, 4, s3, 0) == Ok::<(i64, Seq<i64>), Fault>((out, seq![])));
    assert(run(m, f, "entry"@, 3, 0, s3, 0) == Ok::<(i64, Seq<i64>), Fault>((out, seq![])));
    assert(run(m, f, "entry"@, 2, 0, s2, 0) == Ok::<(i64, Seq<i64>), Fault>((out, seq![])));
    assert(run(m, f, "entry"@, 1, 0, s1, 0) == Ok::<(i64, Seq<i64>), Fault>((out, seq![])));
    assert(run(m, f, "entry"@, 0, 0, s0, 0) == Ok::<(i64, Seq<i64>), Fault>((out, seq![])));
    assert(call(m, f, seq![], seq![], 0) == Ok::<(i64, Seq<i64>), Fault>((out, seq![])));
}

/// The two-phase product gives `n * 3 + n * 7`.
pub proof fn law_two_phase_product_computes(n: i32)
    ensures
        execute(two_phase_product(n), two_phase_product(n).functions[0], seq![]) == Ok::<i64, Fault>(
            (n * 3 + n * 7) as i64,
        ),
{
    let m = two_phase_product(n);
    let f = m.functions[0];
    let bs = f.blocks;
    reveal_strlit("entry");
    reveal_strlit("compute");
    reveal_strlit("a");
    reveal_strlit("b");
    reveal_strlit("c");
    reveal_strlit("d");
    reveal_strlit("ab");
    reveal_strlit("cd");
    reveal_strlit("intermed_sum");
    let v = n as i64;
    let p = (n * 3) as i64;
    let q = (n * 7) as i64;
    let out = (n * 3 + n * 7) as i64;
    lemma_small_product(v, 3);
    lemma_small_product(v, 7);
    assert(arith(BinaryOp::Add, p, q) == Some(out));
    assert(bs[1].name != "entry"@) by {
        assert(bs[1].name.len() != "entry"@.len());
    }
    assert(find_last_block(bs.drop_last(), "entry"@) == Some(0int));
    assert(find_last_block(bs, "entry"@) == Some(0int));
    assert(find_last_block(bs, "compute"@) == Some(1int));
    let names = seq!["a"@, "b"@, "c"@, "d"@, "ab"@, "cd"@, "intermed_sum"@];
    assert forall|i: int, j: int| 0 <= i < j < 7 implies #[trigger] names[i] != #[trigger] names[j] by {
        if names[i].len() == names[j].len() {
            assert(names[i][0] != names[j][0]);
        }
    }
    let s0 = Machine { env: bind(seq![], seq![]), heap: seq![] };
    assert(s0.env == Map::<Seq<char>, i64>::empty());
    let e1 = s0.env.insert("a"@, v);
    let e2 = e1.insert("b"@, 3);
    let e3 = e2.insert("c"@, v);
    let e4 = e3.insert("d"@, 7);
    let e5 = e4.insert("ab"@, 0);
    let e6 = e5.insert("cd"@, 0);
    let e7 = e6.insert("intermed_sum"@, 0);
    let e8 = e7.insert("ab"@, p);
    let e9 = e8.insert("cd"@, q);
    let e10 = e9.insert("intermed_sum"@, out);
    let s = |e: Map<Seq<char>, i64>| Machine { env: e, heap: seq![] };
    assert(names[0] == "a"@ && names[1] == "b"@ && names[2] == "c"@ && names[3] == "d"@);
    assert(names[4] == "ab"@ && names[5] == "cd"@ && names[6] == "intermed_sum"@);
    assert(e7["a"@] == v && e7["b"@] == 3 && e7["c"@] == v && e7["d"@] == 7);
    assert(e8["c"@] == v && e8["d"@] == 7);
    assert(e9["ab"@] == p && e9["cd"@] == q);
    assert(e10["ab"@] == p && e10["cd"@] == q);
    let entry = bs[0].insts;
    let comp_b = bs[1].insts;
    assert(eval(m, cst(v), s(s0.env), 0) == Ok::<(i64, Machine), Fault>((v, s(s0.env))));
    assert(eval(m, entry[0], s0, 0) == Ok::<(i64, Machine), Fault>((v, s(e1))));
    assert(eval(m, cst(3), s(e1), 0) == Ok::<(i64, Machine), Fault>((3, s(e1))));
    assert(eval(m, entry[1], s(e1), 0) == Ok::<(i64, Machine), Fault>((3, s(e2))));
    assert(eval(m, cst(v), s(e2), 0) == Ok::<(i64, Machine), Fault>((v, s(e2))));
    assert(eval(m, entry[2], s(e2), 0) == Ok::<(i64, Machine), Fault>((v, s(e3))));
    assert(eval(m, cst(7), s(e3), 0) == Ok::<(i64, Machine), Fault>((7, s(e3))));
    assert(eval(m, entry[3], s(e3), 0) == Ok::<(i64, Machine), Fault>((7, s(e4))));
    assert(eval(m, cst(0), s(e4), 0) == Ok::<(i64, Machine), Fault>((0, s(e4))));
    assert(eval(m, entry[4], s(e4), 0) == Ok::<(i64, Machine), Fault>((0, s(e5))));
    assert(eval(m, cst(0), s(e5), 0) == Ok::<(i64, Machine), Fault>((0, s(e5))));
    assert(eval(m, entry[5], s(e5), 0) == Ok::<(i64, Machine), Fault>((0, s(e6))));
    assert(eval(m, cst(0), s(e6), 0) == Ok::<(i64, Machine), Fault>((0, s(e6))));
    assert(eval(m, entry[6], s(e6), 0) == Ok::<(i64, Machine), Fault>((0, s(e7))));
    assert(eval(m, entry[7], s(e7), 0) == Ok::<(i64, Machine), Fault>((0, s(e7))));
    assert(eval(m, var("a"@), s(e7), 0) == Ok::<(i64, Machine), Fault>((v, s(e7))));
    assert(eval(m, var("b"@), s(e7), 0) == Ok::<(i64, Machine), Fault>((3, s(e7))));
    assert(eval(m, bin(BinaryOp::Mul, var("a"@), var("b"@)), s(e7), 0) == Ok::<(i64, Machine), Fault>((p, s(e7))));
    assert(eval(m, comp_b[0], s(e7), 0) == Ok::<(i64, Machine), Fault>((p, s(e8))));
    assert(eval(m, var("c"@), s(e8), 0) == Ok::<(i64, Machine), Fault>((v, s(e8))));
    assert(eval(m, var("d"@), s(e8), 0) == Ok::<(i64, Machine), Fault>((7, s(e8))));
    assert(eval(m, bin(BinaryOp::Mul, var("c"@), var("d"@)), s(e8), 0) == Ok::<(i64, Machine), Fault>((q, s(e8))));
    assert(eval(m, comp_b[1], s(e8), 0) == Ok::<(i64, Machine), Fault>((q, s(e9))));
    assert(eval(m, var("ab"@), s(e9), 0) == Ok::<(i64, Machine), Fault>((p, s(e9))));
    assert(eval(m, var("cd"@), s(e9), 0) == Ok::<(i64, Machine), Fault>((q, s(e9))));
    assert(eval(m, bin(BinaryOp::Add, var("ab"@), var("cd"@)), s(e9), 0) == Ok::<(i64, Machine), Fault>((out, s(e9))));
    assert(eval(m, comp_b[2], s(e9), 0) == Ok::<(i64, Machine), Fault>((out, s(e10))));
    assert(eval(m, var("ab"@), s(e10), 0) == Ok::<(i64, Machine), Fault>((p, s(e10))));
    assert(eval(m, var("cd"@), s(e10), 0) == Ok::<(i64, Machine), Fault>((q, s(e10))));
    assert(eval(m, bin(BinaryOp::Add, var("ab"@), var("cd"@)), s(e10), 0) == Ok::<(i64, Machine), Fault>((out, s(e10))));
    assert(eval(m, comp_b[3], s(e10), 0) == Ok::<(i64, Machine), Fault>((out, s(e10))));
    assert(run(m, f, "compute"@, 3, 8, s(e10), 0) == Ok::<(i64, Seq<i64>), Fault>((out, seq![])));
    assert(run(m, f, "compute"@, 2, 8, s(e9), 0) == Ok::<(i64, Seq<i64>), Fault>((out, seq![])));
    assert(run(m, f, "compute"@, 1, 8, s(e8), 0) == Ok::<(i64, Seq<i64>), Fault>((out, seq![])));
    assert(run(m, f, "compute"@, 0, 8, s(e7), 0) == Ok::<(i64, Seq<i64>), Fault>((out, seq![])));
    assert(crate::interpreter::leave(m, f, bs[0], 0, 8, s(e7), 0) == Ok::<(i64, Seq<i64>), Fault>((out, seq![])));
    assert(run(m, f, "entry"@, 7, 0, s(e7), 0) == Ok::<(i64, Seq<i64>), Fault>((out, seq![])));
    assert(run(m, f, "entry"@, 6, 0, s(e6), 0) == Ok::<(i64, Seq<i64>), Fault>((out, seq![])));
    assert(run(m, f, "entry"@, 5, 0, s(e5), 0) == Ok::<(i64, Seq<i64>), Fault>((out, seq![])));
    assert(run(m, f, "entry"@, 4, 0, s(e4), 0) == Ok::<(i64, Seq<i64>), Fault>((out, seq![])));
    assert(run(m, f, "entry"@, 3, 0, s(e3), 0) == Ok::<(i64, Seq<i64>), Fault>((out, seq![])));
    assert(run(m, f, "entry"@, 2, 0, s(e2), 0) == Ok::<(i64, Seq<i64>), Fault>((out, seq![])));
    assert(run(m, f, "entry"@, 1, 0, s(e1), 0) == Ok::<(i64, Seq<i64>), Fault>((out, seq![])));
    assert(run(m, f, "entry"@, 0, 0, s0, 0) == Ok::<(i64, Seq<i64>), Fault>((out, seq![])));
    assert(call(m, f, seq![], seq![], 0) == Ok::<(i64, Seq<i64>), Fault>((out, seq![])));
}

/// The sum of the integers from 0 up to, not including, `k`.
pub open spec fn sum_below(k: int) -> int
    decreases k,
{
    if k <= 0 {
        0
    } else {
        sum_below(k - 1) + (k - 1)
    }
}

/// The sum below `k` is `k * (k - 1) / 2`.
pub proof fn lemma_sum_below_closed(k: int)
    requires
        k >= 0,
    ensures
        sum_below(k) == k * (k - 1) / 2,
    decreases k,
{
    if k > 0 {
        let j = k - 1;
        lemma_sum_below_closed(j);
        assert(sum_below(j) == j * (j - 1) / 2);
        assert(sum_below(k) == sum_below(j) + j);
        assert(j * (j - 1) / 2 + j == (j + 1) * j / 2) by (nonlinear_arith)
            requires
                j >= 0,
        {
            assert((j + 1) * j == j * (j - 1) + 2 * j);
        }
    } else {
        assert(k * (k - 1) == 0) by (nonlinear_arith)
            requires
                k == 0,
        ;
    }
}

/// Below 2500 the sum stays small.
pub proof fn lemma_sum_below_bound(k: int)
    requires
        0 <= k <= 2500,
    ensures
        0 <= sum_below(k) <= k * 2500,
    decreases k,
{
    if k > 0 {
        lemma_sum_below_bound(k - 1);
    }
}

/// The variables of the summing demo after `j` turns of its loop.
pub open spec fn sum_env(j: int, v: i64) -> Map<Seq<char>, i64> {
    Map::<Seq<char>, i64>::empty().insert("i"@, j as i64).insert("sum"@, sum_below(j) as i64).insert("n"@, v)
}

/// From the loop test after `j` turns, the summing demo returns the sum below `k`.
proof fn lemma_sum_loop(n: i32, j: int)
    requires
        0 <= j <= n,
        n <= 2498,
    ensures
        run(
            sum_example(n),
            sum_example(n).functions[0],
            "loop_cond"@,
            0,
            (4 + 4 * j) as nat,
            Machine { env: sum_env(j, n as i64), heap: seq![] },
            0,
        ) == Ok::<(i64, Seq<i64>), Fault>((sum_below(n as int) as i64, seq![])),
    decreases n - j,
{
    let m = sum_example(n);
    let f = m.functions[0];
    let bs = f.blocks;
    reveal_strlit("entry");
    reveal_strlit("loop_cond");
    reveal_strlit("loop_body");
    reveal_strlit("exit");
    reveal_strlit("i");
    reveal_strlit("sum");
    reveal_strlit("n");
    let v = n as i64;
    let env = sum_env(j, v);
    let s = Machine { env, heap: seq![] };
    let start = (4 + 4 * j) as nat;
    let out = sum_below(n as int) as i64;
    assert("i"@ != "n"@) by {
        assert("i"@[0] != "n"@[0]);
    }
    assert("sum"@.len() != "i"@.len() && "sum"@.len() != "n"@.len());
    assert(env["i"@] == j as i64 && env["sum"@] == sum_below(j) as i64 && env["n"@] == v);
    assert(bs[3].name != "loop_cond"@ && bs[3].name != "loop_body"@) by {
        assert(bs[3].name.len() != "loop_cond"@.len());
    }
    assert(bs[2].name != "loop_cond"@) by {
        assert(bs[2].name[5] != "loop_cond"@[5]);
    }
    assert(find_last_block(bs, "exit"@) == Some(3int));
    assert(find_last_block(bs.drop_last(), "loop_body"@) == Some(2int));
    assert(find_last_block(bs, "loop_body"@) == Some(2int));
    assert(find_last_block(bs.drop_last().drop_last(), "loop_cond"@) == Some(1int));
    assert(find_last_block(bs.drop_last(), "loop_cond"@) == Some(1int));
    assert(find_last_block(bs, "loop_cond"@) == Some(1int));
    let cond = comp(CompareCondition::Lt, var("i"@), var("n"@));
    let c: i64 = if j < n { 1 } else { 0 };
    assert(eval(m, var("i"@), s, 0) == Ok::<(i64, Machine), Fault>((j as i64, s)));
    assert(eval(m, var("n"@), s, 0) == Ok::<(i64, Machine), Fault>((v, s)));
    assert(eval(m, cond, s, 0) == Ok::<(i64, Machine), Fault>((c, s)));
    assert(eval(m, bs[1].insts[0], s, 0) == Ok::<(i64, Machine), Fault>((0, s)));
    if j < n {
        lemma_sum_below_bound(j + 1);
        let tot = (sum_below(j) + j) as i64;
        let e1 = env.insert("sum"@, tot);
        let e2 = e1.insert("i"@, (j + 1) as i64);
        let s1 = Machine { env: e1, heap: seq![] };
        let s2 = Machine { env: e2, heap: seq![] };
        let body = bs[2].insts;
        assert(eval(m, var("sum"@), s, 0) == Ok::<(i64, Machine), Fault>((sum_below(j) as i64, s)));
        assert(eval(m, bin(BinaryOp::Add, var("sum"@), var("i"@)), s, 0) == Ok::<(i64, Machine), Fault>((tot, s)));
        assert(eval(m, body[0], s, 0) == Ok::<(i64, Machine), Fault>((tot, s1)));
        assert(e1["i"@] == j as i64);
        assert(eval(m, var("i"@), s1, 0) == Ok::<(i64, Machine), Fault>((j as i64, s1)));
        assert(eval(m, cst(1), s1, 0) == Ok::<(i64, Machine), Fault>((1, s1)));
        assert(eval(m, bin(BinaryOp::Add, var("i"@), cst(1)), s1, 0) == Ok::<(i64, Machine), Fault>(((j + 1) as i64, s1)));
        assert(eval(m, body[1], s1, 0) == Ok::<(i64, Machine), Fault>(((j + 1) as i64, s2)));
        assert(eval(m, body[2], s2, 0) == Ok::<(i64, Machine), Fault>((0, s2)));
        assert(e2 =~= sum_env(j + 1, v));
        lemma_sum_loop(n, j + 1);
        assert(run(m, f, "loop_cond"@, 0, (4 + 4 * (j + 1)) as nat, s2, 0) == Ok::<(i64, Seq<i64>), Fault>((out, seq![])));
        assert(crate::interpreter::leave(m, f, bs[2], start + 1, 3, s2, 0) == Ok::<(i64, Seq<i64>), Fault>((out, seq![])));
        assert(run(m, f, "loop_body"@, 2, start + 1, s2, 0) == Ok::<(i64, Seq<i64>), Fault>((out, seq![])));
        assert(run(m, f, "loop_body"@, 1, start + 1, s1, 0) == Ok::<(i64, Seq<i64>), Fault>((out, seq![])));
        assert(run(m, f, "loop_body"@, 0, start + 1, s, 0) == Ok::<(i64, Seq<i64>), Fault>((out, seq![])));
    } else {
        assert(eval(m, var("sum"@), s, 0) == Ok::<(i64, Machine), Fault>((out, s)));
        assert(eval(m, bs[3].insts[0], s, 0) == Ok::<(i64, Machine), Fault>((out, s)));
        assert(run(m, f, "exit"@, 0, start + 1, s, 0) == Ok::<(i64, Seq<i64>), Fault>((out, seq![])));
    }
    assert(crate::interpreter::leave(m, f, bs[1], start, 1, s, 0) == Ok::<(i64, Seq<i64>), Fault>((out, seq![])));
}

/// The summing demo returns the sum of `0..n`, `n * (n - 1) / 2` (0 when `n` is not
/// positive), for every `n` whose loop fits in the interpreter's step limit.
pub proof fn law_sum_example_computes(n: i32)
    requires
        n <= 2498,
    ensures
        execute(sum_example(n), sum_example(n).functions[0], seq![]) == Ok::<i64, Fault>(sum_below(n as int) as i64),
        n >= 0 ==> sum_below(n as int) == n * (n - 1) / 2,
{
    if n >= 0 {
        lemma_sum_below_closed(n as int);
    }
    let m = sum_example(n);
    let f = m.functions[0];
    let bs = f.blocks;
    reveal_strlit("entry");
    reveal_strlit("loop_cond");
    reveal_strlit("loop_body");
    reveal_strlit("exit");
    reveal_strlit("i");
    reveal_strlit("sum");
    reveal_strlit("n");
    let v = n as i64;
    let out = sum_below(n as int) as i64;
    assert("i"@ != "n"@) by {
        assert("i"@[0] != "n"@[0]);
    }
    assert("sum"@.len() != "i"@.len() && "sum"@.len() != "n"@.len());
    assert(bs[3].name != "entry"@ && bs[2].name != "entry"@ && bs[1].name != "entry"@) by {
        assert(bs[3].name.len() != "entry"@.len() && bs[2].name.len() != "entry"@.len()
            && bs[1].name.len() != "entry"@.len());
    }
    assert(find_last_block(bs.drop_last().drop_last().drop_last(), "entry"@) == Some(0int));
    assert(find_last_block(bs.drop_last().drop_last(), "entry"@) == Some(0int));
    assert(find_last_block(bs.drop_last(), "entry"@) == Some(0int));
    assert(find_last_block(bs, "entry"@) == Some(0int));
    let s0 = Machine { env: bind(seq![], seq![]), heap: seq![] };
    assert(s0.env == Map::<Seq<char>, i64>::empty());
    let e1 = s0.env.insert("i"@, 0);
    let e2 = e1.insert("sum"@, 0);
    let e3 = e2.insert("n"@, v);
    let s1 = Machine { env: e1, heap: seq![] };
    let s2 = Machine { env: e2, heap: seq![] };
    let s3 = Machine { env: e3, heap: seq![] };
    let entry = bs[0].insts;
    assert(eval(m, cst(0), s0, 0) == Ok::<(i64, Machine), Fault>((0, s0)));
    assert(eval(m, entry[0], s0, 0) == Ok::<(i64, Machine), Fault>((0, s1)));
    assert(eval(m, cst(0), s1, 0) == Ok::<(i64, Machine), Fault>((0, s1)));
    assert(eval(m, entry[1], s1, 0) == Ok::<(i64, Machine), Fault>((0, s2)));
    assert(eval(m, cst(v), s2, 0) == Ok::<(i64, Machine), Fault>((v, s2)));
    assert(eval(m, entry[2], s2, 0) == Ok::<(i64, Machine), Fault>((v, s3)));
    assert(eval(m, entry[3], s3, 0) == Ok::<(i64, Machine), Fault>((0, s3)));
    let r = run(m, f, "loop_cond"@, 0, 4, s3, 0);
    if n >= 0 {
        assert(e3 =~= sum_env(0, v));
        lemma_sum_loop(n, 0);
        assert(r == Ok::<(i64, Seq<i64>), Fault>((out, seq![])));
    } else {
        assert(bs[3].name != "loop_cond"@) by {
            assert(bs[3].name.len() != "loop_cond"@.len());
        }
        assert(bs[2].name != "loop_cond"@) by {
            assert(bs[2].name[5] != "loop_cond"@[5]);
        }
        assert(find_last_block(bs, "exit"@) == Some(3int));
        assert(find_last_block(bs.drop_last().drop_last(), "loop_cond"@) == Some(1int));
        assert(find_last_block(bs.drop_last(), "loop_cond"@) == Some(1int));
        assert(find_last_block(bs, "loop_cond"@) == Some(1int));
        assert(e3["i"@] == 0 && e3["n"@] == v && e3["sum"@] == 0);
        let cond = comp(CompareCondition::Lt, var("i"@), var("n"@));
        assert(eval(m, var("i"@), s3, 0) == Ok::<(i64, Machine), Fault>((0, s3)));
        assert(eval(m, var("n"@), s3, 0) == Ok::<(i64, Machine), Fault>((v, s3)));
        assert(eval(m, cond, s3, 0) == Ok::<(i64, Machine), Fault>((0, s3)));
        assert(eval(m, bs[1].insts[0], s3, 0) == Ok::<(i64, Machine), Fault>((0, s3)));
        assert(eval(m, var("sum"@), s3, 0) == Ok::<(i64, Machine), Fault>((0, s3)));
        assert(eval(m, bs[3].insts[0], s3, 0) == Ok::<(i64, Machine), Fault>((0, s3)));
        assert(run(m, f, "exit"@, 0, 5, s3, 0) == Ok::<(i64, Seq<i64>), Fault>((0, seq![])));
        assert(crate::interpreter::leave(m, f, bs[1], 4, 1, s3, 0) == Ok::<(i64, Seq<i64>), Fault>((0, seq![])));
        assert(r == Ok::<(i64, Seq<i64>), Fault>((out, seq![])));
    }
    assert(crate::interpreter::leave(m, f, bs[0], 0, 4, s3, 0) == r);
    assert(run(m, f, "entry"@, 3, 0, s3, 0) == r);
    assert(run(m, f, "entry"@, 2, 0, s2, 0) == r);
    assert(run(m, f, "entry"@, 1, 0, s1, 0) == r);
    assert(run(m, f, "entry"@, 0, 0, s0, 0) == r);
    assert(call(m, f, seq![], seq![], 0) == r);
}

/// The sum of the decimal digits of `x` (0 when `x` is not positive).
pub open spec fn digit_sum(x: int) -> int
    decreases x,
{
    if x <= 0 {
        0
    } else {
        x % 10 + digit_sum(x / 10)
    }
}

/// The number of decimal digits of `x` (0 when `x` is not positive).
pub open spec fn digit_count(x: int) -> int
    decreases x,
{
    if x <= 0 {
        0
    } else {
        1 + digit_count(x / 10)
    }
}

/// A digit sum is at most nine per digit, at least one for a positive number, and less
/// than the number from two digits on.
pub proof fn lemma_digit_sum_bounds(x: int)
    requires
        x >= 0,
    ensures
        0 <= digit_sum(x) <= 9 * digit_count(x),
        digit_count(x) >= 0,
        x >= 1 ==> digit_sum(x) >= 1,
        x >= 10 ==> digit_sum(x) < x,
    decreases x,
{
    if x > 0 {
        lemma_digit_sum_bounds(x / 10);
        if x >= 10 {
            assert(x / 10 >= 1);
            if x / 10 >= 10 {
            } else {
                let y = x / 10;
                assert(y % 10 == y && y / 10 == 0);
                assert(digit_sum(0) == 0);
                assert(digit_sum(y) == y);
            }
            assert(x == 10 * (x / 10) + x % 10);
        }
    }
}

/// A number below `10^k` has at most `k` digits.
pub proof fn lemma_digit_count_below(x: int, k: int, p: int)
    requires
        0 <= x < p,
        k >= 0,
        p == vstd::arithmetic::power::pow(10, k as nat),
    ensures
        digit_count(x) <= k,
    decreases k,
{
    reveal(vstd::arithmetic::power::pow);
    if x > 0 {
        if k == 0 {
            assert(p == 1);
        } else {
            let q = vstd::arithmetic::power::pow(10, (k - 1) as nat);
            assert(p == 10 * q);
            assert(x / 10 < q);
            lemma_digit_count_below(x / 10, k - 1, q);
        }
    }
}

/// The digital root: digits summed again and again until one digit is left.
pub open spec fn digital_root_of(x: int) -> int
    decreases x,
{
    if x <= 9 {
        x
    } else {
        proof {
            lemma_digit_sum_bounds(x);
        }
        digital_root_of(digit_sum(x))
    }
}

/// Instructions the digital-root function runs from its loop test on, with `x` still to
/// be summed into `s`.
pub open spec fn root_cost(x: nat, s: nat) -> nat
    decreases s + digit_sum(x as int), x,
{
    proof {
        lemma_digit_sum_bounds(x as int);
        lemma_digit_sum_bounds(s as int);
    }
    if x > 0 {
        proof {
            lemma_digit_sum_bounds((x / 10) as int);
        }
        6 + root_cost(x / 10, s + x % 10)
    } else if s > 9 {
        5 + root_cost(s, 0)
    } else {
        3
    }
}

/// In a list of blocks with distinct names, a block's name leads to it.
pub proof fn lemma_find_last_distinct(bs: Seq<BlockModel>, k: int)
    requires
        0 <= k < bs.len(),
        forall|i: int, j: int| 0 <= i < j < bs.len() ==> #[trigger] bs[i].name != #[trigger] bs[j].name,
    ensures
        find_last_block(bs, bs[k].name) == Some(k),
    decreases bs.len(),
{
    if k < bs.len() - 1 {
        assert(bs.last().name != bs[k].name);
        lemma_find_last_distinct(bs.drop_last(), k);
        assert(bs.drop_last()[k] == bs[k]);
    }
}

/// The names of the digital-root function's blocks and variables differ.
proof fn lemma_root_names(n: i32)
    ensures
        forall|i: int, j: int|
            0 <= i < j < digital_root(n).functions[0].blocks.len() ==> #[trigger] digital_root(n).functions[0].blocks[i].name
                != #[trigger] digital_root(n).functions[0].blocks[j].name,
        digital_root(n).functions[0].blocks.len() == 6,
        digital_root(n).functions[0].blocks[1].name == "loop"@,
        digital_root(n).functions[0].blocks[2].name == "body"@,
        digital_root(n).functions[0].blocks[3].name == "check"@,
        digital_root(n).functions[0].blocks[4].name == "again"@,
        digital_root(n).functions[0].blocks[5].name == "exit"@,
        "x"@ != "sum"@ && "x"@ != "iterations"@ && "x"@ != "digit"@,
        "sum"@ != "iterations"@ && "sum"@ != "digit"@ && "iterations"@ != "digit"@,
{
    reveal_strlit("entry");
    reveal_strlit("loop");
    reveal_strlit("body");
    reveal_strlit("check");
    reveal_strlit("again");
    reveal_strlit("exit");
    reveal_strlit("x");
    reveal_strlit("sum");
    reveal_strlit("iterations");
    reveal_strlit("digit");
    let bs = digital_root(n).functions[0].blocks;
    assert forall|i: int, j: int| 0 <= i < j < bs.len() implies #[trigger] bs[i].name != #[trigger] bs[j].name by {
        if bs[i].name.len() == bs[j].name.len() {
            assert(bs[i].name[0] != bs[j].name[0]);
        }
    }
    assert("x"@.len() != "sum"@.len() && "x"@.len() != "iterations"@.len() && "x"@.len() != "digit"@.len());
    assert("sum"@.len() != "iterations"@.len() && "sum"@.len() != "digit"@.len());
    assert("iterations"@.len() != "digit"@.len());
}

/// From the loop test, with `x` still to be summed into `s`, the digital-root function
/// returns the digital root of `s` plus the digit sum of `x`.
#[verifier::spinoff_prover]
#[verifier::rlimit(40)]
proof fn lemma_root_run(n: i32, x: nat, s: nat, e: Map<Seq<char>, i64>, start: nat)
    requires
        e.contains_key("x"@) && e["x"@] == x,
        e.contains_key("sum"@) && e["sum"@] == s,
        e.contains_key("iterations"@),
        x <= 0x8000_0000,
        s + digit_sum(x as int) <= 1000,
        start + root_cost(x, s) <= crate::interpreter::MAX_INSTRUCTIONS,
    ensures
        run(
            digital_root(n),
            digital_root(n).functions[0],
            "loop"@,
            0,
            start,
            Machine { env: e, heap: seq![] },
            0,
        ) == Ok::<(i64, Seq<i64>), Fault>((digital_root_of(s + digit_sum(x as int)) as i64, seq![])),
    decreases s + digit_sum(x as int), x,
{
    let m = digital_root(n);
    let f = m.functions[0];
    let bs = f.blocks;
    lemma_root_names(n);
    lemma_find_last_distinct(bs, 1);
    lemma_find_last_distinct(bs, 2);
    lemma_find_last_distinct(bs, 3);
    lemma_find_last_distinct(bs, 4);
    lemma_find_last_distinct(bs, 5);
    lemma_digit_sum_bounds(x as int);
    lemma_digit_sum_bounds(s as int);
    let st = Machine { env: e, heap: seq![] };
    let out = digital_root_of(s + digit_sum(x as int)) as i64;
    let vx = x as i64;
    let vs = s as i64;
    assert(eval(m, var("x"@), st, 0) == Ok::<(i64, Machine), Fault>((vx, st)));
    assert(eval(m, cst(0), st, 0) == Ok::<(i64, Machine), Fault>((0, st)));
    let cx: i64 = if x > 0 { 1 } else { 0 };
    assert(eval(m, comp(CompareCondition::Gt, var("x"@), cst(0)), st, 0) == Ok::<(i64, Machine), Fault>((cx, st)));
    assert(eval(m, bs[1].insts[0], st, 0) == Ok::<(i64, Machine), Fault>((0, st)));
    if x > 0 {
        let q = (x / 10) as i64;
        let d = (x % 10) as i64;
        lemma_digit_sum_bounds((x / 10) as int);
        assert(arith(BinaryOp::Div, vx, 10) == Some(q));
        lemma_small_product(q, 10);
        assert(arith(BinaryOp::Mul, q, 10) == Some((q * 10) as i64));
        assert(arith(BinaryOp::Sub, vx, (q * 10) as i64) == Some(d));
        assert(arith(BinaryOp::Add, vs, d) == Some((s + x % 10) as i64));
        let it = e["iterations"@];
        let e1 = e.insert("digit"@, d);
        let e2 = e1.insert("sum"@, (s + x % 10) as i64);
        let e3 = e2.insert("x"@, q);
        let e4 = e3.insert("iterations"@, it.wrapping_add(1));
        let s1 = Machine { env: e1, heap: seq![] };
        let s2 = Machine { env: e2, heap: seq![] };
        let s3 = Machine { env: e3, heap: seq![] };
        let s4 = Machine { env: e4, heap: seq![] };
        let body = bs[2].insts;
        let div = bin(BinaryOp::Div, var("x"@), cst(10));
        let mul = bin(BinaryOp::Mul, div, cst(10));
        assert(eval(m, cst(10), st, 0) == Ok::<(i64, Machine), Fault>((10, st)));
        assert(eval(m, div, st, 0) == Ok::<(i64, Machine), Fault>((q, st)));
        assert(eval(m, mul, st, 0) == Ok::<(i64, Machine), Fault>(((q * 10) as i64, st)));
        assert(eval(m, bin(BinaryOp::Sub, var("x"@), mul), st, 0) == Ok::<(i64, Machine), Fault>((d, st)));
        assert(eval(m, body[0], st, 0) == Ok::<(i64, Machine), Fault>((d, s1)));
        assert(eval(m, var("sum"@), s1, 0) == Ok::<(i64, Machine), Fault>((vs, s1)));
        assert(eval(m, var("digit"@), s1, 0) == Ok::<(i64, Machine), Fault>((d, s1)));
        assert(eval(m, bin(BinaryOp::Add, var("sum"@), var("digit"@)), s1, 0) == Ok::<(i64, Machine), Fault>(((s + x % 10) as i64, s1)));
        assert(eval(m, body[1], s1, 0) == Ok::<(i64, Machine), Fault>(((s + x % 10) as i64, s2)));
        assert(eval(m, var("x"@), s2, 0) == Ok::<(i64, Machine), Fault>((vx, s2)));
        assert(eval(m, cst(10), s2, 0) == Ok::<(i64, Machine), Fault>((10, s2)));
        assert(eval(m, bin(BinaryOp::Div, var("x"@), cst(10)), s2, 0) == Ok::<(i64, Machine), Fault>((q, s2)));
        assert(eval(m, body[2], s2, 0) == Ok::<(i64, Machine), Fault>((q, s3)));
        assert(eval(m, var("iterations"@), s3, 0) == Ok::<(i64, Machine), Fault>((it, s3)));
        assert(eval(m, cst(1), s3, 0) == Ok::<(i64, Machine), Fault>((1, s3)));
        assert(eval(m, bin(BinaryOp::Add, var("iterations"@), cst(1)), s3, 0) == Ok::<(i64, Machine), Fault>((it.wrapping_add(1), s3)));
        assert(eval(m, body[3], s3, 0) == Ok::<(i64, Machine), Fault>((it.wrapping_add(1), s4)));
        assert(eval(m, body[4], s4, 0) == Ok::<(i64, Machine), Fault>((0, s4)));
        assert(e4["x"@] == q && e4["sum"@] == (s + x % 10) as i64 && e4.contains_key("iterations"@));
        assert(digit_sum(x as int) == x % 10 + digit_sum((x / 10) as int));
        assert(root_cost(x, s) == 6 + root_cost(x / 10, s + x % 10));
        lemma_root_run(n, x / 10, s + x % 10, e4, start + 6);
        assert(run(m, f, "loop"@, 0, start + 6, s4, 0) == Ok::<(i64, Seq<i64>), Fault>((out, seq![])));
        assert(crate::interpreter::leave(m, f, bs[2], start + 1, 5, s4, 0) == Ok::<(i64, Seq<i64>), Fault>((out, seq![])));
        assert(run(m, f, "body"@, 4, start + 1, s4, 0) == Ok::<(i64, Seq<i64>), Fault>((out, seq![])));
        assert(run(m, f, "body"@, 3, start + 1, s3, 0) == Ok::<(i64, Seq<i64>), Fault>((out, seq![])));
        assert(run(m, f, "body"@, 2, start + 1, s2, 0) == Ok::<(i64, Seq<i64>), Fault>((out, seq![])));
        assert(run(m, f, "body"@, 1, start + 1, s1, 0) == Ok::<(i64, Seq<i64>), Fault>((out, seq![])));
        assert(run(m, f, "body"@, 0, start + 1, st, 0) == Ok::<(i64, Seq<i64>), Fault>((out, seq![])));
    } else {
        assert(digit_sum(x as int) == 0);
        let cs: i64 = if s > 9 { 1 } else { 0 };
        assert(eval(m, var("sum"@), st, 0) == Ok::<(i64, Machine), Fault>((vs, st)));
        assert(eval(m, cst(9), st, 0) == Ok::<(i64, Machine), Fault>((9, st)));
        assert(eval(m, comp(CompareCondition::Gt, var("sum"@), cst(9)), st, 0) == Ok::<(i64, Machine), Fault>((cs, st)));
        assert(eval(m, bs[3].insts[0], st, 0) == Ok::<(i64, Machine), Fault>((0, st)));
        if s > 9 {
            let e1 = e.insert("x"@, vs);
            let e2 = e1.insert("sum"@, 0);
            let s1 = Machine { env: e1, heap: seq![] };
            let s2 = Machine { env: e2, heap: seq![] };
            let again = bs[4].insts;
            assert(eval(m, again[0], st, 0) == Ok::<(i64, Machine), Fault>((vs, s1)));
            assert(eval(m, cst(0), s1, 0) == Ok::<(i64, Machine), Fault>((0, s1)));
            assert(eval(m, again[1], s1, 0) == Ok::<(i64, Machine), Fault>((0, s2)));
            assert(eval(m, again[2], s2, 0) == Ok::<(i64, Machine), Fault>((0, s2)));
            assert(e2["x"@] == s && e2["sum"@] == 0 && e2.contains_key("iterations"@));
            assert(root_cost(x, s) == 5 + root_cost(s, 0));
            assert(digital_root_of(s as int) == digital_root_of(digit_sum(s as int)));
            lemma_root_run(n, s, 0, e2, start + 5);
            assert(run(m, f, "loop"@, 0, start + 5, s2, 0) == Ok::<(i64, Seq<i64>), Fault>((out, seq![])));
            assert(crate::interpreter::leave(m, f, bs[4], start + 2, 3, s2, 0) == Ok::<(i64, Seq<i64>), Fault>((out, seq![])));
            assert(run(m, f, "again"@, 2, start + 2, s2, 0) == Ok::<(i64, Seq<i64>), Fault>((out, seq![])));
            assert(run(m, f, "again"@, 1, start + 2, s1, 0) == Ok::<(i64, Seq<i64>), Fault>((out, seq![])));
            assert(run(m, f, "again"@, 0, start + 2, st, 0) == Ok::<(i64, Seq<i64>), Fault>((out, seq![])));
        } else {
            assert(eval(m, bs[5].insts[0], st, 0) == Ok::<(i64, Machine), Fault>((vs, st)));
            assert(run(m, f, "exit"@, 0, start + 2, st, 0) == Ok::<(i64, Seq<i64>), Fault>((out, seq![])));
        }
        assert(crate::interpreter::leave(m, f, bs[3], start + 1, 1, st, 0) == Ok::<(i64, Seq<i64>), Fault>((out, seq![])));
        assert(run(m, f, "check"@, 0, start + 1, st, 0) == Ok::<(i64, Seq<i64>), Fault>((out, seq![])));
    }
    assert(crate::interpreter::leave(m, f, bs[1], start, 1, st, 0) == Ok::<(i64, Seq<i64>), Fault>((out, seq![])));
}

/// The instructions the loop test on takes: six per digit of `x`, then the test of the sum.
pub proof fn lemma_root_cost_split(x: nat, s: nat)
    ensures
        root_cost(x, s) == 6 * digit_count(x as int) + (if s + digit_sum(x as int) > 9 {
            5 + root_cost((s + digit_sum(x as int)) as nat, 0)
        } else {
            3
        }),
    decreases x,
{
    lemma_digit_sum_bounds(x as int);
    if x > 0 {
        lemma_root_cost_split(x / 10, s + x % 10);
    }
}

/// A number of at most `k` digits has a digit sum of at most `9 * k`.
proof fn lemma_digits_below(x: nat, k: nat, p: int)
    requires
        x < p,
        p == vstd::arithmetic::power::pow(10, k),
    ensures
        digit_count(x as int) <= k,
        digit_sum(x as int) <= 9 * k,
{
    lemma_digit_count_below(x as int, k as int, p);
    lemma_digit_sum_bounds(x as int);
}

/// From two digits on the digital root is bounded in its steps.
proof fn lemma_root_cost_bound(x: nat)
    requires
        x < 10_000_000_000,
    ensures
        root_cost(x, 0) <= 200,
{
    reveal_with_fuel(vstd::arithmetic::power::pow, 11);
    let t1 = digit_sum(x as int);
    lemma_digits_below(x, 10, 10_000_000_000);
    lemma_root_cost_split(x, 0);
    if t1 > 9 {
        let t = t1 as nat;
        lemma_digits_below(t, 2, 100);
        lemma_root_cost_split(t, 0);
        let t2 = digit_sum(t as int);
        if t2 > 9 {
            let u = t2 as nat;
            lemma_digits_below(u, 2, 100);
            lemma_root_cost_split(u, 0);
            let u1 = u / 10;
            assert(u1 == 1);
            assert(digit_sum(u1 as int) == 1) by {
                assert(digit_sum(0) == 0);
            }
            assert(digit_sum(u as int) == u % 10 + 1);
        }
    }
}

/// The digital-root function gives the digital root of `n`, `1 + (n - 1) % 9`, for a
/// positive `n`, and 0 otherwise.
pub proof fn law_digital_root_computes(n: i32)
    ensures
        execute(digital_root(n), digital_root(n).functions[0], seq![]) == Ok::<i64, Fault>(
            if n > 0 { digital_root_of(n as int) as i64 } else { 0 },
        ),
        n > 0 ==> digital_root_of(n as int) == 1 + (n - 1) % 9,
{
    if n > 0 {
        lemma_digital_root_closed(n as int);
    }
    let m = digital_root(n);
    let f = m.functions[0];
    let bs = f.blocks;
    lemma_root_names(n);
    reveal_strlit("entry");
    lemma_find_last_distinct(bs, 0);
    lemma_find_last_distinct(bs, 1);
    lemma_find_last_distinct(bs, 3);
    lemma_find_last_distinct(bs, 5);
    assert(bs[0].name == "entry"@);
    let v = n as i64;
    let s0 = Machine { env: bind(seq![], seq![]), heap: seq![] };
    assert(s0.env == Map::<Seq<char>, i64>::empty());
    let e1 = s0.env.insert("x"@, v);
    let e2 = e1.insert("sum"@, 0);
    let e3 = e2.insert("iterations"@, 0);
    let s1 = Machine { env: e1, heap: seq![] };
    let s2 = Machine { env: e2, heap: seq![] };
    let s3 = Machine { env: e3, heap: seq![] };
    let entry = bs[0].insts;
    assert(eval(m, cst(v), s0, 0) == Ok::<(i64, Machine), Fault>((v, s0)));
    assert(eval(m, entry[0], s0, 0) == Ok::<(i64, Machine), Fault>((v, s1)));
    assert(eval(m, cst(0), s1, 0) == Ok::<(i64, Machine), Fault>((0, s1)));
    assert(eval(m, entry[1], s1, 0) == Ok::<(i64, Machine), Fault>((0, s2)));
    assert(eval(m, cst(0), s2, 0) == Ok::<(i64, Machine), Fault>((0, s2)));
    assert(eval(m, entry[2], s2, 0) == Ok::<(i64, Machine), Fault>((0, s3)));
    assert(eval(m, entry[3], s3, 0) == Ok::<(i64, Machine), Fault>((0, s3)));
    assert(e3["x"@] == v && e3["sum"@] == 0 && e3.contains_key("iterations"@));
    let out: i64 = if n > 0 { digital_root_of(n as int) as i64 } else { 0 };
    let r = run(m, f, "loop"@, 0, 4, s3, 0);
    if n > 0 {
        let x = n as nat;
        lemma_root_cost_bound(x);
        reveal_with_fuel(vstd::arithmetic::power::pow, 11);
        lemma_digits_below(x, 10, 10_000_000_000);
        lemma_digit_sum_bounds(x as int);
        lemma_root_run(n, x, 0, e3, 4);
        if x <= 9 {
            assert(x / 10 == 0 && x % 10 == x);
            assert(digit_sum(0) == 0);
            assert(digit_sum(x as int) == x);
        }
        assert(r == Ok::<(i64, Seq<i64>), Fault>((out, seq![])));
    } else {
        assert(eval(m, var("x"@), s3, 0) == Ok::<(i64, Machine), Fault>((v, s3)));
        assert(eval(m, cst(0), s3, 0) == Ok::<(i64, Machine), Fault>((0, s3)));
        assert(eval(m, comp(CompareCondition::Gt, var("x"@), cst(0)), s3, 0) == Ok::<(i64, Machine), Fault>((0, s3)));
        assert(eval(m, bs[1].insts[0], s3, 0) == Ok::<(i64, Machine), Fault>((0, s3)));
        assert(eval(m, var("sum"@), s3, 0) == Ok::<(i64, Machine), Fault>((0, s3)));
        assert(eval(m, cst(9), s3, 0) == Ok::<(i64, Machine), Fault>((9, s3)));
        assert(eval(m, comp(CompareCondition::Gt, var("sum"@), cst(9)), s3, 0) == Ok::<(i64, Machine), Fault>((0, s3)));
        assert(eval(m, bs[3].insts[0], s3, 0) == Ok::<(i64, Machine), Fault>((0, s3)));
        assert(eval(m, bs[5].insts[0], s3, 0) == Ok::<(i64, Machine), Fault>((0, s3)));
        assert(run(m, f, "exit"@, 0, 6, s3, 0) == Ok::<(i64, Seq<i64>), Fault>((0, seq![])));
        assert(crate::interpreter::leave(m, f, bs[3], 5, 1, s3, 0) == Ok::<(i64, Seq<i64>), Fault>((0, seq![])));
        assert(run(m, f, "check"@, 0, 5, s3, 0) == Ok::<(i64, Seq<i64>), Fault>((0, seq![])));
        assert(crate::interpreter::leave(m, f, bs[1], 4, 1, s3, 0) == Ok::<(i64, Seq<i64>), Fault>((0, seq![])));
        assert(r == Ok::<(i64, Seq<i64>), Fault>((out, seq![])));
    }
    assert(crate::interpreter::leave(m, f, bs[0], 0, 4, s3, 0) == r);
    assert(run(m, f, "entry"@, 3, 0, s3, 0) == r);
    assert(run(m, f, "entry"@, 2, 0, s2, 0) == r);
    assert(run(m, f, "entry"@, 1, 0, s1, 0) == r);
    assert(run(m, f, "entry"@, 0, 0, s0, 0) == r);
    assert(call(m, f, seq![], seq![], 0) == r);
}

/// A number and its digit sum leave the same remainder by 9.
pub proof fn lemma_digit_sum_mod_nine(x: int)
    requires
        x >= 0,
    ensures
        digit_sum(x) % 9 == x % 9,
    decreases x,
{
    if x > 0 {
        let a = x / 10;
        let b = x % 10;
        let d = digit_sum(a);
        lemma_digit_sum_mod_nine(a);
        vstd::arithmetic::div_mod::lemma_fundamental_div_mod(d, 9);
        vstd::arithmetic::div_mod::lemma_fundamental_div_mod(a, 9);
        let k = d / 9 - a / 9;
        assert(d == a + 9 * k);
        assert(x == 10 * a + b);
        assert(b + d == 9 * (k - a) + x);
        vstd::arithmetic::div_mod::lemma_mod_multiples_vanish(k - a, x, 9);
    }
}

/// The digital root of a positive number is `1 + (x - 1) % 9`.
pub proof fn lemma_digital_root_closed(x: int)
    requires
        x >= 1,
    ensures
        digital_root_of(x) == 1 + (x - 1) % 9,
    decreases x,
{
    if x > 9 {
        lemma_digit_sum_bounds(x);
        lemma_digit_sum_mod_nine(x);
        let t = digit_sum(x);
        lemma_digital_root_closed(t);
        vstd::arithmetic::div_mod::lemma_fundamental_div_mod(x, 9);
        vstd::arithmetic::div_mod::lemma_fundamental_div_mod(t, 9);
        vstd::arithmetic::div_mod::lemma_fundamental_div_mod(x - 1, 9);
        vstd::arithmetic::div_mod::lemma_fundamental_div_mod(t - 1, 9);
        assert((t - 1) % 9 == (x - 1) % 9) by {
            let k = t / 9 - x / 9;
            assert(t == x + 9 * k);
            vstd::arithmetic::div_mod::lemma_mod_multiples_vanish(k, x - 1, 9);
        }
    }
}

/// The sum of the squares of the integers from 0 up to, not including, `k`.
pub open spec fn squares_below(k: int) -> int
    decreases k,
{
    if k <= 0 {
        0
    } else {
        squares_below(k - 1) + (k - 1) * (k - 1)
    }
}

/// Below 2000 the sum of squares stays small.
pub proof fn lemma_squares_below_bound(k: int)
    requires
        0 <= k <= 2000,
    ensures
        0 <= squares_below(k) <= k * 4_000_000,
    decreases k,
{
    if k > 0 {
        lemma_squares_below_bound(k - 1);
        assert(0 <= (k - 1) * (k - 1) <= 4_000_000) by (nonlinear_arith)
            requires
                1 <= k <= 2000,
        ;
    }
}

/// From the loop test after `j` turns, the squares loop returns the sum of squares below `n`.
#[verifier::spinoff_prover]
proof fn lemma_squares_loop(n: i32, j: int, e: Map<Seq<char>, i64>, start: nat)
    requires
        0 <= j <= n <= 1999,
        e.contains_key("i"@) && e["i"@] == j,
        e.contains_key("acc"@) && e["acc"@] == squares_below(j),
        e.contains_key("n"@) && e["n"@] == n,
        start + 5 * (n - j) + 1 <= crate::interpreter::MAX_INSTRUCTIONS,
    ensures
        run(nested_loop(n), nested_loop(n).functions[0], "cond"@, 0, start, Machine { env: e, heap: seq![] }, 0)
            == Ok::<(i64, Seq<i64>), Fault>((squares_below(n as int) as i64, seq![])),
    decreases n - j,
{
    let m = nested_loop(n);
    let f = m.functions[0];
    let bs = f.blocks;
    reveal_strlit("entry");
    reveal_strlit("cond");
    reveal_strlit("body");
    reveal_strlit("exit");
    reveal_strlit("i");
    reveal_strlit("acc");
    reveal_strlit("n");
    reveal_strlit("sq");
    assert forall|a: int, b: int| 0 <= a < b < bs.len() implies #[trigger] bs[a].name != #[trigger] bs[b].name by {
        if bs[a].name.len() == bs[b].name.len() {
            assert(bs[a].name[0] != bs[b].name[0]);
        }
    }
    lemma_find_last_distinct(bs, 1);
    lemma_find_last_distinct(bs, 2);
    lemma_find_last_distinct(bs, 3);
    assert(bs[1].name == "cond"@ && bs[2].name == "body"@ && bs[3].name == "exit"@);
    assert("i"@ != "n"@) by {
        assert("i"@[0] != "n"@[0]);
    }
    assert("acc"@.len() != "i"@.len() && "acc"@.len() != "n"@.len() && "acc"@.len() != "sq"@.len());
    assert("sq"@.len() != "i"@.len() && "sq"@.len() != "n"@.len());
    lemma_squares_below_bound(j);
    let st = Machine { env: e, heap: seq![] };
    let out = squares_below(n as int) as i64;
    let vj = j as i64;
    let c: i64 = if j < n { 1 } else { 0 };
    assert(eval(m, var("i"@), st, 0) == Ok::<(i64, Machine), Fault>((vj, st)));
    assert(eval(m, var("n"@), st, 0) == Ok::<(i64, Machine), Fault>((n as i64, st)));
    assert(eval(m, comp(CompareCondition::Lt, var("i"@), var("n"@)), st, 0) == Ok::<(i64, Machine), Fault>((c, st)));
    assert(eval(m, bs[1].insts[0], st, 0) == Ok::<(i64, Machine), Fault>((0, st)));
    if j < n {
        lemma_squares_below_bound(j + 1);
        lemma_small_product(vj, vj);
        let sq = (j * j) as i64;
        let acc2 = (squares_below(j) + j * j) as i64;
        let e1 = e.insert("sq"@, sq);
        let e2 = e1.insert("acc"@, acc2);
        let e3 = e2.insert("i"@, (j + 1) as i64);
        let s1 = Machine { env: e1, heap: seq![] };
        let s2 = Machine { env: e2, heap: seq![] };
        let s3 = Machine { env: e3, heap: seq![] };
        let body = bs[2].insts;
        assert(eval(m, bin(BinaryOp::Mul, var("i"@), var("i"@)), st, 0) == Ok::<(i64, Machine), Fault>((sq, st)));
        assert(eval(m, body[0], st, 0) == Ok::<(i64, Machine), Fault>((sq, s1)));
        assert(eval(m, var("acc"@), s1, 0) == Ok::<(i64, Machine), Fault>((squares_below(j) as i64, s1)));
        assert(eval(m, var("sq"@), s1, 0) == Ok::<(i64, Machine), Fault>((sq, s1)));
        assert(eval(m, bin(BinaryOp::Add, var("acc"@), var("sq"@)), s1, 0) == Ok::<(i64, Machine), Fault>((acc2, s1)));
        assert(eval(m, body[1], s1, 0) == Ok::<(i64, Machine), Fault>((acc2, s2)));
        assert(eval(m, var("i"@), s2, 0) == Ok::<(i64, Machine), Fault>((vj, s2)));
        assert(eval(m, cst(1), s2, 0) == Ok::<(i64, Machine), Fault>((1, s2)));
        assert(eval(m, bin(BinaryOp::Add, var("i"@), cst(1)), s2, 0) == Ok::<(i64, Machine), Fault>(((j + 1) as i64, s2)));
        assert(eval(m, body[2], s2, 0) == Ok::<(i64, Machine), Fault>(((j + 1) as i64, s3)));
        assert(eval(m, body[3], s3, 0) == Ok::<(i64, Machine), Fault>((0, s3)));
        assert(squares_below(j + 1) == squares_below(j) + j * j);
        lemma_squares_loop(n, j + 1, e3, start + 5);
        assert(crate::interpreter::leave(m, f, bs[2], start + 1, 4, s3, 0) == Ok::<(i64, Seq<i64>), Fault>((out, seq![])));
        assert(run(m, f, "body"@, 3, start + 1, s3, 0) == Ok::<(i64, Seq<i64>), Fault>((out, seq![])));
        assert(run(m, f, "body"@, 2, start + 1, s2, 0) == Ok::<(i64, Seq<i64>), Fault>((out, seq![])));
        assert(run(m, f, "body"@, 1, start + 1, s1, 0) == Ok::<(i64, Seq<i64>), Fault>((out, seq![])));
        assert(run(m, f, "body"@, 0, start + 1, st, 0) == Ok::<(i64, Seq<i64>), Fault>((out, seq![])));
    } else {
        assert(eval(m, var("acc"@), st, 0) == Ok::<(i64, Machine), Fault>((out, st)));
        assert(eval(m, bs[3].insts[0], st, 0) == Ok::<(i64, Machine), Fault>((out, st)));
        assert(run(m, f, "exit"@, 0, start + 1, st, 0) == Ok::<(i64, Seq<i64>), Fault>((out, seq![])));
    }
    assert(crate::interpreter::leave(m, f, bs[1], start, 1, st, 0) == Ok::<(i64, Seq<i64>), Fault>((out, seq![])));
}

/// The squares loop returns the sum of the squares of `0..n` (0 when `n` is not positive),
/// for every `n` whose loop fits in the interpreter's step limit.
pub proof fn law_nested_loop_computes(n: i32)
    requires
        n <= 1999,
    ensures
        execute(nested_loop(n), nested_loop(n).functions[0], seq![]) == Ok::<i64, Fault>(
            squares_below(n as int) as i64,
        ),
{
    let m = nested_loop(n);
    let f = m.functions[0];
    let bs = f.blocks;
    reveal_strlit("entry");
    reveal_strlit("cond");
    reveal_strlit("body");
    reveal_strlit("exit");
    reveal_strlit("i");
    reveal_strlit("acc");
    reveal_strlit("n");
    assert forall|a: int, b: int| 0 <= a < b < bs.len() implies #[trigger] bs[a].name != #[trigger] bs[b].name by {
        if bs[a].name.len() == bs[b].name.len() {
            assert(bs[a].name[0] != bs[b].name[0]);
        }
    }
    lemma_find_last_distinct(bs, 0);
    lemma_find_last_distinct(bs, 1);
    lemma_find_last_distinct(bs, 3);
    assert(bs[0].name == "entry"@ && bs[1].name == "cond"@ && bs[3].name == "exit"@);
    assert("i"@ != "n"@) by {
        assert("i"@[0] != "n"@[0]);
    }
    assert("acc"@.len() != "i"@.len() && "acc"@.len() != "n"@.len());
    let v = n as i64;
    let s0 = Machine { env: bind(seq![], seq![]), heap: seq![] };
    assert(s0.env == Map::<Seq<char>, i64>::empty());
    let e1 = s0.env.insert("i"@, 0);
    let e2 = e1.insert("acc"@, 0);
    let e3 = e2.insert("n"@, v);
    let s1 = Machine { env: e1, heap: seq![] };
    let s2 = Machine { env: e2, heap: seq![] };
    let s3 = Machine { env: e3, heap: seq![] };
    let entry = bs[0].insts;
    assert(eval(m, cst(0), s0, 0) == Ok::<(i64, Machine), Fault>((0, s0)));
    assert(eval(m, entry[0], s0, 0) == Ok::<(i64, Machine), Fault>((0, s1)));
    assert(eval(m, cst(0), s1, 0) == Ok::<(i64, Machine), Fault>((0, s1)));
    assert(eval(m, entry[1], s1, 0) == Ok::<(i64, Machine), Fault>((0, s2)));
    assert(eval(m, cst(v), s2, 0) == Ok::<(i64, Machine), Fault>((v, s2)));
    assert(eval(m, entry[2], s2, 0) == Ok::<(i64, Machine), Fault>((v, s3)));
    assert(eval(m, entry[3], s3, 0) == Ok::<(i64, Machine), Fault>((0, s3)));
    assert(e3["i"@] == 0 && e3["acc"@] == 0 && e3["n"@] == v);
    let out = squares_below(n as int) as i64;
    let r = run(m, f, "cond"@, 0, 4, s3, 0);
    if n >= 0 {
        lemma_squares_loop(n, 0, e3, 4);
        assert(r == Ok::<(i64, Seq<i64>), Fault>((out, seq![])));
    } else {
        assert(eval(m, var("i"@), s3, 0) == Ok::<(i64, Machine), Fault>((0, s3)));
        assert(eval(m, var("n"@), s3, 0) == Ok::<(i64, Machine), Fault>((v, s3)));
        assert(eval(m, comp(CompareCondition::Lt, var("i"@), var("n"@)), s3, 0) == Ok::<(i64, Machine), Fault>((0, s3)));
        assert(eval(m, bs[1].insts[0], s3, 0) == Ok::<(i64, Machine), Fault>((0, s3)));
        assert(eval(m, var("acc"@), s3, 0) == Ok::<(i64, Machine), Fault>((0, s3)));
        assert(eval(m, bs[3].insts[0], s3, 0) == Ok::<(i64, Machine), Fault>((0, s3)));
        assert(run(m, f, "exit"@, 0, 5, s3, 0) == Ok::<(i64, Seq<i64>), Fault>((0, seq![])));
        assert(crate::interpreter::leave(m, f, bs[1], 4, 1, s3, 0) == Ok::<(i64, Seq<i64>), Fault>((0, seq![])));
        assert(r == Ok::<(i64, Seq<i64>), Fault>((out, seq![])));
    }
    assert(crate::interpreter::leave(m, f, bs[0], 0, 4, s3, 0) == r);
    assert(run(m, f, "entry"@, 3, 0, s3, 0) == r);
    assert(run(m, f, "entry"@, 2, 0, s2, 0) == r);
    assert(run(m, f, "entry"@, 1, 0, s1, 0) == r);
    assert(run(m, f, "entry"@, 0, 0, s0, 0) == r);
    assert(call(m, f, seq![], seq![], 0) == r);
}

/// The even integers from 0 up to, not including, `k`, added, and the odd ones subtracted.
pub open spec fn alternating_below(k: int) -> int
    decreases k,
{
    if k <= 0 {
        0
    } else {
        alternating_below(k - 1) + if (k - 1) % 2 == 0 { k - 1 } else { -(k - 1) }
    }
}

/// The alternating sum below `k` is at most `k * k` away from 0.
pub proof fn lemma_alternating_below_bound(k: int)
    requires
        k >= 0,
    ensures
        -(k * k) <= alternating_below(k) <= k * k,
    decreases k,
{
    if k > 0 {
        lemma_alternating_below_bound(k - 1);
        assert((k - 1) * (k - 1) + (k - 1) <= k * k) by (nonlinear_arith)
            requires
                k > 0,
        ;
    }
}

/// The block and variable names of the branching loop differ.
proof fn lemma_branch_names(n: i32)
    ensures
        forall|a: int, b: int|
            0 <= a < b < branch_heavy(n).functions[0].blocks.len() ==> #[trigger] branch_heavy(n).functions[0].blocks[a].name
                != #[trigger] branch_heavy(n).functions[0].blocks[b].name,
        branch_heavy(n).functions[0].blocks.len() == 7,
        branch_heavy(n).functions[0].blocks[0].name == "entry"@,
        branch_heavy(n).functions[0].blocks[1].name == "cond"@,
        branch_heavy(n).functions[0].blocks[2].name == "check"@,
        branch_heavy(n).functions[0].blocks[3].name == "even"@,
        branch_heavy(n).functions[0].blocks[4].name == "odd"@,
        branch_heavy(n).functions[0].blocks[5].name == "lend"@,
        branch_heavy(n).functions[0].blocks[6].name == "exit"@,
        "i"@ != "n"@ && "i"@ != "h"@ && "n"@ != "h"@,
        "acc"@ != "i"@ && "acc"@ != "n"@ && "acc"@ != "h"@ && "acc"@ != "e2"@ && "acc"@ != "bump"@,
        "e2"@ != "i"@ && "e2"@ != "n"@ && "e2"@ != "h"@,
        "bump"@ != "i"@ && "bump"@ != "n"@ && "bump"@ != "h"@ && "bump"@ != "e2"@,
{
    reveal_strlit("entry");
    reveal_strlit("cond");
    reveal_strlit("check");
    reveal_strlit("even");
    reveal_strlit("odd");
    reveal_strlit("lend");
    reveal_strlit("exit");
    reveal_strlit("i");
    reveal_strlit("n");
    reveal_strlit("h");
    reveal_strlit("acc");
    reveal_strlit("e2");
    reveal_strlit("bump");
    let bs = branch_heavy(n).functions[0].blocks;
    assert forall|a: int, b: int| 0 <= a < b < bs.len() implies #[trigger] bs[a].name != #[trigger] bs[b].name by {
        if bs[a].name.len() == bs[b].name.len() {
            assert(bs[a].name[0] != bs[b].name[0] || bs[a].name[1] != bs[b].name[1]);
        }
    }
    assert("i"@[0] != "n"@[0] && "i"@[0] != "h"@[0] && "n"@[0] != "h"@[0]);
    assert("acc"@.len() != "i"@.len() && "acc"@.len() != "e2"@.len() && "acc"@.len() != "bump"@.len());
    assert("e2"@.len() != "i"@.len() && "bump"@.len() != "i"@.len() && "bump"@.len() != "e2"@.len());
}

/// From the loop test after `j` turns, the branching loop returns the alternating sum below `n`.
#[verifier::spinoff_prover]
#[verifier::rlimit(40)]
proof fn lemma_branch_loop(n: i32, j: int, e: Map<Seq<char>, i64>, start: nat)
    requires
        0 <= j <= n,
        e.contains_key("i"@) && e["i"@] == j,
        e.contains_key("acc"@) && e["acc"@] == alternating_below(j),
        e.contains_key("n"@) && e["n"@] == n,
        start == 4 + 8 * j + (j + 1) / 2,
        4 + 8 * n + (n + 1) / 2 + 1 <= crate::interpreter::MAX_INSTRUCTIONS,
    ensures
        run(branch_heavy(n), branch_heavy(n).functions[0], "cond"@, 0, start, Machine { env: e, heap: seq![] }, 0)
            == Ok::<(i64, Seq<i64>), Fault>((alternating_below(n as int) as i64, seq![])),
    decreases n - j,
{
    let m = branch_heavy(n);
    let f = m.functions[0];
    let bs = f.blocks;
    lemma_branch_names(n);
    lemma_find_last_distinct(bs, 1);
    lemma_find_last_distinct(bs, 2);
    lemma_find_last_distinct(bs, 3);
    lemma_find_last_distinct(bs, 4);
    lemma_find_last_distinct(bs, 5);
    lemma_find_last_distinct(bs, 6);
    lemma_alternating_below_bound(j);
    let st = Machine { env: e, heap: seq![] };
    let out = alternating_below(n as int) as i64;
    let vj = j as i64;
    let acc = alternating_below(j) as i64;
    let c: i64 = if j < n { 1 } else { 0 };
    assert(eval(m, var("i"@), st, 0) == Ok::<(i64, Machine), Fault>((vj, st)));
    assert(eval(m, var("n"@), st, 0) == Ok::<(i64, Machine), Fault>((n as i64, st)));
    assert(eval(m, comp(CompareCondition::Lt, var("i"@), var("n"@)), st, 0) == Ok::<(i64, Machine), Fault>((c, st)));
    assert(eval(m, bs[1].insts[0], st, 0) == Ok::<(i64, Machine), Fault>((0, st)));
    assert(n <= 1250);
    assert(j * j <= 1250 * 1250) by (nonlinear_arith)
        requires
            0 <= j <= 1250,
    ;
    if j < n {
        lemma_alternating_below_bound(j + 1);
        assert((j + 1) * (j + 1) <= 1250 * 1250) by (nonlinear_arith)
            requires
                0 <= j + 1 <= 1250,
        ;
        let h = (j / 2) as i64;
        let e2v = (h * 2) as i64;
        assert(arith(BinaryOp::Div, vj, 2) == Some(h));
        lemma_small_product(h, 2);
        let ea = e.insert("h"@, h);
        let eb = ea.insert("e2"@, e2v);
        let sa = Machine { env: ea, heap: seq![] };
        let sb = Machine { env: eb, heap: seq![] };
        let check = bs[2].insts;
        assert(eval(m, cst(2), st, 0) == Ok::<(i64, Machine), Fault>((2, st)));
        assert(eval(m, bin(BinaryOp::Div, var("i"@), cst(2)), st, 0) == Ok::<(i64, Machine), Fault>((h, st)));
        assert(eval(m, check[0], st, 0) == Ok::<(i64, Machine), Fault>((h, sa)));
        assert(eval(m, var("h"@), sa, 0) == Ok::<(i64, Machine), Fault>((h, sa)));
        assert(eval(m, cst(2), sa, 0) == Ok::<(i64, Machine), Fault>((2, sa)));
        assert(eval(m, bin(BinaryOp::Mul, var("h"@), cst(2)), sa, 0) == Ok::<(i64, Machine), Fault>((e2v, sa)));
        assert(eval(m, check[1], sa, 0) == Ok::<(i64, Machine), Fault>((e2v, sb)));
        let even = j % 2 == 0;
        let ce: i64 = if even { 1 } else { 0 };
        assert(eval(m, var("e2"@), sb, 0) == Ok::<(i64, Machine), Fault>((e2v, sb)));
        assert(eval(m, var("i"@), sb, 0) == Ok::<(i64, Machine), Fault>((vj, sb)));
        assert(eval(m, comp(CompareCondition::Eq, var("e2"@), var("i"@)), sb, 0) == Ok::<(i64, Machine), Fault>((ce, sb)));
        assert(eval(m, check[2], sb, 0) == Ok::<(i64, Machine), Fault>((0, sb)));
        let acc2 = alternating_below(j + 1) as i64;
        assert(alternating_below(j + 1) == alternating_below(j) + if j % 2 == 0 { j } else { -j });
        let next_start = (4 + 8 * (j + 1) + (j + 2) / 2) as nat;
        if even {
            lemma_small_product(vj, 1);
            let ec = eb.insert("bump"@, vj);
            let ed = ec.insert("acc"@, acc2);
            let ee = ed.insert("i"@, (j + 1) as i64);
            let sc = Machine { env: ec, heap: seq![] };
            let sd = Machine { env: ed, heap: seq![] };
            let se = Machine { env: ee, heap: seq![] };
            let ev = bs[3].insts;
            let lend = bs[5].insts;
            assert(eval(m, cst(1), sb, 0) == Ok::<(i64, Machine), Fault>((1, sb)));
            assert(eval(m, bin(BinaryOp::Mul, var("i"@), cst(1)), sb, 0) == Ok::<(i64, Machine), Fault>((vj, sb)));
            assert(eval(m, ev[0], sb, 0) == Ok::<(i64, Machine), Fault>((vj, sc)));
            assert(eval(m, var("acc"@), sc, 0) == Ok::<(i64, Machine), Fault>((acc, sc)));
            assert(eval(m, var("bump"@), sc, 0) == Ok::<(i64, Machine), Fault>((vj, sc)));
            assert(eval(m, bin(BinaryOp::Add, var("acc"@), var("bump"@)), sc, 0) == Ok::<(i64, Machine), Fault>((acc2, sc)));
            assert(eval(m, ev[1], sc, 0) == Ok::<(i64, Machine), Fault>((acc2, sd)));
            assert(eval(m, ev[2], sd, 0) == Ok::<(i64, Machine), Fault>((0, sd)));
            assert(eval(m, var("i"@), sd, 0) == Ok::<(i64, Machine), Fault>((vj, sd)));
            assert(eval(m, cst(1), sd, 0) == Ok::<(i64, Machine), Fault>((1, sd)));
            assert(eval(m, bin(BinaryOp::Add, var("i"@), cst(1)), sd, 0) == Ok::<(i64, Machine), Fault>(((j + 1) as i64, sd)));
            assert(eval(m, lend[0], sd, 0) == Ok::<(i64, Machine), Fault>(((j + 1) as i64, se)));
            assert(eval(m, lend[1], se, 0) == Ok::<(i64, Machine), Fault>((0, se)));
            assert(next_start == start + 9);
            lemma_branch_loop(n, j + 1, ee, next_start);
            assert(crate::interpreter::leave(m, f, bs[5], start + 7, 2, se, 0) == Ok::<(i64, Seq<i64>), Fault>((out, seq![])));
            assert(run(m, f, "lend"@, 1, start + 7, se, 0) == Ok::<(i64, Seq<i64>), Fault>((out, seq![])));
            assert(run(m, f, "lend"@, 0, start + 7, sd, 0) == Ok::<(i64, Seq<i64>), Fault>((out, seq![])));
            assert(crate::interpreter::leave(m, f, bs[3], start + 4, 3, sd, 0) == Ok::<(i64, Seq<i64>), Fault>((out, seq![])));
            assert(run(m, f, "even"@, 2, start + 4, sd, 0) == Ok::<(i64, Seq<i64>), Fault>((out, seq![])));
            assert(run(m, f, "even"@, 1, start + 4, sc, 0) == Ok::<(i64, Seq<i64>), Fault>((out, seq![])));
            assert(run(m, f, "even"@, 0, start + 4, sb, 0) == Ok::<(i64, Seq<i64>), Fault>((out, seq![])));
        } else {
            let ed = eb.insert("acc"@, acc2);
            let ee = ed.insert("i"@, (j + 1) as i64);
            let sd = Machine { env: ed, heap: seq![] };
            let se = Machine { env: ee, heap: seq![] };
            let od = bs[4].insts;
            let lend = bs[5].insts;
            assert(eval(m, var("acc"@), sb, 0) == Ok::<(i64, Machine), Fault>((acc, sb)));
            assert(eval(m, bin(BinaryOp::Sub, var("acc"@), var("i"@)), sb, 0) == Ok::<(i64, Machine), Fault>((acc2, sb)));
            assert(eval(m, od[0], sb, 0) == Ok::<(i64, Machine), Fault>((acc2, sd)));
            assert(eval(m, od[1], sd, 0) == Ok::<(i64, Machine), Fault>((0, sd)));
            assert(eval(m, var("i"@), sd, 0) == Ok::<(i64, Machine), Fault>((vj, sd)));
            assert(eval(m, cst(1), sd, 0) == Ok::<(i64, Machine), Fault>((1, sd)));
            assert(eval(m, bin(BinaryOp::Add, var("i"@), cst(1)), sd, 0) == Ok::<(i64, Machine), Fault>(((j + 1) as i64, sd)));
            assert(eval(m, lend[0], sd, 0) == Ok::<(i64, Machine), Fault>(((j + 1) as i64, se)));
            assert(eval(m, lend[1], se, 0) == Ok::<(i64, Machine), Fault>((0, se)));
            assert(next_start == start + 8);
            lemma_branch_loop(n, j + 1, ee, next_start);
            assert(crate::interpreter::leave(m, f, bs[5], start + 6, 2, se, 0) == Ok::<(i64, Seq<i64>), Fault>((out, seq![])));
            assert(run(m, f, "lend"@, 1, start + 6, se, 0) == Ok::<(i64, Seq<i64>), Fault>((out, seq![])));
            assert(run(m, f, "lend"@, 0, start + 6, sd, 0) == Ok::<(i64, Seq<i64>), Fault>((out, seq![])));
            assert(crate::interpreter::leave(m, f, bs[4], start + 4, 2, sd, 0) == Ok::<(i64, Seq<i64>), Fault>((out, seq![])));
            assert(run(m, f, "odd"@, 1, start + 4, sd, 0) == Ok::<(i64, Seq<i64>), Fault>((out, seq![])));
            assert(run(m, f, "odd"@, 0, start + 4, sb, 0) == Ok::<(i64, Seq<i64>), Fault>((out, seq![])));
        }
        assert(crate::interpreter::leave(m, f, bs[2], start + 1, 3, sb, 0) == Ok::<(i64, Seq<i64>), Fault>((out, seq![])));
        assert(run(m, f, "check"@, 2, start + 1, sb, 0) == Ok::<(i64, Seq<i64>), Fault>((out, seq![])));
        assert(run(m, f, "check"@, 1, start + 1, sa, 0) == Ok::<(i64, Seq<i64>), Fault>((out, seq![])));
        assert(run(m, f, "check"@, 0, start + 1, st, 0) == Ok::<(i64, Seq<i64>), Fault>((out, seq![])));
    } else {
        assert(eval(m, var("acc"@), st, 0) == Ok::<(i64, Machine), Fault>((out, st)));
        assert(eval(m, bs[6].insts[0], st, 0) == Ok::<(i64, Machine), Fault>((out, st)));
        assert(run(m, f, "exit"@, 0, start + 1, st, 0) == Ok::<(i64, Seq<i64>), Fault>((out, seq![])));
    }
    assert(crate::interpreter::leave(m, f, bs[1], start, 1, st, 0) == Ok::<(i64, Seq<i64>), Fault>((out, seq![])));
}

/// The branching loop returns the even integers of `0..n` added and the odd ones subtracted
/// (0 when `n` is not positive), for every `n` whose loop fits in the interpreter's step limit.
pub proof fn law_branch_heavy_computes(n: i32)
    requires
        8 * n + (n + 1) / 2 <= 9995,
    ensures
        execute(branch_heavy(n), branch_heavy(n).functions[0], seq![]) == Ok::<i64, Fault>(
            alternating_below(n as int) as i64,
        ),
{
    let m = branch_heavy(n);
    let f = m.functions[0];
    let bs = f.blocks;
    lemma_branch_names(n);
    lemma_find_last_distinct(bs, 0);
    lemma_find_last_distinct(bs, 1);
    lemma_find_last_distinct(bs, 6);
    let v = n as i64;
    let s0 = Machine { env: bind(seq![], seq![]), heap: seq![] };
    assert(s0.env == Map::<Seq<char>, i64>::empty());
    let e1 = s0.env.insert("i"@, 0);
    let e2 = e1.insert("acc"@, 0);
    let e3 = e2.insert("n"@, v);
    let s1 = Machine { env: e1, heap: seq![] };
    let s2 = Machine { env: e2, heap: seq![] };
    let s3 = Machine { env: e3, heap: seq![] };
    let entry = bs[0].insts;
    assert(eval(m, cst(0), s0, 0) == Ok::<(i64, Machine), Fault>((0, s0)));
    assert(eval(m, entry[0], s0, 0) == Ok::<(i64, Machine), Fault>((0, s1)));
    assert(eval(m, cst(0), s1, 0) == Ok::<(i64, Machine), Fault>((0, s1)));
    assert(eval(m, entry[1], s1, 0) == Ok::<(i64, Machine), Fault>((0, s2)));
    assert(eval(m, cst(v), s2, 0) == Ok::<(i64, Machine), Fault>((v, s2)));
    assert(eval(m, entry[2], s2, 0) == Ok::<(i64, Machine), Fault>((v, s3)));
    assert(eval(m, entry[3], s3, 0) == Ok::<(i64, Machine), Fault>((0, s3)));
    assert(e3["i"@] == 0 && e3["acc"@] == 0 && e3["n"@] == v);
    let out = alternating_below(n as int) as i64;
    let r = run(m, f, "cond"@, 0, 4, s3, 0);
    if n >= 0 {
        lemma_branch_loop(n, 0, e3, 4);
        assert(r == Ok::<(i64, Seq<i64>), Fault>((out, seq![])));
    } else {
        assert(eval(m, var("i"@), s3, 0) == Ok::<(i64, Machine), Fault>((0, s3)));
        assert(eval(m, var("n"@), s3, 0) == Ok::<(i64, Machine), Fault>((v, s3)));
        assert(eval(m, comp(CompareCondition::Lt, var("i"@), var("n"@)), s3, 0) == Ok::<(i64, Machine), Fault>((0, s3)));
        assert(eval(m, bs[1].insts[0], s3, 0) == Ok::<(i64, Machine), Fault>((0, s3)));
        assert(eval(m, var("acc"@), s3, 0) == Ok::<(i64, Machine), Fault>((0, s3)));
        assert(eval(m, bs[6].insts[0], s3, 0) == Ok::<(i64, Machine), Fault>((0, s3)));
        assert(run(m, f, "exit"@, 0, 5, s3, 0) == Ok::<(i64, Seq<i64>), Fault>((0, seq![])));
        assert(crate::interpreter::leave(m, f, bs[1], 4, 1, s3, 0) == Ok::<(i64, Seq<i64>), Fault>((0, seq![])));
        assert(r == Ok::<(i64, Seq<i64>), Fault>((out, seq![])));
    }
    assert(crate::interpreter::leave(m, f, bs[0], 0, 4, s3, 0) == r);
    assert(run(m, f, "entry"@, 3, 0, s3, 0) == r);
    assert(run(m, f, "entry"@, 2, 0, s2, 0) == r);
    assert(run(m, f, "entry"@, 1, 0, s1, 0) == r);
    assert(run(m, f, "entry"@, 0, 0, s0, 0) == r);
    assert(call(m, f, seq![], seq![], 0) == r);
}

/// The sums below `1, 2, ..., k`, added up.
pub open spec fn nested_total(k: int) -> int
    decreases k,
{
    if k <= 0 {
        0
    } else {
        nested_total(k - 1) + sum_below(k)
    }
}

/// For up to a hundred rows the nested total stays small.
pub proof fn lemma_nested_total_bound(k: int)
    requires
        0 <= k <= 100,
    ensures
        0 <= nested_total(k) <= k * 250_000,
    decreases k,
{
    if k > 0 {
        lemma_nested_total_bound(k - 1);
        lemma_sum_below_bound(k);
    }
}

/// Instructions the nested loops run from the outer test at row `i` until the exit block.
pub open spec fn triangle_steps(i: int, n: int) -> int
    decreases n - i,
{
    if i >= n {
        1
    } else {
        11 + 5 * i + triangle_steps(i + 1, n)
    }
}

/// The steps of the nested loops from row `i` on, in closed form.
pub proof fn lemma_triangle_steps(i: int, n: int)
    requires
        0 <= i <= n,
    ensures
        2 * triangle_steps(i, n) == 2 + (n - i) * (5 * (n + i) + 17),
    decreases n - i,
{
    if i < n {
        lemma_triangle_steps(i + 1, n);
        assert(2 * (11 + 5 * i) + 2 + (n - (i + 1)) * (5 * (n + (i + 1)) + 17) == 2 + (n - i) * (5 * (n + i) + 17))
            by (nonlinear_arith);
        assert(2 * triangle_steps(i, n) == 2 * (11 + 5 * i) + 2 * triangle_steps(i + 1, n));
    } else {
        assert((n - i) * (5 * (n + i) + 17) == 0) by (nonlinear_arith)
            requires
                n == i,
        ;
    }
}

/// The names of the nested loops' blocks and variables differ.
proof fn lemma_triangle_names(n: i32)
    ensures
        forall|a: int, b: int|
            0 <= a < b < triangle_numbers(n).functions[0].blocks.len() ==> #[trigger] triangle_numbers(n).functions[0].blocks[a].name
                != #[trigger] triangle_numbers(n).functions[0].blocks[b].name,
        triangle_numbers(n).functions[0].blocks.len() == 7,
        triangle_numbers(n).functions[0].blocks[0].name == "entry"@,
        triangle_numbers(n).functions[0].blocks[1].name == "outer_cond"@,
        triangle_numbers(n).functions[0].blocks[2].name == "outer_body"@,
        triangle_numbers(n).functions[0].blocks[3].name == "inner_cond"@,
        triangle_numbers(n).functions[0].blocks[4].name == "inner_body"@,
        triangle_numbers(n).functions[0].blocks[5].name == "outer_next"@,
        triangle_numbers(n).functions[0].blocks[6].name == "exit"@,
        "i"@ != "n"@ && "i"@ != "j"@ && "n"@ != "j"@,
        "sum"@ != "i"@ && "sum"@ != "n"@ && "sum"@ != "j"@ && "sum"@ != "inner_iters"@,
        "inner_iters"@ != "i"@ && "inner_iters"@ != "n"@ && "inner_iters"@ != "j"@,
{
    reveal_strlit("entry");
    reveal_strlit("outer_cond");
    reveal_strlit("outer_body");
    reveal_strlit("inner_cond");
    reveal_strlit("inner_body");
    reveal_strlit("outer_next");
    reveal_strlit("exit");
    reveal_strlit("i");
    reveal_strlit("n");
    reveal_strlit("j");
    reveal_strlit("sum");
    reveal_strlit("inner_iters");
    let bs = triangle_numbers(n).functions[0].blocks;
    assert forall|a: int, b: int| 0 <= a < b < bs.len() implies #[trigger] bs[a].name != #[trigger] bs[b].name by {
        if bs[a].name.len() == bs[b].name.len() {
            assert(bs[a].name[0] != bs[b].name[0] || bs[a].name[6] != bs[b].name[6]);
        }
    }
    assert("i"@[0] != "n"@[0] && "i"@[0] != "j"@[0] && "n"@[0] != "j"@[0]);
    assert("sum"@.len() != "i"@.len() && "sum"@.len() != "inner_iters"@.len() && "inner_iters"@.len() != "i"@.len());
}

/// The facts the nested loops keep about their variables at row `i`.
pub open spec fn triangle_env(e: Map<Seq<char>, i64>, i: int, n: i32) -> bool {
    &&& e.contains_key("i"@) && e["i"@] == i
    &&& e.contains_key("n"@) && e["n"@] == n
    &&& e.contains_key("inner_iters"@)
    &&& e.contains_key("sum"@)
}

/// From the outer test at row `i`, the nested loops return the nested total below `n`.
#[verifier::spinoff_prover]
#[verifier::rlimit(40)]
proof fn lemma_triangle_outer(n: i32, i: int, e: Map<Seq<char>, i64>, start: nat)
    requires
        0 <= i <= n <= 61,
        triangle_env(e, i, n),
        e["sum"@] == nested_total(i),
        start + triangle_steps(i, n as int) <= crate::interpreter::MAX_INSTRUCTIONS,
    ensures
        run(triangle_numbers(n), triangle_numbers(n).functions[0], "outer_cond"@, 0, start, Machine { env: e, heap: seq![] }, 0)
            == Ok::<(i64, Seq<i64>), Fault>((nested_total(n as int) as i64, seq![])),
    decreases n - i, i + 3,
{
    let m = triangle_numbers(n);
    let f = m.functions[0];
    let bs = f.blocks;
    lemma_triangle_names(n);
    lemma_find_last_distinct(bs, 1);
    lemma_find_last_distinct(bs, 2);
    lemma_find_last_distinct(bs, 6);
    lemma_nested_total_bound(i);
    lemma_nested_total_bound(n as int);
    let st = Machine { env: e, heap: seq![] };
    let out = nested_total(n as int) as i64;
    let c: i64 = if i < n { 1 } else { 0 };
    assert(eval(m, var("i"@), st, 0) == Ok::<(i64, Machine), Fault>((i as i64, st)));
    assert(eval(m, var("n"@), st, 0) == Ok::<(i64, Machine), Fault>((n as i64, st)));
    assert(eval(m, comp(CompareCondition::Lt, var("i"@), var("n"@)), st, 0) == Ok::<(i64, Machine), Fault>((c, st)));
    assert(eval(m, bs[1].insts[0], st, 0) == Ok::<(i64, Machine), Fault>((0, st)));
    if i < n {
        let e1 = e.insert("j"@, 0);
        let s1 = Machine { env: e1, heap: seq![] };
        assert(eval(m, cst(0), st, 0) == Ok::<(i64, Machine), Fault>((0, st)));
        assert(eval(m, bs[2].insts[0], st, 0) == Ok::<(i64, Machine), Fault>((0, s1)));
        assert(eval(m, bs[2].insts[1], s1, 0) == Ok::<(i64, Machine), Fault>((0, s1)));
        assert(sum_below(0) == 0);
        lemma_triangle_inner(n, i, 0, e1, start + 3);
        assert(crate::interpreter::leave(m, f, bs[2], start + 1, 2, s1, 0) == Ok::<(i64, Seq<i64>), Fault>((out, seq![])));
        assert(run(m, f, "outer_body"@, 1, start + 1, s1, 0) == Ok::<(i64, Seq<i64>), Fault>((out, seq![])));
        assert(run(m, f, "outer_body"@, 0, start + 1, st, 0) == Ok::<(i64, Seq<i64>), Fault>((out, seq![])));
    } else {
        assert(eval(m, var("sum"@), st, 0) == Ok::<(i64, Machine), Fault>((out, st)));
        assert(eval(m, bs[6].insts[0], st, 0) == Ok::<(i64, Machine), Fault>((out, st)));
        assert(run(m, f, "exit"@, 0, start + 1, st, 0) == Ok::<(i64, Seq<i64>), Fault>((out, seq![])));
    }
    assert(crate::interpreter::leave(m, f, bs[1], start, 1, st, 0) == Ok::<(i64, Seq<i64>), Fault>((out, seq![])));
}

/// From the inner test at row `i`, column `j`, the nested loops return the nested total below `n`.
#[verifier::spinoff_prover]
#[verifier::rlimit(40)]
proof fn lemma_triangle_inner(n: i32, i: int, j: int, e: Map<Seq<char>, i64>, start: nat)
    requires
        0 <= i < n <= 61,
        0 <= j <= i + 1,
        triangle_env(e, i, n),
        e.contains_key("j"@) && e["j"@] == j,
        e["sum"@] == nested_total(i) + sum_below(j),
        start + 5 * (i + 1 - j) + 3 + triangle_steps(i + 1, n as int) <= crate::interpreter::MAX_INSTRUCTIONS,
    ensures
        run(triangle_numbers(n), triangle_numbers(n).functions[0], "inner_cond"@, 0, start, Machine { env: e, heap: seq![] }, 0)
            == Ok::<(i64, Seq<i64>), Fault>((nested_total(n as int) as i64, seq![])),
    decreases n - i, i + 2 - j,
{
    let m = triangle_numbers(n);
    let f = m.functions[0];
    let bs = f.blocks;
    lemma_triangle_names(n);
    lemma_find_last_distinct(bs, 3);
    lemma_find_last_distinct(bs, 4);
    lemma_find_last_distinct(bs, 5);
    lemma_nested_total_bound(i);
    lemma_nested_total_bound(i + 1);
    lemma_sum_below_bound(j);
    lemma_sum_below_bound(j + 1);
    let st = Machine { env: e, heap: seq![] };
    let out = nested_total(n as int) as i64;
    let total = (nested_total(i) + sum_below(j)) as i64;
    let c: i64 = if j < i + 1 { 1 } else { 0 };
    assert(eval(m, var("j"@), st, 0) == Ok::<(i64, Machine), Fault>((j as i64, st)));
    assert(eval(m, var("i"@), st, 0) == Ok::<(i64, Machine), Fault>((i as i64, st)));
    assert(eval(m, cst(1), st, 0) == Ok::<(i64, Machine), Fault>((1, st)));
    assert(eval(m, bin(BinaryOp::Add, var("i"@), cst(1)), st, 0) == Ok::<(i64, Machine), Fault>(((i + 1) as i64, st)));
    assert(eval(m, comp(CompareCondition::Lt, var("j"@), bin(BinaryOp::Add, var("i"@), cst(1))), st, 0)
        == Ok::<(i64, Machine), Fault>((c, st)));
    assert(eval(m, bs[3].insts[0], st, 0) == Ok::<(i64, Machine), Fault>((0, st)));
    if j < i + 1 {
        let total2 = (nested_total(i) + sum_below(j + 1)) as i64;
        let it = e["inner_iters"@];
        let e1 = e.insert("sum"@, total2);
        let e2 = e1.insert("inner_iters"@, it.wrapping_add(1));
        let e3 = e2.insert("j"@, (j + 1) as i64);
        let s1 = Machine { env: e1, heap: seq![] };
        let s2 = Machine { env: e2, heap: seq![] };
        let s3 = Machine { env: e3, heap: seq![] };
        let body = bs[4].insts;
        assert(sum_below(j + 1) == sum_below(j) + j);
        assert(eval(m, var("sum"@), st, 0) == Ok::<(i64, Machine), Fault>((total, st)));
        assert(eval(m, bin(BinaryOp::Add, var("sum"@), var("j"@)), st, 0) == Ok::<(i64, Machine), Fault>((total2, st)));
        assert(eval(m, body[0], st, 0) == Ok::<(i64, Machine), Fault>((total2, s1)));
        assert(eval(m, var("inner_iters"@), s1, 0) == Ok::<(i64, Machine), Fault>((it, s1)));
        assert(eval(m, cst(1), s1, 0) == Ok::<(i64, Machine), Fault>((1, s1)));
        assert(eval(m, bin(BinaryOp::Add, var("inner_iters"@), cst(1)), s1, 0) == Ok::<(i64, Machine), Fault>((it.wrapping_add(1), s1)));
        assert(eval(m, body[1], s1, 0) == Ok::<(i64, Machine), Fault>((it.wrapping_add(1), s2)));
        assert(eval(m, var("j"@), s2, 0) == Ok::<(i64, Machine), Fault>((j as i64, s2)));
        assert(eval(m, cst(1), s2, 0) == Ok::<(i64, Machine), Fault>((1, s2)));
        assert(eval(m, bin(BinaryOp::Add, var("j"@), cst(1)), s2, 0) == Ok::<(i64, Machine), Fault>(((j + 1) as i64, s2)));
        assert(eval(m, body[2], s2, 0) == Ok::<(i64, Machine), Fault>(((j + 1) as i64, s3)));
        assert(eval(m, body[3], s3, 0) == Ok::<(i64, Machine), Fault>((0, s3)));
        lemma_triangle_inner(n, i, j + 1, e3, start + 5);
        assert(crate::interpreter::leave(m, f, bs[4], start + 1, 4, s3, 0) == Ok::<(i64, Seq<i64>), Fault>((out, seq![])));
        assert(run(m, f, "inner_body"@, 3, start + 1, s3, 0) == Ok::<(i64, Seq<i64>), Fault>((out, seq![])));
        assert(run(m, f, "inner_body"@, 2, start + 1, s2, 0) == Ok::<(i64, Seq<i64>), Fault>((out, seq![])));
        assert(run(m, f, "inner_body"@, 1, start + 1, s1, 0) == Ok::<(i64, Seq<i64>), Fault>((out, seq![])));
        assert(run(m, f, "inner_body"@, 0, start + 1, st, 0) == Ok::<(i64, Seq<i64>), Fault>((out, seq![])));
    } else {
        let e1 = e.insert("i"@, (i + 1) as i64);
        let s1 = Machine { env: e1, heap: seq![] };
        let next = bs[5].insts;
        assert(eval(m, next[0], st, 0) == Ok::<(i64, Machine), Fault>(((i + 1) as i64, s1)));
        assert(eval(m, next[1], s1, 0) == Ok::<(i64, Machine), Fault>((0, s1)));
        assert(nested_total(i + 1) == nested_total(i) + sum_below(i + 1));
        lemma_triangle_outer(n, i + 1, e1, start + 3);
        assert(crate::interpreter::leave(m, f, bs[5], start + 1, 2, s1, 0) == Ok::<(i64, Seq<i64>), Fault>((out, seq![])));
        assert(run(m, f, "outer_next"@, 1, start + 1, s1, 0) == Ok::<(i64, Seq<i64>), Fault>((out, seq![])));
        assert(run(m, f, "outer_next"@, 0, start + 1, st, 0) == Ok::<(i64, Seq<i64>), Fault>((out, seq![])));
    }
    assert(crate::interpreter::leave(m, f, bs[3], start, 1, st, 0) == Ok::<(i64, Seq<i64>), Fault>((out, seq![])));
}

/// The nested loops return the sum, over the rows `i` of `0..n`, of the integers up to `i`
/// (0 when `n` is not positive), for every `n` whose loops fit in the interpreter's step
/// limit.
pub proof fn law_triangle_numbers_computes(n: i32)
    requires
        n <= 61,
    ensures
        execute(triangle_numbers(n), triangle_numbers(n).functions[0], seq![]) == Ok::<i64, Fault>(
            nested_total(n as int) as i64,
        ),
{
    let m = triangle_numbers(n);
    let f = m.functions[0];
    let bs = f.blocks;
    lemma_triangle_names(n);
    lemma_find_last_distinct(bs, 0);
    lemma_find_last_distinct(bs, 1);
    lemma_find_last_distinct(bs, 6);
    let v = n as i64;
    let s0 = Machine { env: bind(seq![], seq![]), heap: seq![] };
    assert(s0.env == Map::<Seq<char>, i64>::empty());
    let e1 = s0.env.insert("i"@, 0);
    let e2 = e1.insert("sum"@, 0);
    let e3 = e2.insert("n"@, v);
    let e4 = e3.insert("inner_iters"@, 0);
    let s1 = Machine { env: e1, heap: seq![] };
    let s2 = Machine { env: e2, heap: seq![] };
    let s3 = Machine { env: e3, heap: seq![] };
    let s4 = Machine { env: e4, heap: seq![] };
    let entry = bs[0].insts;
    assert(eval(m, cst(0), s0, 0) == Ok::<(i64, Machine), Fault>((0, s0)));
    assert(eval(m, entry[0], s0, 0) == Ok::<(i64, Machine), Fault>((0, s1)));
    assert(eval(m, cst(0), s1, 0) == Ok::<(i64, Machine), Fault>((0, s1)));
    assert(eval(m, entry[1], s1, 0) == Ok::<(i64, Machine), Fault>((0, s2)));
    assert(eval(m, cst(v), s2, 0) == Ok::<(i64, Machine), Fault>((v, s2)));
    assert(eval(m, entry[2], s2, 0) == Ok::<(i64, Machine), Fault>((v, s3)));
    assert(eval(m, cst(0), s3, 0) == Ok::<(i64, Machine), Fault>((0, s3)));
    assert(eval(m, entry[3], s3, 0) == Ok::<(i64, Machine), Fault>((0, s4)));
    assert(eval(m, entry[4], s4, 0) == Ok::<(i64, Machine), Fault>((0, s4)));
    assert(e4["i"@] == 0 && e4["sum"@] == 0 && e4["n"@] == v && e4.contains_key("inner_iters"@));
    let out = nested_total(n as int) as i64;
    let r = run(m, f, "outer_cond"@, 0, 5, s4, 0);
    if n >= 0 {
        lemma_triangle_steps(0, n as int);
        assert(n * (5 * n + 17) <= 19988) by (nonlinear_arith)
            requires
                0 <= n <= 61,
        {
            assert(n * (5 * n + 17) <= 61 * (5 * n + 17));
        }
        lemma_triangle_outer(n, 0, e4, 5);
        assert(r == Ok::<(i64, Seq<i64>), Fault>((out, seq![])));
    } else {
        assert(eval(m, var("i"@), s4, 0) == Ok::<(i64, Machine), Fault>((0, s4)));
        assert(eval(m, var("n"@), s4, 0) == Ok::<(i64, Machine), Fault>((v, s4)));
        assert(eval(m, comp(CompareCondition::Lt, var("i"@), var("n"@)), s4, 0) == Ok::<(i64, Machine), Fault>((0, s4)));
        assert(eval(m, bs[1].insts[0], s4, 0) == Ok::<(i64, Machine), Fault>((0, s4)));
        assert(eval(m, var("sum"@), s4, 0) == Ok::<(i64, Machine), Fault>((0, s4)));
        assert(eval(m, bs[6].insts[0], s4, 0) == Ok::<(i64, Machine), Fault>((0, s4)));
        assert(run(m, f, "exit"@, 0, 6, s4, 0) == Ok::<(i64, Seq<i64>), Fault>((0, seq![])));
        assert(crate::interpreter::leave(m, f, bs[1], 5, 1, s4, 0) == Ok::<(i64, Seq<i64>), Fault>((0, seq![])));
        assert(r == Ok::<(i64, Seq<i64>), Fault>((out, seq![])));
    }
    assert(crate::interpreter::leave(m, f, bs[0], 0, 5, s4, 0) == r);
    assert(run(m, f, "entry"@, 4, 0, s4, 0) == r);
    assert(run(m, f, "entry"@, 3, 0, s3, 0) == r);
    assert(run(m, f, "entry"@, 2, 0, s2, 0) == r);
    assert(run(m, f, "entry"@, 1, 0, s1, 0) == r);
    assert(run(m, f, "entry"@, 0, 0, s0, 0) == r);
    assert(call(m, f, seq![], seq![], 0) == r);
}

/// The complex expression gives `(n*2 + n*3) - (n*1 + n*4)`, that is 0.
pub proof fn law_complex_expr_computes(n: i32)
    ensures
        execute(complex_expr(n), complex_expr(n).functions[0], seq![]) == Ok::<i64, Fault>(0),
{
    let m = complex_expr(n);
    let f = m.functions[0];
    let bs = f.blocks;
    reveal_strlit("entry");
    reveal_strlit("a");
    reveal_strlit("b");
    reveal_strlit("c");
    reveal_strlit("d");
    reveal_strlit("e");
    reveal_strlit("f");
    reveal_strlit("g");
    reveal_strlit("h");
    reveal_strlit("ab");
    reveal_strlit("cd");
    reveal_strlit("ef");
    reveal_strlit("gh");
    reveal_strlit("left_sum");
    reveal_strlit("right_sum");
    let names = seq![
        "a"@, "b"@, "c"@, "d"@, "e"@, "f"@, "g"@, "h"@, "ab"@, "cd"@, "ef"@, "gh"@, "left_sum"@, "right_sum"@,
    ];
    assert forall|i: int, j: int| 0 <= i < j < 14 implies #[trigger] names[i] != #[trigger] names[j] by {
        if names[i].len() == names[j].len() {
            assert(names[i][0] != names[j][0]);
        }
    }
    assert(names[0] == "a"@ && names[1] == "b"@ && names[2] == "c"@ && names[3] == "d"@);
    assert(names[4] == "e"@ && names[5] == "f"@ && names[6] == "g"@ && names[7] == "h"@);
    assert(names[8] == "ab"@ && names[9] == "cd"@ && names[10] == "ef"@ && names[11] == "gh"@);
    assert(names[12] == "left_sum"@ && names[13] == "right_sum"@);
    assert(find_last_block(bs, "entry"@) == Some(0int));
    let v = n as i64;
    lemma_small_product(v, 2);
    lemma_small_product(v, 3);
    lemma_small_product(v, 1);
    lemma_small_product(v, 4);
    let ab = (n * 2) as i64;
    let cd = (n * 3) as i64;
    let ef = (n * 1) as i64;
    let gh = (n * 4) as i64;
    let ls = (n * 2 + n * 3) as i64;
    let rs = (n * 1 + n * 4) as i64;
    assert(arith(BinaryOp::Add, ab, cd) == Some(ls));
    assert(arith(BinaryOp::Add, ef, gh) == Some(rs));
    assert(arith(BinaryOp::Sub, ls, rs) == Some(0i64));
    let s = |e: Map<Seq<char>, i64>| Machine { env: e, heap: seq![] };
    let e0 = bind(seq![], seq![]);
    assert(e0 == Map::<Seq<char>, i64>::empty());
    let e1 = e0.insert("a"@, v);
    let e2 = e1.insert("b"@, 2);
    let e3 = e2.insert("c"@, v);
    let e4 = e3.insert("d"@, 3);
    let e5 = e4.insert("e"@, v);
    let e6 = e5.insert("f"@, 1);
    let e7 = e6.insert("g"@, v);
    let e8 = e7.insert("h"@, 4);
    let e9 = e8.insert("ab"@, ab);
    let e10 = e9.insert("cd"@, cd);
    let e11 = e10.insert("ef"@, ef);
    let e12 = e11.insert("gh"@, gh);
    let e13 = e12.insert("left_sum"@, ls);
    let e14 = e13.insert("right_sum"@, rs);
    assert(e8["a"@] == v && e8["b"@] == 2 && e8["c"@] == v && e8["d"@] == 3);
    assert(e8["e"@] == v && e8["f"@] == 1 && e8["g"@] == v && e8["h"@] == 4);
    assert(e9["c"@] == v && e9["d"@] == 3 && e10["e"@] == v && e10["f"@] == 1 && e11["g"@] == v && e11["h"@] == 4);
    assert(e12["ab"@] == ab && e12["cd"@] == cd && e13["ef"@] == ef && e13["gh"@] == gh);
    assert(e14["ab"@] == ab && e14["cd"@] == cd && e14["ef"@] == ef && e14["gh"@] == gh);
    let insts = bs[0].insts;
    assert(eval(m, cst(v), s(e0), 0) == Ok::<(i64, Machine), Fault>((v, s(e0))));
    assert(eval(m, insts[0], s(e0), 0) == Ok::<(i64, Machine), Fault>((v, s(e1))));
    assert(eval(m, cst(2), s(e1), 0) == Ok::<(i64, Machine), Fault>((2, s(e1))));
    assert(eval(m, insts[1], s(e1), 0) == Ok::<(i64, Machine), Fault>((2, s(e2))));
    assert(eval(m, cst(v), s(e2), 0) == Ok::<(i64, Machine), Fault>((v, s(e2))));
    assert(eval(m, insts[2], s(e2), 0) == Ok::<(i64, Machine), Fault>((v, s(e3))));
    assert(eval(m, cst(3), s(e3), 0) == Ok::<(i64, Machine), Fault>((3, s(e3))));
    assert(eval(m, insts[3], s(e3), 0) == Ok::<(i64, Machine), Fault>((3, s(e4))));
    assert(eval(m, cst(v), s(e4), 0) == Ok::<(i64, Machine), Fault>((v, s(e4))));
    assert(eval(m, insts[4], s(e4), 0) == Ok::<(i64, Machine), Fault>((v, s(e5))));
    assert(eval(m, cst(1), s(e5), 0) == Ok::<(i64, Machine), Fault>((1, s(e5))));
    assert(eval(m, insts[5], s(e5), 0) == Ok::<(i64, Machine), Fault>((1, s(e6))));
    assert(eval(m, cst(v), s(e6), 0) == Ok::<(i64, Machine), Fault>((v, s(e6))));
    assert(eval(m, insts[6], s(e6), 0) == Ok::<(i64, Machine), Fault>((v, s(e7))));
    assert(eval(m, cst(4), s(e7), 0) == Ok::<(i64, Machine), Fault>((4, s(e7))));
    assert(eval(m, insts[7], s(e7), 0) == Ok::<(i64, Machine), Fault>((4, s(e8))));
    assert(eval(m, var("a"@), s(e8), 0) == Ok::<(i64, Machine), Fault>((v, s(e8))));
    assert(eval(m, var("b"@), s(e8), 0) == Ok::<(i64, Machine), Fault>((2, s(e8))));
    assert(eval(m, bin(BinaryOp::Mul, var("a"@), var("b"@)), s(e8), 0) == Ok::<(i64, Machine), Fault>((ab, s(e8))));
    assert(eval(m, insts[8], s(e8), 0) == Ok::<(i64, Machine), Fault>((ab, s(e9))));
    assert(eval(m, var("c"@), s(e9), 0) == Ok::<(i64, Machine), Fault>((v, s(e9))));
    assert(eval(m, var("d"@), s(e9), 0) == Ok::<(i64, Machine), Fault>((3, s(e9))));
    assert(eval(m, bin(BinaryOp::Mul, var("c"@), var("d"@)), s(e9), 0) == Ok::<(i64, Machine), Fault>((cd, s(e9))));
    assert(eval(m, insts[9], s(e9), 0) == Ok::<(i64, Machine), Fault>((cd, s(e10))));
    assert(eval(m, var("e"@), s(e10), 0) == Ok::<(i64, Machine), Fault>((v, s(e10))));
    assert(eval(m, var("f"@), s(e10), 0) == Ok::<(i64, Machine), Fault>((1, s(e10))));
    assert(eval(m, bin(BinaryOp::Mul, var("e"@), var("f"@)), s(e10), 0) == Ok::<(i64, Machine), Fault>((ef, s(e10))));
    assert(eval(m, insts[10], s(e10), 0) == Ok::<(i64, Machine), Fault>((ef, s(e11))));
    assert(eval(m, var("g"@), s(e11), 0) == Ok::<(i64, Machine), Fault>((v, s(e11))));
    assert(eval(m, var("h"@), s(e11), 0) == Ok::<(i64, Machine), Fault>((4, s(e11))));
    assert(eval(m, bin(BinaryOp::Mul, var("g"@), var("h"@)), s(e11), 0) == Ok::<(i64, Machine), Fault>((gh, s(e11))));
    assert(eval(m, insts[11], s(e11), 0) == Ok::<(i64, Machine), Fault>((gh, s(e12))));
    assert(eval(m, var("ab"@), s(e12), 0) == Ok::<(i64, Machine), Fault>((ab, s(e12))));
    assert(eval(m, var("cd"@), s(e12), 0) == Ok::<(i64, Machine), Fault>((cd, s(e12))));
    assert(eval(m, bin(BinaryOp::Add, var("ab"@), var("cd"@)), s(e12), 0) == Ok::<(i64, Machine), Fault>((ls, s(e12))));
    assert(eval(m, insts[12], s(e12), 0) == Ok::<(i64, Machine), Fault>((ls, s(e13))));
    assert(eval(m, var("ef"@), s(e13), 0) == Ok::<(i64, Machine), Fault>((ef, s(e13))));
    assert(eval(m, var("gh"@), s(e13), 0) == Ok::<(i64, Machine), Fault>((gh, s(e13))));
    assert(eval(m, bin(BinaryOp::Add, var("ef"@), var("gh"@)), s(e13), 0) == Ok::<(i64, Machine), Fault>((rs, s(e13))));
    assert(eval(m, insts[13], s(e13), 0) == Ok::<(i64, Machine), Fault>((rs, s(e14))));
    assert(eval(m, var("ab"@), s(e14), 0) == Ok::<(i64, Machine), Fault>((ab, s(e14))));
    assert(eval(m, var("cd"@), s(e14), 0) == Ok::<(i64, Machine), Fault>((cd, s(e14))));
    assert(eval(m, var("ef"@), s(e14), 0) == Ok::<(i64, Machine), Fault>((ef, s(e14))));
    assert(eval(m, var("gh"@), s(e14), 0) == Ok::<(i64, Machine), Fault>((gh, s(e14))));
    let l = bin(BinaryOp::Add, var("ab"@), var("cd"@));
    let r = bin(BinaryOp::Add, var("ef"@), var("gh"@));
    assert(eval(m, l, s(e14), 0) == Ok::<(i64, Machine), Fault>((ls, s(e14))));
    assert(eval(m, r, s(e14), 0) == Ok::<(i64, Machine), Fault>((rs, s(e14))));
    assert(eval(m, bin(BinaryOp::Sub, l, r), s(e14), 0) == Ok::<(i64, Machine), Fault>((0, s(e14))));
    assert(eval(m, insts[14], s(e14), 0) == Ok::<(i64, Machine), Fault>((0, s(e14))));
    let out = Ok::<(i64, Seq<i64>), Fault>((0, seq![]));
    assert(run(m, f, "entry"@, 14, 0, s(e14), 0) == out);
    assert(run(m, f, "entry"@, 13, 0, s(e13), 0) == out);
    assert(run(m, f, "entry"@, 12, 0, s(e12), 0) == out);
    assert(run(m, f, "entry"@, 11, 0, s(e11), 0) == out);
    assert(run(m, f, "entry"@, 10, 0, s(e10), 0) == out);
    assert(run(m, f, "entry"@, 9, 0, s(e9), 0) == out);
    assert(run(m, f, "entry"@, 8, 0, s(e8), 0) == out);
    assert(run(m, f, "entry"@, 7, 0, s(e7), 0) == out);
    assert(run(m, f, "entry"@, 6, 0, s(e6), 0) == out);
    assert(run(m, f, "entry"@, 5, 0, s(e5), 0) == out);
    assert(run(m, f, "entry"@, 4, 0, s(e4), 0) == out);
    assert(run(m, f, "entry"@, 3, 0, s(e3), 0) == out);
    assert(run(m, f, "entry"@, 2, 0, s(e2), 0) == out);
    assert(run(m, f, "entry"@, 1, 0, s(e1), 0) == out);
    assert(run(m, f, "entry"@, 0, 0, s(e0), 0) == out);
    assert(call(m, f, seq![], seq![], 0) == out);
}

/// From the loop test after `j` turns, the simple sum returns three times the sum below `n`.
#[verifier::spinoff_prover]
#[verifier::rlimit(40)]
proof fn lemma_simple_sum_loop(n: i32, j: int, e: Map<Seq<char>, i64>, start: nat)
    requires
        0 <= j <= n <= 1665,
        e.contains_key("i"@) && e["i"@] == j,
        e.contains_key("acc"@) && e["acc"@] == 3 * sum_below(j),
        e.contains_key("n"@) && e["n"@] == n,
        e.contains_key("trace"@),
        start + 6 * (n - j) + 1 <= crate::interpreter::MAX_INSTRUCTIONS,
    ensures
        run(simple_sum(n), simple_sum(n).functions[0], "cond"@, 0, start, Machine { env: e, heap: seq![] }, 0)
            == Ok::<(i64, Seq<i64>), Fault>(((3 * sum_below(n as int)) as i64, seq![])),
    decreases n - j,
{
    let m = simple_sum(n);
    let f = m.functions[0];
    let bs = f.blocks;
    reveal_strlit("entry");
    reveal_strlit("cond");
    reveal_strlit("body");
    reveal_strlit("exit");
    reveal_strlit("i");
    reveal_strlit("acc");
    reveal_strlit("n");
    reveal_strlit("t");
    reveal_strlit("trace");
    assert forall|a: int, b: int| 0 <= a < b < bs.len() implies #[trigger] bs[a].name != #[trigger] bs[b].name by {
        if bs[a].name.len() == bs[b].name.len() {
            assert(bs[a].name[0] != bs[b].name[0]);
        }
    }
    lemma_find_last_distinct(bs, 1);
    lemma_find_last_distinct(bs, 2);
    lemma_find_last_distinct(bs, 3);
    assert(bs[1].name == "cond"@ && bs[2].name == "body"@ && bs[3].name == "exit"@);
    assert("i"@[0] != "n"@[0] && "i"@[0] != "t"@[0] && "n"@[0] != "t"@[0]);
    assert("acc"@.len() != "i"@.len() && "acc"@.len() != "trace"@.len() && "trace"@.len() != "i"@.len());
    lemma_sum_below_bound(j);
    let st = Machine { env: e, heap: seq![] };
    let out = (3 * sum_below(n as int)) as i64;
    let vj = j as i64;
    let c: i64 = if j < n { 1 } else { 0 };
    assert(eval(m, var("i"@), st, 0) == Ok::<(i64, Machine), Fault>((vj, st)));
    assert(eval(m, var("n"@), st, 0) == Ok::<(i64, Machine), Fault>((n as i64, st)));
    assert(eval(m, comp(CompareCondition::Lt, var("i"@), var("n"@)), st, 0) == Ok::<(i64, Machine), Fault>((c, st)));
    assert(eval(m, bs[1].insts[0], st, 0) == Ok::<(i64, Machine), Fault>((0, st)));
    if j < n {
        lemma_sum_below_bound(j + 1);
        lemma_small_product(vj, 3);
        let tv = (j * 3) as i64;
        lemma_small_product(tv, 2);
        let acc = (3 * sum_below(j)) as i64;
        let acc2 = (3 * sum_below(j) + j * 3) as i64;
        let e1 = e.insert("t"@, tv);
        let e2 = e1.insert("acc"@, acc2);
        let e3 = e2.insert("trace"@, (j * 3 * 2) as i64);
        let e4 = e3.insert("i"@, (j + 1) as i64);
        let s1 = Machine { env: e1, heap: seq![] };
        let s2 = Machine { env: e2, heap: seq![] };
        let s3 = Machine { env: e3, heap: seq![] };
        let s4 = Machine { env: e4, heap: seq![] };
        let body = bs[2].insts;
        assert(eval(m, cst(3), st, 0) == Ok::<(i64, Machine), Fault>((3, st)));
        assert(eval(m, bin(BinaryOp::Mul, var("i"@), cst(3)), st, 0) == Ok::<(i64, Machine), Fault>((tv, st)));
        assert(eval(m, body[0], st, 0) == Ok::<(i64, Machine), Fault>((tv, s1)));
        assert(eval(m, var("acc"@), s1, 0) == Ok::<(i64, Machine), Fault>((acc, s1)));
        assert(eval(m, var("t"@), s1, 0) == Ok::<(i64, Machine), Fault>((tv, s1)));
        assert(eval(m, bin(BinaryOp::Add, var("acc"@), var("t"@)), s1, 0) == Ok::<(i64, Machine), Fault>((acc2, s1)));
        assert(eval(m, body[1], s1, 0) == Ok::<(i64, Machine), Fault>((acc2, s2)));
        assert(eval(m, var("t"@), s2, 0) == Ok::<(i64, Machine), Fault>((tv, s2)));
        assert(eval(m, cst(2), s2, 0) == Ok::<(i64, Machine), Fault>((2, s2)));
        assert(eval(m, bin(BinaryOp::Mul, var("t"@), cst(2)), s2, 0) == Ok::<(i64, Machine), Fault>(((j * 3 * 2) as i64, s2)));
        assert(eval(m, body[2], s2, 0) == Ok::<(i64, Machine), Fault>(((j * 3 * 2) as i64, s3)));
        assert(eval(m, var("i"@), s3, 0) == Ok::<(i64, Machine), Fault>((vj, s3)));
        assert(eval(m, cst(1), s3, 0) == Ok::<(i64, Machine), Fault>((1, s3)));
        assert(eval(m, bin(BinaryOp::Add, var("i"@), cst(1)), s3, 0) == Ok::<(i64, Machine), Fault>(((j + 1) as i64, s3)));
        assert(eval(m, body[3], s3, 0) == Ok::<(i64, Machine), Fault>(((j + 1) as i64, s4)));
        assert(eval(m, body[4], s4, 0) == Ok::<(i64, Machine), Fault>((0, s4)));
        assert(sum_below(j + 1) == sum_below(j) + j);
        lemma_simple_sum_loop(n, j + 1, e4, start + 6);
        assert(crate::interpreter::leave(m, f, bs[2], start + 1, 5, s4, 0) == Ok::<(i64, Seq<i64>), Fault>((out, seq![])));
        assert(run(m, f, "body"@, 4, start + 1, s4, 0) == Ok::<(i64, Seq<i64>), Fault>((out, seq![])));
        assert(run(m, f, "body"@, 3, start + 1, s3, 0) == Ok::<(i64, Seq<i64>), Fault>((out, seq![])));
        assert(run(m, f, "body"@, 2, start + 1, s2, 0) == Ok::<(i64, Seq<i64>), Fault>((out, seq![])));
        assert(run(m, f, "body"@, 1, start + 1, s1, 0) == Ok::<(i64, Seq<i64>), Fault>((out, seq![])));
        assert(run(m, f, "body"@, 0, start + 1, st, 0) == Ok::<(i64, Seq<i64>), Fault>((out, seq![])));
    } else {
        assert(eval(m, var("acc"@), st, 0) == Ok::<(i64, Machine), Fault>((out, st)));
        assert(eval(m, bs[3].insts[0], st, 0) == Ok::<(i64, Machine), Fault>((out, st)));
        assert(run(m, f, "exit"@, 0, start + 1, st, 0) == Ok::<(i64, Seq<i64>), Fault>((out, seq![])));
    }
    assert(crate::interpreter::leave(m, f, bs[1], start, 1, st, 0) == Ok::<(i64, Seq<i64>), Fault>((out, seq![])));
}

/// The simple sum returns three times the sum of `0..n` (0 when `n` is not positive), for
/// every `n` whose loop fits in the interpreter's step limit.
pub proof fn law_simple_sum_computes(n: i32)
    requires
        n <= 1665,
    ensures
        execute(simple_sum(n), simple_sum(n).functions[0], seq![]) == Ok::<i64, Fault>(
            (3 * sum_below(n as int)) as i64,
        ),
{
    let m = simple_sum(n);
    let f = m.functions[0];
    let bs = f.blocks;
    reveal_strlit("entry");
    reveal_strlit("cond");
    reveal_strlit("body");
    reveal_strlit("exit");
    reveal_strlit("i");
    reveal_strlit("acc");
    reveal_strlit("n");
    reveal_strlit("trace");
    assert forall|a: int, b: int| 0 <= a < b < bs.len() implies #[trigger] bs[a].name != #[trigger] bs[b].name by {
        if bs[a].name.len() == bs[b].name.len() {
            assert(bs[a].name[0] != bs[b].name[0]);
        }
    }
    lemma_find_last_distinct(bs, 0);
    lemma_find_last_distinct(bs, 1);
    lemma_find_last_distinct(bs, 3);
    assert(bs[0].name == "entry"@ && bs[1].name == "cond"@ && bs[3].name == "exit"@);
    assert("i"@[0] != "n"@[0]);
    assert("acc"@.len() != "i"@.len() && "acc"@.len() != "trace"@.len() && "trace"@.len() != "i"@.len());
    let v = n as i64;
    let s = |e: Map<Seq<char>, i64>| Machine { env: e, heap: seq![] };
    let e0 = bind(seq![], seq![]);
    assert(e0 == Map::<Seq<char>, i64>::empty());
    let e1 = e0.insert("i"@, 0);
    let e2 = e1.insert("acc"@, 0);
    let e3 = e2.insert("trace"@, 0);
    let e4 = e3.insert("n"@, v);
    let entry = bs[0].insts;
    assert(eval(m, cst(0), s(e0), 0) == Ok::<(i64, Machine), Fault>((0, s(e0))));
    assert(eval(m, entry[0], s(e0), 0) == Ok::<(i64, Machine), Fault>((0, s(e1))));
    assert(eval(m, cst(0), s(e1), 0) == Ok::<(i64, Machine), Fault>((0, s(e1))));
    assert(eval(m, entry[1], s(e1), 0) == Ok::<(i64, Machine), Fault>((0, s(e2))));
    assert(eval(m, cst(0), s(e2), 0) == Ok::<(i64, Machine), Fault>((0, s(e2))));
    assert(eval(m, entry[2], s(e2), 0) == Ok::<(i64, Machine), Fault>((0, s(e3))));
    assert(eval(m, cst(v), s(e3), 0) == Ok::<(i64, Machine), Fault>((v, s(e3))));
    assert(eval(m, entry[3], s(e3), 0) == Ok::<(i64, Machine), Fault>((v, s(e4))));
    assert(eval(m, entry[4], s(e4), 0) == Ok::<(i64, Machine), Fault>((0, s(e4))));
    assert(e4["i"@] == 0 && e4["acc"@] == 0 && e4["n"@] == v && e4.contains_key("trace"@));
    let out = (3 * sum_below(n as int)) as i64;
    let r = run(m, f, "cond"@, 0, 5, s(e4), 0);
    if n >= 0 {
        lemma_simple_sum_loop(n, 0, e4, 5);
        assert(r == Ok::<(i64, Seq<i64>), Fault>((out, seq![])));
    } else {
        let st = s(e4);
        assert(eval(m, var("i"@), st, 0) == Ok::<(i64, Machine), Fault>((0, st)));
        assert(eval(m, var("n"@), st, 0) == Ok::<(i64, Machine), Fault>((v, st)));
        assert(eval(m, comp(CompareCondition::Lt, var("i"@), var("n"@)), st, 0) == Ok::<(i64, Machine), Fault>((0, st)));
        assert(eval(m, bs[1].insts[0], st, 0) == Ok::<(i64, Machine), Fault>((0, st)));
        assert(eval(m, var("acc"@), st, 0) == Ok::<(i64, Machine), Fault>((0, st)));
        assert(eval(m, bs[3].insts[0], st, 0) == Ok::<(i64, Machine), Fault>((0, st)));
        assert(run(m, f, "exit"@, 0, 6, st, 0) == Ok::<(i64, Seq<i64>), Fault>((0, seq![])));
        assert(crate::interpreter::leave(m, f, bs[1], 5, 1, st, 0) == Ok::<(i64, Seq<i64>), Fault>((0, seq![])));
        assert(r == Ok::<(i64, Seq<i64>), Fault>((out, seq![])));
    }
    assert(crate::interpreter::leave(m, f, bs[0], 0, 5, s(e4), 0) == r);
    assert(run(m, f, "entry"@, 4, 0, s(e4), 0) == r);
    assert(run(m, f, "entry"@, 3, 0, s(e3), 0) == r);
    assert(run(m, f, "entry"@, 2, 0, s(e2), 0) == r);
    assert(run(m, f, "entry"@, 1, 0, s(e1), 0) == r);
    assert(run(m, f, "entry"@, 0, 0, s(e0), 0) == r);
    assert(call(m, f, seq![], seq![], 0) == r);
}

/// Euclid's algorithm on `2m` and `m`, `m = max(n, 10)`, gives `m`.
pub proof fn law_gcd_euclidean_computes(n: i32)
    ensures
        execute(gcd_euclidean(n), gcd_euclidean(n).functions[0], seq![]) == Ok::<i64, Fault>(gcd_seed(n)),
{
    let m = gcd_euclidean(n);
    let f = m.functions[0];
    let bs = f.blocks;
    reveal_strlit("entry");
    reveal_strlit("loop");
    reveal_strlit("body");
    reveal_strlit("exit");
    reveal_strlit("a");
    reveal_strlit("b");
    reveal_strlit("iters");
    reveal_strlit("temp");
    assert forall|x: int, y: int| 0 <= x < y < bs.len() implies #[trigger] bs[x].name != #[trigger] bs[y].name by {
        if bs[x].name.len() == bs[y].name.len() {
            assert(bs[x].name[0] != bs[y].name[0]);
        }
    }
    lemma_find_last_distinct(bs, 0);
    lemma_find_last_distinct(bs, 1);
    lemma_find_last_distinct(bs, 2);
    lemma_find_last_distinct(bs, 3);
    assert(bs[0].name == "entry"@ && bs[1].name == "loop"@ && bs[2].name == "body"@ && bs[3].name == "exit"@);
    assert("a"@[0] != "b"@[0]);
    assert("iters"@.len() != "a"@.len() && "temp"@.len() != "a"@.len() && "iters"@.len() != "temp"@.len());
    let g = gcd_seed(n);
    let a0 = (g * 2) as i64;
    let s = |e: Map<Seq<char>, i64>| Machine { env: e, heap: seq![] };
    let e0 = bind(seq![], seq![]);
    assert(e0 == Map::<Seq<char>, i64>::empty());
    let e1 = e0.insert("a"@, a0);
    let e2 = e1.insert("b"@, g);
    let e3 = e2.insert("iters"@, 0);
    let entry = bs[0].insts;
    assert(eval(m, cst(a0), s(e0), 0) == Ok::<(i64, Machine), Fault>((a0, s(e0))));
    assert(eval(m, entry[0], s(e0), 0) == Ok::<(i64, Machine), Fault>((a0, s(e1))));
    assert(eval(m, cst(g), s(e1), 0) == Ok::<(i64, Machine), Fault>((g, s(e1))));
    assert(eval(m, entry[1], s(e1), 0) == Ok::<(i64, Machine), Fault>((g, s(e2))));
    assert(eval(m, cst(0), s(e2), 0) == Ok::<(i64, Machine), Fault>((0, s(e2))));
    assert(eval(m, entry[2], s(e2), 0) == Ok::<(i64, Machine), Fault>((0, s(e3))));
    assert(eval(m, entry[3], s(e3), 0) == Ok::<(i64, Machine), Fault>((0, s(e3))));
    assert(e3["a"@] == a0 && e3["b"@] == g && e3["iters"@] == 0);
    // first test: b = m is not 0
    assert(eval(m, var("b"@), s(e3), 0) == Ok::<(i64, Machine), Fault>((g, s(e3))));
    assert(eval(m, cst(0), s(e3), 0) == Ok::<(i64, Machine), Fault>((0, s(e3))));
    assert(eval(m, comp(CompareCondition::Ne, var("b"@), cst(0)), s(e3), 0) == Ok::<(i64, Machine), Fault>((1, s(e3))));
    assert(eval(m, bs[1].insts[0], s(e3), 0) == Ok::<(i64, Machine), Fault>((0, s(e3))));
    // body: temp = a - (a / b) * b = 0, a = b, b = temp
    assert(10 <= g <= 0x8000_0000);
    assert(a0 == 2 * g);
    let gi = g as int;
    assert((2 * gi) / gi == 2) by (nonlinear_arith)
        requires
            gi >= 10,
    ;
    assert(arith(BinaryOp::Div, a0, g) == Some(2i64));
    assert(arith(BinaryOp::Mul, 2i64, g) == Some(a0)) by {
        lemma_small_product(2, g);
    }
    assert(arith(BinaryOp::Sub, a0, a0) == Some(0i64));
    let div = bin(BinaryOp::Div, var("a"@), var("b"@));
    let mul = bin(BinaryOp::Mul, div, var("b"@));
    let e4 = e3.insert("temp"@, 0);
    let e5 = e4.insert("a"@, g);
    let e6 = e5.insert("b"@, 0);
    let e7 = e6.insert("iters"@, 1);
    let body = bs[2].insts;
    assert(eval(m, var("a"@), s(e3), 0) == Ok::<(i64, Machine), Fault>((a0, s(e3))));
    assert(eval(m, div, s(e3), 0) == Ok::<(i64, Machine), Fault>((2, s(e3))));
    assert(eval(m, mul, s(e3), 0) == Ok::<(i64, Machine), Fault>((a0, s(e3))));
    assert(eval(m, bin(BinaryOp::Sub, var("a"@), mul), s(e3), 0) == Ok::<(i64, Machine), Fault>((0, s(e3))));
    assert(eval(m, body[0], s(e3), 0) == Ok::<(i64, Machine), Fault>((0, s(e4))));
    assert(eval(m, var("b"@), s(e4), 0) == Ok::<(i64, Machine), Fault>((g, s(e4))));
    assert(eval(m, body[1], s(e4), 0) == Ok::<(i64, Machine), Fault>((g, s(e5))));
    assert(eval(m, var("temp"@), s(e5), 0) == Ok::<(i64, Machine), Fault>((0, s(e5))));
    assert(eval(m, body[2], s(e5), 0) == Ok::<(i64, Machine), Fault>((0, s(e6))));
    assert(eval(m, var("iters"@), s(e6), 0) == Ok::<(i64, Machine), Fault>((0, s(e6))));
    assert(eval(m, cst(1), s(e6), 0) == Ok::<(i64, Machine), Fault>((1, s(e6))));
    assert(eval(m, bin(BinaryOp::Add, var("iters"@), cst(1)), s(e6), 0) == Ok::<(i64, Machine), Fault>((1, s(e6))));
    assert(eval(m, body[3], s(e6), 0) == Ok::<(i64, Machine), Fault>((1, s(e7))));
    assert(eval(m, body[4], s(e7), 0) == Ok::<(i64, Machine), Fault>((0, s(e7))));
    // second test: b = 0, so `a` = m is returned
    assert(e7["b"@] == 0 && e7["a"@] == g);
    assert(eval(m, var("b"@), s(e7), 0) == Ok::<(i64, Machine), Fault>((0, s(e7))));
    assert(eval(m, cst(0), s(e7), 0) == Ok::<(i64, Machine), Fault>((0, s(e7))));
    assert(eval(m, comp(CompareCondition::Ne, var("b"@), cst(0)), s(e7), 0) == Ok::<(i64, Machine), Fault>((0, s(e7))));
    assert(eval(m, bs[1].insts[0], s(e7), 0) == Ok::<(i64, Machine), Fault>((0, s(e7))));
    assert(eval(m, var("a"@), s(e7), 0) == Ok::<(i64, Machine), Fault>((g, s(e7))));
    assert(eval(m, bs[3].insts[0], s(e7), 0) == Ok::<(i64, Machine), Fault>((g, s(e7))));
    let out = Ok::<(i64, Seq<i64>), Fault>((g, seq![]));
    assert(run(m, f, "exit"@, 0, 11, s(e7), 0) == out);
    assert(crate::interpreter::leave(m, f, bs[1], 10, 1, s(e7), 0) == out);
    assert(run(m, f, "loop"@, 0, 10, s(e7), 0) == out);
    assert(crate::interpreter::leave(m, f, bs[2], 5, 5, s(e7), 0) == out);
    assert(run(m, f, "body"@, 4, 5, s(e7), 0) == out);
    assert(run(m, f, "body"@, 3, 5, s(e6), 0) == out);
    assert(run(m, f, "body"@, 2, 5, s(e5), 0) == out);
    assert(run(m, f, "body"@, 1, 5, s(e4), 0) == out);
    assert(run(m, f, "body"@, 0, 5, s(e3), 0) == out);
    assert(crate::interpreter::leave(m, f, bs[1], 4, 1, s(e3), 0) == out);
    assert(run(m, f, "loop"@, 0, 4, s(e3), 0) == out);
    assert(crate::interpreter::leave(m, f, bs[0], 0, 4, s(e3), 0) == out);
    assert(run(m, f, "entry"@, 3, 0, s(e3), 0) == out);
    assert(run(m, f, "entry"@, 2, 0, s(e2), 0) == out);
    assert(run(m, f, "entry"@, 1, 0, s(e1), 0) == out);
    assert(run(m, f, "entry"@, 0, 0, s(e0), 0) == out);
    assert(call(m, f, seq![], seq![], 0) == out);
}

/// From the loop test after `j` turns, the calling loop returns the sum of `i + 1` below `n`.
#[verifier::spinoff_prover]
#[verifier::rlimit(40)]
proof fn lemma_calls_loop(n: i32, j: int, e: Map<Seq<char>, i64>, start: nat)
    requires
        0 <= j <= n <= 1665,
        e.contains_key("i"@) && e["i"@] == j,
        e.contains_key("total"@) && e["total"@] == sum_below(j) + j,
        e.contains_key("n"@) && e["n"@] == n,
        start + 6 * (n - j) + 1 <= crate::interpreter::MAX_INSTRUCTIONS,
    ensures
        run(recursive_calls(n), recursive_calls(n).functions[0], "cond"@, 0, start, Machine { env: e, heap: seq![] }, 0)
            == Ok::<(i64, Seq<i64>), Fault>(((sum_below(n as int) + n) as i64, seq![])),
    decreases n - j,
{
    let m = recursive_calls(n);
    let f = m.functions[0];
    let bs = f.blocks;
    reveal_strlit("entry");
    reveal_strlit("cond");
    reveal_strlit("body");
    reveal_strlit("exit");
    reveal_strlit("i");
    reveal_strlit("n");
    reveal_strlit("c");
    reveal_strlit("total");
    reveal_strlit("shadow");
    reveal_strlit("step");
    reveal_strlit("accumulate_calls");
    reveal_strlit("x");
    assert forall|a: int, b: int| 0 <= a < b < bs.len() implies #[trigger] bs[a].name != #[trigger] bs[b].name by {
        if bs[a].name.len() == bs[b].name.len() {
            assert(bs[a].name[0] != bs[b].name[0]);
        }
    }
    lemma_find_last_distinct(bs, 1);
    lemma_find_last_distinct(bs, 2);
    lemma_find_last_distinct(bs, 3);
    assert(bs[1].name == "cond"@ && bs[2].name == "body"@ && bs[3].name == "exit"@);
    assert("i"@[0] != "n"@[0] && "i"@[0] != "c"@[0] && "n"@[0] != "c"@[0]);
    assert("total"@.len() != "i"@.len() && "shadow"@.len() != "i"@.len() && "total"@.len() != "shadow"@.len());
    let fs = m.functions;
    assert(fs[0].name != "step"@) by {
        assert(fs[0].name.len() != "step"@.len());
    }
    assert(fs.drop_first()[0].name == "step"@);
    assert(crate::ir::module::find_function(fs.drop_first(), "step"@) == Some(0int));
    assert(crate::ir::module::find_function(fs, "step"@) == Some(1int));
    lemma_sum_below_bound(j);
    let st = Machine { env: e, heap: seq![] };
    let out = (sum_below(n as int) + n) as i64;
    let vj = j as i64;
    let c: i64 = if j < n { 1 } else { 0 };
    assert(eval(m, var("i"@), st, 0) == Ok::<(i64, Machine), Fault>((vj, st)));
    assert(eval(m, var("n"@), st, 0) == Ok::<(i64, Machine), Fault>((n as i64, st)));
    assert(eval(m, comp(CompareCondition::Lt, var("i"@), var("n"@)), st, 0) == Ok::<(i64, Machine), Fault>((c, st)));
    assert(eval(m, bs[1].insts[0], st, 0) == Ok::<(i64, Machine), Fault>((0, st)));
    if j < n {
        lemma_sum_below_bound(j + 1);
        let cv = (j + 1) as i64;
        let tot = (sum_below(j) + j) as i64;
        let tot2 = (sum_below(j + 1) + j + 1) as i64;
        lemma_call_unary(m, fs[1], BinaryOp::Add, 1, vj, seq![], 1);
        let args = seq![var("i"@)];
        assert(eval(m, args[0], st, 0) == Ok::<(i64, Machine), Fault>((vj, st)));
        assert(crate::interpreter::eval_args(m, args.drop_first(), st, 0) == Ok::<(Seq<i64>, Machine), Fault>((seq![], st)));
        assert(crate::interpreter::eval_args(m, args, st, 0) == Ok::<(Seq<i64>, Machine), Fault>((seq![vj], st))) by {
            assert(seq![vj] + Seq::<i64>::empty() =~= seq![vj]);
        }
        let e1 = e.insert("c"@, cv);
        let e2 = e1.insert("total"@, tot2);
        let e3 = e2.insert("shadow"@, (j + 2) as i64);
        let e4 = e3.insert("i"@, (j + 1) as i64);
        let s1 = Machine { env: e1, heap: seq![] };
        let s2 = Machine { env: e2, heap: seq![] };
        let s3 = Machine { env: e3, heap: seq![] };
        let s4 = Machine { env: e4, heap: seq![] };
        let body = bs[2].insts;
        assert(eval(m, crate::module_builders::call1("step"@, var("i"@)), st, 0) == Ok::<(i64, Machine), Fault>((cv, st)));
        assert(eval(m, body[0], st, 0) == Ok::<(i64, Machine), Fault>((cv, s1)));
        assert(eval(m, var("total"@), s1, 0) == Ok::<(i64, Machine), Fault>((tot, s1)));
        assert(eval(m, var("c"@), s1, 0) == Ok::<(i64, Machine), Fault>((cv, s1)));
        assert(sum_below(j + 1) == sum_below(j) + j);
        assert(eval(m, bin(BinaryOp::Add, var("total"@), var("c"@)), s1, 0) == Ok::<(i64, Machine), Fault>((tot2, s1)));
        assert(eval(m, body[1], s1, 0) == Ok::<(i64, Machine), Fault>((tot2, s2)));
        assert(eval(m, var("c"@), s2, 0) == Ok::<(i64, Machine), Fault>((cv, s2)));
        assert(eval(m, cst(1), s2, 0) == Ok::<(i64, Machine), Fault>((1, s2)));
        assert(eval(m, bin(BinaryOp::Add, var("c"@), cst(1)), s2, 0) == Ok::<(i64, Machine), Fault>(((j + 2) as i64, s2)));
        assert(eval(m, body[2], s2, 0) == Ok::<(i64, Machine), Fault>(((j + 2) as i64, s3)));
        assert(eval(m, var("i"@), s3, 0) == Ok::<(i64, Machine), Fault>((vj, s3)));
        assert(eval(m, cst(1), s3, 0) == Ok::<(i64, Machine), Fault>((1, s3)));
        assert(eval(m, bin(BinaryOp::Add, var("i"@), cst(1)), s3, 0) == Ok::<(i64, Machine), Fault>((cv, s3)));
        assert(eval(m, body[3], s3, 0) == Ok::<(i64, Machine), Fault>((cv, s4)));
        assert(eval(m, body[4], s4, 0) == Ok::<(i64, Machine), Fault>((0, s4)));
        lemma_calls_loop(n, j + 1, e4, start + 6);
        assert(crate::interpreter::leave(m, f, bs[2], start + 1, 5, s4, 0) == Ok::<(i64, Seq<i64>), Fault>((out, seq![])));
        assert(run(m, f, "body"@, 4, start + 1, s4, 0) == Ok::<(i64, Seq<i64>), Fault>((out, seq![])));
        assert(run(m, f, "body"@, 3, start + 1, s3, 0) == Ok::<(i64, Seq<i64>), Fault>((out, seq![])));
        assert(run(m, f, "body"@, 2, start + 1, s2, 0) == Ok::<(i64, Seq<i64>), Fault>((out, seq![])));
        assert(run(m, f, "body"@, 1, start + 1, s1, 0) == Ok::<(i64, Seq<i64>), Fault>((out, seq![])));
        assert(run(m, f, "body"@, 0, start + 1, st, 0) == Ok::<(i64, Seq<i64>), Fault>((out, seq![])));
    } else {
        assert(eval(m, var("total"@), st, 0) == Ok::<(i64, Machine), Fault>((out, st)));
        assert(eval(m, bs[3].insts[0], st, 0) == Ok::<(i64, Machine), Fault>((out, st)));
        assert(run(m, f, "exit"@, 0, start + 1, st, 0) == Ok::<(i64, Seq<i64>), Fault>((out, seq![])));
    }
    assert(crate::interpreter::leave(m, f, bs[1], start, 1, st, 0) == Ok::<(i64, Seq<i64>), Fault>((out, seq![])));
}

/// The calling loop returns the sum of `step(i) = i + 1` over `0..n`, that is
/// `n * (n + 1) / 2` (0 when `n` is not positive), for every `n` whose loop fits in the
/// interpreter's step limit.
pub proof fn law_recursive_calls_computes(n: i32)
    requires
        n <= 1665,
    ensures
        execute(recursive_calls(n), recursive_calls(n).functions[0], seq![]) == Ok::<i64, Fault>(
            if n > 0 { (sum_below(n as int) + n) as i64 } else { 0 },
        ),
        n >= 0 ==> sum_below(n as int) + n == n * (n + 1) / 2,
{
    let m = recursive_calls(n);
    let f = m.functions[0];
    let bs = f.blocks;
    reveal_strlit("entry");
    reveal_strlit("cond");
    reveal_strlit("body");
    reveal_strlit("exit");
    reveal_strlit("i");
    reveal_strlit("n");
    reveal_strlit("total");
    reveal_strlit("shadow");
    if n >= 0 {
        lemma_sum_below_closed(n as int);
        assert(n * (n - 1) / 2 + n == n * (n + 1) / 2) by (nonlinear_arith)
            requires
                n >= 0,
        {
            assert(n * (n + 1) == n * (n - 1) + 2 * n);
        }
    }
    assert forall|a: int, b: int| 0 <= a < b < bs.len() implies #[trigger] bs[a].name != #[trigger] bs[b].name by {
        if bs[a].name.len() == bs[b].name.len() {
            assert(bs[a].name[0] != bs[b].name[0]);
        }
    }
    lemma_find_last_distinct(bs, 0);
    lemma_find_last_distinct(bs, 1);
    lemma_find_last_distinct(bs, 3);
    assert(bs[0].name == "entry"@ && bs[1].name == "cond"@ && bs[3].name == "exit"@);
    assert("i"@[0] != "n"@[0]);
    assert("total"@.len() != "i"@.len() && "shadow"@.len() != "i"@.len() && "total"@.len() != "shadow"@.len());
    let v = n as i64;
    let s = |e: Map<Seq<char>, i64>| Machine { env: e, heap: seq![] };
    let e0 = bind(seq![], seq![]);
    assert(e0 == Map::<Seq<char>, i64>::empty());
    let e1 = e0.insert("total"@, 0);
    let e2 = e1.insert("shadow"@, 0);
    let e3 = e2.insert("i"@, 0);
    let e4 = e3.insert("n"@, v);
    let entry = bs[0].insts;
    assert(eval(m, cst(0), s(e0), 0) == Ok::<(i64, Machine), Fault>((0, s(e0))));
    assert(eval(m, entry[0], s(e0), 0) == Ok::<(i64, Machine), Fault>((0, s(e1))));
    assert(eval(m, cst(0), s(e1), 0) == Ok::<(i64, Machine), Fault>((0, s(e1))));
    assert(eval(m, entry[1], s(e1), 0) == Ok::<(i64, Machine), Fault>((0, s(e2))));
    assert(eval(m, cst(0), s(e2), 0) == Ok::<(i64, Machine), Fault>((0, s(e2))));
    assert(eval(m, entry[2], s(e2), 0) == Ok::<(i64, Machine), Fault>((0, s(e3))));
    assert(eval(m, cst(v), s(e3), 0) == Ok::<(i64, Machine), Fault>((v, s(e3))));
    assert(eval(m, entry[3], s(e3), 0) == Ok::<(i64, Machine), Fault>((v, s(e4))));
    assert(eval(m, entry[4], s(e4), 0) == Ok::<(i64, Machine), Fault>((0, s(e4))));
    assert(e4["i"@] == 0 && e4["total"@] == 0 && e4["n"@] == v);
    let out: i64 = if n > 0 { (sum_below(n as int) + n) as i64 } else { 0 };
    let r = run(m, f, "cond"@, 0, 5, s(e4), 0);
    if n >= 0 {
        lemma_calls_loop(n, 0, e4, 5);
        assert(r == Ok::<(i64, Seq<i64>), Fault>((out, seq![])));
    } else {
        let st = s(e4);
        assert(eval(m, var("i"@), st, 0) == Ok::<(i64, Machine), Fault>((0, st)));
        assert(eval(m, var("n"@), st, 0) == Ok::<(i64, Machine), Fault>((v, st)));
        assert(eval(m, comp(CompareCondition::Lt, var("i"@), var("n"@)), st, 0) == Ok::<(i64, Machine), Fault>((0, st)));
        assert(eval(m, bs[1].insts[0], st, 0) == Ok::<(i64, Machine), Fault>((0, st)));
        assert(eval(m, var("total"@), st, 0) == Ok::<(i64, Machine), Fault>((0, st)));
        assert(eval(m, bs[3].insts[0], st, 0) == Ok::<(i64, Machine), Fault>((0, st)));
        assert(run(m, f, "exit"@, 0, 6, st, 0) == Ok::<(i64, Seq<i64>), Fault>((0, seq![])));
        assert(crate::interpreter::leave(m, f, bs[1], 5, 1, st, 0) == Ok::<(i64, Seq<i64>), Fault>((0, seq![])));
        assert(r == Ok::<(i64, Seq<i64>), Fault>((out, seq![])));
    }
    assert(crate::interpreter::leave(m, f, bs[0], 0, 5, s(e4), 0) == r);
    assert(run(m, f, "entry"@, 4, 0, s(e4), 0) == r);
    assert(run(m, f, "entry"@, 3, 0, s(e3), 0) == r);
    assert(run(m, f, "entry"@, 2, 0, s(e2), 0) == r);
    assert(run(m, f, "entry"@, 1, 0, s(e1), 0) == r);
    assert(run(m, f, "entry"@, 0, 0, s(e0), 0) == r);
    assert(call(m, f, seq![], seq![], 0) == r);
}

/// The Fibonacci numbers: 0, 1, 1, 2, 3, 5, ...
pub open spec fn fibonacci(k: int) -> int
    decreases k,
{
    if k <= 0 {
        0
    } else if k == 1 {
        1
    } else {
        fibonacci(k - 1) + fibonacci(k - 2)
    }
}

/// The Fibonacci numbers never decrease.
pub proof fn lemma_fibonacci_monotone(i: int, j: int)
    requires
        0 <= i <= j,
    ensures
        0 <= fibonacci(i) <= fibonacci(j),
    decreases j,
{
    if j > i {
        lemma_fibonacci_monotone(i, j - 1);
        if j >= 2 {
            lemma_fibonacci_monotone(0, j - 2);
        }
    } else if i > 1 {
        lemma_fibonacci_monotone(0, i - 1);
        lemma_fibonacci_monotone(0, i - 2);
    }
}

/// The variables the Fibonacci loop keeps after `j` turns.
pub open spec fn fib_env(e: Map<Seq<char>, i64>, j: int, n: i32) -> bool {
    &&& e.contains_key("i"@) && e["i"@] == j
    &&& e.contains_key("a"@) && e["a"@] == fibonacci(j)
    &&& e.contains_key("b"@) && e["b"@] == fibonacci(j + 1)
    &&& e.contains_key("n"@) && e["n"@] == n
    &&& e.contains_key("salt"@)
    &&& e.contains_key("parity_track"@)
}

/// From the loop test after `j` turns, the Fibonacci loop returns the Fibonacci number of
/// `n + 1`.
#[verifier::spinoff_prover]
#[verifier::rlimit(40)]
proof fn lemma_fib_loop(n: i32, j: int, e: Map<Seq<char>, i64>, start: nat)
    requires
        0 <= j <= n,
        fibonacci(n + 1) <= i64::MAX,
        fib_env(e, j, n),
        start + 7 * (n - j) + 1 <= crate::interpreter::MAX_INSTRUCTIONS,
    ensures
        run(fib_loop(n), fib_loop(n).functions[0], "cond"@, 0, start, Machine { env: e, heap: seq![] }, 0)
            == Ok::<(i64, Seq<i64>), Fault>((fibonacci(n + 1) as i64, seq![])),
    decreases n - j,
{
    let m = fib_loop(n);
    let f = m.functions[0];
    let bs = f.blocks;
    reveal_strlit("entry");
    reveal_strlit("cond");
    reveal_strlit("body");
    reveal_strlit("exit");
    reveal_strlit("i");
    reveal_strlit("n");
    reveal_strlit("a");
    reveal_strlit("b");
    reveal_strlit("tmp");
    reveal_strlit("salt");
    reveal_strlit("parity_track");
    assert forall|x: int, y: int| 0 <= x < y < bs.len() implies #[trigger] bs[x].name != #[trigger] bs[y].name by {
        if bs[x].name.len() == bs[y].name.len() {
            assert(bs[x].name[0] != bs[y].name[0]);
        }
    }
    lemma_find_last_distinct(bs, 1);
    lemma_find_last_distinct(bs, 2);
    lemma_find_last_distinct(bs, 3);
    assert(bs[1].name == "cond"@ && bs[2].name == "body"@ && bs[3].name == "exit"@);
    let names = seq!["i"@, "n"@, "a"@, "b"@, "tmp"@, "salt"@, "parity_track"@];
    assert forall|x: int, y: int| 0 <= x < y < 7 implies #[trigger] names[x] != #[trigger] names[y] by {
        if names[x].len() == names[y].len() {
            assert(names[x][0] != names[y][0]);
        }
    }
    assert(names[0] == "i"@ && names[1] == "n"@ && names[2] == "a"@ && names[3] == "b"@);
    assert(names[4] == "tmp"@ && names[5] == "salt"@ && names[6] == "parity_track"@);
    lemma_fibonacci_monotone(j, n + 1);
    lemma_fibonacci_monotone(j + 1, n + 1);
    let st = Machine { env: e, heap: seq![] };
    let out = fibonacci(n + 1) as i64;
    let vj = j as i64;
    let c: i64 = if j < n { 1 } else { 0 };
    assert(eval(m, var("i"@), st, 0) == Ok::<(i64, Machine), Fault>((vj, st)));
    assert(eval(m, var("n"@), st, 0) == Ok::<(i64, Machine), Fault>((n as i64, st)));
    assert(eval(m, comp(CompareCondition::Lt, var("i"@), var("n"@)), st, 0) == Ok::<(i64, Machine), Fault>((c, st)));
    assert(eval(m, bs[1].insts[0], st, 0) == Ok::<(i64, Machine), Fault>((0, st)));
    if j < n {
        lemma_fibonacci_monotone(j + 2, n + 1);
        assert(fibonacci(j + 2) == fibonacci(j + 1) + fibonacci(j));
        let fa = fibonacci(j) as i64;
        let fb = fibonacci(j + 1) as i64;
        let fc = fibonacci(j + 2) as i64;
        let salt = e["salt"@];
        let pt = e["parity_track"@];
        let e1 = e.insert("tmp"@, fc);
        let e2 = e1.insert("a"@, fb);
        let e3 = e2.insert("b"@, fc);
        let e4 = e3.insert("parity_track"@, pt.wrapping_add(salt));
        let e5 = e4.insert("i"@, (j + 1) as i64);
        let s1 = Machine { env: e1, heap: seq![] };
        let s2 = Machine { env: e2, heap: seq![] };
        let s3 = Machine { env: e3, heap: seq![] };
        let s4 = Machine { env: e4, heap: seq![] };
        let s5 = Machine { env: e5, heap: seq![] };
        let body = bs[2].insts;
        assert(eval(m, var("a"@), st, 0) == Ok::<(i64, Machine), Fault>((fa, st)));
        assert(eval(m, var("b"@), st, 0) == Ok::<(i64, Machine), Fault>((fb, st)));
        assert(eval(m, bin(BinaryOp::Add, var("a"@), var("b"@)), st, 0) == Ok::<(i64, Machine), Fault>((fc, st)));
        assert(eval(m, body[0], st, 0) == Ok::<(i64, Machine), Fault>((fc, s1)));
        assert(eval(m, var("b"@), s1, 0) == Ok::<(i64, Machine), Fault>((fb, s1)));
        assert(eval(m, body[1], s1, 0) == Ok::<(i64, Machine), Fault>((fb, s2)));
        assert(eval(m, var("tmp"@), s2, 0) == Ok::<(i64, Machine), Fault>((fc, s2)));
        assert(eval(m, body[2], s2, 0) == Ok::<(i64, Machine), Fault>((fc, s3)));
        assert(eval(m, var("parity_track"@), s3, 0) == Ok::<(i64, Machine), Fault>((pt, s3)));
        assert(eval(m, var("salt"@), s3, 0) == Ok::<(i64, Machine), Fault>((salt, s3)));
        assert(eval(m, bin(BinaryOp::Add, var("parity_track"@), var("salt"@)), s3, 0) == Ok::<(i64, Machine), Fault>((pt.wrapping_add(salt), s3)));
        assert(eval(m, body[3], s3, 0) == Ok::<(i64, Machine), Fault>((pt.wrapping_add(salt), s4)));
        assert(eval(m, var("i"@), s4, 0) == Ok::<(i64, Machine), Fault>((vj, s4)));
        assert(eval(m, cst(1), s4, 0) == Ok::<(i64, Machine), Fault>((1, s4)));
        assert(eval(m, bin(BinaryOp::Add, var("i"@), cst(1)), s4, 0) == Ok::<(i64, Machine), Fault>(((j + 1) as i64, s4)));
        assert(eval(m, body[4], s4, 0) == Ok::<(i64, Machine), Fault>(((j + 1) as i64, s5)));
        assert(eval(m, body[5], s5, 0) == Ok::<(i64, Machine), Fault>((0, s5)));
        assert(fib_env(e5, j + 1, n));
        lemma_fib_loop(n, j + 1, e5, start + 7);
        assert(crate::interpreter::leave(m, f, bs[2], start + 1, 6, s5, 0) == Ok::<(i64, Seq<i64>), Fault>((out, seq![])));
        assert(run(m, f, "body"@, 5, start + 1, s5, 0) == Ok::<(i64, Seq<i64>), Fault>((out, seq![])));
        assert(run(m, f, "body"@, 4, start + 1, s4, 0) == Ok::<(i64, Seq<i64>), Fault>((out, seq![])));
        assert(run(m, f, "body"@, 3, start + 1, s3, 0) == Ok::<(i64, Seq<i64>), Fault>((out, seq![])));
        assert(run(m, f, "body"@, 2, start + 1, s2, 0) == Ok::<(i64, Seq<i64>), Fault>((out, seq![])));
        assert(run(m, f, "body"@, 1, start + 1, s1, 0) == Ok::<(i64, Seq<i64>), Fault>((out, seq![])));
        assert(run(m, f, "body"@, 0, start + 1, st, 0) == Ok::<(i64, Seq<i64>), Fault>((out, seq![])));
    } else {
        assert(eval(m, var("b"@), st, 0) == Ok::<(i64, Machine), Fault>((out, st)));
        assert(eval(m, bs[3].insts[0], st, 0) == Ok::<(i64, Machine), Fault>((out, st)));
        assert(run(m, f, "exit"@, 0, start + 1, st, 0) == Ok::<(i64, Seq<i64>), Fault>((out, seq![])));
    }
    assert(crate::interpreter::leave(m, f, bs[1], start, 1, st, 0) == Ok::<(i64, Seq<i64>), Fault>((out, seq![])));
}

/// The Fibonacci loop returns the Fibonacci number of `n + 1` (1 when `n` is negative), for
/// every `n` whose result fits in 64 bits.
pub proof fn law_fib_loop_computes(n: i32)
    requires
        n >= 0 ==> fibonacci(n + 1) <= i64::MAX,
    ensures
        execute(fib_loop(n), fib_loop(n).functions[0], seq![]) == Ok::<i64, Fault>(
            if n >= 0 { fibonacci(n + 1) as i64 } else { 1 },
        ),
{
    let m = fib_loop(n);
    let f = m.functions[0];
    let bs = f.blocks;
    reveal_strlit("entry");
    reveal_strlit("cond");
    reveal_strlit("body");
    reveal_strlit("exit");
    reveal_strlit("i");
    reveal_strlit("n");
    reveal_strlit("a");
    reveal_strlit("b");
    reveal_strlit("k");
    reveal_strlit("salt");
    reveal_strlit("parity_track");
    assert forall|x: int, y: int| 0 <= x < y < bs.len() implies #[trigger] bs[x].name != #[trigger] bs[y].name by {
        if bs[x].name.len() == bs[y].name.len() {
            assert(bs[x].name[0] != bs[y].name[0]);
        }
    }
    lemma_find_last_distinct(bs, 0);
    lemma_find_last_distinct(bs, 1);
    lemma_find_last_distinct(bs, 3);
    assert(bs[0].name == "entry"@ && bs[1].name == "cond"@ && bs[3].name == "exit"@);
    let names = seq!["a"@, "b"@, "i"@, "n"@, "k"@, "salt"@, "parity_track"@];
    assert forall|x: int, y: int| 0 <= x < y < 7 implies #[trigger] names[x] != #[trigger] names[y] by {
        if names[x].len() == names[y].len() {
            assert(names[x][0] != names[y][0]);
        }
    }
    assert(names[0] == "a"@ && names[1] == "b"@ && names[2] == "i"@ && names[3] == "n"@);
    assert(names[4] == "k"@ && names[5] == "salt"@ && names[6] == "parity_track"@);
    let v = n as i64;
    let s = |e: Map<Seq<char>, i64>| Machine { env: e, heap: seq![] };
    let e0 = bind(seq![], seq![]);
    assert(e0 == Map::<Seq<char>, i64>::empty());
    let e1 = e0.insert("a"@, 0);
    let e2 = e1.insert("b"@, 1);
    let e3 = e2.insert("i"@, 0);
    let e4 = e3.insert("n"@, v);
    let e5 = e4.insert("k"@, 5);
    let e6 = e5.insert("salt"@, 8);
    let e7 = e6.insert("parity_track"@, 0);
    let entry = bs[0].insts;
    assert(eval(m, cst(0), s(e0), 0) == Ok::<(i64, Machine), Fault>((0, s(e0))));
    assert(eval(m, entry[0], s(e0), 0) == Ok::<(i64, Machine), Fault>((0, s(e1))));
    assert(eval(m, cst(1), s(e1), 0) == Ok::<(i64, Machine), Fault>((1, s(e1))));
    assert(eval(m, entry[1], s(e1), 0) == Ok::<(i64, Machine), Fault>((1, s(e2))));
    assert(eval(m, cst(0), s(e2), 0) == Ok::<(i64, Machine), Fault>((0, s(e2))));
    assert(eval(m, entry[2], s(e2), 0) == Ok::<(i64, Machine), Fault>((0, s(e3))));
    assert(eval(m, cst(v), s(e3), 0) == Ok::<(i64, Machine), Fault>((v, s(e3))));
    assert(eval(m, entry[3], s(e3), 0) == Ok::<(i64, Machine), Fault>((v, s(e4))));
    assert(eval(m, cst(5), s(e4), 0) == Ok::<(i64, Machine), Fault>((5, s(e4))));
    assert(eval(m, entry[4], s(e4), 0) == Ok::<(i64, Machine), Fault>((5, s(e5))));
    assert(e5["k"@] == 5);
    assert(eval(m, var("k"@), s(e5), 0) == Ok::<(i64, Machine), Fault>((5, s(e5))));
    assert(eval(m, cst(3), s(e5), 0) == Ok::<(i64, Machine), Fault>((3, s(e5))));
    assert(eval(m, bin(BinaryOp::Add, var("k"@), cst(3)), s(e5), 0) == Ok::<(i64, Machine), Fault>((8, s(e5))));
    assert(eval(m, entry[5], s(e5), 0) == Ok::<(i64, Machine), Fault>((8, s(e6))));
    assert(eval(m, cst(0), s(e6), 0) == Ok::<(i64, Machine), Fault>((0, s(e6))));
    assert(eval(m, entry[6], s(e6), 0) == Ok::<(i64, Machine), Fault>((0, s(e7))));
    assert(eval(m, entry[7], s(e7), 0) == Ok::<(i64, Machine), Fault>((0, s(e7))));
    assert(fibonacci(0) == 0 && fibonacci(1) == 1);
    assert(e7["a"@] == 0 && e7["b"@] == 1 && e7["i"@] == 0 && e7["n"@] == v);
    let out: i64 = if n >= 0 { fibonacci(n + 1) as i64 } else { 1 };
    let r = run(m, f, "cond"@, 0, 8, s(e7), 0);
    if n >= 0 {
        assert(n <= 1427) by {
            if n > 1427 {
                lemma_fibonacci_grows(n + 1);
            }
        }
        assert(fib_env(e7, 0, n));
        lemma_fib_loop(n, 0, e7, 8);
        assert(r == Ok::<(i64, Seq<i64>), Fault>((out, seq![])));
    } else {
        let st = s(e7);
        assert(eval(m, var("i"@), st, 0) == Ok::<(i64, Machine), Fault>((0, st)));
        assert(eval(m, var("n"@), st, 0) == Ok::<(i64, Machine), Fault>((v, st)));
        assert(eval(m, comp(CompareCondition::Lt, var("i"@), var("n"@)), st, 0) == Ok::<(i64, Machine), Fault>((0, st)));
        assert(eval(m, bs[1].insts[0], st, 0) == Ok::<(i64, Machine), Fault>((0, st)));
        assert(eval(m, var("b"@), st, 0) == Ok::<(i64, Machine), Fault>((1, st)));
        assert(eval(m, bs[3].insts[0], st, 0) == Ok::<(i64, Machine), Fault>((1, st)));
        assert(run(m, f, "exit"@, 0, 9, st, 0) == Ok::<(i64, Seq<i64>), Fault>((1, seq![])));
        assert(crate::interpreter::leave(m, f, bs[1], 8, 1, st, 0) == Ok::<(i64, Seq<i64>), Fault>((1, seq![])));
        assert(r == Ok::<(i64, Seq<i64>), Fault>((out, seq![])));
    }
    assert(crate::interpreter::leave(m, f, bs[0], 0, 8, s(e7), 0) == r);
    assert(run(m, f, "entry"@, 7, 0, s(e7), 0) == r);
    assert(run(m, f, "entry"@, 6, 0, s(e6), 0) == r);
    assert(run(m, f, "entry"@, 5, 0, s(e5), 0) == r);
    assert(run(m, f, "entry"@, 4, 0, s(e4), 0) == r);
    assert(run(m, f, "entry"@, 3, 0, s(e3), 0) == r);
    assert(run(m, f, "entry"@, 2, 0, s(e2), 0) == r);
    assert(run(m, f, "entry"@, 1, 0, s(e1), 0) == r);
    assert(run(m, f, "entry"@, 0, 0, s(e0), 0) == r);
    assert(call(m, f, seq![], seq![], 0) == r);
}

/// Two to the power `t`.
pub open spec fn two_to(t: nat) -> int
    decreases t,
{
    if t == 0 {
        1
    } else {
        2 * two_to((t - 1) as nat)
    }
}

/// Fibonacci numbers at least double every two steps.
pub proof fn lemma_fibonacci_doubles(t: nat)
    ensures
        fibonacci(2 * (t as int) + 1) >= two_to(t),
    decreases t,
{
    if t > 0 {
        lemma_fibonacci_doubles((t - 1) as nat);
        let u = t as int;
        lemma_fibonacci_monotone(2 * u - 1, 2 * u);
        assert(fibonacci(2 * u + 1) == fibonacci(2 * u) + fibonacci(2 * u - 1));
    }
}

/// From the 129th on, Fibonacci numbers exceed 64 bits.
pub proof fn lemma_fibonacci_grows(k: int)
    requires
        k >= 129,
    ensures
        fibonacci(k) > i64::MAX,
{
    lemma_fibonacci_doubles(64);
    assert(two_to(64) == 0x1_0000_0000_0000_0000) by {
        reveal_with_fuel(two_to, 65);
    }
    lemma_fibonacci_monotone(129, k);
}

/// The array the reduction fills: slot `k` holds `(k + 1) * n`.
pub open spec fn reduce_array(n: i32) -> Seq<i64> {
    Seq::new(8, |k: int| ((k + 1) * n) as i64)
}

/// The reduction's array with its first `k` slots filled and the rest still 0.
pub open spec fn reduce_partial(n: i32, k: int) -> Seq<i64> {
    Seq::new(8, |x: int| if x < k { ((x + 1) * n) as i64 } else { 0i64 })
}

/// The sum of the first `j` slots of the reduction's array.
pub open spec fn reduce_prefix(n: i32, j: int) -> int
    decreases j,
{
    if j <= 0 {
        0
    } else {
        reduce_prefix(n, j - 1) + j * n
    }
}

/// The first `j` slots sum to `n` times the sum of `1..=j`, well inside 64 bits.
pub proof fn lemma_reduce_prefix(n: i32, j: int)
    requires
        0 <= j <= 8,
    ensures
        reduce_prefix(n, j) == sum_below(j + 1) * n,
        -0x4_0000_0000 * j <= reduce_prefix(n, j) <= 0x4_0000_0000 * j,
    decreases j,
{
    if j > 0 {
        lemma_reduce_prefix(n, j - 1);
        let a = sum_below(j);
        assert(sum_below(j + 1) == a + j);
        assert(reduce_prefix(n, j) == reduce_prefix(n, j - 1) + j * n);
        assert((a + j) * n == a * n + j * n) by (nonlinear_arith);
        assert(-0x4_0000_0000 <= j * n <= 0x4_0000_0000) by (nonlinear_arith)
            requires
                1 <= j <= 8,
                -0x8000_0000 <= n < 0x8000_0000,
        ;
    } else {
        assert(sum_below(1) == 0) by {
            reveal_with_fuel(sum_below, 2);
        }
        assert(0 * n == 0);
    }
}

/// A slot value `(k + 1) * n` fits well inside 64 bits.
pub proof fn lemma_slot_bound(n: i32, k: int)
    requires
        0 <= k < 8,
    ensures
        -0x4_0000_0000 <= (k + 1) * n <= 0x4_0000_0000,
{
    assert(-0x4_0000_0000 <= (k + 1) * n <= 0x4_0000_0000) by (nonlinear_arith)
        requires
            0 <= k < 8,
            -0x8000_0000 <= n < 0x8000_0000,
    ;
}

/// From the loop test after `j` slots, the reduction returns the sum of all eight.
#[verifier::spinoff_prover]
#[verifier::rlimit(40)]
proof fn lemma_reduce_loop(n: i32, j: int, e: Map<Seq<char>, i64>, start: nat)
    requires
        0 <= j <= 8,
        e.contains_key("i"@) && e["i"@] == j,
        e.contains_key("sum"@) && e["sum"@] == reduce_prefix(n, j),
        e.contains_key("arr"@) && e["arr"@] == 0,
        start + 6 * (8 - j) + 1 <= crate::interpreter::MAX_INSTRUCTIONS,
    ensures
        run(array_reduce(n), array_reduce(n).functions[0], "cond"@, 0, start, Machine { env: e, heap: reduce_array(n) }, 0)
            == Ok::<(i64, Seq<i64>), Fault>((reduce_prefix(n, 8) as i64, reduce_array(n))),
    decreases 8 - j,
{
    let m = array_reduce(n);
    let f = m.functions[0];
    let bs = f.blocks;
    let heap = reduce_array(n);
    reveal_strlit("entry");
    reveal_strlit("cond");
    reveal_strlit("body");
    reveal_strlit("exit");
    reveal_strlit("i");
    reveal_strlit("sum");
    reveal_strlit("elem");
    reveal_strlit("checksum");
    reveal_strlit("arr");
    assert forall|x: int, y: int| 0 <= x < y < bs.len() implies #[trigger] bs[x].name != #[trigger] bs[y].name by {
        if bs[x].name.len() == bs[y].name.len() {
            assert(bs[x].name[0] != bs[y].name[0]);
        }
    }
    lemma_find_last_distinct(bs, 1);
    lemma_find_last_distinct(bs, 2);
    lemma_find_last_distinct(bs, 3);
    assert(bs[1].name == "cond"@ && bs[2].name == "body"@ && bs[3].name == "exit"@);
    let names = seq!["i"@, "sum"@, "elem"@, "checksum"@, "arr"@];
    assert forall|x: int, y: int| 0 <= x < y < 5 implies #[trigger] names[x] != #[trigger] names[y] by {
        if names[x].len() == names[y].len() {
            assert(names[x][0] != names[y][0]);
        }
    }
    assert(names[0] == "i"@ && names[1] == "sum"@ && names[2] == "elem"@ && names[3] == "checksum"@ && names[4] == "arr"@);
    lemma_reduce_prefix(n, j);
    lemma_reduce_prefix(n, 8);
    let st = Machine { env: e, heap };
    let out = Ok::<(i64, Seq<i64>), Fault>((reduce_prefix(n, 8) as i64, heap));
    let vj = j as i64;
    let c: i64 = if j < 8 { 1 } else { 0 };
    assert(eval(m, var("i"@), st, 0) == Ok::<(i64, Machine), Fault>((vj, st)));
    assert(eval(m, cst(8), st, 0) == Ok::<(i64, Machine), Fault>((8, st)));
    assert(eval(m, comp(CompareCondition::Lt, var("i"@), cst(8)), st, 0) == Ok::<(i64, Machine), Fault>((c, st)));
    assert(eval(m, bs[1].insts[0], st, 0) == Ok::<(i64, Machine), Fault>((0, st)));
    if j < 8 {
        lemma_reduce_prefix(n, j + 1);
        lemma_slot_bound(n, j);
        let el = ((j + 1) * n) as i64;
        assert(heap[j] == el);
        assert(heap.len() == 8);
        let acc = reduce_prefix(n, j) as i64;
        let acc2 = reduce_prefix(n, j + 1) as i64;
        assert(reduce_prefix(n, j + 1) == reduce_prefix(n, j) + (j + 1) * n);
        let e1 = e.insert("elem"@, el);
        let e2 = e1.insert("sum"@, acc2);
        let e3 = e2.insert("checksum"@, (el + 1) as i64);
        let e4 = e3.insert("i"@, (j + 1) as i64);
        let s1 = Machine { env: e1, heap };
        let s2 = Machine { env: e2, heap };
        let s3 = Machine { env: e3, heap };
        let s4 = Machine { env: e4, heap };
        let body = bs[2].insts;
        let addr = gep(var("arr"@), var("i"@));
        assert(eval(m, var("arr"@), st, 0) == Ok::<(i64, Machine), Fault>((0, st)));
        assert(eval(m, addr, st, 0) == Ok::<(i64, Machine), Fault>((vj, st)));
        assert(eval(m, load(addr), st, 0) == Ok::<(i64, Machine), Fault>((el, st)));
        assert(eval(m, body[0], st, 0) == Ok::<(i64, Machine), Fault>((el, s1)));
        assert(eval(m, var("sum"@), s1, 0) == Ok::<(i64, Machine), Fault>((acc, s1)));
        assert(eval(m, var("elem"@), s1, 0) == Ok::<(i64, Machine), Fault>((el, s1)));
        assert(eval(m, bin(BinaryOp::Add, var("sum"@), var("elem"@)), s1, 0) == Ok::<(i64, Machine), Fault>((acc2, s1)));
        assert(eval(m, body[1], s1, 0) == Ok::<(i64, Machine), Fault>((acc2, s2)));
        assert(eval(m, var("elem"@), s2, 0) == Ok::<(i64, Machine), Fault>((el, s2)));
        assert(eval(m, cst(1), s2, 0) == Ok::<(i64, Machine), Fault>((1, s2)));
        assert(eval(m, bin(BinaryOp::Add, var("elem"@), cst(1)), s2, 0) == Ok::<(i64, Machine), Fault>(((el + 1) as i64, s2)));
        assert(eval(m, body[2], s2, 0) == Ok::<(i64, Machine), Fault>(((el + 1) as i64, s3)));
        assert(eval(m, var("i"@), s3, 0) == Ok::<(i64, Machine), Fault>((vj, s3)));
        assert(eval(m, cst(1), s3, 0) == Ok::<(i64, Machine), Fault>((1, s3)));
        assert(eval(m, bin(BinaryOp::Add, var("i"@), cst(1)), s3, 0) == Ok::<(i64, Machine), Fault>(((j + 1) as i64, s3)));
        assert(eval(m, body[3], s3, 0) == Ok::<(i64, Machine), Fault>(((j + 1) as i64, s4)));
        assert(eval(m, body[4], s4, 0) == Ok::<(i64, Machine), Fault>((0, s4)));
        lemma_reduce_loop(n, j + 1, e4, start + 6);
        assert(crate::interpreter::leave(m, f, bs[2], start + 1, 5, s4, 0) == out);
        assert(run(m, f, "body"@, 4, start + 1, s4, 0) == out);
        assert(run(m, f, "body"@, 3, start + 1, s3, 0) == out);
        assert(run(m, f, "body"@, 2, start + 1, s2, 0) == out);
        assert(run(m, f, "body"@, 1, start + 1, s1, 0) == out);
        assert(run(m, f, "body"@, 0, start + 1, st, 0) == out);
    } else {
        assert(eval(m, var("sum"@), st, 0) == Ok::<(i64, Machine), Fault>((reduce_prefix(n, 8) as i64, st)));
        assert(eval(m, bs[3].insts[0], st, 0) == Ok::<(i64, Machine), Fault>((reduce_prefix(n, 8) as i64, st)));
        assert(run(m, f, "exit"@, 0, start + 1, st, 0) == out);
    }
    assert(crate::interpreter::leave(m, f, bs[1], start, 1, st, 0) == out);
}

/// Filling the reduction's array from slot `k` on reaches the same run as the full array.
#[verifier::spinoff_prover]
#[verifier::rlimit(40)]
proof fn lemma_reduce_fill(n: i32, k: int, e: Map<Seq<char>, i64>)
    requires
        0 <= k <= 8,
        e.contains_key("arr"@) && e["arr"@] == 0,
    ensures
        run(array_reduce(n), array_reduce(n).functions[0], "entry"@, (k + 1) as nat, 0, Machine { env: e, heap: reduce_partial(n, k) }, 0)
            == run(array_reduce(n), array_reduce(n).functions[0], "entry"@, 9, 0, Machine { env: e, heap: reduce_array(n) }, 0),
    decreases 8 - k,
{
    let m = array_reduce(n);
    let f = m.functions[0];
    let bs = f.blocks;
    reveal_strlit("entry");
    reveal_strlit("cond");
    reveal_strlit("body");
    reveal_strlit("exit");
    reveal_strlit("arr");
    assert forall|x: int, y: int| 0 <= x < y < bs.len() implies #[trigger] bs[x].name != #[trigger] bs[y].name by {
        if bs[x].name.len() == bs[y].name.len() {
            assert(bs[x].name[0] != bs[y].name[0]);
        }
    }
    lemma_find_last_distinct(bs, 0);
    assert(bs[0].name == "entry"@);
    if k == 8 {
        assert(reduce_partial(n, 8) =~= reduce_array(n));
    } else {
        let h = reduce_partial(n, k);
        let h2 = reduce_partial(n, k + 1);
        lemma_slot_bound(n, k);
        let val = ((k + 1) * n) as i64;
        assert(h.update(k, val) =~= h2);
        let s = Machine { env: e, heap: h };
        let kv = k as i64;
        let v = n as i64;
        lemma_small_product((k + 1) as i64, v);
        let inst = bs[0].insts[k + 1];
        assert(inst == crate::module_builders::st_ptr(gep(var("arr"@), cst(kv)), bin(BinaryOp::Mul, cst((k + 1) as i64), cst(v))));
        assert(eval(m, var("arr"@), s, 0) == Ok::<(i64, Machine), Fault>((0, s)));
        assert(eval(m, cst(kv), s, 0) == Ok::<(i64, Machine), Fault>((kv, s)));
        assert(eval(m, gep(var("arr"@), cst(kv)), s, 0) == Ok::<(i64, Machine), Fault>((kv, s)));
        assert(eval(m, cst((k + 1) as i64), s, 0) == Ok::<(i64, Machine), Fault>(((k + 1) as i64, s)));
        assert(eval(m, cst(v), s, 0) == Ok::<(i64, Machine), Fault>((v, s)));
        assert(eval(m, bin(BinaryOp::Mul, cst((k + 1) as i64), cst(v)), s, 0) == Ok::<(i64, Machine), Fault>((val, s)));
        assert(eval(m, inst, s, 0) == Ok::<(i64, Machine), Fault>((val, Machine { env: e, heap: h2 })));
        lemma_reduce_fill(n, k + 1, e);
    }
}

/// The reduction fills its array with `(k + 1) * n` and returns their sum, `36 * n`.
pub proof fn law_array_reduce_computes(n: i32)
    ensures
        execute(array_reduce(n), array_reduce(n).functions[0], seq![]) == Ok::<i64, Fault>((36 * n) as i64),
{
    let m = array_reduce(n);
    let f = m.functions[0];
    let bs = f.blocks;
    let insts = bs[0].insts;
    reveal_strlit("entry");
    reveal_strlit("cond");
    reveal_strlit("body");
    reveal_strlit("exit");
    reveal_strlit("i");
    reveal_strlit("sum");
    reveal_strlit("checksum");
    reveal_strlit("arr");
    assert forall|x: int, y: int| 0 <= x < y < bs.len() implies #[trigger] bs[x].name != #[trigger] bs[y].name by {
        if bs[x].name.len() == bs[y].name.len() {
            assert(bs[x].name[0] != bs[y].name[0]);
        }
    }
    lemma_find_last_distinct(bs, 0);
    lemma_find_last_distinct(bs, 1);
    assert(bs[0].name == "entry"@ && bs[1].name == "cond"@);
    let names = seq!["i"@, "sum"@, "checksum"@, "arr"@];
    assert forall|x: int, y: int| 0 <= x < y < 4 implies #[trigger] names[x] != #[trigger] names[y] by {
        if names[x].len() == names[y].len() {
            assert(names[x][0] != names[y][0]);
        }
    }
    assert(names[0] == "i"@ && names[1] == "sum"@ && names[2] == "checksum"@ && names[3] == "arr"@);
    let full = reduce_array(n);
    let e0 = bind(seq![], seq![]);
    assert(e0 == Map::<Seq<char>, i64>::empty());
    let ea = e0.insert("arr"@, 0);
    let s0 = Machine { env: e0, heap: seq![] };
    assert(Seq::<i64>::empty() + Seq::new(8, |j: int| 0i64) =~= reduce_partial(n, 0));
    assert(eval(m, insts[0], s0, 0) == Ok::<(i64, Machine), Fault>((0, Machine { env: ea, heap: reduce_partial(n, 0) })));
    lemma_reduce_fill(n, 0, ea);
    let e1 = ea.insert("sum"@, 0);
    let e2 = e1.insert("checksum"@, 0);
    let e3 = e2.insert("i"@, 0);
    let sf = |e: Map<Seq<char>, i64>| Machine { env: e, heap: full };
    assert(eval(m, cst(0), sf(ea), 0) == Ok::<(i64, Machine), Fault>((0, sf(ea))));
    assert(eval(m, insts[9], sf(ea), 0) == Ok::<(i64, Machine), Fault>((0, sf(e1))));
    assert(eval(m, cst(0), sf(e1), 0) == Ok::<(i64, Machine), Fault>((0, sf(e1))));
    assert(eval(m, insts[10], sf(e1), 0) == Ok::<(i64, Machine), Fault>((0, sf(e2))));
    assert(eval(m, cst(0), sf(e2), 0) == Ok::<(i64, Machine), Fault>((0, sf(e2))));
    assert(eval(m, insts[11], sf(e2), 0) == Ok::<(i64, Machine), Fault>((0, sf(e3))));
    assert(eval(m, insts[12], sf(e3), 0) == Ok::<(i64, Machine), Fault>((0, sf(e3))));
    assert(e3["i"@] == 0 && e3["sum"@] == 0 && e3["arr"@] == 0);
    assert(reduce_prefix(n, 0) == 0);
    lemma_reduce_loop(n, 0, e3, 13);
    lemma_reduce_prefix(n, 8);
    assert(sum_below(9) == 36) by {
        reveal_with_fuel(sum_below, 10);
    }
    let out = Ok::<(i64, Seq<i64>), Fault>(((36 * n) as i64, full));
    assert(run(m, f, "cond"@, 0, 13, sf(e3), 0) == out);
    assert(crate::interpreter::leave(m, f, bs[0], 0, 13, sf(e3), 0) == out);
    assert(run(m, f, "entry"@, 12, 0, sf(e3), 0) == out);
    assert(run(m, f, "entry"@, 11, 0, sf(e2), 0) == out);
    assert(run(m, f, "entry"@, 10, 0, sf(e1), 0) == out);
    assert(run(m, f, "entry"@, 9, 0, sf(ea), 0) == out);
    assert(run(m, f, "entry"@, 1, 0, Machine { env: ea, heap: reduce_partial(n, 0) }, 0) == out);
    assert(run(m, f, "entry"@, 0, 0, s0, 0) == out);
    assert(call(m, f, seq![], seq![], 0) == out);
}

/// `k!`, with `0! = 1`.
pub open spec fn factorial(k: int) -> int
    decreases k,
{
    if k <= 0 {
        1
    } else {
        k * factorial(k - 1)
    }
}

/// Up to 20 the factorials grow and fit in 64 bits.
pub proof fn lemma_factorial_bound(k: int)
    requires
        0 <= k <= 20,
    ensures
        1 <= factorial(k) <= 2_432_902_008_176_640_000,
    decreases 20 - k,
{
    if k == 20 {
        assert(factorial(20) == 2_432_902_008_176_640_000) by {
            reveal_with_fuel(factorial, 21);
        }
    } else {
        lemma_factorial_bound(k + 1);
        assert(factorial(k + 1) == (k + 1) * factorial(k));
        assert(factorial(k) <= factorial(k + 1)) by (nonlinear_arith)
            requires
                factorial(k + 1) == (k + 1) * factorial(k),
                k >= 0,
                factorial(k + 1) >= 1,
        {
            assert(factorial(k) >= 1 || factorial(k) <= 0);
        }
        assert(factorial(k) >= 1) by {
            lemma_factorial_positive(k);
        }
    }
}

/// Factorials are positive.
pub proof fn lemma_factorial_positive(k: int)
    ensures
        factorial(k) >= 1,
    decreases k,
{
    if k > 0 {
        lemma_factorial_positive(k - 1);
        assert(k * factorial(k - 1) >= 1) by (nonlinear_arith)
            requires
                k >= 1,
                factorial(k - 1) >= 1,
        ;
    }
}

/// The memo table's heap and variables after the factorials below `i` are stored.
pub open spec fn memo_state(e: Map<Seq<char>, i64>, heap: Seq<i64>, i: int, top: int, size: int) -> bool {
    &&& e.contains_key("i"@) && e["i"@] == i
    &&& e.contains_key("n"@) && e["n"@] == top
    &&& e.contains_key("memo"@) && e["memo"@] == 0
    &&& heap.len() == size
    &&& forall|k: int| 0 <= k < i ==> #[trigger] heap[k] == factorial(k)
}

/// From the loop test with the factorials below `i` stored, the memo function returns
/// `top!`.
#[verifier::spinoff_prover]
#[verifier::rlimit(50)]
proof fn lemma_memo_loop(n: i32, i: int, e: Map<Seq<char>, i64>, heap: Seq<i64>, start: nat)
    requires
        0 <= n <= 20,
        1 <= i <= at_least(n, 1) + 1,
        memo_state(e, heap, i, at_least(n, 1) as int, memo_size(n) as int),
        start + 7 * (at_least(n, 1) + 1 - i) + 1 <= crate::interpreter::MAX_INSTRUCTIONS,
    ensures
        run(factorial_memo(n), factorial_memo(n).functions[0], "cond"@, 0, start, Machine { env: e, heap }, 0)
            matches Ok((v, _)) && v == factorial(at_least(n, 1) as int),
    decreases at_least(n, 1) + 1 - i,
{
    let m = factorial_memo(n);
    let f = m.functions[0];
    let bs = f.blocks;
    let top = at_least(n, 1) as int;
    let size = memo_size(n) as int;
    reveal_strlit("entry");
    reveal_strlit("cond");
    reveal_strlit("body");
    reveal_strlit("exit");
    reveal_strlit("i");
    reveal_strlit("n");
    reveal_strlit("memo");
    reveal_strlit("idx");
    reveal_strlit("fact");
    reveal_strlit("checksum");
    assert forall|x: int, y: int| 0 <= x < y < bs.len() implies #[trigger] bs[x].name != #[trigger] bs[y].name by {
        if bs[x].name.len() == bs[y].name.len() {
            assert(bs[x].name[0] != bs[y].name[0]);
        }
    }
    lemma_find_last_distinct(bs, 1);
    lemma_find_last_distinct(bs, 2);
    lemma_find_last_distinct(bs, 3);
    assert(bs[1].name == "cond"@ && bs[2].name == "body"@ && bs[3].name == "exit"@);
    let names = seq!["i"@, "n"@, "memo"@, "idx"@, "fact"@, "checksum"@];
    assert forall|x: int, y: int| 0 <= x < y < 6 implies #[trigger] names[x] != #[trigger] names[y] by {
        if names[x].len() == names[y].len() {
            assert(names[x][0] != names[y][0]);
        }
    }
    assert(names[0] == "i"@ && names[1] == "n"@ && names[2] == "memo"@ && names[3] == "idx"@);
    assert(names[4] == "fact"@ && names[5] == "checksum"@);
    assert(size == top + 1 || size == 6);
    assert(size >= top + 1);
    let st = Machine { env: e, heap };
    let vi = i as i64;
    let vt = top as i64;
    let c: i64 = if i < top + 1 { 1 } else { 0 };
    assert(eval(m, var("i"@), st, 0) == Ok::<(i64, Machine), Fault>((vi, st)));
    assert(eval(m, var("n"@), st, 0) == Ok::<(i64, Machine), Fault>((vt, st)));
    assert(eval(m, cst(1), st, 0) == Ok::<(i64, Machine), Fault>((1, st)));
    assert(eval(m, bin(BinaryOp::Add, var("n"@), cst(1)), st, 0) == Ok::<(i64, Machine), Fault>(((top + 1) as i64, st)));
    assert(eval(m, comp(CompareCondition::Lt, var("i"@), bin(BinaryOp::Add, var("n"@), cst(1))), st, 0)
        == Ok::<(i64, Machine), Fault>((c, st)));
    assert(eval(m, bs[1].insts[0], st, 0) == Ok::<(i64, Machine), Fault>((0, st)));
    let r = run(m, f, "cond"@, 0, start, st, 0);
    if i < top + 1 {
        lemma_factorial_bound(i - 1);
        lemma_factorial_bound(i);
        let prev = factorial(i - 1) as i64;
        let fi = factorial(i) as i64;
        assert(heap[i - 1] == factorial(i - 1));
        lemma_small_product(prev, vi);
        assert(factorial(i) == i * factorial(i - 1));
        assert(prev * vi == factorial(i)) by (nonlinear_arith)
            requires
                prev == factorial(i - 1),
                vi == i,
                factorial(i) == i * factorial(i - 1),
        ;
        let heap2 = heap.update(i, fi);
        let e1 = e.insert("idx"@, (i - 1) as i64);
        let e2 = e1.insert("fact"@, fi);
        let e3 = e2.insert("checksum"@, fi);
        let e4 = e3.insert("i"@, (i + 1) as i64);
        let s1 = Machine { env: e1, heap };
        let s2 = Machine { env: e2, heap };
        let s3 = Machine { env: e2, heap: heap2 };
        let s4 = Machine { env: e3, heap: heap2 };
        let s5 = Machine { env: e4, heap: heap2 };
        let body = bs[2].insts;
        assert(eval(m, bin(BinaryOp::Sub, var("i"@), cst(1)), st, 0) == Ok::<(i64, Machine), Fault>(((i - 1) as i64, st)));
        assert(eval(m, body[0], st, 0) == Ok::<(i64, Machine), Fault>(((i - 1) as i64, s1)));
        let addr0 = bin(BinaryOp::Add, var("memo"@), var("idx"@));
        assert(eval(m, var("memo"@), s1, 0) == Ok::<(i64, Machine), Fault>((0, s1)));
        assert(eval(m, var("idx"@), s1, 0) == Ok::<(i64, Machine), Fault>(((i - 1) as i64, s1)));
        assert(eval(m, addr0, s1, 0) == Ok::<(i64, Machine), Fault>(((i - 1) as i64, s1)));
        assert(eval(m, load(addr0), s1, 0) == Ok::<(i64, Machine), Fault>((prev, s1)));
        assert(eval(m, var("i"@), s1, 0) == Ok::<(i64, Machine), Fault>((vi, s1)));
        assert(eval(m, bin(BinaryOp::Mul, load(addr0), var("i"@)), s1, 0) == Ok::<(i64, Machine), Fault>((fi, s1)));
        assert(eval(m, body[1], s1, 0) == Ok::<(i64, Machine), Fault>((fi, s2)));
        let addr1 = bin(BinaryOp::Add, var("memo"@), var("i"@));
        assert(eval(m, var("memo"@), s2, 0) == Ok::<(i64, Machine), Fault>((0, s2)));
        assert(eval(m, var("i"@), s2, 0) == Ok::<(i64, Machine), Fault>((vi, s2)));
        assert(eval(m, addr1, s2, 0) == Ok::<(i64, Machine), Fault>((vi, s2)));
        assert(eval(m, var("fact"@), s2, 0) == Ok::<(i64, Machine), Fault>((fi, s2)));
        assert(eval(m, body[2], s2, 0) == Ok::<(i64, Machine), Fault>((fi, s3)));
        assert(eval(m, var("fact"@), s3, 0) == Ok::<(i64, Machine), Fault>((fi, s3)));
        assert(eval(m, body[3], s3, 0) == Ok::<(i64, Machine), Fault>((fi, s4)));
        assert(eval(m, var("i"@), s4, 0) == Ok::<(i64, Machine), Fault>((vi, s4)));
        assert(eval(m, cst(1), s4, 0) == Ok::<(i64, Machine), Fault>((1, s4)));
        assert(eval(m, bin(BinaryOp::Add, var("i"@), cst(1)), s4, 0) == Ok::<(i64, Machine), Fault>(((i + 1) as i64, s4)));
        assert(eval(m, body[4], s4, 0) == Ok::<(i64, Machine), Fault>(((i + 1) as i64, s5)));
        assert(eval(m, body[5], s5, 0) == Ok::<(i64, Machine), Fault>((0, s5)));
        assert(memo_state(e4, heap2, i + 1, top, size));
        lemma_memo_loop(n, i + 1, e4, heap2, start + 7);
        let r2 = run(m, f, "cond"@, 0, start + 7, s5, 0);
        assert(crate::interpreter::leave(m, f, bs[2], start + 1, 6, s5, 0) == r2);
        assert(run(m, f, "body"@, 5, start + 1, s5, 0) == r2);
        assert(run(m, f, "body"@, 4, start + 1, s4, 0) == r2);
        assert(run(m, f, "body"@, 3, start + 1, s3, 0) == r2);
        assert(run(m, f, "body"@, 2, start + 1, s2, 0) == r2);
        assert(run(m, f, "body"@, 1, start + 1, s1, 0) == r2);
        assert(run(m, f, "body"@, 0, start + 1, st, 0) == r2);
        assert(crate::interpreter::leave(m, f, bs[1], start, 1, st, 0) == r2);
        assert(r == r2);
    } else {
        lemma_factorial_bound(top);
        let ft = factorial(top) as i64;
        assert(heap[top] == factorial(top));
        let addr = bin(BinaryOp::Add, var("memo"@), var("n"@));
        assert(eval(m, var("memo"@), st, 0) == Ok::<(i64, Machine), Fault>((0, st)));
        assert(eval(m, addr, st, 0) == Ok::<(i64, Machine), Fault>((vt, st)));
        assert(eval(m, load(addr), st, 0) == Ok::<(i64, Machine), Fault>((ft, st)));
        assert(eval(m, bs[3].insts[0], st, 0) == Ok::<(i64, Machine), Fault>((ft, st)));
        assert(run(m, f, "exit"@, 0, start + 1, st, 0) == Ok::<(i64, Seq<i64>), Fault>((ft, heap)));
        assert(crate::interpreter::leave(m, f, bs[1], start, 1, st, 0) == Ok::<(i64, Seq<i64>), Fault>((ft, heap)));
    }
}

/// The memo function stores the factorials of `0..=max(n, 1)` and returns `max(n, 1)!`, for
/// every `n` from 0 to 20, whose factorials fit in 64 bits.
pub proof fn law_factorial_memo_computes(n: i32)
    requires
        0 <= n <= 20,
    ensures
        execute(factorial_memo(n), factorial_memo(n).functions[0], seq![]) == Ok::<i64, Fault>(
            factorial(at_least(n, 1) as int) as i64,
        ),
{
    let m = factorial_memo(n);
    let f = m.functions[0];
    let bs = f.blocks;
    let insts = bs[0].insts;
    let top = at_least(n, 1) as int;
    let size = memo_size(n);
    reveal_strlit("entry");
    reveal_strlit("cond");
    reveal_strlit("body");
    reveal_strlit("exit");
    reveal_strlit("i");
    reveal_strlit("n");
    reveal_strlit("memo");
    reveal_strlit("memo_base");
    assert forall|x: int, y: int| 0 <= x < y < bs.len() implies #[trigger] bs[x].name != #[trigger] bs[y].name by {
        if bs[x].name.len() == bs[y].name.len() {
            assert(bs[x].name[0] != bs[y].name[0]);
        }
    }
    lemma_find_last_distinct(bs, 0);
    lemma_find_last_distinct(bs, 1);
    assert(bs[0].name == "entry"@ && bs[1].name == "cond"@);
    let names = seq!["i"@, "n"@, "memo"@, "memo_base"@];
    assert forall|x: int, y: int| 0 <= x < y < 4 implies #[trigger] names[x] != #[trigger] names[y] by {
        if names[x].len() == names[y].len() {
            assert(names[x][0] != names[y][0]);
        }
    }
    assert(names[0] == "i"@ && names[1] == "n"@ && names[2] == "memo"@ && names[3] == "memo_base"@);
    assert(size == (if n > 5 { n + 1 } else { 6 }));
    let zeros = Seq::<i64>::empty() + Seq::new(size as nat, |j: int| 0i64);
    let h1 = zeros.update(0, 1);
    let e0 = bind(seq![], seq![]);
    assert(e0 == Map::<Seq<char>, i64>::empty());
    let e1 = e0.insert("memo"@, 0);
    let e2 = e1.insert("memo_base"@, 0);
    let e3 = e2.insert("i"@, 1);
    let e4 = e3.insert("n"@, top as i64);
    let s0 = Machine { env: e0, heap: seq![] };
    let s1 = Machine { env: e1, heap: zeros };
    let s2 = Machine { env: e2, heap: zeros };
    let s3 = Machine { env: e3, heap: zeros };
    let s4 = Machine { env: e4, heap: zeros };
    let s5 = Machine { env: e4, heap: h1 };
    assert(eval(m, insts[0], s0, 0) == Ok::<(i64, Machine), Fault>((0, s1)));
    assert(eval(m, var("memo"@), s1, 0) == Ok::<(i64, Machine), Fault>((0, s1)));
    assert(eval(m, insts[1], s1, 0) == Ok::<(i64, Machine), Fault>((0, s2)));
    assert(eval(m, cst(1), s2, 0) == Ok::<(i64, Machine), Fault>((1, s2)));
    assert(eval(m, insts[2], s2, 0) == Ok::<(i64, Machine), Fault>((1, s3)));
    assert(eval(m, cst(top as i64), s3, 0) == Ok::<(i64, Machine), Fault>((top as i64, s3)));
    assert(eval(m, insts[3], s3, 0) == Ok::<(i64, Machine), Fault>((top as i64, s4)));
    assert(e4["memo"@] == 0 && e4["i"@] == 1 && e4["n"@] == top);
    assert(eval(m, var("memo"@), s4, 0) == Ok::<(i64, Machine), Fault>((0, s4)));
    assert(eval(m, cst(0), s4, 0) == Ok::<(i64, Machine), Fault>((0, s4)));
    assert(eval(m, gep(var("memo"@), cst(0)), s4, 0) == Ok::<(i64, Machine), Fault>((0, s4)));
    assert(eval(m, cst(1), s4, 0) == Ok::<(i64, Machine), Fault>((1, s4)));
    assert(eval(m, insts[4], s4, 0) == Ok::<(i64, Machine), Fault>((1, s5)));
    assert(eval(m, insts[5], s5, 0) == Ok::<(i64, Machine), Fault>((0, s5)));
    assert(factorial(0) == 1);
    assert(memo_state(e4, h1, 1, top, size as int));
    lemma_memo_loop(n, 1, e4, h1, 6);
    let r = run(m, f, "cond"@, 0, 6, s5, 0);
    assert(crate::interpreter::leave(m, f, bs[0], 0, 6, s5, 0) == r);
    assert(run(m, f, "entry"@, 5, 0, s5, 0) == r);
    assert(run(m, f, "entry"@, 4, 0, s4, 0) == r);
    assert(run(m, f, "entry"@, 3, 0, s3, 0) == r);
    assert(run(m, f, "entry"@, 2, 0, s2, 0) == r);
    assert(run(m, f, "entry"@, 1, 0, s1, 0) == r);
    assert(run(m, f, "entry"@, 0, 0, s0, 0) == r);
    assert(call(m, f, seq![], seq![], 0) == r);
}

/// The running quotients the entropy loop adds: for `k` in `1..=j`, the frequency
/// `3 * (0 + 1 + ... + (k - 1))` divided by `k`.
pub open spec fn entropy_terms(j: int) -> int
    decreases j,
{
    if j <= 0 {
        0
    } else {
        entropy_terms(j - 1) + (3 * sum_below(j)) / j
    }
}

/// Up to 1250 turns the quotients stay small.
pub proof fn lemma_entropy_terms_bound(j: int)
    requires
        0 <= j <= 1250,
    ensures
        0 <= entropy_terms(j) <= j * 10_000_000,
    decreases j,
{
    if j > 0 {
        lemma_entropy_terms_bound(j - 1);
        lemma_sum_below_bound(j);
        let x = 3 * sum_below(j);
        assert(0 <= x / j <= x) by (nonlinear_arith)
            requires
                x >= 0,
                j >= 1,
        ;
    }
}

/// From the loop test after `j` turns, the entropy loop returns the quotients up to `n`.
#[verifier::spinoff_prover]
#[verifier::rlimit(50)]
proof fn lemma_entropy_loop(n: i32, j: int, e: Map<Seq<char>, i64>, start: nat)
    requires
        0 <= j <= n <= 1249,
        e.contains_key("i"@) && e["i"@] == j,
        e.contains_key("total"@) && e["total"@] == entropy_terms(j),
        e.contains_key("freq"@) && e["freq"@] == 3 * sum_below(j),
        e.contains_key("n"@) && e["n"@] == n,
        start + 8 * (n - j) + 1 <= crate::interpreter::MAX_INSTRUCTIONS,
    ensures
        run(entropy_loop(n), entropy_loop(n).functions[0], "cond"@, 0, start, Machine { env: e, heap: seq![] }, 0)
            == Ok::<(i64, Seq<i64>), Fault>((entropy_terms(n as int) as i64, seq![])),
    decreases n - j,
{
    let m = entropy_loop(n);
    let f = m.functions[0];
    let bs = f.blocks;
    reveal_strlit("entry");
    reveal_strlit("cond");
    reveal_strlit("body");
    reveal_strlit("exit");
    reveal_strlit("i");
    reveal_strlit("n");
    reveal_strlit("total");
    reveal_strlit("freq");
    reveal_strlit("sc");
    reveal_strlit("d");
    reveal_strlit("term");
    assert forall|x: int, y: int| 0 <= x < y < bs.len() implies #[trigger] bs[x].name != #[trigger] bs[y].name by {
        if bs[x].name.len() == bs[y].name.len() {
            assert(bs[x].name[0] != bs[y].name[0]);
        }
    }
    lemma_find_last_distinct(bs, 1);
    lemma_find_last_distinct(bs, 2);
    lemma_find_last_distinct(bs, 3);
    assert(bs[1].name == "cond"@ && bs[2].name == "body"@ && bs[3].name == "exit"@);
    let names = seq!["i"@, "n"@, "total"@, "freq"@, "sc"@, "d"@, "term"@];
    assert forall|x: int, y: int| 0 <= x < y < 7 implies #[trigger] names[x] != #[trigger] names[y] by {
        if names[x].len() == names[y].len() {
            assert(names[x][0] != names[y][0]);
        }
    }
    assert(names[0] == "i"@ && names[1] == "n"@ && names[2] == "total"@ && names[3] == "freq"@);
    assert(names[4] == "sc"@ && names[5] == "d"@ && names[6] == "term"@);
    lemma_sum_below_bound(j);
    lemma_entropy_terms_bound(j);
    let st = Machine { env: e, heap: seq![] };
    let out = Ok::<(i64, Seq<i64>), Fault>((entropy_terms(n as int) as i64, seq![]));
    let vj = j as i64;
    let c: i64 = if j < n { 1 } else { 0 };
    assert(eval(m, var("i"@), st, 0) == Ok::<(i64, Machine), Fault>((vj, st)));
    assert(eval(m, var("n"@), st, 0) == Ok::<(i64, Machine), Fault>((n as i64, st)));
    assert(eval(m, comp(CompareCondition::Lt, var("i"@), var("n"@)), st, 0) == Ok::<(i64, Machine), Fault>((c, st)));
    assert(eval(m, bs[1].insts[0], st, 0) == Ok::<(i64, Machine), Fault>((0, st)));
    if j < n {
        lemma_sum_below_bound(j + 1);
        lemma_entropy_terms_bound(j + 1);
        lemma_small_product(vj, 3);
        let sc = (j * 3) as i64;
        let fr = (3 * sum_below(j)) as i64;
        let fr2 = (3 * sum_below(j + 1)) as i64;
        assert(sum_below(j + 1) == sum_below(j) + j);
        let d = (j + 1) as i64;
        let q = (3 * sum_below(j + 1)) / (j + 1);
        assert(0 <= q <= 3 * sum_below(j + 1)) by (nonlinear_arith)
            requires
                q == (3 * sum_below(j + 1)) / (j + 1),
                sum_below(j + 1) >= 0,
                j >= 0,
        ;
        assert(arith(BinaryOp::Div, fr2, d) == Some(q as i64));
        let tot = entropy_terms(j) as i64;
        let tot2 = entropy_terms(j + 1) as i64;
        assert(entropy_terms(j + 1) == entropy_terms(j) + q);
        let e1 = e.insert("sc"@, sc);
        let e2 = e1.insert("freq"@, fr2);
        let e3 = e2.insert("d"@, d);
        let e4 = e3.insert("term"@, q as i64);
        let e5 = e4.insert("total"@, tot2);
        let e6 = e5.insert("i"@, (j + 1) as i64);
        let s = |x: Map<Seq<char>, i64>| Machine { env: x, heap: seq![] };
        let body = bs[2].insts;
        assert(eval(m, cst(3), st, 0) == Ok::<(i64, Machine), Fault>((3, st)));
        assert(eval(m, bin(BinaryOp::Mul, var("i"@), cst(3)), st, 0) == Ok::<(i64, Machine), Fault>((sc, st)));
        assert(eval(m, body[0], st, 0) == Ok::<(i64, Machine), Fault>((sc, s(e1))));
        assert(eval(m, var("freq"@), s(e1), 0) == Ok::<(i64, Machine), Fault>((fr, s(e1))));
        assert(eval(m, var("sc"@), s(e1), 0) == Ok::<(i64, Machine), Fault>((sc, s(e1))));
        assert(eval(m, bin(BinaryOp::Add, var("freq"@), var("sc"@)), s(e1), 0) == Ok::<(i64, Machine), Fault>((fr2, s(e1))));
        assert(eval(m, body[1], s(e1), 0) == Ok::<(i64, Machine), Fault>((fr2, s(e2))));
        assert(eval(m, var("i"@), s(e2), 0) == Ok::<(i64, Machine), Fault>((vj, s(e2))));
        assert(eval(m, cst(1), s(e2), 0) == Ok::<(i64, Machine), Fault>((1, s(e2))));
        assert(eval(m, bin(BinaryOp::Add, var("i"@), cst(1)), s(e2), 0) == Ok::<(i64, Machine), Fault>((d, s(e2))));
        assert(eval(m, body[2], s(e2), 0) == Ok::<(i64, Machine), Fault>((d, s(e3))));
        assert(eval(m, var("freq"@), s(e3), 0) == Ok::<(i64, Machine), Fault>((fr2, s(e3))));
        assert(eval(m, var("d"@), s(e3), 0) == Ok::<(i64, Machine), Fault>((d, s(e3))));
        assert(eval(m, bin(BinaryOp::Div, var("freq"@), var("d"@)), s(e3), 0) == Ok::<(i64, Machine), Fault>((q as i64, s(e3))));
        assert(eval(m, body[3], s(e3), 0) == Ok::<(i64, Machine), Fault>((q as i64, s(e4))));
        assert(eval(m, var("total"@), s(e4), 0) == Ok::<(i64, Machine), Fault>((tot, s(e4))));
        assert(eval(m, var("term"@), s(e4), 0) == Ok::<(i64, Machine), Fault>((q as i64, s(e4))));
        assert(eval(m, bin(BinaryOp::Add, var("total"@), var("term"@)), s(e4), 0) == Ok::<(i64, Machine), Fault>((tot2, s(e4))));
        assert(eval(m, body[4], s(e4), 0) == Ok::<(i64, Machine), Fault>((tot2, s(e5))));
        assert(eval(m, var("i"@), s(e5), 0) == Ok::<(i64, Machine), Fault>((vj, s(e5))));
        assert(eval(m, cst(1), s(e5), 0) == Ok::<(i64, Machine), Fault>((1, s(e5))));
        assert(eval(m, bin(BinaryOp::Add, var("i"@), cst(1)), s(e5), 0) == Ok::<(i64, Machine), Fault>((d, s(e5))));
        assert(eval(m, body[5], s(e5), 0) == Ok::<(i64, Machine), Fault>((d, s(e6))));
        assert(eval(m, body[6], s(e6), 0) == Ok::<(i64, Machine), Fault>((0, s(e6))));
        lemma_entropy_loop(n, j + 1, e6, start + 8);
        assert(crate::interpreter::leave(m, f, bs[2], start + 1, 7, s(e6), 0) == out);
        assert(run(m, f, "body"@, 6, start + 1, s(e6), 0) == out);
        assert(run(m, f, "body"@, 5, start + 1, s(e5), 0) == out);
        assert(run(m, f, "body"@, 4, start + 1, s(e4), 0) == out);
        assert(run(m, f, "body"@, 3, start + 1, s(e3), 0) == out);
        assert(run(m, f, "body"@, 2, start + 1, s(e2), 0) == out);
        assert(run(m, f, "body"@, 1, start + 1, s(e1), 0) == out);
        assert(run(m, f, "body"@, 0, start + 1, st, 0) == out);
    } else {
        assert(eval(m, var("total"@), st, 0) == Ok::<(i64, Machine), Fault>((entropy_terms(n as int) as i64, st)));
        assert(eval(m, bs[3].insts[0], st, 0) == Ok::<(i64, Machine), Fault>((entropy_terms(n as int) as i64, st)));
        assert(run(m, f, "exit"@, 0, start + 1, st, 0) == out);
    }
    assert(crate::interpreter::leave(m, f, bs[1], start, 1, st, 0) == out);
}

/// The entropy loop returns the sum of its running quotients (0 when `n` is not positive),
/// for every `n` whose loop fits in the interpreter's step limit.
pub proof fn law_entropy_loop_computes(n: i32)
    requires
        n <= 1249,
    ensures
        execute(entropy_loop(n), entropy_loop(n).functions[0], seq![]) == Ok::<i64, Fault>(
            entropy_terms(n as int) as i64,
        ),
{
    let m = entropy_loop(n);
    let f = m.functions[0];
    let bs = f.blocks;
    reveal_strlit("entry");
    reveal_strlit("cond");
    reveal_strlit("body");
    reveal_strlit("exit");
    reveal_strlit("i");
    reveal_strlit("n");
    reveal_strlit("total");
    reveal_strlit("freq");
    assert forall|x: int, y: int| 0 <= x < y < bs.len() implies #[trigger] bs[x].name != #[trigger] bs[y].name by {
        if bs[x].name.len() == bs[y].name.len() {
            assert(bs[x].name[0] != bs[y].name[0]);
        }
    }
    lemma_find_last_distinct(bs, 0);
    lemma_find_last_distinct(bs, 1);
    lemma_find_last_distinct(bs, 3);
    assert(bs[0].name == "entry"@ && bs[1].name == "cond"@ && bs[3].name == "exit"@);
    let names = seq!["i"@, "n"@, "total"@, "freq"@];
    assert forall|x: int, y: int| 0 <= x < y < 4 implies #[trigger] names[x] != #[trigger] names[y] by {
        if names[x].len() == names[y].len() {
            assert(names[x][0] != names[y][0]);
        }
    }
    assert(names[0] == "i"@ && names[1] == "n"@ && names[2] == "total"@ && names[3] == "freq"@);
    let v = n as i64;
    let s = |e: Map<Seq<char>, i64>| Machine { env: e, heap: seq![] };
    let e0 = bind(seq![], seq![]);
    assert(e0 == Map::<Seq<char>, i64>::empty());
    let e1 = e0.insert("i"@, 0);
    let e2 = e1.insert("total"@, 0);
    let e3 = e2.insert("freq"@, 0);
    let e4 = e3.insert("n"@, v);
    let entry = bs[0].insts;
    assert(eval(m, cst(0), s(e0), 0) == Ok::<(i64, Machine), Fault>((0, s(e0))));
    assert(eval(m, entry[0], s(e0), 0) == Ok::<(i64, Machine), Fault>((0, s(e1))));
    assert(eval(m, cst(0), s(e1), 0) == Ok::<(i64, Machine), Fault>((0, s(e1))));
    assert(eval(m, entry[1], s(e1), 0) == Ok::<(i64, Machine), Fault>((0, s(e2))));
    assert(eval(m, cst(0), s(e2), 0) == Ok::<(i64, Machine), Fault>((0, s(e2))));
    assert(eval(m, entry[2], s(e2), 0) == Ok::<(i64, Machine), Fault>((0, s(e3))));
    assert(eval(m, cst(v), s(e3), 0) == Ok::<(i64, Machine), Fault>((v, s(e3))));
    assert(eval(m, entry[3], s(e3), 0) == Ok::<(i64, Machine), Fault>((v, s(e4))));
    assert(eval(m, entry[4], s(e4), 0) == Ok::<(i64, Machine), Fault>((0, s(e4))));
    assert(e4["i"@] == 0 && e4["total"@] == 0 && e4["freq"@] == 0 && e4["n"@] == v);
    assert(sum_below(0) == 0 && entropy_terms(0) == 0);
    let out = entropy_terms(n as int) as i64;
    let r = run(m, f, "cond"@, 0, 5, s(e4), 0);
    if n >= 0 {
        lemma_entropy_loop(n, 0, e4, 5);
        assert(r == Ok::<(i64, Seq<i64>), Fault>((out, seq![])));
    } else {
        let st = s(e4);
        assert(eval(m, var("i"@), st, 0) == Ok::<(i64, Machine), Fault>((0, st)));
        assert(eval(m, var("n"@), st, 0) == Ok::<(i64, Machine), Fault>((v, st)));
        assert(eval(m, comp(CompareCondition::Lt, var("i"@), var("n"@)), st, 0) == Ok::<(i64, Machine), Fault>((0, st)));
        assert(eval(m, bs[1].insts[0], st, 0) == Ok::<(i64, Machine), Fault>((0, st)));
        assert(eval(m, var("total"@), st, 0) == Ok::<(i64, Machine), Fault>((0, st)));
        assert(eval(m, bs[3].insts[0], st, 0) == Ok::<(i64, Machine), Fault>((0, st)));
        assert(run(m, f, "exit"@, 0, 6, st, 0) == Ok::<(i64, Seq<i64>), Fault>((0, seq![])));
        assert(crate::interpreter::leave(m, f, bs[1], 5, 1, st, 0) == Ok::<(i64, Seq<i64>), Fault>((0, seq![])));
        assert(r == Ok::<(i64, Seq<i64>), Fault>((out, seq![])));
    }
    assert(crate::interpreter::leave(m, f, bs[0], 0, 5, s(e4), 0) == r);
    assert(run(m, f, "entry"@, 4, 0, s(e4), 0) == r);
    assert(run(m, f, "entry"@, 3, 0, s(e3), 0) == r);
    assert(run(m, f, "entry"@, 2, 0, s(e2), 0) == r);
    assert(run(m, f, "entry"@, 1, 0, s(e1), 0) == r);
    assert(run(m, f, "entry"@, 0, 0, s(e0), 0) == r);
    assert(call(m, f, seq![], seq![], 0) == r);
}

/// The prefix-sum array with its first `k` of `size` slots holding `1, 2, ...` and the rest 0.
pub open spec fn prefix_partial(size: int, k: int) -> Seq<i64> {
    Seq::new(size as nat, |x: int| if x < k { (x + 1) as i64 } else { 0i64 })
}

/// Filling the prefix-sum array from slot `k` on reaches the same run as the full array.
#[verifier::spinoff_prover]
#[verifier::rlimit(40)]
proof fn lemma_prefix_fill(n: i32, k: int, e: Map<Seq<char>, i64>)
    requires
        0 <= n <= 1428,
        0 <= k <= prefix_size(n),
        e.contains_key("arr"@) && e["arr"@] == 0,
    ensures
        run(prefix_sum(n), prefix_sum(n).functions[0], "entry"@, (k + 1) as nat, 0,
            Machine { env: e, heap: prefix_partial(prefix_size(n) as int, k) }, 0)
            == run(prefix_sum(n), prefix_sum(n).functions[0], "entry"@, (prefix_size(n) + 1) as nat, 0,
            Machine { env: e, heap: prefix_partial(prefix_size(n) as int, prefix_size(n) as int) }, 0),
    decreases prefix_size(n) - k,
{
    let m = prefix_sum(n);
    let f = m.functions[0];
    let bs = f.blocks;
    let size = prefix_size(n) as int;
    reveal_strlit("entry");
    reveal_strlit("loop");
    reveal_strlit("body");
    reveal_strlit("exit");
    reveal_strlit("arr");
    assert forall|x: int, y: int| 0 <= x < y < bs.len() implies #[trigger] bs[x].name != #[trigger] bs[y].name by {
        if bs[x].name.len() == bs[y].name.len() {
            assert(bs[x].name[0] != bs[y].name[0]);
        }
    }
    lemma_find_last_distinct(bs, 0);
    assert(bs[0].name == "entry"@);
    assert(size <= 1428 && prefix_fill(n) == size);
    if k < size {
        let h = prefix_partial(size, k);
        let h2 = prefix_partial(size, k + 1);
        let val = (k + 1) as i64;
        assert(h.update(k, val) =~= h2);
        let s = Machine { env: e, heap: h };
        let kv = k as i64;
        let insts = bs[0].insts;
        assert(insts.len() == 1 + size + 5);
        assert(insts[k + 1] == crate::module_builders::prefix_fill_store(k));
        assert(eval(m, var("arr"@), s, 0) == Ok::<(i64, Machine), Fault>((0, s)));
        assert(eval(m, cst(kv), s, 0) == Ok::<(i64, Machine), Fault>((kv, s)));
        assert(eval(m, bin(BinaryOp::Add, var("arr"@), cst(kv)), s, 0) == Ok::<(i64, Machine), Fault>((kv, s)));
        assert(eval(m, cst(val), s, 0) == Ok::<(i64, Machine), Fault>((val, s)));
        assert(eval(m, insts[k + 1], s, 0) == Ok::<(i64, Machine), Fault>((val, Machine { env: e, heap: h2 })));
        lemma_prefix_fill(n, k + 1, e);
    }
}

/// From the loop test at slot `i`, the prefix sum returns the sum of slots `1..size`.
#[verifier::spinoff_prover]
#[verifier::rlimit(50)]
proof fn lemma_prefix_loop(n: i32, i: int, e: Map<Seq<char>, i64>, start: nat)
    requires
        0 <= n <= 1428,
        1 <= i <= prefix_size(n),
        e.contains_key("i"@) && e["i"@] == i,
        e.contains_key("sum"@) && e["sum"@] == sum_below(i + 1) - 1,
        e.contains_key("arr"@) && e["arr"@] == 0,
        e.contains_key("writes"@),
        start + 6 * (prefix_size(n) - i) + 1 <= crate::interpreter::MAX_INSTRUCTIONS,
    ensures
        run(prefix_sum(n), prefix_sum(n).functions[0], "loop"@, 0, start,
            Machine { env: e, heap: prefix_partial(prefix_size(n) as int, prefix_size(n) as int) }, 0)
            matches Ok((v, _)) && v == sum_below(prefix_size(n) + 1) - 1,
    decreases prefix_size(n) - i,
{
    let m = prefix_sum(n);
    let f = m.functions[0];
    let bs = f.blocks;
    let size = prefix_size(n) as int;
    let heap = prefix_partial(size, size);
    reveal_strlit("entry");
    reveal_strlit("loop");
    reveal_strlit("body");
    reveal_strlit("exit");
    reveal_strlit("i");
    reveal_strlit("sum");
    reveal_strlit("elem");
    reveal_strlit("writes");
    reveal_strlit("arr");
    assert forall|x: int, y: int| 0 <= x < y < bs.len() implies #[trigger] bs[x].name != #[trigger] bs[y].name by {
        if bs[x].name.len() == bs[y].name.len() {
            assert(bs[x].name[0] != bs[y].name[0]);
        }
    }
    lemma_find_last_distinct(bs, 1);
    lemma_find_last_distinct(bs, 2);
    lemma_find_last_distinct(bs, 3);
    assert(bs[1].name == "loop"@ && bs[2].name == "body"@ && bs[3].name == "exit"@);
    let names = seq!["i"@, "sum"@, "elem"@, "writes"@, "arr"@];
    assert forall|x: int, y: int| 0 <= x < y < 5 implies #[trigger] names[x] != #[trigger] names[y] by {
        if names[x].len() == names[y].len() {
            assert(names[x][0] != names[y][0]);
        }
    }
    assert(names[0] == "i"@ && names[1] == "sum"@ && names[2] == "elem"@ && names[3] == "writes"@ && names[4] == "arr"@);
    lemma_sum_below_bound(i + 1);
    let st = Machine { env: e, heap };
    let vi = i as i64;
    let vs = size as i64;
    let c: i64 = if i < size { 1 } else { 0 };
    assert(eval(m, var("i"@), st, 0) == Ok::<(i64, Machine), Fault>((vi, st)));
    assert(eval(m, cst(vs), st, 0) == Ok::<(i64, Machine), Fault>((vs, st)));
    assert(eval(m, comp(CompareCondition::Lt, var("i"@), cst(vs)), st, 0) == Ok::<(i64, Machine), Fault>((c, st)));
    assert(eval(m, bs[1].insts[0], st, 0) == Ok::<(i64, Machine), Fault>((0, st)));
    if i < size {
        lemma_sum_below_bound(i + 2);
        let el = (i + 1) as i64;
        assert(heap[i] == el);
        let acc = (sum_below(i + 1) - 1) as i64;
        let acc2 = (sum_below(i + 2) - 1) as i64;
        assert(sum_below(i + 2) == sum_below(i + 1) + i + 1);
        let w = e["writes"@];
        let e1 = e.insert("elem"@, el);
        let e2 = e1.insert("sum"@, acc2);
        let e3 = e2.insert("writes"@, w.wrapping_add(1));
        let e4 = e3.insert("i"@, (i + 1) as i64);
        let s = |x: Map<Seq<char>, i64>| Machine { env: x, heap };
        let body = bs[2].insts;
        let addr = bin(BinaryOp::Add, var("arr"@), var("i"@));
        assert(eval(m, var("arr"@), st, 0) == Ok::<(i64, Machine), Fault>((0, st)));
        assert(eval(m, addr, st, 0) == Ok::<(i64, Machine), Fault>((vi, st)));
        assert(eval(m, load(addr), st, 0) == Ok::<(i64, Machine), Fault>((el, st)));
        assert(eval(m, body[0], st, 0) == Ok::<(i64, Machine), Fault>((el, s(e1))));
        assert(eval(m, var("sum"@), s(e1), 0) == Ok::<(i64, Machine), Fault>((acc, s(e1))));
        assert(eval(m, var("elem"@), s(e1), 0) == Ok::<(i64, Machine), Fault>((el, s(e1))));
        assert(eval(m, bin(BinaryOp::Add, var("sum"@), var("elem"@)), s(e1), 0) == Ok::<(i64, Machine), Fault>((acc2, s(e1))));
        assert(eval(m, body[1], s(e1), 0) == Ok::<(i64, Machine), Fault>((acc2, s(e2))));
        assert(eval(m, var("writes"@), s(e2), 0) == Ok::<(i64, Machine), Fault>((w, s(e2))));
        assert(eval(m, cst(1), s(e2), 0) == Ok::<(i64, Machine), Fault>((1, s(e2))));
        assert(eval(m, bin(BinaryOp::Add, var("writes"@), cst(1)), s(e2), 0) == Ok::<(i64, Machine), Fault>((w.wrapping_add(1), s(e2))));
        assert(eval(m, body[2], s(e2), 0) == Ok::<(i64, Machine), Fault>((w.wrapping_add(1), s(e3))));
        assert(eval(m, var("i"@), s(e3), 0) == Ok::<(i64, Machine), Fault>((vi, s(e3))));
        assert(eval(m, cst(1), s(e3), 0) == Ok::<(i64, Machine), Fault>((1, s(e3))));
        assert(eval(m, bin(BinaryOp::Add, var("i"@), cst(1)), s(e3), 0) == Ok::<(i64, Machine), Fault>(((i + 1) as i64, s(e3))));
        assert(eval(m, body[3], s(e3), 0) == Ok::<(i64, Machine), Fault>(((i + 1) as i64, s(e4))));
        assert(eval(m, body[4], s(e4), 0) == Ok::<(i64, Machine), Fault>((0, s(e4))));
        lemma_prefix_loop(n, i + 1, e4, start + 6);
        let r2 = run(m, f, "loop"@, 0, start + 6, s(e4), 0);
        assert(crate::interpreter::leave(m, f, bs[2], start + 1, 5, s(e4), 0) == r2);
        assert(run(m, f, "body"@, 4, start + 1, s(e4), 0) == r2);
        assert(run(m, f, "body"@, 3, start + 1, s(e3), 0) == r2);
        assert(run(m, f, "body"@, 2, start + 1, s(e2), 0) == r2);
        assert(run(m, f, "body"@, 1, start + 1, s(e1), 0) == r2);
        assert(run(m, f, "body"@, 0, start + 1, st, 0) == r2);
        assert(crate::interpreter::leave(m, f, bs[1], start, 1, st, 0) == r2);
    } else {
        let out = (sum_below(size + 1) - 1) as i64;
        assert(eval(m, var("sum"@), st, 0) == Ok::<(i64, Machine), Fault>((out, st)));
        assert(eval(m, bs[3].insts[0], st, 0) == Ok::<(i64, Machine), Fault>((out, st)));
        assert(run(m, f, "exit"@, 0, start + 1, st, 0) == Ok::<(i64, Seq<i64>), Fault>((out, heap)));
        assert(crate::interpreter::leave(m, f, bs[1], start, 1, st, 0) == Ok::<(i64, Seq<i64>), Fault>((out, heap)));
    }
}

/// The prefix sum fills `size = max(n, 5)` slots with `1, 2, ...` and returns the sum of all
/// but the first, `size * (size + 1) / 2 - 1`, for every `n` from 0 whose run fits in the
/// interpreter's step limit.
pub proof fn law_prefix_sum_computes(n: i32)
    requires
        0 <= n <= 1428,
    ensures
        execute(prefix_sum(n), prefix_sum(n).functions[0], seq![]) == Ok::<i64, Fault>(
            (sum_below(prefix_size(n) + 1) - 1) as i64,
        ),
        sum_below(prefix_size(n) + 1) - 1 == prefix_size(n) * (prefix_size(n) + 1) / 2 - 1,
{
    let m = prefix_sum(n);
    let f = m.functions[0];
    let bs = f.blocks;
    let size = prefix_size(n) as int;
    let insts = bs[0].insts;
    lemma_sum_below_closed(size + 1);
    assert((size + 1) * (size + 1 - 1) == size * (size + 1)) by (nonlinear_arith);
    reveal_strlit("entry");
    reveal_strlit("loop");
    reveal_strlit("body");
    reveal_strlit("exit");
    reveal_strlit("i");
    reveal_strlit("sum");
    reveal_strlit("writes");
    reveal_strlit("reads");
    reveal_strlit("arr");
    assert forall|x: int, y: int| 0 <= x < y < bs.len() implies #[trigger] bs[x].name != #[trigger] bs[y].name by {
        if bs[x].name.len() == bs[y].name.len() {
            assert(bs[x].name[0] != bs[y].name[0]);
        }
    }
    lemma_find_last_distinct(bs, 0);
    lemma_find_last_distinct(bs, 1);
    assert(bs[0].name == "entry"@ && bs[1].name == "loop"@);
    let names = seq!["i"@, "sum"@, "writes"@, "reads"@, "arr"@];
    assert forall|x: int, y: int| 0 <= x < y < 5 implies #[trigger] names[x] != #[trigger] names[y] by {
        if names[x].len() == names[y].len() {
            assert(names[x][0] != names[y][0] || names[x][1] != names[y][1]);
        }
    }
    assert(names[0] == "i"@ && names[1] == "sum"@ && names[2] == "writes"@ && names[3] == "reads"@ && names[4] == "arr"@);
    assert(5 <= size <= 1428 && prefix_fill(n) == size);
    assert(insts.len() == 1 + size + 5);
    let full = prefix_partial(size, size);
    let e0 = bind(seq![], seq![]);
    assert(e0 == Map::<Seq<char>, i64>::empty());
    let ea = e0.insert("arr"@, 0);
    let s0 = Machine { env: e0, heap: seq![] };
    assert(Seq::<i64>::empty() + Seq::new(size as nat, |j: int| 0i64) =~= prefix_partial(size, 0));
    assert(insts[0] == crate::module_builders::alloca("arr"@, prefix_size(n)));
    assert(eval(m, insts[0], s0, 0) == Ok::<(i64, Machine), Fault>((0, Machine { env: ea, heap: prefix_partial(size, 0) })));
    lemma_prefix_fill(n, 0, ea);
    let e1 = ea.insert("writes"@, 0);
    let e2 = e1.insert("reads"@, 0);
    let e3 = e2.insert("i"@, 1);
    let e4 = e3.insert("sum"@, 0);
    let sf = |e: Map<Seq<char>, i64>| Machine { env: e, heap: full };
    assert(insts[size + 1] == crate::module_builders::st("writes"@, cst(0)));
    assert(insts[size + 2] == crate::module_builders::st("reads"@, cst(0)));
    assert(insts[size + 3] == crate::module_builders::st("i"@, cst(1)));
    assert(insts[size + 4] == crate::module_builders::st("sum"@, cst(0)));
    assert(insts[size + 5] == crate::module_builders::jmp("loop"@));
    assert(eval(m, cst(0), sf(ea), 0) == Ok::<(i64, Machine), Fault>((0, sf(ea))));
    assert(eval(m, insts[size + 1], sf(ea), 0) == Ok::<(i64, Machine), Fault>((0, sf(e1))));
    assert(eval(m, cst(0), sf(e1), 0) == Ok::<(i64, Machine), Fault>((0, sf(e1))));
    assert(eval(m, insts[size + 2], sf(e1), 0) == Ok::<(i64, Machine), Fault>((0, sf(e2))));
    assert(eval(m, cst(1), sf(e2), 0) == Ok::<(i64, Machine), Fault>((1, sf(e2))));
    assert(eval(m, insts[size + 3], sf(e2), 0) == Ok::<(i64, Machine), Fault>((1, sf(e3))));
    assert(eval(m, cst(0), sf(e3), 0) == Ok::<(i64, Machine), Fault>((0, sf(e3))));
    assert(eval(m, insts[size + 4], sf(e3), 0) == Ok::<(i64, Machine), Fault>((0, sf(e4))));
    assert(eval(m, insts[size + 5], sf(e4), 0) == Ok::<(i64, Machine), Fault>((0, sf(e4))));
    assert(e4["i"@] == 1 && e4["sum"@] == 0 && e4["arr"@] == 0 && e4.contains_key("writes"@));
    assert(sum_below(2) - 1 == 0) by {
        reveal_with_fuel(sum_below, 3);
    }
    let start = (size + 6) as nat;
    lemma_prefix_loop(n, 1, e4, start);
    let r = run(m, f, "loop"@, 0, start, sf(e4), 0);
    assert(crate::interpreter::leave(m, f, bs[0], 0, start, sf(e4), 0) == r);
    assert(run(m, f, "entry"@, (size + 5) as nat, 0, sf(e4), 0) == r);
    assert(run(m, f, "entry"@, (size + 4) as nat, 0, sf(e3), 0) == r);
    assert(run(m, f, "entry"@, (size + 3) as nat, 0, sf(e2), 0) == r);
    assert(run(m, f, "entry"@, (size + 2) as nat, 0, sf(e1), 0) == r);
    assert(run(m, f, "entry"@, (size + 1) as nat, 0, sf(ea), 0) == r);
    assert(run(m, f, "entry"@, 1, 0, Machine { env: ea, heap: prefix_partial(size, 0) }, 0) == r);
    assert(run(m, f, "entry"@, 0, 0, s0, 0) == r);
    assert(call(m, f, seq![], seq![], 0) == r);
}

} // verus!
