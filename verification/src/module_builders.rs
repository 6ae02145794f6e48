use vstd::prelude::*;
use crate::ir::basic_block::{BasicBlock, BlockModel, inst_models};
use crate::ir::function::{Function, FunctionModel, block_models, string_views};
use crate::ir::module::{Module, ModuleModel, function_models};
use crate::ir::value::{BinaryOp, CompareCondition, Inst, Instruction, ValueType};
use crate::text::string_of;

verus! {

broadcast use vstd::std_specs::vec::group_vec_axioms;

/// A constant.
pub open spec fn cst(v: i64) -> Inst {
    Inst::Constant { value: v }
}

/// A variable read.
pub open spec fn var(name: Seq<char>) -> Inst {
    Inst::Variable { name }
}

/// Arithmetic on two trees.
pub open spec fn bin(op: BinaryOp, l: Inst, r: Inst) -> Inst {
    Inst::BinaryOp { op, lhs: Box::new(l), rhs: Box::new(r) }
}

/// A comparison of two trees.
pub open spec fn comp(c: CompareCondition, l: Inst, r: Inst) -> Inst {
    Inst::Compare { condition: c, lhs: Box::new(l), rhs: Box::new(r) }
}

/// A store to a variable.
pub open spec fn st(name: Seq<char>, v: Inst) -> Inst {
    Inst::Store { var_name: name, value: Box::new(v) }
}

/// A two-way branch.
pub open spec fn br(c: Inst, t: Seq<char>, e: Seq<char>) -> Inst {
    Inst::Branch { condition: Box::new(c), then_label: t, else_label: e }
}

/// An unconditional jump.
pub open spec fn jmp(label: Seq<char>) -> Inst {
    Inst::Jump { label }
}

/// A return of a value.
pub open spec fn ret(v: Inst) -> Inst {
    Inst::Return { value: Some(Box::new(v)) }
}

/// A call with one argument.
pub open spec fn call1(f: Seq<char>, a: Inst) -> Inst {
    Inst::Call { function_name: f, args: seq![a] }
}

/// An array reservation.
pub open spec fn alloca(name: Seq<char>, count: usize) -> Inst {
    Inst::AllocaArray { name, count }
}

/// An element address.
pub open spec fn gep(b: Inst, i: Inst) -> Inst {
    Inst::GetElementPtr { base: Box::new(b), index: Box::new(i) }
}

/// A load through an address.
pub open spec fn load(p: Inst) -> Inst {
    Inst::LoadPtr { ptr: Box::new(p) }
}

/// A store through an address.
pub open spec fn st_ptr(p: Inst, v: Inst) -> Inst {
    Inst::StorePtr { ptr: Box::new(p), value: Box::new(v) }
}

/// A block.
pub open spec fn blk(name: Seq<char>, insts: Seq<Inst>) -> BlockModel {
    BlockModel { name, insts }
}

/// A function returning an integer.
pub open spec fn fun(name: Seq<char>, params: Seq<Seq<char>>, blocks: Seq<BlockModel>) -> FunctionModel {
    FunctionModel { name, return_type: ValueType::Int, blocks, params }
}

/// A module.
pub open spec fn modl(name: Seq<char>, functions: Seq<FunctionModel>) -> ModuleModel {
    ModuleModel { name, functions }
}

fn mk_cst(v: i64) -> (r: Instruction)
    ensures
        r@ == cst(v),
{
    Instruction::Constant { value: v }
}

fn mk_var(name: &str) -> (r: Instruction)
    ensures
        r@ == var(name@),
{
    Instruction::Variable { name: string_of(name) }
}

fn mk_bin(op: BinaryOp, l: Instruction, r: Instruction) -> (x: Instruction)
    ensures
        x@ == bin(op, l@, r@),
{
    Instruction::BinaryOp { op, lhs: Box::new(l), rhs: Box::new(r) }
}

fn mk_comp(c: CompareCondition, l: Instruction, r: Instruction) -> (x: Instruction)
    ensures
        x@ == comp(c, l@, r@),
{
    Instruction::Compare { condition: c, lhs: Box::new(l), rhs: Box::new(r) }
}

fn mk_st(name: &str, v: Instruction) -> (r: Instruction)
    ensures
        r@ == st(name@, v@),
{
    Instruction::Store { var_name: string_of(name), value: Box::new(v) }
}

fn mk_br(c: Instruction, t: &str, e: &str) -> (r: Instruction)
    ensures
        r@ == br(c@, t@, e@),
{
    Instruction::Branch { condition: Box::new(c), then_label: string_of(t), else_label: string_of(e) }
}

fn mk_jmp(label: &str) -> (r: Instruction)
    ensures
        r@ == jmp(label@),
{
    Instruction::Jump { label: string_of(label) }
}

fn mk_ret(v: Instruction) -> (r: Instruction)
    ensures
        r@ == ret(v@),
{
    Instruction::Return { value: Some(Box::new(v)) }
}

fn mk_call1(f: &str, a: Instruction) -> (r: Instruction)
    ensures
        r@ == call1(f@, a@),
{
    let ghost am = a@;
    let mut args: Vec<Box<Instruction>> = Vec::new();
    args.push(Box::new(a));
    proof {
        crate::ir::value::lemma_arg_models(args@);
        assert(crate::ir::value::arg_models(args@) =~= seq![am]);
    }
    Instruction::Call { function_name: string_of(f), args }
}

fn mk_alloca(name: &str, count: usize) -> (r: Instruction)
    ensures
        r@ == alloca(name@, count),
{
    Instruction::AllocaArray { name: string_of(name), count }
}

fn mk_gep(b: Instruction, i: Instruction) -> (r: Instruction)
    ensures
        r@ == gep(b@, i@),
{
    Instruction::GetElementPtr { base: Box::new(b), index: Box::new(i) }
}

fn mk_load(p: Instruction) -> (r: Instruction)
    ensures
        r@ == load(p@),
{
    Instruction::LoadPtr { ptr: Box::new(p) }
}

fn mk_st_ptr(p: Instruction, v: Instruction) -> (r: Instruction)
    ensures
        r@ == st_ptr(p@, v@),
{
    Instruction::StorePtr { ptr: Box::new(p), value: Box::new(v) }
}

fn mk_blk(name: &str, insts: Vec<Instruction>, Ghost(e): Ghost<Seq<Inst>>) -> (r: BasicBlock)
    requires
        inst_models(insts@) =~= e,
    ensures
        r@ == blk(name@, e),
{
    BasicBlock { name: string_of(name), instructions: insts }
}

fn mk_fun(
    name: &str,
    params: Vec<String>,
    blocks: Vec<BasicBlock>,
    Ghost(ps): Ghost<Seq<Seq<char>>>,
    Ghost(e): Ghost<Seq<BlockModel>>,
) -> (r: Function)
    requires
        string_views(params@) =~= ps,
        block_models(blocks@) =~= e,
    ensures
        r@ == fun(name@, ps, e),
{
    Function { name: string_of(name), return_type: ValueType::Int, basic_blocks: blocks, params }
}

fn mk_modl(name: &str, functions: Vec<Function>, Ghost(e): Ghost<Seq<FunctionModel>>) -> (r: Module)
    requires
        function_models(functions@) =~= e,
    ensures
        r@ == modl(name@, e),
{
    Module { name: string_of(name), functions }
}

/// A block body that returns a variable.
pub open spec fn returns_var(name: Seq<char>) -> Seq<Inst> {
    seq![ret(var(name))]
}

/// Entry of the summing demo.
pub open spec fn sum_example_entry(n: i32) -> Seq<Inst> {
    seq![st("i"@, cst(0)), st("sum"@, cst(0)), st("n"@, cst(n as i64)), jmp("loop_cond"@)]
}

/// Loop test of the summing demo.
pub open spec fn sum_example_cond() -> Seq<Inst> {
    seq![br(comp(CompareCondition::Lt, var("i"@), var("n"@)), "loop_body"@, "exit"@)]
}

/// Loop body of the summing demo.
pub open spec fn sum_example_body() -> Seq<Inst> {
    seq![
        st("sum"@, bin(BinaryOp::Add, var("sum"@), var("i"@))),
        st("i"@, bin(BinaryOp::Add, var("i"@), cst(1))),
        jmp("loop_cond"@),
    ]
}

/// Blocks of the summing demo.
pub open spec fn sum_example_blocks(n: i32) -> Seq<BlockModel> {
    seq![
        blk("entry"@, sum_example_entry(n)),
        blk("loop_cond"@, sum_example_cond()),
        blk("loop_body"@, sum_example_body()),
        blk("exit"@, returns_var("sum"@)),
    ]
}

/// The summing demo: one function adding `0..n` into `sum`.
pub open spec fn sum_example(n: i32) -> ModuleModel {
    modl("demo"@, seq![fun("compute_sum"@, seq![], sum_example_blocks(n))])
}

/// A module with one function summing `0..n` in a loop.
pub fn build_sum_example(n: i32) -> (r: Module)
    ensures
        r@ == sum_example(n),
{
    let entry = mk_blk(
        "entry",
        vec![mk_st("i", mk_cst(0)), mk_st("sum", mk_cst(0)), mk_st("n", mk_cst(n as i64)), mk_jmp("loop_cond")],
        Ghost(sum_example_entry(n)),
    );
    let loop_cond = mk_blk(
        "loop_cond",
        vec![mk_br(mk_comp(CompareCondition::Lt, mk_var("i"), mk_var("n")), "loop_body", "exit")],
        Ghost(sum_example_cond()),
    );
    let loop_body = mk_blk(
        "loop_body",
        vec![
            mk_st("sum", mk_bin(BinaryOp::Add, mk_var("sum"), mk_var("i"))),
            mk_st("i", mk_bin(BinaryOp::Add, mk_var("i"), mk_cst(1))),
            mk_jmp("loop_cond"),
        ],
        Ghost(sum_example_body()),
    );
    let exit_bb = mk_blk("exit", vec![mk_ret(mk_var("sum"))], Ghost(returns_var("sum"@)));
    let func = mk_fun(
        "compute_sum",
        Vec::new(),
        vec![entry, loop_cond, loop_body, exit_bb],
        Ghost(Seq::empty()),
        Ghost(sum_example_blocks(n)),
    );
    mk_modl("demo", vec![func], Ghost(sum_example(n).functions))
}

/// A parameter list of one name.
pub open spec fn one_param(p: Seq<char>) -> Seq<Seq<char>> {
    seq![p]
}

/// `n`, raised to `lo`.
pub open spec fn at_least(n: i32, lo: i32) -> i32 {
    if n > lo { n } else { lo }
}

/// Slots of the factorial memo table: `n` taken as a size (wrapping for negative `n`),
/// raised to 5, plus one.
pub open spec fn memo_size(n: i32) -> usize {
    ((if (n as usize) > 5 { n as usize } else { 5 }) + 1) as usize
}

/// The smaller operand of the gcd module: `n`, raised to 10.
pub open spec fn gcd_seed(n: i32) -> i64 {
    if (n as i64) > 10 { n as i64 } else { 10 }
}

fn at_least_one(n: i32) -> (r: i64)
    ensures
        r == at_least(n, 1) as i64,
{
    if n > 1 { n as i64 } else { 1 }
}

fn memo_count(n: i32) -> (r: usize)
    requires
        (n as usize) < usize::MAX,
    ensures
        r == memo_size(n),
{
    let base = n as usize;
    let m = if base > 5 { base } else { 5 };
    m + 1
}

fn gcd_seed_value(n: i32) -> (r: i64)
    ensures
        r == gcd_seed(n),
        10 <= r <= i32::MAX,
{
    if (n as i64) > 10 { n as i64 } else { 10 }
}

fn negated(n: i32) -> (r: i64)
    requires
        n != i32::MIN,
    ensures
        r == (-n) as i64,
{
    (-n) as i64
}

/// Instructions of block `entry` of function `sum` in `simple_sum`.
pub open spec fn simple_sum_entry(n: i32) -> Seq<Inst> {
    seq![
        st("i"@, cst(0)),
        st("acc"@, cst(0)),
        st("trace"@, cst(0)),
        st("n"@, cst(n as i64)),
        jmp("cond"@),
    ]
}

/// Instructions of block `cond` of function `sum` in `simple_sum`.
pub open spec fn simple_sum_cond() -> Seq<Inst> {
    seq![
        br(comp(CompareCondition::Lt, var("i"@), var("n"@)), "body"@, "exit"@),
    ]
}

/// Instructions of block `body` of function `sum` in `simple_sum`.
pub open spec fn simple_sum_body() -> Seq<Inst> {
    seq![
        st("t"@, bin(BinaryOp::Mul, var("i"@), cst(3))),
        st("acc"@, bin(BinaryOp::Add, var("acc"@), var("t"@))),
        st("trace"@, bin(BinaryOp::Mul, var("t"@), cst(2))),
        st("i"@, bin(BinaryOp::Add, var("i"@), cst(1))),
        jmp("cond"@),
    ]
}

/// Instructions of block `exit` of function `sum` in `simple_sum`.
pub open spec fn simple_sum_exit() -> Seq<Inst> {
    seq![
        ret(var("acc"@)),
    ]
}

/// Blocks of function `sum` in `simple_sum`.
pub open spec fn simple_sum_blocks(n: i32) -> Seq<BlockModel> {
    seq![
        blk("entry"@, simple_sum_entry(n)),
        blk("cond"@, simple_sum_cond()),
        blk("body"@, simple_sum_body()),
        blk("exit"@, simple_sum_exit()),
    ]
}

/// The summing loop with a per-iteration product and an accumulator that nothing reads.
pub open spec fn simple_sum(n: i32) -> ModuleModel {
    modl(
        "simple_sum"@,
        seq![
            fun("sum"@, seq![], simple_sum_blocks(n)),
        ],
    )
}

/// Instructions of block `entry` of function `fib` in `fib_loop`.
pub open spec fn fib_loop_entry(n: i32) -> Seq<Inst> {
    seq![
        st("a"@, cst(0)),
        st("b"@, cst(1)),
        st("i"@, cst(0)),
        st("n"@, cst(n as i64)),
        st("k"@, cst(5)),
        st("salt"@, bin(BinaryOp::Add, var("k"@), cst(3))),
        st("parity_track"@, cst(0)),
        jmp("cond"@),
    ]
}

/// Instructions of block `cond` of function `fib` in `fib_loop`.
pub open spec fn fib_loop_cond() -> Seq<Inst> {
    seq![
        br(comp(CompareCondition::Lt, var("i"@), var("n"@)), "body"@, "exit"@),
    ]
}

/// Instructions of block `body` of function `fib` in `fib_loop`.
pub open spec fn fib_loop_body() -> Seq<Inst> {
    seq![
        st("tmp"@, bin(BinaryOp::Add, var("a"@), var("b"@))),
        st("a"@, var("b"@)),
        st("b"@, var("tmp"@)),
        st("parity_track"@, bin(BinaryOp::Add, var("parity_track"@), var("salt"@))),
        st("i"@, bin(BinaryOp::Add, var("i"@), cst(1))),
        jmp("cond"@),
    ]
}

/// Instructions of block `exit` of function `fib` in `fib_loop`.
pub open spec fn fib_loop_exit() -> Seq<Inst> {
    seq![
        ret(var("b"@)),
    ]
}

/// Blocks of function `fib` in `fib_loop`.
pub open spec fn fib_loop_blocks(n: i32) -> Seq<BlockModel> {
    seq![
        blk("entry"@, fib_loop_entry(n)),
        blk("cond"@, fib_loop_cond()),
        blk("body"@, fib_loop_body()),
        blk("exit"@, fib_loop_exit()),
    ]
}

/// Iterative Fibonacci with a constant that only propagation and folding together reveal, feeding a dead accumulator.
pub open spec fn fib_loop(n: i32) -> ModuleModel {
    modl(
        "fib_loop"@,
        seq![
            fun("fib"@, seq![], fib_loop_blocks(n)),
        ],
    )
}

/// Instructions of block `entry` of function `nested` in `nested_loop`.
pub open spec fn nested_loop_entry(n: i32) -> Seq<Inst> {
    seq![
        st("i"@, cst(0)),
        st("acc"@, cst(0)),
        st("n"@, cst(n as i64)),
        jmp("cond"@),
    ]
}

/// Instructions of block `cond` of function `nested` in `nested_loop`.
pub open spec fn nested_loop_cond() -> Seq<Inst> {
    seq![
        br(comp(CompareCondition::Lt, var("i"@), var("n"@)), "body"@, "exit"@),
    ]
}

/// Instructions of block `body` of function `nested` in `nested_loop`.
pub open spec fn nested_loop_body() -> Seq<Inst> {
    seq![
        st("sq"@, bin(BinaryOp::Mul, var("i"@), var("i"@))),
        st("acc"@, bin(BinaryOp::Add, var("acc"@), var("sq"@))),
        st("i"@, bin(BinaryOp::Add, var("i"@), cst(1))),
        jmp("cond"@),
    ]
}

/// Instructions of block `exit` of function `nested` in `nested_loop`.
pub open spec fn nested_loop_exit() -> Seq<Inst> {
    seq![
        ret(var("acc"@)),
    ]
}

/// Blocks of function `nested` in `nested_loop`.
pub open spec fn nested_loop_blocks(n: i32) -> Seq<BlockModel> {
    seq![
        blk("entry"@, nested_loop_entry(n)),
        blk("cond"@, nested_loop_cond()),
        blk("body"@, nested_loop_body()),
        blk("exit"@, nested_loop_exit()),
    ]
}

/// A loop summing the squares of `0..n`.
pub open spec fn nested_loop(n: i32) -> ModuleModel {
    modl(
        "nested_loop"@,
        seq![
            fun("nested"@, seq![], nested_loop_blocks(n)),
        ],
    )
}

/// Instructions of block `entry` of function `branches` in `branch_heavy`.
pub open spec fn branch_heavy_entry(n: i32) -> Seq<Inst> {
    seq![
        st("i"@, cst(0)),
        st("acc"@, cst(0)),
        st("n"@, cst(n as i64)),
        jmp("cond"@),
    ]
}

/// Instructions of block `cond` of function `branches` in `branch_heavy`.
pub open spec fn branch_heavy_cond() -> Seq<Inst> {
    seq![
        br(comp(CompareCondition::Lt, var("i"@), var("n"@)), "check"@, "exit"@),
    ]
}

/// Instructions of block `check` of function `branches` in `branch_heavy`.
pub open spec fn branch_heavy_check() -> Seq<Inst> {
    seq![
        st("h"@, bin(BinaryOp::Div, var("i"@), cst(2))),
        st("e2"@, bin(BinaryOp::Mul, var("h"@), cst(2))),
        br(comp(CompareCondition::Eq, var("e2"@), var("i"@)), "even"@, "odd"@),
    ]
}

/// Instructions of block `even` of function `branches` in `branch_heavy`.
pub open spec fn branch_heavy_even() -> Seq<Inst> {
    seq![
        st("bump"@, bin(BinaryOp::Mul, var("i"@), cst(1))),
        st("acc"@, bin(BinaryOp::Add, var("acc"@), var("bump"@))),
        jmp("lend"@),
    ]
}

/// Instructions of block `odd` of function `branches` in `branch_heavy`.
pub open spec fn branch_heavy_odd() -> Seq<Inst> {
    seq![
        st("acc"@, bin(BinaryOp::Sub, var("acc"@), var("i"@))),
        jmp("lend"@),
    ]
}

/// Instructions of block `lend` of function `branches` in `branch_heavy`.
pub open spec fn branch_heavy_lend() -> Seq<Inst> {
    seq![
        st("i"@, bin(BinaryOp::Add, var("i"@), cst(1))),
        jmp("cond"@),
    ]
}

/// Instructions of block `exit` of function `branches` in `branch_heavy`.
pub open spec fn branch_heavy_exit() -> Seq<Inst> {
    seq![
        ret(var("acc"@)),
    ]
}

/// Blocks of function `branches` in `branch_heavy`.
pub open spec fn branch_heavy_blocks(n: i32) -> Seq<BlockModel> {
    seq![
        blk("entry"@, branch_heavy_entry(n)),
        blk("cond"@, branch_heavy_cond()),
        blk("check"@, branch_heavy_check()),
        blk("even"@, branch_heavy_even()),
        blk("odd"@, branch_heavy_odd()),
        blk("lend"@, branch_heavy_lend()),
        blk("exit"@, branch_heavy_exit()),
    ]
}

/// A loop adding even and subtracting odd numbers of `0..n`, through a branch per iteration.
pub open spec fn branch_heavy(n: i32) -> ModuleModel {
    modl(
        "branch_heavy"@,
        seq![
            fun("branches"@, seq![], branch_heavy_blocks(n)),
        ],
    )
}

/// Instructions of block `entry` of function `entropy` in `entropy_loop`.
pub open spec fn entropy_loop_entry(n: i32) -> Seq<Inst> {
    seq![
        st("i"@, cst(0)),
        st("total"@, cst(0)),
        st("freq"@, cst(0)),
        st("n"@, cst(n as i64)),
        jmp("cond"@),
    ]
}

/// Instructions of block `cond` of function `entropy` in `entropy_loop`.
pub open spec fn entropy_loop_cond() -> Seq<Inst> {
    seq![
        br(comp(CompareCondition::Lt, var("i"@), var("n"@)), "body"@, "exit"@),
    ]
}

/// Instructions of block `body` of function `entropy` in `entropy_loop`.
pub open spec fn entropy_loop_body() -> Seq<Inst> {
    seq![
        st("sc"@, bin(BinaryOp::Mul, var("i"@), cst(3))),
        st("freq"@, bin(BinaryOp::Add, var("freq"@), var("sc"@))),
        st("d"@, bin(BinaryOp::Add, var("i"@), cst(1))),
        st("term"@, bin(BinaryOp::Div, var("freq"@), var("d"@))),
        st("total"@, bin(BinaryOp::Add, var("total"@), var("term"@))),
        st("i"@, bin(BinaryOp::Add, var("i"@), cst(1))),
        jmp("cond"@),
    ]
}

/// Instructions of block `exit` of function `entropy` in `entropy_loop`.
pub open spec fn entropy_loop_exit() -> Seq<Inst> {
    seq![
        ret(var("total"@)),
    ]
}

/// Blocks of function `entropy` in `entropy_loop`.
pub open spec fn entropy_loop_blocks(n: i32) -> Seq<BlockModel> {
    seq![
        blk("entry"@, entropy_loop_entry(n)),
        blk("cond"@, entropy_loop_cond()),
        blk("body"@, entropy_loop_body()),
        blk("exit"@, entropy_loop_exit()),
    ]
}

/// A loop accumulating running-frequency quotients.
pub open spec fn entropy_loop(n: i32) -> ModuleModel {
    modl(
        "entropy_loop"@,
        seq![
            fun("entropy"@, seq![], entropy_loop_blocks(n)),
        ],
    )
}

/// Instructions of block `entry` of function `array_reduce` in `array_reduce`.
pub open spec fn array_reduce_entry(n: i32) -> Seq<Inst> {
    seq![
        alloca("arr"@, 8),
        st_ptr(gep(var("arr"@), cst(0)), bin(BinaryOp::Mul, cst(1), cst(n as i64))),
        st_ptr(gep(var("arr"@), cst(1)), bin(BinaryOp::Mul, cst(2), cst(n as i64))),
        st_ptr(gep(var("arr"@), cst(2)), bin(BinaryOp::Mul, cst(3), cst(n as i64))),
        st_ptr(gep(var("arr"@), cst(3)), bin(BinaryOp::Mul, cst(4), cst(n as i64))),
        st_ptr(gep(var("arr"@), cst(4)), bin(BinaryOp::Mul, cst(5), cst(n as i64))),
        st_ptr(gep(var("arr"@), cst(5)), bin(BinaryOp::Mul, cst(6), cst(n as i64))),
        st_ptr(gep(var("arr"@), cst(6)), bin(BinaryOp::Mul, cst(7), cst(n as i64))),
        st_ptr(gep(var("arr"@), cst(7)), bin(BinaryOp::Mul, cst(8), cst(n as i64))),
        st("sum"@, cst(0)),
        st("checksum"@, cst(0)),
        st("i"@, cst(0)),
        jmp("cond"@),
    ]
}

/// Instructions of block `cond` of function `array_reduce` in `array_reduce`.
pub open spec fn array_reduce_cond() -> Seq<Inst> {
    seq![
        br(comp(CompareCondition::Lt, var("i"@), cst(8)), "body"@, "exit"@),
    ]
}

/// Instructions of block `body` of function `array_reduce` in `array_reduce`.
pub open spec fn array_reduce_body() -> Seq<Inst> {
    seq![
        st("elem"@, load(gep(var("arr"@), var("i"@)))),
        st("sum"@, bin(BinaryOp::Add, var("sum"@), var("elem"@))),
        st("checksum"@, bin(BinaryOp::Add, var("elem"@), cst(1))),
        st("i"@, bin(BinaryOp::Add, var("i"@), cst(1))),
        jmp("cond"@),
    ]
}

/// Instructions of block `exit` of function `array_reduce` in `array_reduce`.
pub open spec fn array_reduce_exit() -> Seq<Inst> {
    seq![
        ret(var("sum"@)),
    ]
}

/// Blocks of function `array_reduce` in `array_reduce`.
pub open spec fn array_reduce_blocks(n: i32) -> Seq<BlockModel> {
    seq![
        blk("entry"@, array_reduce_entry(n)),
        blk("cond"@, array_reduce_cond()),
        blk("body"@, array_reduce_body()),
        blk("exit"@, array_reduce_exit()),
    ]
}

/// Fills an eight-slot array with `(k + 1) * n` and sums it, beside a checksum that nothing reads.
pub open spec fn array_reduce(n: i32) -> ModuleModel {
    modl(
        "array_reduce"@,
        seq![
            fun("array_reduce"@, seq![], array_reduce_blocks(n)),
        ],
    )
}

/// Instructions of block `entry` of function `accumulate_calls` in `recursive_calls`.
pub open spec fn recursive_calls_accumulate_calls_entry(n: i32) -> Seq<Inst> {
    seq![
        st("total"@, cst(0)),
        st("shadow"@, cst(0)),
        st("i"@, cst(0)),
        st("n"@, cst(n as i64)),
        jmp("cond"@),
    ]
}

/// Instructions of block `cond` of function `accumulate_calls` in `recursive_calls`.
pub open spec fn recursive_calls_accumulate_calls_cond() -> Seq<Inst> {
    seq![
        br(comp(CompareCondition::Lt, var("i"@), var("n"@)), "body"@, "exit"@),
    ]
}

/// Instructions of block `body` of function `accumulate_calls` in `recursive_calls`.
pub open spec fn recursive_calls_accumulate_calls_body() -> Seq<Inst> {
    seq![
        st("c"@, call1("step"@, var("i"@))),
        st("total"@, bin(BinaryOp::Add, var("total"@), var("c"@))),
        st("shadow"@, bin(BinaryOp::Add, var("c"@), cst(1))),
        st("i"@, bin(BinaryOp::Add, var("i"@), cst(1))),
        jmp("cond"@),
    ]
}

/// Instructions of block `exit` of function `accumulate_calls` in `recursive_calls`.
pub open spec fn recursive_calls_accumulate_calls_exit() -> Seq<Inst> {
    seq![
        ret(var("total"@)),
    ]
}

/// Instructions of block `entry` of function `step` in `recursive_calls`.
pub open spec fn recursive_calls_step_entry() -> Seq<Inst> {
    seq![
        ret(bin(BinaryOp::Add, var("x"@), cst(1))),
    ]
}

/// Blocks of function `accumulate_calls` in `recursive_calls`.
pub open spec fn recursive_calls_accumulate_calls_blocks(n: i32) -> Seq<BlockModel> {
    seq![
        blk("entry"@, recursive_calls_accumulate_calls_entry(n)),
        blk("cond"@, recursive_calls_accumulate_calls_cond()),
        blk("body"@, recursive_calls_accumulate_calls_body()),
        blk("exit"@, recursive_calls_accumulate_calls_exit()),
    ]
}

/// Blocks of function `step` in `recursive_calls`.
pub open spec fn recursive_calls_step_blocks() -> Seq<BlockModel> {
    seq![
        blk("entry"@, recursive_calls_step_entry()),
    ]
}

/// A loop adding `step(i)` for `i` in `0..n`, where `step(x) = x + 1`, beside a shadow total that nothing reads.
pub open spec fn recursive_calls(n: i32) -> ModuleModel {
    modl(
        "recursive_calls"@,
        seq![
            fun("accumulate_calls"@, seq![], recursive_calls_accumulate_calls_blocks(n)),
            fun("step"@, seq!["x"@], recursive_calls_step_blocks()),
        ],
    )
}

/// Instructions of block `entry` of function `digital_root` in `digital_root`.
pub open spec fn digital_root_entry(n: i32) -> Seq<Inst> {
    seq![
        st("x"@, cst(n as i64)),
        st("sum"@, cst(0)),
        st("iterations"@, cst(0)),
        jmp("loop"@),
    ]
}

/// Instructions of block `loop` of function `digital_root` in `digital_root`.
pub open spec fn digital_root_loop() -> Seq<Inst> {
    seq![
        br(comp(CompareCondition::Gt, var("x"@), cst(0)), "body"@, "check"@),
    ]
}

/// Instructions of block `check` of function `digital_root` in `digital_root`: done once the
/// digit sum is a single digit.
pub open spec fn digital_root_check() -> Seq<Inst> {
    seq![
        br(comp(CompareCondition::Gt, var("sum"@), cst(9)), "again"@, "exit"@),
    ]
}

/// Instructions of block `again` of function `digital_root` in `digital_root`: the digit sum
/// becomes the number whose digits are summed next.
pub open spec fn digital_root_again() -> Seq<Inst> {
    seq![
        st("x"@, var("sum"@)),
        st("sum"@, cst(0)),
        jmp("loop"@),
    ]
}

/// Instructions of block `body` of function `digital_root` in `digital_root`.
pub open spec fn digital_root_body() -> Seq<Inst> {
    seq![
        st("digit"@, bin(BinaryOp::Sub, var("x"@), bin(BinaryOp::Mul, bin(BinaryOp::Div, var("x"@), cst(10)), cst(10)))),
        st("sum"@, bin(BinaryOp::Add, var("sum"@), var("digit"@))),
        st("x"@, bin(BinaryOp::Div, var("x"@), cst(10))),
        st("iterations"@, bin(BinaryOp::Add, var("iterations"@), cst(1))),
        jmp("loop"@),
    ]
}

/// Instructions of block `exit` of function `digital_root` in `digital_root`.
pub open spec fn digital_root_exit() -> Seq<Inst> {
    seq![
        ret(var("sum"@)),
    ]
}

/// Blocks of function `digital_root` in `digital_root`.
pub open spec fn digital_root_blocks(n: i32) -> Seq<BlockModel> {
    seq![
        blk("entry"@, digital_root_entry(n)),
        blk("loop"@, digital_root_loop()),
        blk("body"@, digital_root_body()),
        blk("check"@, digital_root_check()),
        blk("again"@, digital_root_again()),
        blk("exit"@, digital_root_exit()),
    ]
}

/// The digital root of `n`: its decimal digits summed, again and again until one digit is
/// left, beside an iteration counter that nothing reads.
pub open spec fn digital_root(n: i32) -> ModuleModel {
    modl(
        "digital_root"@,
        seq![
            fun("digital_root"@, seq![], digital_root_blocks(n)),
        ],
    )
}

/// Instructions of block `entry` of function `two_phase` in `two_phase_product`.
pub open spec fn two_phase_product_entry(n: i32) -> Seq<Inst> {
    seq![
        st("a"@, cst(n as i64)),
        st("b"@, cst(3)),
        st("c"@, cst(n as i64)),
        st("d"@, cst(7)),
        st("ab"@, cst(0)),
        st("cd"@, cst(0)),
        st("intermed_sum"@, cst(0)),
        jmp("compute"@),
    ]
}

/// Instructions of block `compute` of function `two_phase` in `two_phase_product`.
pub open spec fn two_phase_product_compute() -> Seq<Inst> {
    seq![
        st("ab"@, bin(BinaryOp::Mul, var("a"@), var("b"@))),
        st("cd"@, bin(BinaryOp::Mul, var("c"@), var("d"@))),
        st("intermed_sum"@, bin(BinaryOp::Add, var("ab"@), var("cd"@))),
        ret(bin(BinaryOp::Add, var("ab"@), var("cd"@))),
    ]
}

/// Blocks of function `two_phase` in `two_phase_product`.
pub open spec fn two_phase_product_blocks(n: i32) -> Seq<BlockModel> {
    seq![
        blk("entry"@, two_phase_product_entry(n)),
        blk("compute"@, two_phase_product_compute()),
    ]
}

/// Computes `n * 3 + n * 7` through two products and a sum that nothing reads.
pub open spec fn two_phase_product(n: i32) -> ModuleModel {
    modl(
        "two_phase_product"@,
        seq![
            fun("two_phase"@, seq![], two_phase_product_blocks(n)),
        ],
    )
}

/// Instructions of block `entry` of function `triangle` in `triangle`.
pub open spec fn triangle_numbers_entry(n: i32) -> Seq<Inst> {
    seq![
        st("i"@, cst(0)),
        st("sum"@, cst(0)),
        st("n"@, cst(n as i64)),
        st("inner_iters"@, cst(0)),
        jmp("outer_cond"@),
    ]
}

/// Instructions of block `outer_cond` of function `triangle` in `triangle`.
pub open spec fn triangle_numbers_outer_cond() -> Seq<Inst> {
    seq![
        br(comp(CompareCondition::Lt, var("i"@), var("n"@)), "outer_body"@, "exit"@),
    ]
}

/// Instructions of block `outer_body` of function `triangle` in `triangle`.
pub open spec fn triangle_numbers_outer_body() -> Seq<Inst> {
    seq![
        st("j"@, cst(0)),
        jmp("inner_cond"@),
    ]
}

/// Instructions of block `inner_cond` of function `triangle` in `triangle`.
pub open spec fn triangle_numbers_inner_cond() -> Seq<Inst> {
    seq![
        br(comp(CompareCondition::Lt, var("j"@), bin(BinaryOp::Add, var("i"@), cst(1))), "inner_body"@, "outer_next"@),
    ]
}

/// Instructions of block `inner_body` of function `triangle` in `triangle`.
pub open spec fn triangle_numbers_inner_body() -> Seq<Inst> {
    seq![
        st("sum"@, bin(BinaryOp::Add, var("sum"@), var("j"@))),
        st("inner_iters"@, bin(BinaryOp::Add, var("inner_iters"@), cst(1))),
        st("j"@, bin(BinaryOp::Add, var("j"@), cst(1))),
        jmp("inner_cond"@),
    ]
}

/// Instructions of block `outer_next` of function `triangle` in `triangle`.
pub open spec fn triangle_numbers_outer_next() -> Seq<Inst> {
    seq![
        st("i"@, bin(BinaryOp::Add, var("i"@), cst(1))),
        jmp("outer_cond"@),
    ]
}

/// Instructions of block `exit` of function `triangle` in `triangle`.
pub open spec fn triangle_numbers_exit() -> Seq<Inst> {
    seq![
        ret(var("sum"@)),
    ]
}

/// Blocks of function `triangle` in `triangle`.
pub open spec fn triangle_numbers_blocks(n: i32) -> Seq<BlockModel> {
    seq![
        blk("entry"@, triangle_numbers_entry(n)),
        blk("outer_cond"@, triangle_numbers_outer_cond()),
        blk("outer_body"@, triangle_numbers_outer_body()),
        blk("inner_cond"@, triangle_numbers_inner_cond()),
        blk("inner_body"@, triangle_numbers_inner_body()),
        blk("outer_next"@, triangle_numbers_outer_next()),
        blk("exit"@, triangle_numbers_exit()),
    ]
}

/// Two nested loops summing `j` for `j <= i < n`, beside an inner counter that nothing reads.
pub open spec fn triangle_numbers(n: i32) -> ModuleModel {
    modl(
        "triangle"@,
        seq![
            fun("triangle"@, seq![], triangle_numbers_blocks(n)),
        ],
    )
}

/// Instructions of block `entry` of function `factorial` in `factorial_memo`.
pub open spec fn factorial_memo_factorial_entry(n: i32) -> Seq<Inst> {
    seq![
        alloca("memo"@, memo_size(n)),
        st("memo_base"@, var("memo"@)),
        st("i"@, cst(1)),
        st("n"@, cst(at_least(n, 1) as i64)),
        st_ptr(gep(var("memo"@), cst(0)), cst(1)),
        jmp("cond"@),
    ]
}

/// Instructions of block `cond` of function `factorial` in `factorial_memo`.
pub open spec fn factorial_memo_factorial_cond() -> Seq<Inst> {
    seq![
        br(comp(CompareCondition::Lt, var("i"@), bin(BinaryOp::Add, var("n"@), cst(1))), "body"@, "exit"@),
    ]
}

/// Instructions of block `body` of function `factorial` in `factorial_memo`.
pub open spec fn factorial_memo_factorial_body() -> Seq<Inst> {
    seq![
        st("idx"@, bin(BinaryOp::Sub, var("i"@), cst(1))),
        st("fact"@, bin(BinaryOp::Mul, load(bin(BinaryOp::Add, var("memo"@), var("idx"@))), var("i"@))),
        st_ptr(bin(BinaryOp::Add, var("memo"@), var("i"@)), var("fact"@)),
        st("checksum"@, var("fact"@)),
        st("i"@, bin(BinaryOp::Add, var("i"@), cst(1))),
        jmp("cond"@),
    ]
}

/// Instructions of block `exit` of function `factorial` in `factorial_memo`.
pub open spec fn factorial_memo_factorial_exit() -> Seq<Inst> {
    seq![
        ret(load(bin(BinaryOp::Add, var("memo"@), var("n"@)))),
    ]
}

/// Instructions of block `entry` of function `step` in `factorial_memo`.
pub open spec fn factorial_memo_step_entry() -> Seq<Inst> {
    seq![
        ret(bin(BinaryOp::Add, var("x"@), cst(1))),
    ]
}

/// Blocks of function `factorial` in `factorial_memo`.
pub open spec fn factorial_memo_factorial_blocks(n: i32) -> Seq<BlockModel> {
    seq![
        blk("entry"@, factorial_memo_factorial_entry(n)),
        blk("cond"@, factorial_memo_factorial_cond()),
        blk("body"@, factorial_memo_factorial_body()),
        blk("exit"@, factorial_memo_factorial_exit()),
    ]
}

/// Blocks of function `step` in `factorial_memo`.
pub open spec fn factorial_memo_step_blocks() -> Seq<BlockModel> {
    seq![
        blk("entry"@, factorial_memo_step_entry()),
    ]
}

/// Factorials of `1..=max(n, 1)` kept in a memo table, the last returned; beside a `step` helper.
pub open spec fn factorial_memo(n: i32) -> ModuleModel {
    modl(
        "factorial_memo"@,
        seq![
            fun("factorial"@, seq![], factorial_memo_factorial_blocks(n)),
            fun("step"@, seq!["x"@], factorial_memo_step_blocks()),
        ],
    )
}

/// Instructions of block `entry` of function `gcd` in `gcd_euclidean`.
pub open spec fn gcd_euclidean_entry(n: i32) -> Seq<Inst> {
    seq![
        st("a"@, cst((gcd_seed(n) * 2) as i64)),
        st("b"@, cst(gcd_seed(n))),
        st("iters"@, cst(0)),
        jmp("loop"@),
    ]
}

/// Instructions of block `loop` of function `gcd` in `gcd_euclidean`.
pub open spec fn gcd_euclidean_loop() -> Seq<Inst> {
    seq![
        br(comp(CompareCondition::Ne, var("b"@), cst(0)), "body"@, "exit"@),
    ]
}

/// Instructions of block `body` of function `gcd` in `gcd_euclidean`.
pub open spec fn gcd_euclidean_body() -> Seq<Inst> {
    seq![
        st("temp"@, bin(BinaryOp::Sub, var("a"@), bin(BinaryOp::Mul, bin(BinaryOp::Div, var("a"@), var("b"@)), var("b"@)))),
        st("a"@, var("b"@)),
        st("b"@, var("temp"@)),
        st("iters"@, bin(BinaryOp::Add, var("iters"@), cst(1))),
        jmp("loop"@),
    ]
}

/// Instructions of block `exit` of function `gcd` in `gcd_euclidean`.
pub open spec fn gcd_euclidean_exit() -> Seq<Inst> {
    seq![
        ret(var("a"@)),
    ]
}

/// Blocks of function `gcd` in `gcd_euclidean`.
pub open spec fn gcd_euclidean_blocks(n: i32) -> Seq<BlockModel> {
    seq![
        blk("entry"@, gcd_euclidean_entry(n)),
        blk("loop"@, gcd_euclidean_loop()),
        blk("body"@, gcd_euclidean_body()),
        blk("exit"@, gcd_euclidean_exit()),
    ]
}

/// Euclid's algorithm on `2m` and `m` for `m = max(n, 10)`, beside a counter that nothing reads.
pub open spec fn gcd_euclidean(n: i32) -> ModuleModel {
    modl(
        "gcd_euclidean"@,
        seq![
            fun("gcd"@, seq![], gcd_euclidean_blocks(n)),
        ],
    )
}

/// Instructions of block `entry` of function `main` in `call_chain`.
pub open spec fn call_chain_main_entry(n: i32) -> Seq<Inst> {
    seq![
        st("v"@, cst(n as i64)),
        st("t1"@, call1("mul"@, var("v"@))),
        jmp("call2"@),
    ]
}

/// Instructions of block `call2` of function `main` in `call_chain`.
pub open spec fn call_chain_main_call2() -> Seq<Inst> {
    seq![
        st("result"@, call1("add"@, var("t1"@))),
        st("shadow_result"@, bin(BinaryOp::Add, var("t1"@), cst(1))),
        ret(var("result"@)),
    ]
}

/// Instructions of block `entry` of function `add` in `call_chain`.
pub open spec fn call_chain_add_entry() -> Seq<Inst> {
    seq![
        ret(bin(BinaryOp::Add, var("x"@), cst(1))),
    ]
}

/// Instructions of block `entry` of function `mul` in `call_chain`.
pub open spec fn call_chain_mul_entry() -> Seq<Inst> {
    seq![
        ret(bin(BinaryOp::Mul, var("x"@), cst(2))),
    ]
}

/// Blocks of function `main` in `call_chain`.
pub open spec fn call_chain_main_blocks(n: i32) -> Seq<BlockModel> {
    seq![
        blk("entry"@, call_chain_main_entry(n)),
        blk("call2"@, call_chain_main_call2()),
    ]
}

/// Blocks of function `add` in `call_chain`.
pub open spec fn call_chain_add_blocks() -> Seq<BlockModel> {
    seq![
        blk("entry"@, call_chain_add_entry()),
    ]
}

/// Blocks of function `mul` in `call_chain`.
pub open spec fn call_chain_mul_blocks() -> Seq<BlockModel> {
    seq![
        blk("entry"@, call_chain_mul_entry()),
    ]
}

/// Computes `add(mul(n))` through calls, where `add(x) = x + 1` and `mul(x) = x * 2`.
pub open spec fn call_chain(n: i32) -> ModuleModel {
    modl(
        "call_chain"@,
        seq![
            fun("main"@, seq![], call_chain_main_blocks(n)),
            fun("add"@, seq!["x"@], call_chain_add_blocks()),
            fun("mul"@, seq!["x"@], call_chain_mul_blocks()),
        ],
    )
}

/// Instructions of block `entry` of function `complex` in `complex_expr`.
pub open spec fn complex_expr_entry(n: i32) -> Seq<Inst> {
    seq![
        st("a"@, cst(n as i64)),
        st("b"@, cst(2)),
        st("c"@, cst(n as i64)),
        st("d"@, cst(3)),
        st("e"@, cst(n as i64)),
        st("f"@, cst(1)),
        st("g"@, cst(n as i64)),
        st("h"@, cst(4)),
        st("ab"@, bin(BinaryOp::Mul, var("a"@), var("b"@))),
        st("cd"@, bin(BinaryOp::Mul, var("c"@), var("d"@))),
        st("ef"@, bin(BinaryOp::Mul, var("e"@), var("f"@))),
        st("gh"@, bin(BinaryOp::Mul, var("g"@), var("h"@))),
        st("left_sum"@, bin(BinaryOp::Add, var("ab"@), var("cd"@))),
        st("right_sum"@, bin(BinaryOp::Add, var("ef"@), var("gh"@))),
        ret(bin(BinaryOp::Sub, bin(BinaryOp::Add, var("ab"@), var("cd"@)), bin(BinaryOp::Add, var("ef"@), var("gh"@)))),
    ]
}

/// Blocks of function `complex` in `complex_expr`.
pub open spec fn complex_expr_blocks(n: i32) -> Seq<BlockModel> {
    seq![
        blk("entry"@, complex_expr_entry(n)),
    ]
}

/// Computes `(a*b + c*d) - (e*f + g*h)` in one block, beside partial sums that nothing reads.
pub open spec fn complex_expr(n: i32) -> ModuleModel {
    modl(
        "complex_expr"@,
        seq![
            fun("complex"@, seq![], complex_expr_blocks(n)),
        ],
    )
}

/// Instructions of block `entry` of function `multi` in `multi_exit`.
pub open spec fn multi_exit_entry(n: i32) -> Seq<Inst> {
    seq![
        st("x"@, cst(n as i64)),
        st("track_a"@, cst(0)),
        st("track_b"@, cst(0)),
        jmp("cond"@),
    ]
}

/// Instructions of block `cond` of function `multi` in `multi_exit`.
pub open spec fn multi_exit_cond() -> Seq<Inst> {
    seq![
        br(comp(CompareCondition::Gt, var("x"@), cst(0)), "path_a"@, "path_b"@),
    ]
}

/// Instructions of block `path_a` of function `multi` in `multi_exit`.
pub open spec fn multi_exit_path_a() -> Seq<Inst> {
    seq![
        st("track_a"@, bin(BinaryOp::Add, var("x"@), cst(10))),
        st("a_temp"@, cst(999)),
        ret(var("x"@)),
    ]
}

/// Instructions of block `path_b` of function `multi` in `multi_exit`.
pub open spec fn multi_exit_path_b(n: i32) -> Seq<Inst> {
    seq![
        st("track_b"@, bin(BinaryOp::Sub, var("x"@), cst(5))),
        st("b_temp"@, cst(999)),
        ret(cst((-n) as i64)),
    ]
}

/// Blocks of function `multi` in `multi_exit`.
pub open spec fn multi_exit_blocks(n: i32) -> Seq<BlockModel> {
    seq![
        blk("entry"@, multi_exit_entry(n)),
        blk("cond"@, multi_exit_cond()),
        blk("path_a"@, multi_exit_path_a()),
        blk("path_b"@, multi_exit_path_b(n)),
    ]
}

/// Returns `n` when it is positive and `-n` otherwise, through two exits with stores that nothing reads.
pub open spec fn multi_exit(n: i32) -> ModuleModel {
    modl(
        "multi_exit"@,
        seq![
            fun("multi"@, seq![], multi_exit_blocks(n)),
        ],
    )
}

/// The summing loop with a per-iteration product and an accumulator that nothing reads.
pub fn build_simple_sum(n: i32) -> (r: Module)
    ensures
        r@ == simple_sum(n),
{
    let sum_entry = mk_blk(
        "entry",
        vec![
            mk_st("i", mk_cst(0)),
            mk_st("acc", mk_cst(0)),
            mk_st("trace", mk_cst(0)),
            mk_st("n", mk_cst(n as i64)),
            mk_jmp("cond"),
        ],
        Ghost(simple_sum_entry(n)),
    );
    let sum_cond = mk_blk(
        "cond",
        vec![
            mk_br(mk_comp(CompareCondition::Lt, mk_var("i"), mk_var("n")), "body", "exit"),
        ],
        Ghost(simple_sum_cond()),
    );
    let sum_body = mk_blk(
        "body",
        vec![
            mk_st("t", mk_bin(BinaryOp::Mul, mk_var("i"), mk_cst(3))),
            mk_st("acc", mk_bin(BinaryOp::Add, mk_var("acc"), mk_var("t"))),
            mk_st("trace", mk_bin(BinaryOp::Mul, mk_var("t"), mk_cst(2))),
            mk_st("i", mk_bin(BinaryOp::Add, mk_var("i"), mk_cst(1))),
            mk_jmp("cond"),
        ],
        Ghost(simple_sum_body()),
    );
    let sum_exit = mk_blk(
        "exit",
        vec![
            mk_ret(mk_var("acc")),
        ],
        Ghost(simple_sum_exit()),
    );
    let f_sum = mk_fun(
        "sum",
        Vec::new(),
        vec![sum_entry, sum_cond, sum_body, sum_exit],
        Ghost(Seq::empty()),
        Ghost(simple_sum_blocks(n)),
    );
    mk_modl("simple_sum", vec![f_sum], Ghost(simple_sum(n).functions))
}

/// Iterative Fibonacci with a constant that only propagation and folding together reveal, feeding a dead accumulator.
pub fn build_fib_loop(n: i32) -> (r: Module)
    ensures
        r@ == fib_loop(n),
{
    let fib_entry = mk_blk(
        "entry",
        vec![
            mk_st("a", mk_cst(0)),
            mk_st("b", mk_cst(1)),
            mk_st("i", mk_cst(0)),
            mk_st("n", mk_cst(n as i64)),
            mk_st("k", mk_cst(5)),
            mk_st("salt", mk_bin(BinaryOp::Add, mk_var("k"), mk_cst(3))),
            mk_st("parity_track", mk_cst(0)),
            mk_jmp("cond"),
        ],
        Ghost(fib_loop_entry(n)),
    );
    let fib_cond = mk_blk(
        "cond",
        vec![
            mk_br(mk_comp(CompareCondition::Lt, mk_var("i"), mk_var("n")), "body", "exit"),
        ],
        Ghost(fib_loop_cond()),
    );
    let fib_body = mk_blk(
        "body",
        vec![
            mk_st("tmp", mk_bin(BinaryOp::Add, mk_var("a"), mk_var("b"))),
            mk_st("a", mk_var("b")),
            mk_st("b", mk_var("tmp")),
            mk_st("parity_track", mk_bin(BinaryOp::Add, mk_var("parity_track"), mk_var("salt"))),
            mk_st("i", mk_bin(BinaryOp::Add, mk_var("i"), mk_cst(1))),
            mk_jmp("cond"),
        ],
        Ghost(fib_loop_body()),
    );
    let fib_exit = mk_blk(
        "exit",
        vec![
            mk_ret(mk_var("b")),
        ],
        Ghost(fib_loop_exit()),
    );
    let f_fib = mk_fun(
        "fib",
        Vec::new(),
        vec![fib_entry, fib_cond, fib_body, fib_exit],
        Ghost(Seq::empty()),
        Ghost(fib_loop_blocks(n)),
    );
    mk_modl("fib_loop", vec![f_fib], Ghost(fib_loop(n).functions))
}

/// A loop summing the squares of `0..n`.
pub fn build_nested_loop(n: i32) -> (r: Module)
    ensures
        r@ == nested_loop(n),
{
    let nested_entry = mk_blk(
        "entry",
        vec![
            mk_st("i", mk_cst(0)),
            mk_st("acc", mk_cst(0)),
            mk_st("n", mk_cst(n as i64)),
            mk_jmp("cond"),
        ],
        Ghost(nested_loop_entry(n)),
    );
    let nested_cond = mk_blk(
        "cond",
        vec![
            mk_br(mk_comp(CompareCondition::Lt, mk_var("i"), mk_var("n")), "body", "exit"),
        ],
        Ghost(nested_loop_cond()),
    );
    let nested_body = mk_blk(
        "body",
        vec![
            mk_st("sq", mk_bin(BinaryOp::Mul, mk_var("i"), mk_var("i"))),
            mk_st("acc", mk_bin(BinaryOp::Add, mk_var("acc"), mk_var("sq"))),
            mk_st("i", mk_bin(BinaryOp::Add, mk_var("i"), mk_cst(1))),
            mk_jmp("cond"),
        ],
        Ghost(nested_loop_body()),
    );
    let nested_exit = mk_blk(
        "exit",
        vec![
            mk_ret(mk_var("acc")),
        ],
        Ghost(nested_loop_exit()),
    );
    let f_nested = mk_fun(
        "nested",
        Vec::new(),
        vec![nested_entry, nested_cond, nested_body, nested_exit],
        Ghost(Seq::empty()),
        Ghost(nested_loop_blocks(n)),
    );
    mk_modl("nested_loop", vec![f_nested], Ghost(nested_loop(n).functions))
}

/// A loop adding even and subtracting odd numbers of `0..n`, through a branch per iteration.
pub fn build_branch_heavy(n: i32) -> (r: Module)
    ensures
        r@ == branch_heavy(n),
{
    let branches_entry = mk_blk(
        "entry",
        vec![
            mk_st("i", mk_cst(0)),
            mk_st("acc", mk_cst(0)),
            mk_st("n", mk_cst(n as i64)),
            mk_jmp("cond"),
        ],
        Ghost(branch_heavy_entry(n)),
    );
    let branches_cond = mk_blk(
        "cond",
        vec![
            mk_br(mk_comp(CompareCondition::Lt, mk_var("i"), mk_var("n")), "check", "exit"),
        ],
        Ghost(branch_heavy_cond()),
    );
    let branches_check = mk_blk(
        "check",
        vec![
            mk_st("h", mk_bin(BinaryOp::Div, mk_var("i"), mk_cst(2))),
            mk_st("e2", mk_bin(BinaryOp::Mul, mk_var("h"), mk_cst(2))),
            mk_br(mk_comp(CompareCondition::Eq, mk_var("e2"), mk_var("i")), "even", "odd"),
        ],
        Ghost(branch_heavy_check()),
    );
    let branches_even = mk_blk(
        "even",
        vec![
            mk_st("bump", mk_bin(BinaryOp::Mul, mk_var("i"), mk_cst(1))),
            mk_st("acc", mk_bin(BinaryOp::Add, mk_var("acc"), mk_var("bump"))),
            mk_jmp("lend"),
        ],
        Ghost(branch_heavy_even()),
    );
    let branches_odd = mk_blk(
        "odd",
        vec![
            mk_st("acc", mk_bin(BinaryOp::Sub, mk_var("acc"), mk_var("i"))),
            mk_jmp("lend"),
        ],
        Ghost(branch_heavy_odd()),
    );
    let branches_lend = mk_blk(
        "lend",
        vec![
            mk_st("i", mk_bin(BinaryOp::Add, mk_var("i"), mk_cst(1))),
            mk_jmp("cond"),
        ],
        Ghost(branch_heavy_lend()),
    );
    let branches_exit = mk_blk(
        "exit",
        vec![
            mk_ret(mk_var("acc")),
        ],
        Ghost(branch_heavy_exit()),
    );
    let f_branches = mk_fun(
        "branches",
        Vec::new(),
        vec![branches_entry, branches_cond, branches_check, branches_even, branches_odd, branches_lend, branches_exit],
        Ghost(Seq::empty()),
        Ghost(branch_heavy_blocks(n)),
    );
    mk_modl("branch_heavy", vec![f_branches], Ghost(branch_heavy(n).functions))
}

/// A loop accumulating running-frequency quotients.
pub fn build_entropy_loop(n: i32) -> (r: Module)
    ensures
        r@ == entropy_loop(n),
{
    let entropy_entry = mk_blk(
        "entry",
        vec![
            mk_st("i", mk_cst(0)),
            mk_st("total", mk_cst(0)),
            mk_st("freq", mk_cst(0)),
            mk_st("n", mk_cst(n as i64)),
            mk_jmp("cond"),
        ],
        Ghost(entropy_loop_entry(n)),
    );
    let entropy_cond = mk_blk(
        "cond",
        vec![
            mk_br(mk_comp(CompareCondition::Lt, mk_var("i"), mk_var("n")), "body", "exit"),
        ],
        Ghost(entropy_loop_cond()),
    );
    let entropy_body = mk_blk(
        "body",
        vec![
            mk_st("sc", mk_bin(BinaryOp::Mul, mk_var("i"), mk_cst(3))),
            mk_st("freq", mk_bin(BinaryOp::Add, mk_var("freq"), mk_var("sc"))),
            mk_st("d", mk_bin(BinaryOp::Add, mk_var("i"), mk_cst(1))),
            mk_st("term", mk_bin(BinaryOp::Div, mk_var("freq"), mk_var("d"))),
            mk_st("total", mk_bin(BinaryOp::Add, mk_var("total"), mk_var("term"))),
            mk_st("i", mk_bin(BinaryOp::Add, mk_var("i"), mk_cst(1))),
            mk_jmp("cond"),
        ],
        Ghost(entropy_loop_body()),
    );
    let entropy_exit = mk_blk(
        "exit",
        vec![
            mk_ret(mk_var("total")),
        ],
        Ghost(entropy_loop_exit()),
    );
    let f_entropy = mk_fun(
        "entropy",
        Vec::new(),
        vec![entropy_entry, entropy_cond, entropy_body, entropy_exit],
        Ghost(Seq::empty()),
        Ghost(entropy_loop_blocks(n)),
    );
    mk_modl("entropy_loop", vec![f_entropy], Ghost(entropy_loop(n).functions))
}

/// Fills an eight-slot array with `(k + 1) * n` and sums it, beside a checksum that nothing reads.
pub fn build_array_reduce(n: i32) -> (r: Module)
    ensures
        r@ == array_reduce(n),
{
    let array_reduce_entry = mk_blk(
        "entry",
        vec![
            mk_alloca("arr", 8),
            mk_st_ptr(mk_gep(mk_var("arr"), mk_cst(0)), mk_bin(BinaryOp::Mul, mk_cst(1), mk_cst(n as i64))),
            mk_st_ptr(mk_gep(mk_var("arr"), mk_cst(1)), mk_bin(BinaryOp::Mul, mk_cst(2), mk_cst(n as i64))),
            mk_st_ptr(mk_gep(mk_var("arr"), mk_cst(2)), mk_bin(BinaryOp::Mul, mk_cst(3), mk_cst(n as i64))),
            mk_st_ptr(mk_gep(mk_var("arr"), mk_cst(3)), mk_bin(BinaryOp::Mul, mk_cst(4), mk_cst(n as i64))),
            mk_st_ptr(mk_gep(mk_var("arr"), mk_cst(4)), mk_bin(BinaryOp::Mul, mk_cst(5), mk_cst(n as i64))),
            mk_st_ptr(mk_gep(mk_var("arr"), mk_cst(5)), mk_bin(BinaryOp::Mul, mk_cst(6), mk_cst(n as i64))),
            mk_st_ptr(mk_gep(mk_var("arr"), mk_cst(6)), mk_bin(BinaryOp::Mul, mk_cst(7), mk_cst(n as i64))),
            mk_st_ptr(mk_gep(mk_var("arr"), mk_cst(7)), mk_bin(BinaryOp::Mul, mk_cst(8), mk_cst(n as i64))),
            mk_st("sum", mk_cst(0)),
            mk_st("checksum", mk_cst(0)),
            mk_st("i", mk_cst(0)),
            mk_jmp("cond"),
        ],
        Ghost(array_reduce_entry(n)),
    );
    let array_reduce_cond = mk_blk(
        "cond",
        vec![
            mk_br(mk_comp(CompareCondition::Lt, mk_var("i"), mk_cst(8)), "body", "exit"),
        ],
        Ghost(array_reduce_cond()),
    );
    let array_reduce_body = mk_blk(
        "body",
        vec![
            mk_st("elem", mk_load(mk_gep(mk_var("arr"), mk_var("i")))),
            mk_st("sum", mk_bin(BinaryOp::Add, mk_var("sum"), mk_var("elem"))),
            mk_st("checksum", mk_bin(BinaryOp::Add, mk_var("elem"), mk_cst(1))),
            mk_st("i", mk_bin(BinaryOp::Add, mk_var("i"), mk_cst(1))),
            mk_jmp("cond"),
        ],
        Ghost(array_reduce_body()),
    );
    let array_reduce_exit = mk_blk(
        "exit",
        vec![
            mk_ret(mk_var("sum")),
        ],
        Ghost(array_reduce_exit()),
    );
    let f_array_reduce = mk_fun(
        "array_reduce",
        Vec::new(),
        vec![array_reduce_entry, array_reduce_cond, array_reduce_body, array_reduce_exit],
        Ghost(Seq::empty()),
        Ghost(array_reduce_blocks(n)),
    );
    mk_modl("array_reduce", vec![f_array_reduce], Ghost(array_reduce(n).functions))
}

/// A loop adding `step(i)` for `i` in `0..n`, where `step(x) = x + 1`, beside a shadow total that nothing reads.
pub fn build_recursive_calls(n: i32) -> (r: Module)
    ensures
        r@ == recursive_calls(n),
{
    let accumulate_calls_entry = mk_blk(
        "entry",
        vec![
            mk_st("total", mk_cst(0)),
            mk_st("shadow", mk_cst(0)),
            mk_st("i", mk_cst(0)),
            mk_st("n", mk_cst(n as i64)),
            mk_jmp("cond"),
        ],
        Ghost(recursive_calls_accumulate_calls_entry(n)),
    );
    let accumulate_calls_cond = mk_blk(
        "cond",
        vec![
            mk_br(mk_comp(CompareCondition::Lt, mk_var("i"), mk_var("n")), "body", "exit"),
        ],
        Ghost(recursive_calls_accumulate_calls_cond()),
    );
    let accumulate_calls_body = mk_blk(
        "body",
        vec![
            mk_st("c", mk_call1("step", mk_var("i"))),
            mk_st("total", mk_bin(BinaryOp::Add, mk_var("total"), mk_var("c"))),
            mk_st("shadow", mk_bin(BinaryOp::Add, mk_var("c"), mk_cst(1))),
            mk_st("i", mk_bin(BinaryOp::Add, mk_var("i"), mk_cst(1))),
            mk_jmp("cond"),
        ],
        Ghost(recursive_calls_accumulate_calls_body()),
    );
    let accumulate_calls_exit = mk_blk(
        "exit",
        vec![
            mk_ret(mk_var("total")),
        ],
        Ghost(recursive_calls_accumulate_calls_exit()),
    );
    let f_accumulate_calls = mk_fun(
        "accumulate_calls",
        Vec::new(),
        vec![accumulate_calls_entry, accumulate_calls_cond, accumulate_calls_body, accumulate_calls_exit],
        Ghost(Seq::empty()),
        Ghost(recursive_calls_accumulate_calls_blocks(n)),
    );
    let step_entry = mk_blk(
        "entry",
        vec![
            mk_ret(mk_bin(BinaryOp::Add, mk_var("x"), mk_cst(1))),
        ],
        Ghost(recursive_calls_step_entry()),
    );
    let f_step = mk_fun(
        "step",
        vec![string_of("x")],
        vec![step_entry],
        Ghost(one_param("x"@)),
        Ghost(recursive_calls_step_blocks()),
    );
    mk_modl("recursive_calls", vec![f_accumulate_calls, f_step], Ghost(recursive_calls(n).functions))
}

/// The digital root of `n`: its decimal digits summed, again and again until one digit is
/// left, beside an iteration counter that nothing reads.
pub fn build_digital_root(n: i32) -> (r: Module)
    ensures
        r@ == digital_root(n),
{
    let digital_root_entry = mk_blk(
        "entry",
        vec![
            mk_st("x", mk_cst(n as i64)),
            mk_st("sum", mk_cst(0)),
            mk_st("iterations", mk_cst(0)),
            mk_jmp("loop"),
        ],
        Ghost(digital_root_entry(n)),
    );
    let digital_root_loop = mk_blk(
        "loop",
        vec![
            mk_br(mk_comp(CompareCondition::Gt, mk_var("x"), mk_cst(0)), "body", "check"),
        ],
        Ghost(digital_root_loop()),
    );
    let digital_root_check = mk_blk(
        "check",
        vec![
            mk_br(mk_comp(CompareCondition::Gt, mk_var("sum"), mk_cst(9)), "again", "exit"),
        ],
        Ghost(digital_root_check()),
    );
    let digital_root_again = mk_blk(
        "again",
        vec![
            mk_st("x", mk_var("sum")),
            mk_st("sum", mk_cst(0)),
            mk_jmp("loop"),
        ],
        Ghost(digital_root_again()),
    );
    let digital_root_body = mk_blk(
        "body",
        vec![
            mk_st("digit", mk_bin(BinaryOp::Sub, mk_var("x"), mk_bin(BinaryOp::Mul, mk_bin(BinaryOp::Div, mk_var("x"), mk_cst(10)), mk_cst(10)))),
            mk_st("sum", mk_bin(BinaryOp::Add, mk_var("sum"), mk_var("digit"))),
            mk_st("x", mk_bin(BinaryOp::Div, mk_var("x"), mk_cst(10))),
            mk_st("iterations", mk_bin(BinaryOp::Add, mk_var("iterations"), mk_cst(1))),
            mk_jmp("loop"),
        ],
        Ghost(digital_root_body()),
    );
    let digital_root_exit = mk_blk(
        "exit",
        vec![
            mk_ret(mk_var("sum")),
        ],
        Ghost(digital_root_exit()),
    );
    let f_digital_root = mk_fun(
        "digital_root",
        Vec::new(),
        vec![
            digital_root_entry,
            digital_root_loop,
            digital_root_body,
            digital_root_check,
            digital_root_again,
            digital_root_exit,
        ],
        Ghost(Seq::empty()),
        Ghost(digital_root_blocks(n)),
    );
    mk_modl("digital_root", vec![f_digital_root], Ghost(digital_root(n).functions))
}

/// Computes `n * 3 + n * 7` through two products and a sum that nothing reads.
pub fn build_two_phase_product(n: i32) -> (r: Module)
    ensures
        r@ == two_phase_product(n),
{
    let two_phase_entry = mk_blk(
        "entry",
        vec![
            mk_st("a", mk_cst(n as i64)),
            mk_st("b", mk_cst(3)),
            mk_st("c", mk_cst(n as i64)),
            mk_st("d", mk_cst(7)),
            mk_st("ab", mk_cst(0)),
            mk_st("cd", mk_cst(0)),
            mk_st("intermed_sum", mk_cst(0)),
            mk_jmp("compute"),
        ],
        Ghost(two_phase_product_entry(n)),
    );
    let two_phase_compute = mk_blk(
        "compute",
        vec![
            mk_st("ab", mk_bin(BinaryOp::Mul, mk_var("a"), mk_var("b"))),
            mk_st("cd", mk_bin(BinaryOp::Mul, mk_var("c"), mk_var("d"))),
            mk_st("intermed_sum", mk_bin(BinaryOp::Add, mk_var("ab"), mk_var("cd"))),
            mk_ret(mk_bin(BinaryOp::Add, mk_var("ab"), mk_var("cd"))),
        ],
        Ghost(two_phase_product_compute()),
    );
    let f_two_phase = mk_fun(
        "two_phase",
        Vec::new(),
        vec![two_phase_entry, two_phase_compute],
        Ghost(Seq::empty()),
        Ghost(two_phase_product_blocks(n)),
    );
    mk_modl("two_phase_product", vec![f_two_phase], Ghost(two_phase_product(n).functions))
}

/// Two nested loops summing `j` for `j <= i < n`, beside an inner counter that nothing reads.
pub fn build_triangle_numbers(n: i32) -> (r: Module)
    ensures
        r@ == triangle_numbers(n),
{
    let triangle_entry = mk_blk(
        "entry",
        vec![
            mk_st("i", mk_cst(0)),
            mk_st("sum", mk_cst(0)),
            mk_st("n", mk_cst(n as i64)),
            mk_st("inner_iters", mk_cst(0)),
            mk_jmp("outer_cond"),
        ],
        Ghost(triangle_numbers_entry(n)),
    );
    let triangle_outer_cond = mk_blk(
        "outer_cond",
        vec![
            mk_br(mk_comp(CompareCondition::Lt, mk_var("i"), mk_var("n")), "outer_body", "exit"),
        ],
        Ghost(triangle_numbers_outer_cond()),
    );
    let triangle_outer_body = mk_blk(
        "outer_body",
        vec![
            mk_st("j", mk_cst(0)),
            mk_jmp("inner_cond"),
        ],
        Ghost(triangle_numbers_outer_body()),
    );
    let triangle_inner_cond = mk_blk(
        "inner_cond",
        vec![
            mk_br(mk_comp(CompareCondition::Lt, mk_var("j"), mk_bin(BinaryOp::Add, mk_var("i"), mk_cst(1))), "inner_body", "outer_next"),
        ],
        Ghost(triangle_numbers_inner_cond()),
    );
    let triangle_inner_body = mk_blk(
        "inner_body",
        vec![
            mk_st("sum", mk_bin(BinaryOp::Add, mk_var("sum"), mk_var("j"))),
            mk_st("inner_iters", mk_bin(BinaryOp::Add, mk_var("inner_iters"), mk_cst(1))),
            mk_st("j", mk_bin(BinaryOp::Add, mk_var("j"), mk_cst(1))),
            mk_jmp("inner_cond"),
        ],
        Ghost(triangle_numbers_inner_body()),
    );
    let triangle_outer_next = mk_blk(
        "outer_next",
        vec![
            mk_st("i", mk_bin(BinaryOp::Add, mk_var("i"), mk_cst(1))),
            mk_jmp("outer_cond"),
        ],
        Ghost(triangle_numbers_outer_next()),
    );
    let triangle_exit = mk_blk(
        "exit",
        vec![
            mk_ret(mk_var("sum")),
        ],
        Ghost(triangle_numbers_exit()),
    );
    let f_triangle = mk_fun(
        "triangle",
        Vec::new(),
        vec![triangle_entry, triangle_outer_cond, triangle_outer_body, triangle_inner_cond, triangle_inner_body, triangle_outer_next, triangle_exit],
        Ghost(Seq::empty()),
        Ghost(triangle_numbers_blocks(n)),
    );
    mk_modl("triangle", vec![f_triangle], Ghost(triangle_numbers(n).functions))
}

/// Factorials of `1..=max(n, 1)` kept in a memo table, the last returned; beside a `step` helper.
pub fn build_factorial_memo(n: i32) -> (r: Module)
    requires
        (n as usize) < usize::MAX,
    ensures
        r@ == factorial_memo(n),
{
    let factorial_entry = mk_blk(
        "entry",
        vec![
            mk_alloca("memo", memo_count(n)),
            mk_st("memo_base", mk_var("memo")),
            mk_st("i", mk_cst(1)),
            mk_st("n", mk_cst(at_least_one(n))),
            mk_st_ptr(mk_gep(mk_var("memo"), mk_cst(0)), mk_cst(1)),
            mk_jmp("cond"),
        ],
        Ghost(factorial_memo_factorial_entry(n)),
    );
    let factorial_cond = mk_blk(
        "cond",
        vec![
            mk_br(mk_comp(CompareCondition::Lt, mk_var("i"), mk_bin(BinaryOp::Add, mk_var("n"), mk_cst(1))), "body", "exit"),
        ],
        Ghost(factorial_memo_factorial_cond()),
    );
    let factorial_body = mk_blk(
        "body",
        vec![
            mk_st("idx", mk_bin(BinaryOp::Sub, mk_var("i"), mk_cst(1))),
            mk_st("fact", mk_bin(BinaryOp::Mul, mk_load(mk_bin(BinaryOp::Add, mk_var("memo"), mk_var("idx"))), mk_var("i"))),
            mk_st_ptr(mk_bin(BinaryOp::Add, mk_var("memo"), mk_var("i")), mk_var("fact")),
            mk_st("checksum", mk_var("fact")),
            mk_st("i", mk_bin(BinaryOp::Add, mk_var("i"), mk_cst(1))),
            mk_jmp("cond"),
        ],
        Ghost(factorial_memo_factorial_body()),
    );
    let factorial_exit = mk_blk(
        "exit",
        vec![
            mk_ret(mk_load(mk_bin(BinaryOp::Add, mk_var("memo"), mk_var("n")))),
        ],
        Ghost(factorial_memo_factorial_exit()),
    );
    let f_factorial = mk_fun(
        "factorial",
        Vec::new(),
        vec![factorial_entry, factorial_cond, factorial_body, factorial_exit],
        Ghost(Seq::empty()),
        Ghost(factorial_memo_factorial_blocks(n)),
    );
    let step_entry = mk_blk(
        "entry",
        vec![
            mk_ret(mk_bin(BinaryOp::Add, mk_var("x"), mk_cst(1))),
        ],
        Ghost(factorial_memo_step_entry()),
    );
    let f_step = mk_fun(
        "step",
        vec![string_of("x")],
        vec![step_entry],
        Ghost(one_param("x"@)),
        Ghost(factorial_memo_step_blocks()),
    );
    mk_modl("factorial_memo", vec![f_factorial, f_step], Ghost(factorial_memo(n).functions))
}

/// Euclid's algorithm on `2m` and `m` for `m = max(n, 10)`, beside a counter that nothing reads.
pub fn build_gcd_euclidean(n: i32) -> (r: Module)
    ensures
        r@ == gcd_euclidean(n),
{
    let m = gcd_seed_value(n);
    let gcd_entry = mk_blk(
        "entry",
        vec![
            mk_st("a", mk_cst(m * 2)),
            mk_st("b", mk_cst(m)),
            mk_st("iters", mk_cst(0)),
            mk_jmp("loop"),
        ],
        Ghost(gcd_euclidean_entry(n)),
    );
    let gcd_loop = mk_blk(
        "loop",
        vec![
            mk_br(mk_comp(CompareCondition::Ne, mk_var("b"), mk_cst(0)), "body", "exit"),
        ],
        Ghost(gcd_euclidean_loop()),
    );
    let gcd_body = mk_blk(
        "body",
        vec![
            mk_st("temp", mk_bin(BinaryOp::Sub, mk_var("a"), mk_bin(BinaryOp::Mul, mk_bin(BinaryOp::Div, mk_var("a"), mk_var("b")), mk_var("b")))),
            mk_st("a", mk_var("b")),
            mk_st("b", mk_var("temp")),
            mk_st("iters", mk_bin(BinaryOp::Add, mk_var("iters"), mk_cst(1))),
            mk_jmp("loop"),
        ],
        Ghost(gcd_euclidean_body()),
    );
    let gcd_exit = mk_blk(
        "exit",
        vec![
            mk_ret(mk_var("a")),
        ],
        Ghost(gcd_euclidean_exit()),
    );
    let f_gcd = mk_fun(
        "gcd",
        Vec::new(),
        vec![gcd_entry, gcd_loop, gcd_body, gcd_exit],
        Ghost(Seq::empty()),
        Ghost(gcd_euclidean_blocks(n)),
    );
    mk_modl("gcd_euclidean", vec![f_gcd], Ghost(gcd_euclidean(n).functions))
}

/// Computes `add(mul(n))` through calls, where `add(x) = x + 1` and `mul(x) = x * 2`.
pub fn build_call_chain(n: i32) -> (r: Module)
    ensures
        r@ == call_chain(n),
{
    let main_entry = mk_blk(
        "entry",
        vec![
            mk_st("v", mk_cst(n as i64)),
            mk_st("t1", mk_call1("mul", mk_var("v"))),
            mk_jmp("call2"),
        ],
        Ghost(call_chain_main_entry(n)),
    );
    let main_call2 = mk_blk(
        "call2",
        vec![
            mk_st("result", mk_call1("add", mk_var("t1"))),
            mk_st("shadow_result", mk_bin(BinaryOp::Add, mk_var("t1"), mk_cst(1))),
            mk_ret(mk_var("result")),
        ],
        Ghost(call_chain_main_call2()),
    );
    let f_main = mk_fun(
        "main",
        Vec::new(),
        vec![main_entry, main_call2],
        Ghost(Seq::empty()),
        Ghost(call_chain_main_blocks(n)),
    );
    let add_entry = mk_blk(
        "entry",
        vec![
            mk_ret(mk_bin(BinaryOp::Add, mk_var("x"), mk_cst(1))),
        ],
        Ghost(call_chain_add_entry()),
    );
    let f_add = mk_fun(
        "add",
        vec![string_of("x")],
        vec![add_entry],
        Ghost(one_param("x"@)),
        Ghost(call_chain_add_blocks()),
    );
    let mul_entry = mk_blk(
        "entry",
        vec![
            mk_ret(mk_bin(BinaryOp::Mul, mk_var("x"), mk_cst(2))),
        ],
        Ghost(call_chain_mul_entry()),
    );
    let f_mul = mk_fun(
        "mul",
        vec![string_of("x")],
        vec![mul_entry],
        Ghost(one_param("x"@)),
        Ghost(call_chain_mul_blocks()),
    );
    mk_modl("call_chain", vec![f_main, f_add, f_mul], Ghost(call_chain(n).functions))
}

/// Computes `(a*b + c*d) - (e*f + g*h)` in one block, beside partial sums that nothing reads.
pub fn build_complex_expr(n: i32) -> (r: Module)
    ensures
        r@ == complex_expr(n),
{
    let complex_entry = mk_blk(
        "entry",
        vec![
            mk_st("a", mk_cst(n as i64)),
            mk_st("b", mk_cst(2)),
            mk_st("c", mk_cst(n as i64)),
            mk_st("d", mk_cst(3)),
            mk_st("e", mk_cst(n as i64)),
            mk_st("f", mk_cst(1)),
            mk_st("g", mk_cst(n as i64)),
            mk_st("h", mk_cst(4)),
            mk_st("ab", mk_bin(BinaryOp::Mul, mk_var("a"), mk_var("b"))),
            mk_st("cd", mk_bin(BinaryOp::Mul, mk_var("c"), mk_var("d"))),
            mk_st("ef", mk_bin(BinaryOp::Mul, mk_var("e"), mk_var("f"))),
            mk_st("gh", mk_bin(BinaryOp::Mul, mk_var("g"), mk_var("h"))),
            mk_st("left_sum", mk_bin(BinaryOp::Add, mk_var("ab"), mk_var("cd"))),
            mk_st("right_sum", mk_bin(BinaryOp::Add, mk_var("ef"), mk_var("gh"))),
            mk_ret(mk_bin(BinaryOp::Sub, mk_bin(BinaryOp::Add, mk_var("ab"), mk_var("cd")), mk_bin(BinaryOp::Add, mk_var("ef"), mk_var("gh")))),
        ],
        Ghost(complex_expr_entry(n)),
    );
    let f_complex = mk_fun(
        "complex",
        Vec::new(),
        vec![complex_entry],
        Ghost(Seq::empty()),
        Ghost(complex_expr_blocks(n)),
    );
    mk_modl("complex_expr", vec![f_complex], Ghost(complex_expr(n).functions))
}

/// Returns `n` when it is positive and `-n` otherwise, through two exits with stores that nothing reads.
pub fn build_multi_exit(n: i32) -> (r: Module)
    requires
        n != i32::MIN,
    ensures
        r@ == multi_exit(n),
{
    let multi_entry = mk_blk(
        "entry",
        vec![
            mk_st("x", mk_cst(n as i64)),
            mk_st("track_a", mk_cst(0)),
            mk_st("track_b", mk_cst(0)),
            mk_jmp("cond"),
        ],
        Ghost(multi_exit_entry(n)),
    );
    let multi_cond = mk_blk(
        "cond",
        vec![
            mk_br(mk_comp(CompareCondition::Gt, mk_var("x"), mk_cst(0)), "path_a", "path_b"),
        ],
        Ghost(multi_exit_cond()),
    );
    let multi_path_a = mk_blk(
        "path_a",
        vec![
            mk_st("track_a", mk_bin(BinaryOp::Add, mk_var("x"), mk_cst(10))),
            mk_st("a_temp", mk_cst(999)),
            mk_ret(mk_var("x")),
        ],
        Ghost(multi_exit_path_a()),
    );
    let multi_path_b = mk_blk(
        "path_b",
        vec![
            mk_st("track_b", mk_bin(BinaryOp::Sub, mk_var("x"), mk_cst(5))),
            mk_st("b_temp", mk_cst(999)),
            mk_ret(mk_cst(negated(n))),
        ],
        Ghost(multi_exit_path_b(n)),
    );
    let f_multi = mk_fun(
        "multi",
        Vec::new(),
        vec![multi_entry, multi_cond, multi_path_a, multi_path_b],
        Ghost(Seq::empty()),
        Ghost(multi_exit_blocks(n)),
    );
    mk_modl("multi_exit", vec![f_multi], Ghost(multi_exit(n).functions))
}

/// Slots of the prefix-sum array: `n` taken as a size (wrapping for negative `n`), raised to 5.
pub open spec fn prefix_size(n: i32) -> usize {
    if (n as usize) > 5 { n as usize } else { 5 }
}

/// How many array slots the prefix-sum entry fills: the size taken as an `i64`, when positive.
pub open spec fn prefix_fill(n: i32) -> nat {
    if (prefix_size(n) as i64) > 0 { (prefix_size(n) as i64) as nat } else { 0 }
}

/// The store of `k + 1` into slot `k` of the prefix-sum array.
pub open spec fn prefix_fill_store(k: int) -> Inst {
    st_ptr(bin(BinaryOp::Add, var("arr"@), cst(k as i64)), cst((k + 1) as i64))
}

/// The stores after the array fill of the prefix-sum entry.
pub open spec fn prefix_sum_tail() -> Seq<Inst> {
    seq![
        st("writes"@, cst(0)),
        st("reads"@, cst(0)),
        st("i"@, cst(1)),
        st("sum"@, cst(0)),
        jmp("loop"@),
    ]
}

/// Instructions of block `entry` of function `prefix` in `prefix_sum`.
pub open spec fn prefix_sum_entry(n: i32) -> Seq<Inst> {
    seq![alloca("arr"@, prefix_size(n))] + Seq::new(prefix_fill(n), |k: int| prefix_fill_store(k))
        + prefix_sum_tail()
}

/// Instructions of block `loop` of function `prefix` in `prefix_sum`.
pub open spec fn prefix_sum_loop(n: i32) -> Seq<Inst> {
    seq![br(comp(CompareCondition::Lt, var("i"@), cst(prefix_size(n) as i64)), "body"@, "exit"@)]
}

/// Instructions of block `body` of function `prefix` in `prefix_sum`.
pub open spec fn prefix_sum_body() -> Seq<Inst> {
    seq![
        st("elem"@, load(bin(BinaryOp::Add, var("arr"@), var("i"@)))),
        st("sum"@, bin(BinaryOp::Add, var("sum"@), var("elem"@))),
        st("writes"@, bin(BinaryOp::Add, var("writes"@), cst(1))),
        st("i"@, bin(BinaryOp::Add, var("i"@), cst(1))),
        jmp("loop"@),
    ]
}

/// Blocks of function `prefix` in `prefix_sum`.
pub open spec fn prefix_sum_blocks(n: i32) -> Seq<BlockModel> {
    seq![
        blk("entry"@, prefix_sum_entry(n)),
        blk("loop"@, prefix_sum_loop(n)),
        blk("body"@, prefix_sum_body()),
        blk("exit"@, returns_var("sum"@)),
    ]
}

/// Fills an array of `max(n, 5)` slots with `1, 2, ...` and sums all but the first, beside a
/// counter that nothing reads.
pub open spec fn prefix_sum(n: i32) -> ModuleModel {
    modl("prefix_sum"@, seq![fun("prefix"@, seq![], prefix_sum_blocks(n))])
}

/// A module summing an array filled with `1, 2, ...`.
pub fn build_prefix_sum(n: i32) -> (r: Module)
    ensures
        r@ == prefix_sum(n),
{
    let base = #[verifier::truncate] (n as usize);
    let size = if base > 5 { base } else { 5 };
    let mut entry_insts: Vec<Instruction> = Vec::new();
    entry_insts.push(mk_alloca("arr", size));
    let limit = #[verifier::truncate] (size as i64);
    let ghost head = seq![alloca("arr"@, prefix_size(n))];
    let mut k: i64 = 0;
    proof {
        assert(inst_models(entry_insts@) =~= head + Seq::new(0, |j: int| prefix_fill_store(j)));
    }
    while k < limit
        invariant
            0 <= k,
            k <= limit || limit <= 0,
            limit <= 0 ==> k == 0,
            limit == prefix_size(n) as i64,
            inst_models(entry_insts@) == head + Seq::new(k as nat, |j: int| prefix_fill_store(j)),
        decreases limit - k,
    {
        let ghost before = entry_insts@;
        let x = mk_st_ptr(mk_bin(BinaryOp::Add, mk_var("arr"), mk_cst(k)), mk_cst(k + 1));
        let ghost xm = x@;
        entry_insts.push(x);
        proof {
            assert(xm == prefix_fill_store(k as int));
            assert(inst_models(entry_insts@) =~= inst_models(before).push(xm));
            assert(head + Seq::new((k + 1) as nat, |j: int| prefix_fill_store(j)) =~= (head + Seq::new(
                k as nat,
                |j: int| prefix_fill_store(j),
            )).push(xm));
        }
        k = k + 1;
    }
    proof {
        if limit > 0 {
            assert(k == limit);
        } else {
            assert(k == 0);
        }
        assert(k as nat == prefix_fill(n));
    }
    let ghost filled = entry_insts@;
    let mut tail = vec![
        mk_st("writes", mk_cst(0)),
        mk_st("reads", mk_cst(0)),
        mk_st("i", mk_cst(1)),
        mk_st("sum", mk_cst(0)),
        mk_jmp("loop"),
    ];
    proof {
        assert(inst_models(tail@) =~= prefix_sum_tail());
    }
    let ghost tail_v = tail@;
    entry_insts.append(&mut tail);
    proof {
        assert(inst_models(entry_insts@) =~= inst_models(filled) + inst_models(tail_v));
    }
    let entry = mk_blk("entry", entry_insts, Ghost(prefix_sum_entry(n)));
    let loop_bb = mk_blk(
        "loop",
        vec![mk_br(mk_comp(CompareCondition::Lt, mk_var("i"), mk_cst(size as i64)), "body", "exit")],
        Ghost(prefix_sum_loop(n)),
    );
    let body = mk_blk(
        "body",
        vec![
            mk_st("elem", mk_load(mk_bin(BinaryOp::Add, mk_var("arr"), mk_var("i")))),
            mk_st("sum", mk_bin(BinaryOp::Add, mk_var("sum"), mk_var("elem"))),
            mk_st("writes", mk_bin(BinaryOp::Add, mk_var("writes"), mk_cst(1))),
            mk_st("i", mk_bin(BinaryOp::Add, mk_var("i"), mk_cst(1))),
            mk_jmp("loop"),
        ],
        Ghost(prefix_sum_body()),
    );
    let exit_bb = mk_blk("exit", vec![mk_ret(mk_var("sum"))], Ghost(returns_var("sum"@)));
    let f_prefix = mk_fun(
        "prefix",
        Vec::new(),
        vec![entry, loop_bb, body, exit_bb],
        Ghost(Seq::empty()),
        Ghost(prefix_sum_blocks(n)),
    );
    mk_modl("prefix_sum", vec![f_prefix], Ghost(prefix_sum(n).functions))
}

/// The loop bound of a library entry: eight times its loop count (4 when it gives none), at
/// least 4.
pub open spec fn library_loop_bound(loop_count: Option<i32>) -> i64 {
    let c = match loop_count {
        Some(c) => c as int,
        None => 4,
    };
    if c * 8 < 4 {
        4
    } else {
        (c * 8) as i64
    }
}

/// Instructions of block `entry` of a library entry's function.
pub open spec fn library_entry(loop_count: Option<i32>) -> Seq<Inst> {
    seq![
        st("i"@, cst(0)),
        st("acc"@, cst(0)),
        st("n"@, cst(library_loop_bound(loop_count))),
        jmp("cond"@),
    ]
}

/// Instructions of block `cond` of a library entry's function.
pub open spec fn library_cond() -> Seq<Inst> {
    seq![br(comp(CompareCondition::Lt, var("i"@), var("n"@)), "body"@, "exit"@)]
}

/// Instructions of block `body` of a library entry's function.
pub open spec fn library_body() -> Seq<Inst> {
    seq![
        st("acc"@, bin(BinaryOp::Add, var("acc"@), var("i"@))),
        st("i"@, bin(BinaryOp::Add, var("i"@), cst(1))),
        jmp("cond"@),
    ]
}

/// Blocks of a library entry's function.
pub open spec fn library_blocks(loop_count: Option<i32>) -> Seq<BlockModel> {
    seq![
        blk("entry"@, library_entry(loop_count)),
        blk("cond"@, library_cond()),
        blk("body"@, library_body()),
        blk("exit"@, returns_var("acc"@)),
    ]
}

/// The module a library entry describes: `acc` summing `i` for `i` below the loop bound.
pub open spec fn library_module(module_name: Seq<char>, function_name: Seq<char>, loop_count: Option<i32>) -> ModuleModel {
    modl(module_name, seq![fun(function_name, seq![], library_blocks(loop_count))])
}

/// The module for one entry of a library of module descriptions: a function that sums `i`
/// into `acc` while `i` is below eight times the entry's loop count (4 by default, at least 4).
pub fn build_library_module(module_name: &str, function_name: &str, loop_count: Option<i32>) -> (r: Module)
    requires
        loop_count matches Some(c) ==> i32::MIN <= c * 8 <= i32::MAX,
    ensures
        r@ == library_module(module_name@, function_name@, loop_count),
{
    let count = match loop_count {
        Some(c) => c,
        None => 4,
    };
    let scaled = count * 8;
    let bound: i64 = if scaled < 4 { 4 } else { scaled as i64 };
    let entry = mk_blk(
        "entry",
        vec![mk_st("i", mk_cst(0)), mk_st("acc", mk_cst(0)), mk_st("n", mk_cst(bound)), mk_jmp("cond")],
        Ghost(library_entry(loop_count)),
    );
    let cond = mk_blk(
        "cond",
        vec![mk_br(mk_comp(CompareCondition::Lt, mk_var("i"), mk_var("n")), "body", "exit")],
        Ghost(library_cond()),
    );
    let body = mk_blk(
        "body",
        vec![
            mk_st("acc", mk_bin(BinaryOp::Add, mk_var("acc"), mk_var("i"))),
            mk_st("i", mk_bin(BinaryOp::Add, mk_var("i"), mk_cst(1))),
            mk_jmp("cond"),
        ],
        Ghost(library_body()),
    );
    let exit = mk_blk("exit", vec![mk_ret(mk_var("acc"))], Ghost(returns_var("acc"@)));
    let f = mk_fun_named(function_name, vec![entry, cond, body, exit], Ghost(library_blocks(loop_count)));
    let fs = vec![f];
    proof {
        assert(function_models(fs@) =~= library_module(module_name@, function_name@, loop_count).functions);
    }
    Module { name: string_of(module_name), functions: fs }
}

/// A parameterless integer function with the given name and blocks.
fn mk_fun_named(name: &str, blocks: Vec<BasicBlock>, Ghost(e): Ghost<Seq<BlockModel>>) -> (r: Function)
    requires
        block_models(blocks@) =~= e,
    ensures
        r@ == fun(name@, seq![], e),
{
    let params: Vec<String> = Vec::new();
    proof {
        assert(string_views(params@) =~= Seq::<Seq<char>>::empty());
    }
    Function { name: string_of(name), return_type: ValueType::Int, basic_blocks: blocks, params }
}

} // verus!
