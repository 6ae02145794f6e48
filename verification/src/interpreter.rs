use vstd::prelude::*;
use vstd::hash_map::StringHashMap;
use crate::ir::basic_block::{BasicBlock, BlockModel};
use crate::ir::function::{Function, FunctionModel, block_models};
use crate::ir::module::{Module, ModuleModel, find_function, function_index};
use crate::ir::value::{
    BinaryOp, CompareCondition, Inst, Instruction, display_text, is_terminator_model,
    lemma_arg_models, arg_models,
};
use crate::text::{decimal, push_str, push_usize};

verus! {

broadcast use vstd::std_specs::vec::group_vec_axioms;

/// Deepest nesting of calls: a call made at this depth fails.
pub const MAX_CALL_DEPTH: u32 = 256;

/// Instructions a function may execute before its next block is refused.
pub const MAX_INSTRUCTIONS: u64 = 10000;

/// Heap slots available to one execution.
pub const MAX_HEAP_SLOTS: usize = 1000000;

/// Why an execution failed.
#[derive(Debug)]
pub enum InterpreterError {
    DivisionByZero,
    UndefinedVariable(String),
    UndefinedFunction(String),
    CallDepthExceeded(u32),
    InvalidInstruction(String),
    UnknownBlock(String),
    MissingTerminator(String),
    TooManyIterations,
}

/// Model of an execution failure.
pub enum Fault {
    DivisionByZero,
    UndefinedVariable(Seq<char>),
    UndefinedFunction(Seq<char>),
    CallDepthExceeded(u32),
    InvalidInstruction(Seq<char>),
    UnknownBlock(Seq<char>),
    MissingTerminator(Seq<char>),
    TooManyIterations,
}

impl View for InterpreterError {
    type V = Fault;

    open spec fn view(&self) -> Fault {
        match self {
            InterpreterError::DivisionByZero => Fault::DivisionByZero,
            InterpreterError::UndefinedVariable(s) => Fault::UndefinedVariable(s@),
            InterpreterError::UndefinedFunction(s) => Fault::UndefinedFunction(s@),
            InterpreterError::CallDepthExceeded(n) => Fault::CallDepthExceeded(*n),
            InterpreterError::InvalidInstruction(s) => Fault::InvalidInstruction(s@),
            InterpreterError::UnknownBlock(s) => Fault::UnknownBlock(s@),
            InterpreterError::MissingTerminator(s) => Fault::MissingTerminator(s@),
            InterpreterError::TooManyIterations => Fault::TooManyIterations,
        }
    }
}

/// The message of a failure.
pub open spec fn fault_message(f: Fault) -> Seq<char> {
    match f {
        Fault::DivisionByZero => "Division by zero"@,
        Fault::UndefinedVariable(s) => "Undefined variable: "@ + s,
        Fault::UndefinedFunction(s) => "Undefined function: "@ + s,
        Fault::CallDepthExceeded(n) => "Call depth exceeded "@ + decimal(n as int)
            + " \u{2014} likely unbounded recursion"@,
        Fault::InvalidInstruction(s) => "Invalid instruction for evaluation: "@ + s,
        Fault::UnknownBlock(s) => "Unknown block: "@ + s,
        Fault::MissingTerminator(s) => "Block '"@ + s + "' doesn't end with branch/jump/return"@,
        Fault::TooManyIterations => "Too many iterations or recursion depth exceeded"@,
    }
}

impl InterpreterError {
    /// The human-readable message of this error.
    pub fn to_string(&self) -> (r: String)
        ensures
            r@ == fault_message(self@),
    {
        let mut s = String::new();
        match self {
            InterpreterError::DivisionByZero => push_str(&mut s, "Division by zero"),
            InterpreterError::UndefinedVariable(n) => {
                push_str(&mut s, "Undefined variable: ");
                push_str(&mut s, n.as_str());
            },
            InterpreterError::UndefinedFunction(n) => {
                push_str(&mut s, "Undefined function: ");
                push_str(&mut s, n.as_str());
            },
            InterpreterError::CallDepthExceeded(n) => {
                push_str(&mut s, "Call depth exceeded ");
                push_usize(&mut s, *n as usize);
                push_str(&mut s, " \u{2014} likely unbounded recursion");
            },
            InterpreterError::InvalidInstruction(n) => {
                push_str(&mut s, "Invalid instruction for evaluation: ");
                push_str(&mut s, n.as_str());
            },
            InterpreterError::UnknownBlock(n) => {
                push_str(&mut s, "Unknown block: ");
                push_str(&mut s, n.as_str());
            },
            InterpreterError::MissingTerminator(n) => {
                push_str(&mut s, "Block '");
                push_str(&mut s, n.as_str());
                push_str(&mut s, "' doesn't end with branch/jump/return");
            },
            InterpreterError::TooManyIterations => push_str(
                &mut s,
                "Too many iterations or recursion depth exceeded",
            ),
        }
        assert(s@ =~= fault_message(self@));
        s
    }
}

/// Variables of the running function and the heap of the whole execution.
pub struct Machine {
    pub env: Map<Seq<char>, i64>,
    pub heap: Seq<i64>,
}

/// Result of an arithmetic operator; `None` for division by zero.
/// Overflow wraps around, and `i64::MIN / -1` is `i64::MIN`.
pub open spec fn arith(op: BinaryOp, l: i64, r: i64) -> Option<i64> {
    match op {
        BinaryOp::Add => Some(l.wrapping_add(r)),
        BinaryOp::Sub => Some(l.wrapping_sub(r)),
        BinaryOp::Mul => Some(l.wrapping_mul(r)),
        BinaryOp::Div => if r == 0 {
            None
        } else {
            match l.checked_div(r) {
                Some(q) => Some(q),
                None => Some(i64::MIN),
            }
        },
    }
}

/// Truth of a comparison.
pub open spec fn compare(c: CompareCondition, l: i64, r: i64) -> bool {
    match c {
        CompareCondition::Eq => l == r,
        CompareCondition::Ne => l != r,
        CompareCondition::Lt => l < r,
        CompareCondition::Le => l <= r,
        CompareCondition::Gt => l > r,
        CompareCondition::Ge => l >= r,
    }
}

/// Variables bound by the first `n` parameter/argument pairs, later pairs overriding.
pub open spec fn bind_first(params: Seq<Seq<char>>, args: Seq<i64>, n: nat) -> Map<Seq<char>, i64>
    decreases n,
{
    if n == 0 {
        Map::empty()
    } else {
        bind_first(params, args, (n - 1) as nat).insert(params[n - 1], args[n - 1])
    }
}

/// Variables bound by pairing parameters with arguments, up to the shorter list.
pub open spec fn bind(params: Seq<Seq<char>>, args: Seq<i64>) -> Map<Seq<char>, i64> {
    bind_first(params, args, if params.len() <= args.len() { params.len() } else { args.len() })
}

/// Index of the last block named `name`: the block that a jump to `name` reaches.
pub open spec fn find_last_block(blocks: Seq<BlockModel>, name: Seq<char>) -> Option<int>
    decreases blocks.len(),
{
    if blocks.len() == 0 {
        None
    } else if blocks.last().name == name {
        Some(blocks.len() - 1)
    } else {
        find_last_block(blocks.drop_last(), name)
    }
}

/// Budget of the call-depth guard.
pub open spec fn depth_budget(d: u32) -> nat {
    if d <= MAX_CALL_DEPTH {
        (MAX_CALL_DEPTH + 1 - d) as nat
    } else {
        0
    }
}

/// Budget of the instruction-count guard.
pub open spec fn step_budget(count: nat) -> nat {
    if count <= MAX_INSTRUCTIONS {
        (MAX_INSTRUCTIONS + 1 - count) as nat
    } else {
        0
    }
}

/// Instructions left in block `name` from position `k`.
pub open spec fn block_rest(f: FunctionModel, name: Seq<char>, k: nat) -> nat {
    match find_last_block(f.blocks, name) {
        Some(bi) => if k <= f.blocks[bi].insts.len() {
            (f.blocks[bi].insts.len() - k) as nat
        } else {
            0
        },
        None => 0,
    }
}

/// Number of nodes of an instruction tree.
pub open spec fn inst_size(i: Inst) -> nat
    decreases i,
{
    match i {
        Inst::Constant { .. } | Inst::Variable { .. } | Inst::Jump { .. } | Inst::AllocaArray {
            ..
        } => 1,
        Inst::BinaryOp { lhs, rhs, .. } | Inst::Compare { lhs, rhs, .. } => 1 + inst_size(*lhs)
            + inst_size(*rhs),
        Inst::Store { value, .. } => 1 + inst_size(*value),
        Inst::Branch { condition, .. } => 1 + inst_size(*condition),
        Inst::Return { value } => match value {
            Some(v) => 1 + inst_size(*v),
            None => 1,
        },
        Inst::Call { args, .. } => 1 + list_size(args),
        Inst::GetElementPtr { base, index } => 1 + inst_size(*base) + inst_size(*index),
        Inst::LoadPtr { ptr } => 1 + inst_size(*ptr),
        Inst::StorePtr { ptr, value } => 1 + inst_size(*ptr) + inst_size(*value),
    }
}

/// Number of nodes of a list of instruction trees, plus one.
pub open spec fn list_size(s: Seq<Inst>) -> nat
    decreases s,
{
    if s.len() == 0 {
        1
    } else {
        1 + inst_size(s[0]) + list_size(s.drop_first())
    }
}

/// Evaluates one instruction at call depth `d`.
pub open spec fn eval(m: ModuleModel, i: Inst, s: Machine, d: u32) -> Result<(i64, Machine), Fault>
    decreases depth_budget(d), 0nat, 0nat, inst_size(i),
{
    match i {
        Inst::Constant { value } => Ok((value, s)),
        Inst::Variable { name } => if s.env.contains_key(name) {
            Ok((s.env[name], s))
        } else {
            Err(Fault::UndefinedVariable(name))
        },
        Inst::BinaryOp { op, lhs, rhs } => match eval(m, *lhs, s, d) {
            Err(e) => Err(e),
            Ok((l, s1)) => match eval(m, *rhs, s1, d) {
                Err(e) => Err(e),
                Ok((r, s2)) => match arith(op, l, r) {
                    Some(v) => Ok((v, s2)),
                    None => Err(Fault::DivisionByZero),
                },
            },
        },
        Inst::Compare { condition, lhs, rhs } => match eval(m, *lhs, s, d) {
            Err(e) => Err(e),
            Ok((l, s1)) => match eval(m, *rhs, s1, d) {
                Err(e) => Err(e),
                Ok((r, s2)) => Ok((if compare(condition, l, r) { 1 } else { 0 }, s2)),
            },
        },
        Inst::Store { var_name, value } => match eval(m, *value, s, d) {
            Err(e) => Err(e),
            Ok((v, s1)) => Ok((v, Machine { env: s1.env.insert(var_name, v), heap: s1.heap })),
        },
        Inst::Branch { .. } => Ok((0, s)),
        Inst::Jump { .. } => Ok((0, s)),
        Inst::Return { value } => match value {
            Some(v) => eval(m, *v, s, d),
            None => Ok((0, s)),
        },
        Inst::Call { function_name, args } => match eval_args(m, args, s, d) {
            Err(e) => Err(e),
            Ok((vals, s1)) => match find_function(m.functions, function_name) {
                None => Err(Fault::UndefinedFunction(function_name)),
                Some(k) => if d + 1 > MAX_CALL_DEPTH {
                    Err(Fault::CallDepthExceeded(MAX_CALL_DEPTH))
                } else {
                    match call(m, m.functions[k], vals, s1.heap, (d + 1) as u32) {
                        Err(e) => Err(e),
                        Ok((v, h)) => Ok((v, Machine { env: s1.env, heap: h })),
                    }
                },
            },
        },
        Inst::AllocaArray { name, count } => if s.heap.len() + count > MAX_HEAP_SLOTS {
            Err(Fault::InvalidInstruction(display_text(i)))
        } else {
            let base = s.heap.len() as i64;
            Ok(
                (
                    base,
                    Machine {
                        env: s.env.insert(name, base),
                        heap: s.heap + Seq::new(count as nat, |j: int| 0i64),
                    },
                ),
            )
        },
        Inst::GetElementPtr { base, index } => match eval(m, *base, s, d) {
            Err(e) => Err(e),
            Ok((b, s1)) => match eval(m, *index, s1, d) {
                Err(e) => Err(e),
                Ok((x, s2)) => Ok((b.wrapping_add(x), s2)),
            },
        },
        Inst::LoadPtr { ptr } => match eval(m, *ptr, s, d) {
            Err(e) => Err(e),
            Ok((a, s1)) => if 0 <= a < s1.heap.len() {
                Ok((s1.heap[a as int], s1))
            } else {
                Err(Fault::InvalidInstruction(display_text(i)))
            },
        },
        Inst::StorePtr { ptr, value } => match eval(m, *ptr, s, d) {
            Err(e) => Err(e),
            Ok((a, s1)) => match eval(m, *value, s1, d) {
                Err(e) => Err(e),
                Ok((v, s2)) => if 0 <= a < s2.heap.len() {
                    Ok((v, Machine { env: s2.env, heap: s2.heap.update(a as int, v) }))
                } else {
                    Err(Fault::InvalidInstruction(display_text(i)))
                },
            },
        },
    }
}

/// Evaluates call arguments left to right.
pub open spec fn eval_args(m: ModuleModel, args: Seq<Inst>, s: Machine, d: u32) -> Result<
    (Seq<i64>, Machine),
    Fault,
>
    decreases depth_budget(d), 0nat, 0nat, list_size(args),
{
    if args.len() == 0 {
        Ok((Seq::empty(), s))
    } else {
        match eval(m, args[0], s, d) {
            Err(e) => Err(e),
            Ok((v, s1)) => match eval_args(m, args.drop_first(), s1, d) {
                Err(e) => Err(e),
                Ok((vs, s2)) => Ok((seq![v] + vs, s2)),
            },
        }
    }
}

/// Runs function `f` on `args` at depth `d`, sharing `heap`; the result and the final heap.
pub open spec fn call(m: ModuleModel, f: FunctionModel, args: Seq<i64>, heap: Seq<i64>, d: u32) -> Result<
    (i64, Seq<i64>),
    Fault,
>
    decreases depth_budget(d), (MAX_INSTRUCTIONS + 2) as nat, 0nat, 0nat,
{
    if d > MAX_CALL_DEPTH {
        Err(Fault::CallDepthExceeded(MAX_CALL_DEPTH))
    } else if f.blocks.len() == 0 {
        Ok((0, heap))
    } else {
        run(m, f, f.blocks[0].name, 0, 0, Machine { env: bind(f.params, args), heap }, d)
    }
}

/// Continues at position `k` of block `name`, `start` instructions having run before it.
pub open spec fn run(
    m: ModuleModel,
    f: FunctionModel,
    name: Seq<char>,
    k: nat,
    start: nat,
    s: Machine,
    d: u32,
) -> Result<(i64, Seq<i64>), Fault>
    decreases depth_budget(d), step_budget(start), 2nat, block_rest(f, name, k),
{
    if start > MAX_INSTRUCTIONS {
        Err(Fault::TooManyIterations)
    } else {
        match find_last_block(f.blocks, name) {
            None => Err(Fault::UnknownBlock(name)),
            Some(bi) => {
                let b = f.blocks[bi];
                if k < b.insts.len() {
                    match eval(m, b.insts[k as int], s, d) {
                        Err(e) => Err(e),
                        Ok((v, s1)) => if is_terminator_model(b.insts[k as int]) {
                            if b.insts[k as int] is Return {
                                Ok((v, s1.heap))
                            } else {
                                leave(m, f, b, start, k + 1, s1, d)
                            }
                        } else {
                            run(m, f, name, k + 1, start, s1, d)
                        },
                    }
                } else {
                    leave(m, f, b, start, k, s, d)
                }
            },
        }
    }
}

/// Leaves block `b` after `executed` of its instructions ran, following its last instruction.
pub open spec fn leave(
    m: ModuleModel,
    f: FunctionModel,
    b: BlockModel,
    start: nat,
    executed: nat,
    s: Machine,
    d: u32,
) -> Result<(i64, Seq<i64>), Fault>
    decreases depth_budget(d), step_budget(start), 1nat, 0nat,
{
    if start > MAX_INSTRUCTIONS {
        Err(Fault::TooManyIterations)
    } else if b.insts.len() == 0 || executed == 0 {
        Err(Fault::MissingTerminator(b.name))
    } else {
        match b.insts.last() {
            Inst::Branch { condition, then_label, else_label } => match eval(m, *condition, s, d) {
                Err(e) => Err(e),
                Ok((c, s1)) => run(
                    m,
                    f,
                    if c != 0 { then_label } else { else_label },
                    0,
                    start + executed,
                    s1,
                    d,
                ),
            },
            Inst::Jump { label } => run(m, f, label, 0, start + executed, s, d),
            _ => Err(Fault::MissingTerminator(b.name)),
        }
    }
}

/// Result of running `f` on `args` from a fresh heap, as `Interpreter::execute_function` does.
pub open spec fn execute(m: ModuleModel, f: FunctionModel, args: Seq<i64>) -> Result<i64, Fault> {
    match call(m, f, args, Seq::empty(), 0) {
        Ok((v, h)) => Ok(v),
        Err(e) => Err(e),
    }
}

/// A comparison of two constants, as the interpreter evaluates it.
pub open spec fn compared(m: ModuleModel, c: CompareCondition, a: i64, b: i64, s: Machine, d: u32) -> Result<(i64, Machine), Fault> {
    eval(
        m,
        Inst::Compare {
            condition: c,
            lhs: Box::new(Inst::Constant { value: a }),
            rhs: Box::new(Inst::Constant { value: b }),
        },
        s,
        d,
    )
}

/// The value a comparison of two constants evaluates to.
pub open spec fn verdict(m: ModuleModel, c: CompareCondition, a: i64, b: i64, s: Machine, d: u32) -> int {
    compared(m, c, a, b, s, d)->Ok_0.0 as int
}

/// Comparisons of constants always succeed, leave the state alone and give 0 or 1: `==`
/// gives 1 exactly on equal operands, `<` exactly when the first is smaller, `<=` is the
/// negation of `>`, `>=` the negation of `<`, `!=` the negation of `==`; swapping the operands
/// turns `<` into `>` and `<=` into `>=`, and a value is both `<=` and `>=` itself.
pub proof fn law_comparisons(m: ModuleModel, a: i64, b: i64, s: Machine, d: u32)
    ensures
        forall|c: CompareCondition| #[trigger] compared(m, c, a, b, s, d) is Ok
            && compared(m, c, a, b, s, d)->Ok_0.1 == s
            && (verdict(m, c, a, b, s, d) == 0 || verdict(m, c, a, b, s, d) == 1),
        verdict(m, CompareCondition::Eq, a, b, s, d) == (if a == b { 1int } else { 0 }),
        verdict(m, CompareCondition::Lt, a, b, s, d) == (if a < b { 1int } else { 0 }),
        verdict(m, CompareCondition::Le, a, b, s, d) + verdict(m, CompareCondition::Gt, a, b, s, d) == 1,
        verdict(m, CompareCondition::Ge, a, b, s, d) + verdict(m, CompareCondition::Lt, a, b, s, d) == 1,
        verdict(m, CompareCondition::Ne, a, b, s, d) + verdict(m, CompareCondition::Eq, a, b, s, d) == 1,
        compared(m, CompareCondition::Gt, a, b, s, d) == compared(m, CompareCondition::Lt, b, a, s, d),
        compared(m, CompareCondition::Ge, a, b, s, d) == compared(m, CompareCondition::Le, b, a, s, d),
        verdict(m, CompareCondition::Le, a, a, s, d) == 1,
        verdict(m, CompareCondition::Ge, a, a, s, d) == 1,
{
    reveal_with_fuel(eval, 2);
    assert forall|c: CompareCondition| #[trigger] compared(m, c, a, b, s, d) is Ok
        && compared(m, c, a, b, s, d)->Ok_0.1 == s
        && (verdict(m, c, a, b, s, d) == 0 || verdict(m, c, a, b, s, d) == 1) by {
        reveal_with_fuel(eval, 2);
    }
}

/// Arithmetic is exact whenever the exact result fits in 64 bits: sums, differences and
/// products are the mathematical ones (a sum or difference that does not fit wraps around by
/// 2^64), and division by a non-zero divisor truncates toward
/// zero (quotient times divisor plus a remainder smaller than the divisor, with the sign of
/// the dividend, gives the dividend); division by zero has no result.
pub proof fn law_arith_exact(a: i64, b: i64)
    ensures
        i64::MIN <= a + b <= i64::MAX ==> arith(BinaryOp::Add, a, b) == Some((a + b) as i64),
        i64::MIN <= a - b <= i64::MAX ==> arith(BinaryOp::Sub, a, b) == Some((a - b) as i64),
        i64::MIN <= a * b <= i64::MAX ==> arith(BinaryOp::Mul, a, b) == Some((a * b) as i64),
        arith(BinaryOp::Add, a, b) matches Some(v) && (v == a + b || v == a + b - 0x1_0000_0000_0000_0000int
            || v == a + b + 0x1_0000_0000_0000_0000int),
        arith(BinaryOp::Sub, a, b) matches Some(v) && (v == a - b || v == a - b - 0x1_0000_0000_0000_0000int
            || v == a - b + 0x1_0000_0000_0000_0000int),
        b == 0 ==> arith(BinaryOp::Div, a, b) is None,
        b != 0 && !(a == i64::MIN && b == -1) ==> (arith(BinaryOp::Div, a, b) matches Some(q) && {
            let r = a - q * b;
            &&& (if r >= 0 { r } else { -r }) < (if b >= 0 { b as int } else { -b })
            &&& (r == 0 || (r > 0) == (a > 0))
        }),
{
    if i64::MIN <= a * b <= i64::MAX {
        let p = a * b;
        if p >= 0 {
            assert(p % 0x1_0000_0000_0000_0000int == p);
        } else {
            assert(p % 0x1_0000_0000_0000_0000int == p + 0x1_0000_0000_0000_0000int);
        }
    }
    if b != 0 && !(a == i64::MIN && b == -1) {
        let x = a as int;
        let y = b as int;
        if x > 0 && y > 0 {
            let t = x / y;
            assert(0 <= t <= x && 0 <= x - t * y < y) by (nonlinear_arith)
                requires
                    x > 0,
                    y > 0,
                    t == x / y,
            ;
            assert(arith(BinaryOp::Div, a, b) == Some(t as i64));
            assert(a - arith(BinaryOp::Div, a, b)->Some_0 * b == x - t * y);
        } else if x < 0 && y < 0 {
            let t = (x * -1) / (y * -1);
            if y == -1 {
                assert(t == -x && x - t * y == 0) by (nonlinear_arith)
                    requires
                        y == -1,
                        t == (x * -1) / (y * -1),
                ;
                assert(arith(BinaryOp::Div, a, b) == Some(t as i64));
                assert(a - arith(BinaryOp::Div, a, b)->Some_0 * b == x - t * y);
            assert(a - arith(BinaryOp::Div, a, b)->Some_0 * b == x - t * y);
            } else {
                assert(0 <= t <= -x / 2 && y < x - t * y <= 0) by (nonlinear_arith)
                    requires
                        x < 0,
                        y < -1,
                        t == (x * -1) / (y * -1),
                ;
                assert(arith(BinaryOp::Div, a, b) == Some(t as i64));
                assert(a - arith(BinaryOp::Div, a, b)->Some_0 * b == x - t * y);
            assert(a - arith(BinaryOp::Div, a, b)->Some_0 * b == x - t * y);
            }
        } else if x < 0 && y > 0 {
            let u = (x * -1) / y;
            let t = u * -1;
            assert(0 <= u <= -x && -y < x - t * y <= 0) by (nonlinear_arith)
                requires
                    x < 0,
                    y > 0,
                    u == (x * -1) / y,
                    t == u * -1,
            ;
            assert(arith(BinaryOp::Div, a, b) == Some(t as i64));
            assert(a - arith(BinaryOp::Div, a, b)->Some_0 * b == x - t * y);
        } else if x > 0 && y < 0 {
            let u = x / (y * -1);
            let t = u * -1;
            assert(0 <= u <= x && 0 <= x - t * y < -y) by (nonlinear_arith)
                requires
                    x > 0,
                    y < 0,
                    u == x / (y * -1),
                    t == u * -1,
            ;
            assert(arith(BinaryOp::Div, a, b) == Some(t as i64));
            assert(a - arith(BinaryOp::Div, a, b)->Some_0 * b == x - t * y);
        } else {
            assert(arith(BinaryOp::Div, a, b) == Some(0i64));
            assert(a - arith(BinaryOp::Div, a, b)->Some_0 * b == 0) by (nonlinear_arith)
                requires
                    a == 0,
                    arith(BinaryOp::Div, a, b)->Some_0 == 0,
            ;
        }
    }
}

} // verus!

verus! {

/// `find_last_block` gives the last index whose block has the name.
pub proof fn lemma_find_last_block(blocks: Seq<BlockModel>, name: Seq<char>)
    ensures
        match find_last_block(blocks, name) {
            Some(k) => 0 <= k < blocks.len() && blocks[k].name == name && forall|j: int|
                k < j < blocks.len() ==> blocks[j].name != name,
            None => forall|j: int| 0 <= j < blocks.len() ==> blocks[j].name != name,
        },
    decreases blocks.len(),
{
    if blocks.len() > 0 && blocks.last().name != name {
        lemma_find_last_block(blocks.drop_last(), name);
        assert forall|j: int| 0 <= j < blocks.len() - 1 implies blocks.drop_last()[j] == blocks[j] by {}
    }
}

/// An element of a list is smaller than the list.
pub proof fn lemma_list_size_elem(s: Seq<Inst>, j: int)
    requires
        0 <= j < s.len(),
    ensures
        inst_size(s[j]) < list_size(s),
    decreases s.len(),
{
    if j > 0 {
        lemma_list_size_elem(s.drop_first(), j - 1);
        assert(s.drop_first()[j - 1] == s[j]);
    }
}

/// A last match is what `find_last_block` finds.
pub proof fn lemma_find_last_block_at(blocks: Seq<BlockModel>, name: Seq<char>, k: int)
    requires
        0 <= k < blocks.len(),
        blocks[k].name == name,
        forall|j: int| k < j < blocks.len() ==> blocks[j].name != name,
    ensures
        find_last_block(blocks, name) == Some(k),
{
    lemma_find_last_block(blocks, name);
    match find_last_block(blocks, name) {
        Some(i) => {
            if i < k {
            } else if i > k {
            }
        },
        None => {},
    }
}

/// Index of the last block named like `name`.
pub fn last_block_index(blocks: &Vec<BasicBlock>, name: &String) -> (r: Option<usize>)
    ensures
        match r {
            Some(k) => find_last_block(block_models(blocks@), name@) == Some(k as int) && k
                < blocks@.len(),
            None => find_last_block(block_models(blocks@), name@) is None,
        },
{
    let ghost bs = block_models(blocks@);
    proof {
        lemma_find_last_block(bs, name@);
    }
    let mut j: usize = blocks.len();
    while j > 0
        invariant
            j <= blocks.len(),
            bs == block_models(blocks@),
            forall|i: int| j <= i < blocks.len() ==> bs[i].name != name@,
        decreases j,
    {
        if blocks[j - 1].name == *name {
            proof {
                lemma_find_last_block_at(bs, name@, j - 1);
            }
            return Some(j - 1);
        }
        j = j - 1;
    }
    None
}

/// What one evaluation step gives: its value with the machine after it, or its failure.
pub open spec fn step_outcome(
    r: Result<i64, InterpreterError>,
    env: Map<Seq<char>, i64>,
    heap: Seq<i64>,
) -> Result<(i64, Machine), Fault> {
    match r {
        Ok(v) => Ok((v, Machine { env, heap })),
        Err(e) => Err(e@),
    }
}

/// What a call gives: its value with the heap after it, or its failure.
pub open spec fn call_outcome(r: Result<i64, InterpreterError>, heap: Seq<i64>) -> Result<
    (i64, Seq<i64>),
    Fault,
> {
    match r {
        Ok(v) => Ok((v, heap)),
        Err(e) => Err(e@),
    }
}

/// The model of an execution result.
pub open spec fn result_model(r: Result<i64, InterpreterError>) -> Result<i64, Fault> {
    match r {
        Ok(v) => Ok(v),
        Err(e) => Err(e@),
    }
}

/// Executes IR functions.
#[derive(Clone, Copy)]
pub struct Interpreter;

impl Interpreter {
    /// A new interpreter.
    pub fn new() -> (r: Self) {
        Interpreter
    }

    /// Runs `function` of `module` with `args` bound to its parameters, from a fresh heap.
    /// Entry functions bake their inputs as constant stores and take `&[]`.
    pub fn execute_function(&self, module: &Module, function: &Function, args: &[i64]) -> (r: Result<
        i64,
        InterpreterError,
    >)
        ensures
            result_model(r) == execute(module@, function@, args@),
    {
        let mut heap: Vec<i64> = Vec::new();
        let r = self.execute_function_inner(module, function, args, &mut heap, 0);
        r
    }

    fn execute_function_inner(
        &self,
        module: &Module,
        function: &Function,
        args: &[i64],
        heap: &mut Vec<i64>,
        depth: u32,
    ) -> (r: Result<i64, InterpreterError>)
        ensures
            call(module@, function@, args@, old(heap)@, depth) == call_outcome(r, final(heap)@),
        decreases depth_budget(depth), 1nat, 0nat,
    {
        if depth > MAX_CALL_DEPTH {
            return Err(InterpreterError::CallDepthExceeded(MAX_CALL_DEPTH));
        }
        let ghost m = module@;
        let ghost f = function@;
        let ghost goal = call(m, f, args@, old(heap)@, depth);
        let mut env: StringHashMap<i64> = StringHashMap::new();
        let n = if function.params.len() <= args.len() {
            function.params.len()
        } else {
            args.len()
        };
        let mut i: usize = 0;
        while i < n
            invariant
                i <= n,
                n <= function.params.len(),
                n <= args.len(),
                env@ == bind_first(f.params, args@, i as nat),
                f == function@,
            decreases n - i,
        {
            env.insert(function.params[i].clone(), args[i]);
            i = i + 1;
        }
        if function.basic_blocks.len() == 0 {
            return Ok(0);
        }
        let mut current: String = function.basic_blocks[0].name.clone();
        let mut count: u64 = 0;
        assert(goal == run(m, f, current@, 0, 0, Machine { env: env@, heap: heap@ }, depth));
        loop
            invariant
                depth <= MAX_CALL_DEPTH,
                m == module@,
                f == function@,
                goal == call(m, f, args@, old(heap)@, depth),
                goal == run(m, f, current@, 0, count as nat, Machine { env: env@, heap: heap@ }, depth),
            decreases step_budget(count as nat),
        {
            if count > MAX_INSTRUCTIONS {
                return Err(InterpreterError::TooManyIterations);
            }
            let bi = match last_block_index(&function.basic_blocks, &current) {
                Some(bi) => bi,
                None => {
                    return Err(InterpreterError::UnknownBlock(current.clone()));
                },
            };
            let block = &function.basic_blocks[bi];
            let ghost b = f.blocks[bi as int];
            assert(b == block@);
            let len = block.instructions.len();
            let mut k: usize = 0;
            let mut executed: usize = 0;
            loop
                invariant_except_break
                    k <= len,
                    len == block.instructions.len(),
                    b == block@,
                    0 <= bi < f.blocks.len(),
                    b == f.blocks[bi as int],
                    goal == call(m, f, args@, old(heap)@, depth),
                    depth <= MAX_CALL_DEPTH,
                    count <= MAX_INSTRUCTIONS,
                    find_last_block(f.blocks, current@) == Some(bi as int),
                    m == module@,
                    f == function@,
                    goal == run(m, f, current@, k as nat, count as nat, Machine { env: env@, heap: heap@ }, depth),
                ensures
                    b == block@,
                    depth <= MAX_CALL_DEPTH,
                    count <= MAX_INSTRUCTIONS,
                    m == module@,
                    f == function@,
                    len > 0 ==> executed > 0,
                    executed <= len,
                    goal == leave(m, f, b, count as nat, executed as nat, Machine { env: env@, heap: heap@ }, depth),
                decreases len - k,
            {
                if k >= len {
                    executed = k;
                    break;
                }
                let inst = &block.instructions[k];
                assert(b.insts[k as int] == inst@);
                let v = match self.evaluate_instruction(module, inst, &mut env, heap, depth) {
                    Ok(v) => v,
                    Err(e) => {
                        return Err(e);
                    },
                };
                if inst.is_terminator() {
                    match inst {
                        Instruction::Return { .. } => {
                            return Ok(v);
                        },
                        _ => {},
                    }
                    executed = k + 1;
                    break;
                }
                k = k + 1;
            }
            if len == 0 {
                return Err(InterpreterError::MissingTerminator(block.name.clone()));
            }
            let last = &block.instructions[len - 1];
            assert(b.insts.last() == last@);
            match last {
                Instruction::Branch { condition, then_label, else_label } => {
                    let c = match self.evaluate_instruction(module, condition, &mut env, heap, depth) {
                        Ok(c) => c,
                        Err(e) => {
                            return Err(e);
                        },
                    };
                    if c != 0 {
                        current = then_label.clone();
                    } else {
                        current = else_label.clone();
                    }
                },
                Instruction::Jump { label } => {
                    current = label.clone();
                },
                _ => {
                    return Err(InterpreterError::MissingTerminator(block.name.clone()));
                },
            }
            if executed as u64 > MAX_INSTRUCTIONS {
                proof {
                    let big = count as nat + executed as nat;
                    assert(run(m, f, current@, 0, big, Machine { env: env@, heap: heap@ }, depth)
                        == Err::<(i64, Seq<i64>), Fault>(Fault::TooManyIterations));
                    assert(run(m, f, current@, 0, (MAX_INSTRUCTIONS + 1) as nat, Machine { env: env@, heap: heap@ }, depth)
                        == Err::<(i64, Seq<i64>), Fault>(Fault::TooManyIterations));
                }
                count = MAX_INSTRUCTIONS + 1;
            } else {
                count = count + executed as u64;
            }
        }
    }

    fn evaluate_instruction(
        &self,
        module: &Module,
        inst: &Instruction,
        env: &mut StringHashMap<i64>,
        heap: &mut Vec<i64>,
        depth: u32,
    ) -> (r: Result<i64, InterpreterError>)
        requires
            depth <= MAX_CALL_DEPTH,
        ensures
            eval(module@, inst@, Machine { env: old(env)@, heap: old(heap)@ }, depth)
                == step_outcome(r, final(env)@, final(heap)@),
        decreases depth_budget(depth), 0nat, crate::interpreter::inst_size(inst@),
    {
        match inst {
            Instruction::Constant { value } => Ok(*value),
            Instruction::Variable { name } => match env.get(name.as_str()) {
                Some(v) => Ok(*v),
                None => Err(InterpreterError::UndefinedVariable(name.clone())),
            },
            Instruction::BinaryOp { op, lhs, rhs } => {
                let l = match self.evaluate_instruction(module, lhs, env, heap, depth) {
                    Ok(v) => v,
                    Err(e) => {
                        return Err(e);
                    },
                };
                let r = match self.evaluate_instruction(module, rhs, env, heap, depth) {
                    Ok(v) => v,
                    Err(e) => {
                        return Err(e);
                    },
                };
                match op {
                    BinaryOp::Add => Ok(l.wrapping_add(r)),
                    BinaryOp::Sub => Ok(l.wrapping_sub(r)),
                    BinaryOp::Mul => Ok(l.wrapping_mul(r)),
                    BinaryOp::Div => {
                        if r == 0 {
                            Err(InterpreterError::DivisionByZero)
                        } else {
                            match l.checked_div(r) {
                                Some(q) => Ok(q),
                                None => Ok(i64::MIN),
                            }
                        }
                    },
                }
            },
            Instruction::Compare { condition, lhs, rhs } => {
                let l = match self.evaluate_instruction(module, lhs, env, heap, depth) {
                    Ok(v) => v,
                    Err(e) => {
                        return Err(e);
                    },
                };
                let r = match self.evaluate_instruction(module, rhs, env, heap, depth) {
                    Ok(v) => v,
                    Err(e) => {
                        return Err(e);
                    },
                };
                let result = match condition {
                    CompareCondition::Eq => l == r,
                    CompareCondition::Ne => l != r,
                    CompareCondition::Lt => l < r,
                    CompareCondition::Gt => l > r,
                    CompareCondition::Le => l <= r,
                    CompareCondition::Ge => l >= r,
                };
                Ok(if result { 1 } else { 0 })
            },
            Instruction::Store { var_name, value } => {
                let v = match self.evaluate_instruction(module, value, env, heap, depth) {
                    Ok(v) => v,
                    Err(e) => {
                        return Err(e);
                    },
                };
                env.insert(var_name.clone(), v);
                Ok(v)
            },
            Instruction::Return { value } => match value {
                Some(v) => self.evaluate_instruction(module, v, env, heap, depth),
                None => Ok(0),
            },
            Instruction::Branch { .. } | Instruction::Jump { .. } => Ok(0),
            Instruction::Call { function_name, args } => {
                let ghost m = module@;
                let ghost ms = arg_models(args@);
                let ghost s0 = Machine { env: old(env)@, heap: old(heap)@ };
                proof {
                    lemma_arg_models(args@);
                }
                let mut vals: Vec<i64> = Vec::new();
                proof {
                    assert(ms.skip(0) =~= ms);
                    match eval_args(m, ms, s0, depth) {
                        Ok((vs, s2)) => {
                            assert(vals@ + vs =~= vs);
                        },
                        Err(e) => {},
                    }
                }
                let mut j: usize = 0;
                while j < args.len()
                    invariant
                        j <= args.len(),
                        depth <= MAX_CALL_DEPTH,
                        m == module@,
                        ms == arg_models(args@),
                        ms.len() == args@.len(),
                        forall|k: int| 0 <= k < args@.len() ==> #[trigger] ms[k] == args@[k].model(),
                        inst@ == (Inst::Call { function_name: function_name@, args: ms }),
                        s0 == (Machine { env: old(env)@, heap: old(heap)@ }),
                        eval_args(m, ms, s0, depth) == match eval_args(
                            m,
                            ms.skip(j as int),
                            Machine { env: env@, heap: heap@ },
                            depth,
                        ) {
                            Ok((vs, s2)) => Ok((vals@ + vs, s2)),
                            Err(e) => Err(e),
                        },
                    decreases args.len() - j,
                {
                    proof {
                        lemma_list_size_elem(ms, j as int);
                        assert(ms.skip(j as int)[0] == ms[j as int]);
                        assert(ms.skip(j as int).drop_first() =~= ms.skip(j + 1));
                    }
                    let ghost before = Machine { env: env@, heap: heap@ };
                    let v = match self.evaluate_instruction(module, &args[j], env, heap, depth) {
                        Ok(v) => v,
                        Err(e) => {
                            proof {
                                assert(ms.skip(j as int).len() > 0);
                                assert(eval(m, ms[j as int], before, depth) == Err::<(i64, Machine), Fault>(e@));
                                assert(eval_args(m, ms.skip(j as int), before, depth) == Err::<(Seq<i64>, Machine), Fault>(e@));
                            }
                            return Err(e);
                        },
                    };
                    proof {
                        let ghost st = Machine { env: env@, heap: heap@ };
                        match eval_args(m, ms.skip(j + 1), st, depth) {
                            Ok((vs, s2)) => {
                                assert(vals@.push(v) + vs =~= vals@ + (seq![v] + vs));
                            },
                            Err(e) => {},
                        }
                    }
                    vals.push(v);
                    j = j + 1;
                }
                proof {
                    assert(ms.skip(j as int) =~= Seq::<Inst>::empty());
                    assert(vals@ + Seq::<i64>::empty() =~= vals@);
                }
                let k = match function_index(&module.functions, function_name.as_str()) {
                    Some(k) => k,
                    None => {
                        return Err(InterpreterError::UndefinedFunction(function_name.clone()));
                    },
                };
                if depth >= MAX_CALL_DEPTH {
                    return Err(InterpreterError::CallDepthExceeded(MAX_CALL_DEPTH));
                }
                let callee = &module.functions[k];
                self.execute_function_inner(module, callee, vals.as_slice(), heap, depth + 1)
            },
            Instruction::AllocaArray { name, count } => {
                let count = *count;
                if count > MAX_HEAP_SLOTS || heap.len() > MAX_HEAP_SLOTS - count {
                    return Err(InterpreterError::InvalidInstruction(inst.display()));
                }
                let base = heap.len() as i64;
                let ghost h0 = heap@;
                let mut j: usize = 0;
                while j < count
                    invariant
                        j <= count,
                        heap@ == h0 + Seq::new(j as nat, |x: int| 0i64),
                    decreases count - j,
                {
                    heap.push(0);
                    proof {
                        assert(h0 + Seq::new((j + 1) as nat, |x: int| 0i64) =~= (h0 + Seq::new(
                            j as nat,
                            |x: int| 0i64,
                        )).push(0));
                    }
                    j = j + 1;
                }
                env.insert(name.clone(), base);
                Ok(base)
            },
            Instruction::GetElementPtr { base, index } => {
                let b = match self.evaluate_instruction(module, base, env, heap, depth) {
                    Ok(v) => v,
                    Err(e) => {
                        return Err(e);
                    },
                };
                let x = match self.evaluate_instruction(module, index, env, heap, depth) {
                    Ok(v) => v,
                    Err(e) => {
                        return Err(e);
                    },
                };
                Ok(b.wrapping_add(x))
            },
            Instruction::LoadPtr { ptr } => {
                let a = match self.evaluate_instruction(module, ptr, env, heap, depth) {
                    Ok(v) => v,
                    Err(e) => {
                        return Err(e);
                    },
                };
                if a >= 0 && (a as u64) < (heap.len() as u64) {
                    Ok(heap[a as usize])
                } else {
                    Err(InterpreterError::InvalidInstruction(inst.display()))
                }
            },
            Instruction::StorePtr { ptr, value } => {
                let a = match self.evaluate_instruction(module, ptr, env, heap, depth) {
                    Ok(v) => v,
                    Err(e) => {
                        return Err(e);
                    },
                };
                let v = match self.evaluate_instruction(module, value, env, heap, depth) {
                    Ok(v) => v,
                    Err(e) => {
                        return Err(e);
                    },
                };
                if a >= 0 && (a as u64) < (heap.len() as u64) {
                    heap.set(a as usize, v);
                    Ok(v)
                } else {
                    Err(InterpreterError::InvalidInstruction(inst.display()))
                }
            },
        }
    }
}

} // verus!
