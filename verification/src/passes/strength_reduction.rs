use vstd::prelude::*;
use crate::interpreter::{
    MAX_INSTRUCTIONS, Machine, arith, block_rest, eval, execute,
    find_last_block, inst_size, leave, lemma_find_last_block, lemma_list_size_elem, list_size, run,
    step_budget,
};
use crate::ir::basic_block::BlockModel;
use crate::ir::value::is_terminator_model;
use crate::passes::{map_block, map_function};
use crate::ir::module::{Module, ModuleModel};
use crate::ir::value::{BinaryOp, Inst, Instruction, arg_models, lemma_arg_models};
use crate::passes::{Pass, PassDescriptor, PassError, PassSafety, map_module, module_any, lemma_map_module_shape, same_shape, rewrite_module};

verus! {

broadcast use vstd::std_specs::vec::group_vec_axioms;

/// The algebraic identity that applies to `l op r`, if any:
/// `1*x`, `x*1`, `0+x`, `x+0` give `x`, and `0*x`, `x*0` give `0`.
pub open spec fn reduce(op: BinaryOp, l: Inst, r: Inst) -> Option<Inst> {
    match op {
        BinaryOp::Mul => if l == (Inst::Constant { value: 1 }) {
            Some(r)
        } else if l == (Inst::Constant { value: 0 }) {
            Some(Inst::Constant { value: 0 })
        } else if r == (Inst::Constant { value: 1 }) {
            Some(l)
        } else if r == (Inst::Constant { value: 0 }) {
            Some(Inst::Constant { value: 0 })
        } else {
            None
        },
        BinaryOp::Add => if l == (Inst::Constant { value: 0 }) {
            Some(r)
        } else if r == (Inst::Constant { value: 0 }) {
            Some(l)
        } else {
            None
        },
        _ => None,
    }
}

/// Bottom-up simplification of every identity in an instruction tree; whether any applied.
pub open spec fn simplify(i: Inst) -> (Inst, bool)
    decreases i,
{
    match i {
        Inst::BinaryOp { op, lhs, rhs } => {
            let (l, cl) = simplify(*lhs);
            let (r, cr) = simplify(*rhs);
            match reduce(op, l, r) {
                Some(x) => (x, true),
                None => (Inst::BinaryOp { op, lhs: Box::new(l), rhs: Box::new(r) }, cl || cr),
            }
        },
        Inst::Store { var_name, value } => {
            let (v, c) = simplify(*value);
            (Inst::Store { var_name, value: Box::new(v) }, c)
        },
        Inst::Compare { condition, lhs, rhs } => {
            let (l, cl) = simplify(*lhs);
            let (r, cr) = simplify(*rhs);
            (Inst::Compare { condition, lhs: Box::new(l), rhs: Box::new(r) }, cl || cr)
        },
        Inst::Branch { condition, then_label, else_label } => {
            let (c, cc) = simplify(*condition);
            (Inst::Branch { condition: Box::new(c), then_label, else_label }, cc)
        },
        Inst::Return { value } => match value {
            Some(v) => {
                let (w, c) = simplify(*v);
                (Inst::Return { value: Some(Box::new(w)) }, c)
            },
            None => (i, false),
        },
        Inst::Call { function_name, args } => {
            let (a, c) = simplify_list(args);
            (Inst::Call { function_name, args: a }, c)
        },
        Inst::GetElementPtr { base, index } => {
            let (b, cb) = simplify(*base);
            let (x, cx) = simplify(*index);
            (Inst::GetElementPtr { base: Box::new(b), index: Box::new(x) }, cb || cx)
        },
        Inst::LoadPtr { ptr } => {
            let (p, c) = simplify(*ptr);
            (Inst::LoadPtr { ptr: Box::new(p) }, c)
        },
        Inst::StorePtr { ptr, value } => {
            let (p, cp) = simplify(*ptr);
            let (v, cv) = simplify(*value);
            (Inst::StorePtr { ptr: Box::new(p), value: Box::new(v) }, cp || cv)
        },
        _ => (i, false),
    }
}

/// Simplification of each tree of a list; whether any changed.
pub open spec fn simplify_list(s: Seq<Inst>) -> (Seq<Inst>, bool)
    decreases s,
{
    if s.len() == 0 {
        (Seq::empty(), false)
    } else {
        let (h, ch) = simplify(s[0]);
        let (t, ct) = simplify_list(s.drop_first());
        (seq![h] + t, ch || ct)
    }
}

/// Strength reduction rewrites instructions in place: every function and block stays, with
/// as many instructions as before.
pub proof fn law_strength_reduction_keeps_shape(m: ModuleModel)
    ensures
        same_shape(m, map_module(m, simplify_map())),
{
    lemma_map_module_shape(m, simplify_map());
}

/// A tree that only reads: constants, variables, arithmetic, comparisons, addresses and
/// loads; it stores nothing and calls nothing.
pub open spec fn reads_only(i: Inst) -> bool
    decreases i,
{
    match i {
        Inst::Constant { .. } | Inst::Variable { .. } => true,
        Inst::BinaryOp { lhs, rhs, .. } | Inst::Compare { lhs, rhs, .. } => reads_only(*lhs) && reads_only(*rhs),
        Inst::GetElementPtr { base, index } => reads_only(*base) && reads_only(*index),
        Inst::LoadPtr { ptr } => reads_only(*ptr),
        _ => false,
    }
}

/// An instruction whose operand trees only read.
pub open spec fn operands_read_only(i: Inst) -> bool {
    match i {
        Inst::Store { value, .. } => reads_only(*value),
        Inst::Return { value } => match value {
            Some(v) => reads_only(*v),
            None => true,
        },
        Inst::Branch { condition, .. } => reads_only(*condition),
        Inst::Jump { .. } => true,
        _ => reads_only(i),
    }
}

/// Evaluating a tree that only reads leaves the machine as it was.
pub proof fn lemma_reading_keeps_state(m: ModuleModel, i: Inst, s: Machine, d: u32)
    requires
        reads_only(i),
    ensures
        eval(m, i, s, d) matches Ok((v, s2)) ==> s2 == s,
    decreases i,
{
    match i {
        Inst::BinaryOp { lhs, rhs, .. } | Inst::Compare { lhs, rhs, .. } => {
            lemma_reading_keeps_state(m, *lhs, s, d);
            lemma_reading_keeps_state(m, *rhs, s, d);
        },
        Inst::GetElementPtr { base, index } => {
            lemma_reading_keeps_state(m, *base, s, d);
            lemma_reading_keeps_state(m, *index, s, d);
        },
        Inst::LoadPtr { ptr } => {
            lemma_reading_keeps_state(m, *ptr, s, d);
        },
        _ => {},
    }
}

/// Simplifying a tree that only reads gives one that only reads.
pub proof fn lemma_simplify_reads_only(i: Inst)
    requires
        reads_only(i),
    ensures
        reads_only(simplify(i).0),
    decreases i,
{
    match i {
        Inst::BinaryOp { lhs, rhs, .. } | Inst::Compare { lhs, rhs, .. } => {
            lemma_simplify_reads_only(*lhs);
            lemma_simplify_reads_only(*rhs);
        },
        Inst::GetElementPtr { base, index } => {
            lemma_simplify_reads_only(*base);
            lemma_simplify_reads_only(*index);
        },
        Inst::LoadPtr { ptr } => {
            lemma_simplify_reads_only(*ptr);
        },
        _ => {},
    }
}

/// Wrapping multiplication by one and addition of zero give the other operand.
pub proof fn lemma_identities(x: i64)
    ensures
        arith(BinaryOp::Mul, 1, x) == Some(x),
        arith(BinaryOp::Mul, x, 1) == Some(x),
        arith(BinaryOp::Mul, 0, x) == Some(0i64),
        arith(BinaryOp::Mul, x, 0) == Some(0i64),
        arith(BinaryOp::Add, 0, x) == Some(x),
        arith(BinaryOp::Add, x, 0) == Some(x),
{
    assert(1 * x == x);
    assert(x * 1 == x);
    assert(0 * x == 0);
    assert(x * 0 == 0);
    if x < 0 {
        assert((x as int) % 0x1_0000_0000_0000_0000 == x + 0x1_0000_0000_0000_0000);
    } else {
        assert((x as int) % 0x1_0000_0000_0000_0000 == x);
    }
}

/// Simplifying a tree that only reads keeps its value wherever it evaluates without error.
pub proof fn lemma_simplify_keeps_value(m: ModuleModel, i: Inst, s: Machine, d: u32)
    requires
        reads_only(i),
        eval(m, i, s, d) is Ok,
    ensures
        eval(m, simplify(i).0, s, d) == eval(m, i, s, d),
    decreases i,
{
    lemma_reading_keeps_state(m, i, s, d);
    match i {
        Inst::BinaryOp { op, lhs, rhs } => {
            lemma_reading_keeps_state(m, *lhs, s, d);
            lemma_simplify_keeps_value(m, *lhs, s, d);
            lemma_reading_keeps_state(m, *rhs, s, d);
            lemma_simplify_keeps_value(m, *rhs, s, d);
            let (l, cl) = simplify(*lhs);
            let (r, cr) = simplify(*rhs);
            let a = eval(m, *lhs, s, d)->Ok_0.0;
            let b = eval(m, *rhs, s, d)->Ok_0.0;
            lemma_identities(a);
            lemma_identities(b);
            if l == (Inst::Constant { value: 1 }) || l == (Inst::Constant { value: 0 }) {
                assert(eval(m, l, s, d) == Ok::<(i64, Machine), crate::interpreter::Fault>((l->Constant_value, s)));
            }
            if r == (Inst::Constant { value: 1 }) || r == (Inst::Constant { value: 0 }) {
                assert(eval(m, r, s, d) == Ok::<(i64, Machine), crate::interpreter::Fault>((r->Constant_value, s)));
            }
        },
        Inst::Compare { lhs, rhs, .. } => {
            lemma_reading_keeps_state(m, *lhs, s, d);
            lemma_simplify_keeps_value(m, *lhs, s, d);
            lemma_reading_keeps_state(m, *rhs, s, d);
            lemma_simplify_keeps_value(m, *rhs, s, d);
        },
        Inst::GetElementPtr { base, index } => {
            lemma_reading_keeps_state(m, *base, s, d);
            lemma_simplify_keeps_value(m, *base, s, d);
            lemma_reading_keeps_state(m, *index, s, d);
            lemma_simplify_keeps_value(m, *index, s, d);
        },
        Inst::LoadPtr { ptr } => {
            lemma_simplify_keeps_value(m, *ptr, s, d);
        },
        _ => {},
    }
}

/// Strength reduction keeps what an instruction computes and the state it leaves, wherever
/// the instruction runs without error and its operands only read. (An identity such as
/// `0 * x` drops `x`, so an operand that stores, calls or fails can behave differently.)
pub proof fn law_strength_reduction_preserves_eval(m: ModuleModel, i: Inst, s: Machine, d: u32)
    requires
        operands_read_only(i),
        eval(m, i, s, d) is Ok,
    ensures
        eval(m, simplify(i).0, s, d) == eval(m, i, s, d),
{
    match i {
        Inst::Store { value, .. } => {
            lemma_simplify_keeps_value(m, *value, s, d);
        },
        Inst::Return { value } => match value {
            Some(v) => {
                lemma_simplify_keeps_value(m, *v, s, d);
            },
            None => {},
        },
        Inst::Branch { condition, .. } => {},
        Inst::Jump { .. } => {},
        _ => {
            lemma_simplify_keeps_value(m, i, s, d);
        },
    }
}

/// `simplify_list` works element by element.
pub proof fn lemma_simplify_list(s: Seq<Inst>)
    ensures
        simplify_list(s).0.len() == s.len(),
        forall|k: int| 0 <= k < s.len() ==> #[trigger] simplify_list(s).0[k] == simplify(s[k]).0,
        simplify_list(s).1 == exists|k: int| 0 <= k < s.len() && #[trigger] simplify(s[k]).1,
    decreases s.len(),
{
    if s.len() > 0 {
        lemma_simplify_list(s.drop_first());
        assert forall|k: int| 0 < k < s.len() implies #[trigger] s[k] == s.drop_first()[k - 1] by {}
        if simplify_list(s).1 {
            if !simplify(s[0]).1 {
                let k = choose|k: int| 0 <= k < s.len() - 1 && #[trigger] simplify(s.drop_first()[k]).1;
                assert(simplify(s[k + 1]).1);
            }
        }
        if exists|k: int| 0 <= k < s.len() && #[trigger] simplify(s[k]).1 {
            let k = choose|k: int| 0 <= k < s.len() && #[trigger] simplify(s[k]).1;
            if k > 0 {
                assert(simplify(s.drop_first()[k - 1]).1);
            }
        }
    }
}

/// Each identity applies whatever the other operand is: `x + 0`, `0 + x`, `x * 1` and `1 * x`
/// reduce to `x`, and `x * 0` and `0 * x` reduce to `0`.
pub proof fn law_identities_apply(x: Inst)
    ensures
        reduce(BinaryOp::Add, x, Inst::Constant { value: 0 }) == Some(x),
        reduce(BinaryOp::Add, Inst::Constant { value: 0 }, x) == Some(x),
        reduce(BinaryOp::Mul, x, Inst::Constant { value: 1 }) == Some(x),
        reduce(BinaryOp::Mul, Inst::Constant { value: 1 }, x) == Some(x),
        reduce(BinaryOp::Mul, x, Inst::Constant { value: 0 }) == Some(Inst::Constant { value: 0 }),
        reduce(BinaryOp::Mul, Inst::Constant { value: 0 }, x) == Some(Inst::Constant { value: 0 }),
{
}

/// Arithmetic that one of the identities fits: an addition with a zero operand, or a
/// multiplication with a zero or one operand.
pub open spec fn is_identity(op: BinaryOp, l: Inst, r: Inst) -> bool {
    let zero = Inst::Constant { value: 0 };
    let one = Inst::Constant { value: 1 };
    ||| op == BinaryOp::Add && (l == zero || r == zero)
    ||| op == BinaryOp::Mul && (l == zero || l == one || r == zero || r == one)
}

/// Whether an identity pattern occurs anywhere in an instruction tree.
pub open spec fn identity_in(i: Inst) -> bool
    decreases i,
{
    match i {
        Inst::BinaryOp { op, lhs, rhs } => is_identity(op, *lhs, *rhs) || identity_in(*lhs) || identity_in(*rhs),
        Inst::Store { value, .. } => identity_in(*value),
        Inst::Compare { lhs, rhs, .. } => identity_in(*lhs) || identity_in(*rhs),
        Inst::Branch { condition, .. } => identity_in(*condition),
        Inst::Return { value } => match value {
            Some(v) => identity_in(*v),
            None => false,
        },
        Inst::Call { args, .. } => identity_in_list(args),
        Inst::GetElementPtr { base, index } => identity_in(*base) || identity_in(*index),
        Inst::LoadPtr { ptr } => identity_in(*ptr),
        Inst::StorePtr { ptr, value } => identity_in(*ptr) || identity_in(*value),
        _ => false,
    }
}

/// Whether an identity pattern occurs in some tree of a list.
pub open spec fn identity_in_list(s: Seq<Inst>) -> bool
    decreases s,
{
    if s.len() == 0 {
        false
    } else {
        identity_in(s[0]) || identity_in_list(s.drop_first())
    }
}

/// After simplification no identity pattern is left anywhere in the tree.
pub proof fn law_simplify_leaves_no_identity(i: Inst)
    ensures
        !identity_in(simplify(i).0),
    decreases i,
{
    match i {
        Inst::BinaryOp { lhs, rhs, .. } | Inst::Compare { lhs, rhs, .. } => {
            law_simplify_leaves_no_identity(*lhs);
            law_simplify_leaves_no_identity(*rhs);
        },
        Inst::GetElementPtr { base, index } => {
            law_simplify_leaves_no_identity(*base);
            law_simplify_leaves_no_identity(*index);
        },
        Inst::StorePtr { ptr, value } => {
            law_simplify_leaves_no_identity(*ptr);
            law_simplify_leaves_no_identity(*value);
        },
        Inst::Store { value, .. } => {
            law_simplify_leaves_no_identity(*value);
        },
        Inst::Branch { condition, .. } => {
            law_simplify_leaves_no_identity(*condition);
        },
        Inst::Return { value } => match value {
            Some(v) => {
                law_simplify_leaves_no_identity(*v);
            },
            None => {},
        },
        Inst::Call { args, .. } => {
            lemma_simplify_list_leaves_no_identity(args);
        },
        Inst::LoadPtr { ptr } => {
            law_simplify_leaves_no_identity(*ptr);
        },
        _ => {},
    }
}

/// After simplification no identity pattern is left in any tree of a list.
pub proof fn lemma_simplify_list_leaves_no_identity(s: Seq<Inst>)
    ensures
        !identity_in_list(simplify_list(s).0),
    decreases s,
{
    if s.len() > 0 {
        law_simplify_leaves_no_identity(s[0]);
        lemma_simplify_list_leaves_no_identity(s.drop_first());
        let h = simplify(s[0]).0;
        let t = simplify_list(s.drop_first()).0;
        assert((seq![h] + t).drop_first() =~= t);
        assert((seq![h] + t)[0] == h);
    }
}

/// Whether an instruction holds an identity pattern anywhere.
pub open spec fn identity_found() -> spec_fn(Inst) -> bool {
    |i: Inst| identity_in(i)
}

/// After the pass no instruction of the module holds an identity pattern.
pub proof fn law_strength_reduction_leaves_no_identity(m: ModuleModel)
    ensures
        !module_any(map_module(m, simplify_map()), identity_found()),
{
    let m1 = map_module(m, simplify_map());
    if module_any(m1, identity_found()) {
        let k = choose|k: int| 0 <= k < m1.functions.len() && #[trigger] crate::passes::function_any(m1.functions[k], identity_found());
        let bi = choose|bi: int| 0 <= bi < m1.functions[k].blocks.len() && #[trigger] crate::passes::block_any(m1.functions[k].blocks[bi], identity_found());
        let j = choose|j: int| 0 <= j < m1.functions[k].blocks[bi].insts.len() && #[trigger] identity_found()(m1.functions[k].blocks[bi].insts[j]);
        assert(m1.functions[k] == map_function(m.functions[k], simplify_map()));
        assert(m1.functions[k].blocks[bi] == map_block(m.functions[k].blocks[bi], simplify_map()));
        law_simplify_leaves_no_identity(m.functions[k].blocks[bi].insts[j]);
    }
}

/// The instruction simplification leaves.
pub open spec fn simplify_map() -> spec_fn(Inst) -> Inst {
    |i: Inst| simplify(i).0
}

/// Whether simplification changes an instruction.
pub open spec fn simplify_changes() -> spec_fn(Inst) -> bool {
    |i: Inst| simplify(i).1
}

/// Simplifies algebraic identities anywhere in instruction trees.
pub struct StrengthReductionPass;

impl StrengthReductionPass {
    /// The pass.
    pub fn new() -> (r: Self) {
        StrengthReductionPass
    }

    /// The simplified form of `lhs op rhs`, when an identity applies.
    pub fn reduce_binary_op(op: BinaryOp, lhs: &Instruction, rhs: &Instruction) -> (r: Option<
        Instruction,
    >)
        ensures
            match reduce(op, lhs@, rhs@) {
                Some(x) => r matches Some(y) && y@ == x,
                None => r is None,
            },
    {
        match op {
            BinaryOp::Mul => {
                if let Instruction::Constant { value: l_val } = lhs {
                    if *l_val == 1 {
                        return Some(rhs.copy());
                    }
                    if *l_val == 0 {
                        return Some(Instruction::Constant { value: 0 });
                    }
                }
                if let Instruction::Constant { value: r_val } = rhs {
                    if *r_val == 1 {
                        return Some(lhs.copy());
                    }
                    if *r_val == 0 {
                        return Some(Instruction::Constant { value: 0 });
                    }
                }
            },
            BinaryOp::Add => {
                if let Instruction::Constant { value: l_val } = lhs {
                    if *l_val == 0 {
                        return Some(rhs.copy());
                    }
                }
                if let Instruction::Constant { value: r_val } = rhs {
                    if *r_val == 0 {
                        return Some(lhs.copy());
                    }
                }
            },
            _ => {},
        }
        None
    }

    /// Simplifies an instruction tree in place, children first; whether anything changed.
    pub fn simplify_tree(inst: &mut Instruction) -> (changed: bool)
        ensures
            (final(inst)@, changed) == simplify(old(inst)@),
    {
        let mut tmp = Instruction::Constant { value: 0 };
        std::mem::swap(&mut tmp, inst);
        let (r, c) = simplify_value(tmp);
        *inst = r;
        c
    }
}

/// Simplifies an instruction given by value.
fn simplify_value(inst: Instruction) -> (r: (Instruction, bool))
    ensures
        (r.0@, r.1) == simplify(inst@),
    decreases inst_size(inst@),
{
    let ghost whole = inst;
    match inst {
        Instruction::BinaryOp { op, lhs, rhs } => {
            let (l, cl) = simplify_value(*lhs);
            let (r, cr) = simplify_value(*rhs);
            match StrengthReductionPass::reduce_binary_op(op, &l, &r) {
                Some(x) => (x, true),
                None => (Instruction::BinaryOp { op, lhs: Box::new(l), rhs: Box::new(r) }, cl || cr),
            }
        },
        Instruction::Store { var_name, value } => {
            let (v, c) = simplify_value(*value);
            (Instruction::Store { var_name, value: Box::new(v) }, c)
        },
        Instruction::Compare { condition, lhs, rhs } => {
            let (l, cl) = simplify_value(*lhs);
            let (r, cr) = simplify_value(*rhs);
            (Instruction::Compare { condition, lhs: Box::new(l), rhs: Box::new(r) }, cl || cr)
        },
        Instruction::Branch { condition, then_label, else_label } => {
            let (c, cc) = simplify_value(*condition);
            (Instruction::Branch { condition: Box::new(c), then_label, else_label }, cc)
        },
        Instruction::Return { value } => match value {
            Some(v) => {
                let (w, c) = simplify_value(*v);
                (Instruction::Return { value: Some(Box::new(w)) }, c)
            },
            None => (Instruction::Return { value: None }, false),
        },
        Instruction::Call { function_name, args } => {
            let ghost orig = args@;
            proof {
                lemma_arg_models(orig);
                lemma_simplify_list(arg_models(orig));
            }
            let mut rest = args;
            let mut out: Vec<Box<Instruction>> = Vec::new();
            let mut changed = false;
            let ghost mut i: int = 0;
            proof {
                assert(orig.skip(0) =~= orig);
            }
            while rest.len() > 0
                invariant
                    0 <= i <= orig.len(),
                    rest@ == orig.skip(i),
                    out@.len() == i,
                    whole == (Instruction::Call { function_name: whole->function_name, args: whole->args }),
                    whole == inst,
                    whole->args@ == orig,
                    arg_models(orig).len() == orig.len(),
                    forall|k: int| 0 <= k < orig.len() ==> #[trigger] arg_models(orig)[k] == orig[k].model(),
                    simplify_list(arg_models(orig)).0.len() == orig.len(),
                    forall|k: int| 0 <= k < orig.len() ==> #[trigger] simplify_list(arg_models(orig)).0[k]
                        == simplify(arg_models(orig)[k]).0,
                    simplify_list(arg_models(orig)).1 == exists|k: int|
                        0 <= k < orig.len() && #[trigger] simplify(arg_models(orig)[k]).1,
                    forall|k: int| 0 <= k < i ==> #[trigger] out@[k].model() == simplify(orig[k].model()).0,
                    changed == exists|k: int| 0 <= k < i && #[trigger] simplify(arg_models(orig)[k]).1,
                decreases rest.len(),
            {
                let a = rest.remove(0);
                proof {
                    assert(a == orig[i]);
                    lemma_list_size_elem(arg_models(orig), i);
                    assert(inst_size(whole@) == 1 + list_size(arg_models(orig)));
                    assert(orig.skip(i + 1) =~= orig.skip(i).drop_first());
                }
                let (x, c) = simplify_value(*a);
                out.push(Box::new(x));
                assert(c == simplify(arg_models(orig)[i]).1);
                changed = changed || c;
                proof {
                    i = i + 1;
                }
            }
            proof {
                lemma_arg_models(out@);
                assert(arg_models(out@) =~= simplify_list(arg_models(orig)).0);
            }
            (Instruction::Call { function_name, args: out }, changed)
        },
        Instruction::GetElementPtr { base, index } => {
            let (b, cb) = simplify_value(*base);
            let (x, cx) = simplify_value(*index);
            (Instruction::GetElementPtr { base: Box::new(b), index: Box::new(x) }, cb || cx)
        },
        Instruction::LoadPtr { ptr } => {
            let (p, c) = simplify_value(*ptr);
            (Instruction::LoadPtr { ptr: Box::new(p) }, c)
        },
        Instruction::StorePtr { ptr, value } => {
            let (p, cp) = simplify_value(*ptr);
            let (v, cv) = simplify_value(*value);
            (Instruction::StorePtr { ptr: Box::new(p), value: Box::new(v) }, cp || cv)
        },
        other => (other, false),
    }
}

impl Pass for StrengthReductionPass {
    open spec fn accepts(&self, m: ModuleModel) -> bool {
        true
    }

    open spec fn outcome(&self, m: ModuleModel) -> (ModuleModel, bool) {
        (map_module(m, simplify_map()), module_any(m, simplify_changes()))
    }

    fn id(&self) -> (r: &'static str)
        ensures
            r@ == "strength_reduction"@,
    {
        "strength_reduction"
    }

    fn name(&self) -> (r: &'static str)
        ensures
            r@ == "Strength Reduction"@,
    {
        "Strength Reduction"
    }

    fn description(&self) -> (r: &'static str)
        ensures
            r@ == "Simplifies algebraic identities (x*1, x*0, x+0) anywhere in an instruction tree"@,
    {
        "Simplifies algebraic identities (x*1, x*0, x+0) anywhere in an instruction tree"
    }

    fn safety(&self) -> (r: PassSafety)
        ensures
            r == PassSafety::Risky,
    {
        PassSafety::Risky
    }

    fn run(&self, module: &mut Module) -> (r: Result<bool, PassError>) {
        let f = |i: Instruction| -> (r: (Instruction, bool))
            ensures
                r.0@ == simplify(i@).0,
                r.1 == simplify(i@).1,
            { simplify_value(i) };
        let changed = rewrite_module(module, &f, Ghost(simplify_map()), Ghost(simplify_changes()));
        Ok(changed)
    }

    fn get_param(&self, name: &str) -> (r: Option<i32>)
        ensures
            r is None,
    {
        None
    }

    fn set_param(&mut self, name: &str, value: i32) -> (r: bool)
        ensures
            !r,
    {
        false
    }

    fn descriptor(&self) -> (r: PassDescriptor)
        ensures
            r.id@ == "strength_reduction"@,
            r.safety == PassSafety::Risky,
            r.params@ == Map::<Seq<char>, crate::passes::ParamRange>::empty(),
    {
        PassDescriptor::new(
            "strength_reduction",
            "Strength Reduction",
            "Simplifies algebraic identities (x*1, x*0, x+0) anywhere in an instruction tree",
            PassSafety::Risky,
            Vec::new(),
        )
    }
}

/// Every instruction of the module has operands that only read.
pub open spec fn all_operands_read_only(m: ModuleModel) -> bool {
    forall|k: int, bi: int, j: int|
        0 <= k < m.functions.len() && 0 <= bi < m.functions[k].blocks.len() && 0 <= j
            < m.functions[k].blocks[bi].insts.len() ==> operands_read_only(
            #[trigger] m.functions[k].blocks[bi].insts[j],
        )
}

/// A tree that only reads evaluates alike in any two modules.
pub proof fn lemma_reading_ignores_module(m1: ModuleModel, m2: ModuleModel, i: Inst, s: Machine, d: u32)
    requires
        reads_only(i),
    ensures
        eval(m1, i, s, d) == eval(m2, i, s, d),
    decreases i,
{
    match i {
        Inst::BinaryOp { lhs, rhs, .. } | Inst::Compare { lhs, rhs, .. } => {
            lemma_reading_ignores_module(m1, m2, *lhs, s, d);
            if let Ok((a, s1)) = eval(m1, *lhs, s, d) {
                lemma_reading_ignores_module(m1, m2, *rhs, s1, d);
            }
        },
        Inst::GetElementPtr { base, index } => {
            lemma_reading_ignores_module(m1, m2, *base, s, d);
            if let Ok((a, s1)) = eval(m1, *base, s, d) {
                lemma_reading_ignores_module(m1, m2, *index, s1, d);
            }
        },
        Inst::LoadPtr { ptr } => {
            lemma_reading_ignores_module(m1, m2, *ptr, s, d);
        },
        _ => {},
    }
}

/// An instruction whose operands only read evaluates alike in any two modules.
pub proof fn lemma_operands_ignore_module(m1: ModuleModel, m2: ModuleModel, i: Inst, s: Machine, d: u32)
    requires
        operands_read_only(i),
    ensures
        eval(m1, i, s, d) == eval(m2, i, s, d),
{
    match i {
        Inst::Store { value, .. } => {
            lemma_reading_ignores_module(m1, m2, *value, s, d);
        },
        Inst::Return { value } => match value {
            Some(v) => {
                lemma_reading_ignores_module(m1, m2, *v, s, d);
            },
            None => {},
        },
        Inst::Branch { .. } | Inst::Jump { .. } => {},
        _ => {
            lemma_reading_ignores_module(m1, m2, i, s, d);
        },
    }
}

/// Simplification keeps an instruction's kind: terminators stay the same terminators, with
/// the same labels.
pub proof fn lemma_simplify_keeps_kind(i: Inst)
    requires
        operands_read_only(i),
    ensures
        is_terminator_model(simplify(i).0) == is_terminator_model(i),
        (simplify(i).0 is Return) == (i is Return),
        i matches Inst::Jump { label } ==> simplify(i).0 == i,
        i matches Inst::Branch { condition, then_label, else_label } ==> simplify(i).0 == (Inst::Branch {
            condition: Box::new(simplify(*condition).0),
            then_label,
            else_label,
        }),
{
    if let Inst::BinaryOp { op, lhs, rhs } = i {
        lemma_simplify_reads_only(*lhs);
        lemma_simplify_reads_only(*rhs);
    }
}

/// The module after strength reduction.
pub open spec fn reduced(m: ModuleModel) -> ModuleModel {
    map_module(m, simplify_map())
}

/// Strength reduction keeps where each block name leads.
pub proof fn lemma_reduced_blocks_found_alike(bs: Seq<BlockModel>, name: Seq<char>)
    ensures
        find_last_block(bs.map_values(|b: BlockModel| map_block(b, simplify_map())), name) == find_last_block(
            bs,
            name,
        ),
    decreases bs.len(),
{
    let g = |b: BlockModel| map_block(b, simplify_map());
    if bs.len() > 0 {
        assert(bs.map_values(g).drop_last() =~= bs.drop_last().map_values(g));
        lemma_reduced_blocks_found_alike(bs.drop_last(), name);
    }
}

/// Running from a position of a block, when it gives a value, gives the same after strength
/// reduction, in a module whose operands only read.
pub proof fn lemma_reduced_run(m: ModuleModel, k: int, name: Seq<char>, j: nat, start: nat, s: Machine, d: u32)
    requires
        0 <= k < m.functions.len(),
        all_operands_read_only(m),
    ensures
        run(m, m.functions[k], name, j, start, s, d) matches Ok(r) ==> run(
            reduced(m),
            reduced(m).functions[k],
            name,
            j,
            start,
            s,
            d,
        ) == Ok::<(i64, Seq<i64>), crate::interpreter::Fault>(r),
    decreases step_budget(start), 2nat, block_rest(m.functions[k], name, j),
{
    let f = m.functions[k];
    let rf = reduced(m).functions[k];
    assert(rf == map_function(f, simplify_map()));
    lemma_reduced_blocks_found_alike(f.blocks, name);
    lemma_find_last_block(f.blocks, name);
    if start <= MAX_INSTRUCTIONS {
        if let Some(bi) = find_last_block(f.blocks, name) {
            let b = f.blocks[bi];
            let rb = rf.blocks[bi];
            assert(rb == map_block(b, simplify_map()));
            if j < b.insts.len() {
                let inst = b.insts[j as int];
                assert(operands_read_only(m.functions[k].blocks[bi].insts[j as int]));
                assert(rb.insts[j as int] == simplify(inst).0);
                lemma_simplify_keeps_kind(inst);
                if let Ok((v, s1)) = eval(m, inst, s, d) {
                    law_strength_reduction_preserves_eval(m, inst, s, d);
                    lemma_simplify_reads_operands(inst);
                    lemma_operands_ignore_module(m, reduced(m), simplify(inst).0, s, d);
                    if is_terminator_model(inst) {
                        if !(inst is Return) {
                            lemma_reduced_leave(m, k, bi, start, j + 1, s1, d);
                        }
                    } else {
                        lemma_reduced_run(m, k, name, j + 1, start, s1, d);
                    }
                }
            } else {
                lemma_reduced_leave(m, k, bi, start, j, s, d);
            }
        }
    }
}

/// Leaving a block, when it gives a value, gives the same after strength reduction, in a
/// module whose operands only read.
pub proof fn lemma_reduced_leave(m: ModuleModel, k: int, bi: int, start: nat, executed: nat, s: Machine, d: u32)
    requires
        0 <= k < m.functions.len(),
        0 <= bi < m.functions[k].blocks.len(),
        all_operands_read_only(m),
    ensures
        leave(m, m.functions[k], m.functions[k].blocks[bi], start, executed, s, d) matches Ok(r) ==> leave(
            reduced(m),
            reduced(m).functions[k],
            reduced(m).functions[k].blocks[bi],
            start,
            executed,
            s,
            d,
        ) == Ok::<(i64, Seq<i64>), crate::interpreter::Fault>(r),
    decreases step_budget(start), 1nat, 0nat,
{
    let f = m.functions[k];
    let rf = reduced(m).functions[k];
    assert(rf == map_function(f, simplify_map()));
    let b = f.blocks[bi];
    let rb = rf.blocks[bi];
    assert(rb == map_block(b, simplify_map()));
    if start <= MAX_INSTRUCTIONS && b.insts.len() > 0 && executed > 0 {
        let last = b.insts.last();
        assert(rb.insts.last() == simplify(last).0);
        lemma_simplify_keeps_kind(last);
        match last {
            Inst::Branch { condition, then_label, else_label } => {
                if let Ok((c, s1)) = eval(m, *condition, s, d) {
                    assert(operands_read_only(m.functions[k].blocks[bi].insts[b.insts.len() - 1]));
                    lemma_branch_condition(m, *condition, s, d);
                    lemma_reading_ignores_module(m, reduced(m), simplify(*condition).0, s, d);
                    lemma_reduced_run(m, k, if c != 0 { then_label } else { else_label }, 0, start + executed, s1, d);
                }
            },
            Inst::Jump { label } => {
                lemma_reduced_run(m, k, label, 0, start + executed, s, d);
            },
            _ => {},
        }
    }
}

/// A branch condition that only reads keeps its value under simplification.
pub proof fn lemma_branch_condition(m: ModuleModel, c: Inst, s: Machine, d: u32)
    requires
        reads_only(c),
        eval(m, c, s, d) is Ok,
    ensures
        reads_only(simplify(c).0),
        eval(m, simplify(c).0, s, d) == eval(m, c, s, d),
{
    lemma_simplify_reads_only(c);
    lemma_simplify_keeps_value(m, c, s, d);
}

/// Simplifying an instruction whose operands only read gives one whose operands only read.
pub proof fn lemma_simplify_reads_operands(i: Inst)
    requires
        operands_read_only(i),
    ensures
        operands_read_only(simplify(i).0),
{
    match i {
        Inst::Store { value, .. } => {
            lemma_simplify_reads_only(*value);
        },
        Inst::Return { value } => match value {
            Some(v) => {
                lemma_simplify_reads_only(*v);
            },
            None => {},
        },
        Inst::Branch { condition, .. } => {
            lemma_simplify_reads_only(*condition);
        },
        Inst::Jump { .. } => {},
        _ => {
            lemma_simplify_reads_only(i);
            lemma_simplify_keeps_kind(i);
        },
    }
}

/// Strength reduction keeps what every function gives, in a module where every operand
/// only reads (no calls, no stores inside expressions): a function that gives a value on
/// some arguments gives the same one after the pass. (`0 * x` drops `x`, so an operand that
/// called, stored or failed could change the outcome.)
pub proof fn law_strength_reduction_keeps_results(m: ModuleModel, k: int, args: Seq<i64>)
    requires
        0 <= k < m.functions.len(),
        all_operands_read_only(m),
    ensures
        execute(m, m.functions[k], args) matches Ok(v) ==> execute(reduced(m), reduced(m).functions[k], args)
            == Ok::<i64, crate::interpreter::Fault>(v),
{
    let f = m.functions[k];
    let rf = reduced(m).functions[k];
    assert(rf == map_function(f, simplify_map()));
    if f.blocks.len() > 0 {
        lemma_reduced_run(
            m,
            k,
            f.blocks[0].name,
            0,
            0,
            Machine { env: crate::interpreter::bind(f.params, args), heap: Seq::empty() },
            0,
        );
    }
}

} // verus!
