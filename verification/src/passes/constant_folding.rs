use vstd::prelude::*;
use vstd::hash_map::StringHashMap;
use crate::interpreter::{
    MAX_CALL_DEPTH, MAX_INSTRUCTIONS, Machine, arith, block_rest, call, depth_budget, eval, eval_args,
    execute, find_last_block, inst_size, leave, list_size, run, step_budget,
};
use crate::ir::basic_block::BlockModel;
use crate::ir::function::FunctionModel;
use crate::ir::module::find_function;
use crate::ir::value::is_terminator_model;
use crate::passes::{map_block, map_function};
use crate::ir::module::{Module, ModuleModel};
use crate::ir::value::{BinaryOp, Inst, Instruction};
use crate::passes::{
    ParamRange, Pass, PassDescriptor, params_by_name, PassError, PassSafety, map_module, module_any,
    lemma_map_module_shape, lemma_same_shape_trans, same_shape, rewrite_module,
};
use crate::text::string_of;

verus! {

/// Bottom-up folding of arithmetic on two constants; whether anything was folded.
/// Division by a zero constant is left in place.
pub open spec fn fold(i: Inst) -> (Inst, bool)
    decreases i,
{
    match i {
        Inst::BinaryOp { op, lhs, rhs } => {
            let (l, cl) = fold(*lhs);
            let (r, cr) = fold(*rhs);
            let kept = Inst::BinaryOp { op, lhs: Box::new(l), rhs: Box::new(r) };
            match (l, r) {
                (Inst::Constant { value: a }, Inst::Constant { value: b }) => match arith(op, a, b) {
                    Some(v) => (Inst::Constant { value: v }, true),
                    None => (kept, cl || cr),
                },
                _ => (kept, cl || cr),
            }
        },
        Inst::Store { var_name, value } => {
            let (v, c) = fold(*value);
            (Inst::Store { var_name, value: Box::new(v) }, c)
        },
        Inst::Return { value } => match value {
            Some(v) => {
                let (w, c) = fold(*v);
                (Inst::Return { value: Some(Box::new(w)) }, c)
            },
            None => (i, false),
        },
        Inst::Compare { condition, lhs, rhs } => {
            let (l, cl) = fold(*lhs);
            let (r, cr) = fold(*rhs);
            (Inst::Compare { condition, lhs: Box::new(l), rhs: Box::new(r) }, cl || cr)
        },
        Inst::Branch { condition, then_label, else_label } => {
            let (c, cc) = fold(*condition);
            (Inst::Branch { condition: Box::new(c), then_label, else_label }, cc)
        },
        _ => (i, false),
    }
}

/// The instruction folding leaves.
pub open spec fn fold_map() -> spec_fn(Inst) -> Inst {
    |i: Inst| fold(i).0
}

/// Whether folding changes an instruction.
pub open spec fn fold_changes() -> spec_fn(Inst) -> bool {
    |i: Inst| fold(i).1
}

/// Up to `n` rounds of folding over the whole module, stopping after a round that
/// changes nothing; whether the first round changed anything.
pub open spec fn fold_rounds(m: ModuleModel, n: int) -> (ModuleModel, bool)
    decreases n,
{
    if n <= 0 {
        (m, false)
    } else {
        let m1 = map_module(m, fold_map());
        if !module_any(m, fold_changes()) {
            (m1, false)
        } else {
            (fold_rounds(m1, n - 1).0, true)
        }
    }
}

/// Constant folding rewrites instructions in place: every function and block stays, with as
/// many instructions as before.
pub proof fn law_folding_keeps_shape(m: ModuleModel, n: int)
    ensures
        same_shape(m, fold_rounds(m, n).0),
    decreases n,
{
    if n > 0 {
        let m1 = map_module(m, fold_map());
        lemma_map_module_shape(m, fold_map());
        law_folding_keeps_shape(m1, n - 1);
        lemma_same_shape_trans(m, m1, fold_rounds(m1, n - 1).0);
    } else {
        assert(same_shape(m, m));
    }
}

/// Folding reports a change exactly when it changes the tree, and folding what it left
/// changes nothing more.
pub proof fn lemma_fold_honest_and_final(i: Inst)
    ensures
        fold(i).1 == (fold(i).0 != i),
        fold(fold(i).0) == (fold(i).0, false),
    decreases i,
{
    match i {
        Inst::BinaryOp { op, lhs, rhs } => {
            lemma_fold_honest_and_final(*lhs);
            lemma_fold_honest_and_final(*rhs);
        },
        Inst::Store { value, .. } => {
            lemma_fold_honest_and_final(*value);
        },
        Inst::Return { value } => match value {
            Some(v) => {
                lemma_fold_honest_and_final(*v);
            },
            None => {},
        },
        Inst::Compare { lhs, rhs, .. } => {
            lemma_fold_honest_and_final(*lhs);
            lemma_fold_honest_and_final(*rhs);
        },
        Inst::Branch { condition, .. } => {
            lemma_fold_honest_and_final(*condition);
        },
        _ => {},
    }
}

/// One round of folding changes the module exactly when it reports a change, and folding
/// its result changes nothing.
pub proof fn lemma_fold_round_honest_and_final(m: ModuleModel)
    ensures
        module_any(m, fold_changes()) == (map_module(m, fold_map()) != m),
        !module_any(map_module(m, fold_map()), fold_changes()),
        map_module(map_module(m, fold_map()), fold_map()) == map_module(m, fold_map()),
{
    let m1 = map_module(m, fold_map());
    assert forall|k: int, bi: int, j: int|
        0 <= k < m.functions.len() && 0 <= bi < m.functions[k].blocks.len() && 0 <= j < m.functions[k].blocks[bi].insts.len()
        implies #[trigger] m1.functions[k].blocks[bi].insts[j] == fold(m.functions[k].blocks[bi].insts[j]).0 by {
        assert(m1.functions[k] == map_function(m.functions[k], fold_map()));
        assert(m1.functions[k].blocks[bi] == map_block(m.functions[k].blocks[bi], fold_map()));
    }
    if module_any(m, fold_changes()) {
        let k = choose|k: int| 0 <= k < m.functions.len() && #[trigger] crate::passes::function_any(m.functions[k], fold_changes());
        let bi = choose|bi: int| 0 <= bi < m.functions[k].blocks.len() && #[trigger] crate::passes::block_any(m.functions[k].blocks[bi], fold_changes());
        let j = choose|j: int| 0 <= j < m.functions[k].blocks[bi].insts.len() && #[trigger] fold_changes()(m.functions[k].blocks[bi].insts[j]);
        lemma_fold_honest_and_final(m.functions[k].blocks[bi].insts[j]);
        assert(m1.functions[k].blocks[bi].insts[j] != m.functions[k].blocks[bi].insts[j]);
    } else {
        assert forall|k: int| 0 <= k < m.functions.len() implies #[trigger] m1.functions[k] == m.functions[k] by {
            let f = m.functions[k];
            assert forall|bi: int| 0 <= bi < f.blocks.len() implies #[trigger] m1.functions[k].blocks[bi] == f.blocks[bi] by {
                assert(!crate::passes::function_any(f, fold_changes()));
                assert(!crate::passes::block_any(f.blocks[bi], fold_changes()));
                assert forall|j: int| 0 <= j < f.blocks[bi].insts.len() implies #[trigger] m1.functions[k].blocks[bi].insts[j]
                    == f.blocks[bi].insts[j] by {
                    assert(!fold_changes()(f.blocks[bi].insts[j]));
                    lemma_fold_honest_and_final(f.blocks[bi].insts[j]);
                }
                assert(m1.functions[k].blocks[bi].insts =~= f.blocks[bi].insts);
            }
            assert(m1.functions[k].blocks =~= f.blocks);
        }
        assert(m1.functions =~= m.functions);
    }
    let m2 = map_module(m1, fold_map());
    assert(!module_any(m1, fold_changes())) by {
        if module_any(m1, fold_changes()) {
            let k = choose|k: int| 0 <= k < m1.functions.len() && #[trigger] crate::passes::function_any(m1.functions[k], fold_changes());
            let bi = choose|bi: int| 0 <= bi < m1.functions[k].blocks.len() && #[trigger] crate::passes::block_any(m1.functions[k].blocks[bi], fold_changes());
            let j = choose|j: int| 0 <= j < m1.functions[k].blocks[bi].insts.len() && #[trigger] fold_changes()(m1.functions[k].blocks[bi].insts[j]);
            lemma_fold_honest_and_final(m.functions[k].blocks[bi].insts[j]);
        }
    }
    assert forall|k: int| 0 <= k < m1.functions.len() implies #[trigger] m2.functions[k] == m1.functions[k] by {
        let f = m1.functions[k];
        assert(m2.functions[k] == map_function(f, fold_map()));
        assert forall|bi: int| 0 <= bi < f.blocks.len() implies #[trigger] m2.functions[k].blocks[bi] == f.blocks[bi] by {
            assert(m2.functions[k].blocks[bi] == map_block(f.blocks[bi], fold_map()));
            assert forall|j: int| 0 <= j < f.blocks[bi].insts.len() implies #[trigger] m2.functions[k].blocks[bi].insts[j]
                == f.blocks[bi].insts[j] by {
                lemma_fold_honest_and_final(m.functions[k].blocks[bi].insts[j]);
            }
            assert(m2.functions[k].blocks[bi].insts =~= f.blocks[bi].insts);
        }
        assert(m2.functions[k].blocks =~= f.blocks);
    }
    assert(m2.functions =~= m1.functions);
}

/// Folding reports honestly and reaches its fixpoint at once: with at least one round, the
/// pass leaves the module folded once, reports a change exactly when that changed the
/// module, and folding again changes nothing and reports no change.
pub proof fn law_folding_honest_and_final(m: ModuleModel, n: int, again: int)
    requires
        n >= 1,
    ensures
        fold_rounds(m, n).0 == map_module(m, fold_map()),
        fold_rounds(m, n).1 == (fold_rounds(m, n).0 != m),
        again >= 1 ==> fold_rounds(fold_rounds(m, n).0, again) == (fold_rounds(m, n).0, false),
{
    lemma_fold_round_honest_and_final(m);
    let m1 = map_module(m, fold_map());
    if module_any(m, fold_changes()) {
        if n - 1 >= 1 {
            assert(fold_rounds(m1, n - 1) == (map_module(m1, fold_map()), false));
        }
    }
    assert(fold_rounds(m1, again) == (map_module(m1, fold_map()), false) || again < 1);
}

/// Arithmetic on two constants that has a value: any operator but a division by zero.
pub open spec fn foldable(i: Inst) -> bool {
    match i {
        Inst::BinaryOp { op, lhs, rhs } => match (*lhs, *rhs) {
            (Inst::Constant { .. }, Inst::Constant { value: b }) => !(op == BinaryOp::Div && b == 0),
            _ => false,
        },
        _ => false,
    }
}

/// Whether foldable arithmetic occurs where folding looks: the instruction itself, operands of
/// arithmetic and comparisons, stored and returned values, and branch conditions.
pub open spec fn foldable_in(i: Inst) -> bool
    decreases i,
{
    foldable(i) || match i {
        Inst::BinaryOp { lhs, rhs, .. } => foldable_in(*lhs) || foldable_in(*rhs),
        Inst::Compare { lhs, rhs, .. } => foldable_in(*lhs) || foldable_in(*rhs),
        Inst::Store { value, .. } => foldable_in(*value),
        Inst::Return { value } => match value {
            Some(v) => foldable_in(*v),
            None => false,
        },
        Inst::Branch { condition, .. } => foldable_in(*condition),
        _ => false,
    }
}

/// Whether an instruction holds foldable arithmetic where folding looks.
pub open spec fn foldable_found() -> spec_fn(Inst) -> bool {
    |i: Inst| foldable_in(i)
}

/// Arithmetic on two constants folds to the constant it evaluates to, whatever the state:
/// every operator, division by a non-zero constant included, is folded.
pub proof fn law_fold_constant_operands(m: ModuleModel, op: BinaryOp, a: i64, b: i64, s: Machine, d: u32)
    ensures
        ({
            let i = Inst::BinaryOp {
                op,
                lhs: Box::new(Inst::Constant { value: a }),
                rhs: Box::new(Inst::Constant { value: b }),
            };
            eval(m, i, s, d) matches Ok((v, _)) ==> fold(i) == (Inst::Constant { value: v }, true)
        }),
        !(op == BinaryOp::Div && b == 0) ==> ({
            let i = Inst::BinaryOp {
                op,
                lhs: Box::new(Inst::Constant { value: a }),
                rhs: Box::new(Inst::Constant { value: b }),
            };
            eval(m, i, s, d) is Ok && fold(i).0 is Constant
        }),
{
    reveal_with_fuel(eval, 2);
    reveal_with_fuel(fold, 2);
}

/// Folding leaves no foldable arithmetic behind in the positions it visits.
pub proof fn law_fold_leaves_nothing_foldable(i: Inst)
    ensures
        !foldable_in(fold(i).0),
    decreases i,
{
    match i {
        Inst::BinaryOp { op, lhs, rhs } => {
            law_fold_leaves_nothing_foldable(*lhs);
            law_fold_leaves_nothing_foldable(*rhs);
        },
        Inst::Compare { lhs, rhs, .. } => {
            law_fold_leaves_nothing_foldable(*lhs);
            law_fold_leaves_nothing_foldable(*rhs);
        },
        Inst::Store { value, .. } => {
            law_fold_leaves_nothing_foldable(*value);
        },
        Inst::Return { value } => match value {
            Some(v) => {
                law_fold_leaves_nothing_foldable(*v);
            },
            None => {},
        },
        Inst::Branch { condition, .. } => {
            law_fold_leaves_nothing_foldable(*condition);
        },
        _ => {},
    }
}

/// After the pass (at least one round), no instruction of the module holds foldable
/// arithmetic where folding looks.
pub proof fn law_folding_leaves_nothing_foldable(m: ModuleModel, n: int)
    requires
        n >= 1,
    ensures
        !module_any(fold_rounds(m, n).0, foldable_found()),
{
    law_folding_honest_and_final(m, n, 0);
    let m1 = map_module(m, fold_map());
    if module_any(m1, foldable_found()) {
        let k = choose|k: int| 0 <= k < m1.functions.len() && #[trigger] crate::passes::function_any(m1.functions[k], foldable_found());
        let bi = choose|bi: int| 0 <= bi < m1.functions[k].blocks.len() && #[trigger] crate::passes::block_any(m1.functions[k].blocks[bi], foldable_found());
        let j = choose|j: int| 0 <= j < m1.functions[k].blocks[bi].insts.len() && #[trigger] foldable_found()(m1.functions[k].blocks[bi].insts[j]);
        assert(m1.functions[k] == map_function(m.functions[k], fold_map()));
        assert(m1.functions[k].blocks[bi] == map_block(m.functions[k].blocks[bi], fold_map()));
        law_fold_leaves_nothing_foldable(m.functions[k].blocks[bi].insts[j]);
    }
}

/// Folding an instruction never changes what it evaluates to, in any state.
pub proof fn law_fold_preserves_eval(m: ModuleModel, i: Inst, s: Machine, d: u32)
    ensures
        eval(m, fold(i).0, s, d) == eval(m, i, s, d),
    decreases i,
{
    match i {
        Inst::BinaryOp { op, lhs, rhs } => {
            law_fold_preserves_eval(m, *lhs, s, d);
            let (l, cl) = fold(*lhs);
            match eval(m, *lhs, s, d) {
                Ok((a, s1)) => {
                    law_fold_preserves_eval(m, *rhs, s1, d);
                },
                Err(_) => {},
            }
            match eval(m, l, s, d) {
                Ok((a, s1)) => {
                    law_fold_preserves_eval(m, *rhs, s1, d);
                },
                Err(_) => {},
            }
            law_fold_preserves_eval(m, *rhs, s, d);
        },
        Inst::Compare { condition, lhs, rhs } => {
            law_fold_preserves_eval(m, *lhs, s, d);
            match eval(m, *lhs, s, d) {
                Ok((a, s1)) => {
                    law_fold_preserves_eval(m, *rhs, s1, d);
                },
                Err(_) => {},
            }
        },
        Inst::Store { var_name, value } => {
            law_fold_preserves_eval(m, *value, s, d);
        },
        Inst::Return { value } => match value {
            Some(v) => {
                law_fold_preserves_eval(m, *v, s, d);
            },
            None => {},
        },
        Inst::Branch { condition, .. } => {},
        _ => {},
    }
}

/// Folds an instruction given by value.
fn fold_value(inst: Instruction) -> (r: (Instruction, bool))
    ensures
        (r.0@, r.1) == fold(inst@),
    decreases inst,
{
    match inst {
        Instruction::BinaryOp { op, lhs, rhs } => {
            let (l, cl) = fold_value(*lhs);
            let (r, cr) = fold_value(*rhs);
            let folded: Option<i64> = match (&l, &r) {
                (Instruction::Constant { value: a }, Instruction::Constant { value: b }) => {
                    let a = *a;
                    let b = *b;
                    match op {
                        BinaryOp::Add => Some(a.wrapping_add(b)),
                        BinaryOp::Sub => Some(a.wrapping_sub(b)),
                        BinaryOp::Mul => Some(a.wrapping_mul(b)),
                        BinaryOp::Div => if b == 0 {
                            None
                        } else {
                            match a.checked_div(b) {
                                Some(q) => Some(q),
                                None => Some(i64::MIN),
                            }
                        },
                    }
                },
                _ => None,
            };
            match folded {
                Some(v) => (Instruction::Constant { value: v }, true),
                None => (Instruction::BinaryOp { op, lhs: Box::new(l), rhs: Box::new(r) }, cl || cr),
            }
        },
        Instruction::Store { var_name, value } => {
            let (v, c) = fold_value(*value);
            (Instruction::Store { var_name, value: Box::new(v) }, c)
        },
        Instruction::Return { value } => match value {
            Some(v) => {
                let (w, c) = fold_value(*v);
                (Instruction::Return { value: Some(Box::new(w)) }, c)
            },
            None => (Instruction::Return { value: None }, false),
        },
        Instruction::Compare { condition, lhs, rhs } => {
            let (l, cl) = fold_value(*lhs);
            let (r, cr) = fold_value(*rhs);
            (Instruction::Compare { condition, lhs: Box::new(l), rhs: Box::new(r) }, cl || cr)
        },
        Instruction::Branch { condition, then_label, else_label } => {
            let (c, cc) = fold_value(*condition);
            (Instruction::Branch { condition: Box::new(c), then_label, else_label }, cc)
        },
        other => (other, false),
    }
}

/// Evaluates constant arithmetic at compile time.
pub struct ConstantFoldingPass {
    params: StringHashMap<ParamRange>,
}

impl ConstantFoldingPass {
    #[verifier::type_invariant]
    spec fn wf(self) -> bool {
        &&& self.params@.contains_key("iterations"@)
        &&& self.params@[("iterations"@)].name@ == "iterations"@
        &&& self.params@.dom() =~= set!["iterations"@]
        &&& self.params@[("iterations"@)].min == 1
        &&& self.params@[("iterations"@)].max == 50
        &&& 1 <= self.params@[("iterations"@)].current <= 50
    }

    /// The number of rounds `run` performs at most.
    pub closed spec fn iterations(self) -> i32 {
        self.params@[("iterations"@)].current
    }

    /// The parameters, keyed by name.
    pub closed spec fn param_map(self) -> Map<Seq<char>, ParamRange> {
        self.params@
    }

    /// A pass with `iterations` at its default of 5 (range 1 to 50).
    pub fn new() -> (r: Self)
        ensures
            r.iterations() == 5,
            r.param_map().dom() == set!["iterations"@],
            r.param_map()[("iterations"@)].name@ == "iterations"@,
            r.param_map()[("iterations"@)].default == 5,
            r.param_map()[("iterations"@)].min == 1,
            r.param_map()[("iterations"@)].max == 50,
            r.param_map()[("iterations"@)].step == 1,
            r.param_map()[("iterations"@)].current == 5,
    {
        let mut params: StringHashMap<ParamRange> = StringHashMap::new();
        params.insert(string_of("iterations"), ParamRange::new("iterations", 5, 1, 50, 1));
        let r = Self { params };
        assert(r.params@.dom() =~= set!["iterations"@]);
        r
    }

    /// Folds one instruction tree in place; whether anything was folded.
    pub fn fold_instruction_recursive(inst: &mut Instruction) -> (changed: bool)
        ensures
            (final(inst)@, changed) == fold(old(inst)@),
    {
        let mut tmp = Instruction::Constant { value: 0 };
        std::mem::swap(&mut tmp, inst);
        let (r, c) = fold_value(tmp);
        *inst = r;
        c
    }
}

} // verus!

verus! {

impl Pass for ConstantFoldingPass {
    open spec fn accepts(&self, m: ModuleModel) -> bool {
        true
    }

    open spec fn outcome(&self, m: ModuleModel) -> (ModuleModel, bool) {
        fold_rounds(m, self.iterations() as int)
    }

    fn id(&self) -> (r: &'static str)
        ensures
            r@ == "constant_folding"@,
    {
        "constant_folding"
    }

    fn name(&self) -> (r: &'static str)
        ensures
            r@ == "Constant Folding"@,
    {
        "Constant Folding"
    }

    fn description(&self) -> (r: &'static str)
        ensures
            r@ == "Evaluates constant expressions at compile time"@,
    {
        "Evaluates constant expressions at compile time"
    }

    fn safety(&self) -> (r: PassSafety)
        ensures
            r == PassSafety::Safe,
    {
        PassSafety::Safe
    }

    fn run(&self, module: &mut Module) -> (r: Result<bool, PassError>)
        ensures
            1 <= self.iterations() <= 50,
            final(module)@ == map_module(old(module)@, fold_map()),
            r == Ok::<bool, PassError>(final(module)@ != old(module)@),
            fold_rounds(final(module)@, self.iterations() as int) == (final(module)@, false),
    {
        proof {
            use_type_invariant(self);
            law_folding_honest_and_final(old(module)@, self.iterations() as int, self.iterations() as int);
        }
        let iterations = match self.params.get("iterations") {
            Some(p) => p.current,
            None => 5,
        };
        let ghost goal = fold_rounds(old(module)@, iterations as int);
        let mut changed_any = false;
        let mut it: i32 = 0;
        let f = |i: Instruction| -> (r: (Instruction, bool))
            ensures
                r.0@ == fold(i@).0,
                r.1 == fold(i@).1,
            { fold_value(i) };
        while it < iterations
            invariant
                0 <= it,
                it <= iterations || iterations <= 0,
                goal == fold_rounds(old(module)@, iterations as int),
                goal.1 == (goal.0 != old(module)@),
                goal.0 == map_module(old(module)@, fold_map()),
                fold_rounds(goal.0, iterations as int) == (goal.0, false),
                1 <= iterations <= 50,
                iterations == self.iterations(),
                goal.0 == fold_rounds(module@, iterations - it).0,
                goal.1 == (changed_any || fold_rounds(module@, iterations - it).1),
                forall|i: Instruction| #[trigger] f.requires((i,)),
                forall|i: Instruction, r: (Instruction, bool)|
                    #[trigger] f.ensures((i,), r) ==> r.0@ == fold_map()(i@) && r.1 == fold_changes()(i@),
            decreases iterations - it,
        {
            let ghost before = module@;
            let changed = rewrite_module(module, &f, Ghost(fold_map()), Ghost(fold_changes()));
            if !changed {
                proof {
                    assert(fold_rounds(before, (iterations - it) as int) == (module@, false));
                }
                return Ok(changed_any);
            }
            changed_any = true;
            it = it + 1;
        }
        Ok(changed_any)
    }

    fn get_param(&self, name: &str) -> (r: Option<i32>)
        ensures
            r == (if self.param_map().contains_key(name@) {
                Some(self.param_map()[name@].current)
            } else {
                None::<i32>
            }),
    {
        match self.params.get(name) {
            Some(p) => Some(p.current),
            None => None,
        }
    }

    fn set_param(&mut self, name: &str, value: i32) -> (r: bool)
        ensures
            r == old(self).param_map().contains_key(name@),
            final(self).param_map().dom() == old(self).param_map().dom(),
            r ==> final(self).param_map()[name@].current == crate::passes::clamp(
                value,
                old(self).param_map()[name@].min,
                old(self).param_map()[name@].max,
            ),
            !r ==> final(self).param_map() == old(self).param_map(),
    {
        proof {
            use_type_invariant(&*self);
        }
        let q = match self.params.get(name) {
            Some(p) => {
                let mut q = p.copy();
                q.set_current(value);
                q
            },
            None => {
                return false;
            },
        };
        let mut params: StringHashMap<ParamRange> = StringHashMap::new();
        params.insert(string_of(name), q);
        assert(params@.dom() =~= set!["iterations"@]);
        assert(params@ =~= old(self).params@.insert(name@, q));
        self.params = params;
        true
    }

    fn descriptor(&self) -> (r: PassDescriptor)
        ensures
            r.id@ == "constant_folding"@,
            r.safety == PassSafety::Safe,
            r.params@.dom() == self.param_map().dom(),
            forall|k: Seq<char>| #[trigger] r.params@.contains_key(k) ==> crate::passes::same_param(
                r.params@[k],
                self.param_map()[k],
            ),
    {
        proof {
            use_type_invariant(self);
        }
        let mut ps: Vec<ParamRange> = Vec::new();
        match self.params.get("iterations") {
            Some(p) => {
                ps.push(p.copy());
            },
            None => {},
        }
        let ghost q = ps@[0];
        proof {
            assert(ps@.drop_last() =~= Seq::<ParamRange>::empty());
            assert(params_by_name(ps@) == params_by_name(Seq::<ParamRange>::empty()).insert(q.name@, q));
            assert(params_by_name(Seq::<ParamRange>::empty()) == Map::<Seq<char>, ParamRange>::empty());
        }
        let r = PassDescriptor::new(
            "constant_folding",
            "Constant Folding",
            "Evaluates constant expressions at compile time",
            PassSafety::Safe,
            ps,
        );
        proof {
            assert(r.params@.dom() =~= self.params@.dom());
        }
        r
    }
}

/// The module after one round of folding every instruction.
pub open spec fn folded(m: ModuleModel) -> ModuleModel {
    map_module(m, fold_map())
}

/// Folding keeps where each block name leads.
pub proof fn lemma_folded_blocks_found_alike(bs: Seq<BlockModel>, name: Seq<char>)
    ensures
        find_last_block(bs.map_values(|b: BlockModel| map_block(b, fold_map())), name) == find_last_block(
            bs,
            name,
        ),
    decreases bs.len(),
{
    let g = |b: BlockModel| map_block(b, fold_map());
    if bs.len() > 0 {
        assert(bs.map_values(g).drop_last() =~= bs.drop_last().map_values(g));
        lemma_folded_blocks_found_alike(bs.drop_last(), name);
    }
}

/// Folding keeps where each function name leads.
pub proof fn lemma_folded_functions_found_alike(fs: Seq<FunctionModel>, name: Seq<char>)
    ensures
        find_function(fs.map_values(|f: FunctionModel| map_function(f, fold_map())), name) == find_function(
            fs,
            name,
        ),
    decreases fs.len(),
{
    let g = |f: FunctionModel| map_function(f, fold_map());
    if fs.len() > 0 {
        assert(fs.map_values(g).drop_first() =~= fs.drop_first().map_values(g));
        lemma_folded_functions_found_alike(fs.drop_first(), name);
    }
}

/// An instruction tree evaluates alike in the module and in its folded form.
pub proof fn lemma_folded_eval(m: ModuleModel, i: Inst, s: Machine, d: u32)
    ensures
        eval(folded(m), i, s, d) == eval(m, i, s, d),
    decreases depth_budget(d), 0nat, 0nat, inst_size(i),
{
    let mm = folded(m);
    match i {
        Inst::BinaryOp { lhs, rhs, .. } | Inst::Compare { lhs, rhs, .. } => {
            lemma_folded_eval(m, *lhs, s, d);
            match eval(m, *lhs, s, d) {
                Ok((a, s1)) => {
                    lemma_folded_eval(m, *rhs, s1, d);
                },
                Err(_) => {},
            }
        },
        Inst::GetElementPtr { base, index } => {
            lemma_folded_eval(m, *base, s, d);
            match eval(m, *base, s, d) {
                Ok((a, s1)) => {
                    lemma_folded_eval(m, *index, s1, d);
                },
                Err(_) => {},
            }
        },
        Inst::StorePtr { ptr, value } => {
            lemma_folded_eval(m, *ptr, s, d);
            match eval(m, *ptr, s, d) {
                Ok((a, s1)) => {
                    lemma_folded_eval(m, *value, s1, d);
                },
                Err(_) => {},
            }
        },
        Inst::Store { value, .. } => {
            lemma_folded_eval(m, *value, s, d);
        },
        Inst::LoadPtr { ptr } => {
            lemma_folded_eval(m, *ptr, s, d);
        },
        Inst::Return { value } => match value {
            Some(v) => {
                lemma_folded_eval(m, *v, s, d);
            },
            None => {},
        },
        Inst::Call { function_name, args } => {
            lemma_folded_args(m, args, s, d);
            lemma_folded_functions_found_alike(m.functions, function_name);
            crate::ir::module::lemma_find_function(m.functions, function_name);
            match eval_args(m, args, s, d) {
                Ok((vals, s1)) => match find_function(m.functions, function_name) {
                    Some(k) => {
                        if d + 1 <= MAX_CALL_DEPTH {
                            lemma_folded_call(m, k, vals, s1.heap, (d + 1) as u32);
                        }
                    },
                    None => {},
                },
                Err(_) => {},
            }
        },
        _ => {},
    }
}

/// Argument lists evaluate alike in the module and in its folded form.
pub proof fn lemma_folded_args(m: ModuleModel, args: Seq<Inst>, s: Machine, d: u32)
    ensures
        eval_args(folded(m), args, s, d) == eval_args(m, args, s, d),
    decreases depth_budget(d), 0nat, 0nat, list_size(args),
{
    if args.len() > 0 {
        lemma_folded_eval(m, args[0], s, d);
        match eval(m, args[0], s, d) {
            Ok((v, s1)) => {
                lemma_folded_args(m, args.drop_first(), s1, d);
            },
            Err(_) => {},
        }
    }
}

/// A call of a function of the module gives the same in its folded form.
pub proof fn lemma_folded_call(m: ModuleModel, k: int, args: Seq<i64>, heap: Seq<i64>, d: u32)
    requires
        0 <= k < m.functions.len(),
    ensures
        call(folded(m), folded(m).functions[k], args, heap, d) == call(m, m.functions[k], args, heap, d),
    decreases depth_budget(d), (MAX_INSTRUCTIONS + 2) as nat, 0nat, 0nat,
{
    let f = m.functions[k];
    let ff = folded(m).functions[k];
    assert(ff == map_function(f, fold_map()));
    if d <= MAX_CALL_DEPTH && f.blocks.len() > 0 {
        lemma_folded_run(m, k, f.blocks[0].name, 0, 0, Machine { env: crate::interpreter::bind(f.params, args), heap }, d);
    }
}

/// Running from a position of a block gives the same in the folded module.
pub proof fn lemma_folded_run(m: ModuleModel, k: int, name: Seq<char>, j: nat, start: nat, s: Machine, d: u32)
    requires
        0 <= k < m.functions.len(),
    ensures
        run(folded(m), folded(m).functions[k], name, j, start, s, d) == run(
            m,
            m.functions[k],
            name,
            j,
            start,
            s,
            d,
        ),
    decreases depth_budget(d), step_budget(start), 2nat, block_rest(m.functions[k], name, j),
{
    let f = m.functions[k];
    let ff = folded(m).functions[k];
    assert(ff == map_function(f, fold_map()));
    lemma_folded_blocks_found_alike(f.blocks, name);
    crate::interpreter::lemma_find_last_block(f.blocks, name);
    if start <= MAX_INSTRUCTIONS {
        match find_last_block(f.blocks, name) {
            Some(bi) => {
                let b = f.blocks[bi];
                let fb = ff.blocks[bi];
                assert(fb == map_block(b, fold_map()));
                if j < b.insts.len() {
                    let inst = b.insts[j as int];
                    assert(fb.insts[j as int] == fold(inst).0);
                    lemma_folded_eval(m, fold(inst).0, s, d);
                    law_fold_preserves_eval(m, inst, s, d);
                    match eval(m, inst, s, d) {
                        Ok((v, s1)) => {
                            if is_terminator_model(inst) {
                                if !(inst is Return) {
                                    lemma_folded_leave(m, k, bi, start, j + 1, s1, d);
                                }
                            } else {
                                lemma_folded_run(m, k, name, j + 1, start, s1, d);
                            }
                        },
                        Err(_) => {},
                    }
                } else {
                    lemma_folded_leave(m, k, bi, start, j, s, d);
                }
            },
            None => {},
        }
    }
}

/// Leaving a block gives the same in the folded module.
pub proof fn lemma_folded_leave(m: ModuleModel, k: int, bi: int, start: nat, executed: nat, s: Machine, d: u32)
    requires
        0 <= k < m.functions.len(),
        0 <= bi < m.functions[k].blocks.len(),
    ensures
        leave(
            folded(m),
            folded(m).functions[k],
            folded(m).functions[k].blocks[bi],
            start,
            executed,
            s,
            d,
        ) == leave(m, m.functions[k], m.functions[k].blocks[bi], start, executed, s, d),
    decreases depth_budget(d), step_budget(start), 1nat, 0nat,
{
    let f = m.functions[k];
    let ff = folded(m).functions[k];
    assert(ff == map_function(f, fold_map()));
    let b = f.blocks[bi];
    let fb = ff.blocks[bi];
    assert(fb == map_block(b, fold_map()));
    if start <= MAX_INSTRUCTIONS && b.insts.len() > 0 && executed > 0 {
        assert(fb.insts.last() == fold(b.insts.last()).0);
        match b.insts.last() {
            Inst::Branch { condition, then_label, else_label } => {
                lemma_folded_eval(m, fold(*condition).0, s, d);
                law_fold_preserves_eval(m, *condition, s, d);
                match eval(m, *condition, s, d) {
                    Ok((c, s1)) => {
                        lemma_folded_run(
                            m,
                            k,
                            if c != 0 { then_label } else { else_label },
                            0,
                            start + executed,
                            s1,
                            d,
                        );
                    },
                    Err(_) => {},
                }
            },
            Inst::Jump { label } => {
                lemma_folded_run(m, k, label, 0, start + executed, s, d);
            },
            _ => {},
        }
    }
}

/// Constant folding never changes what a function of the module computes: run on any
/// arguments, each function of the folded module gives what it gave before, value or fault.
pub proof fn law_folding_preserves_execution(m: ModuleModel, n: int, k: int, args: Seq<i64>)
    requires
        0 <= k < m.functions.len(),
    ensures
        fold_rounds(m, n).0.functions.len() == m.functions.len(),
        execute(fold_rounds(m, n).0, fold_rounds(m, n).0.functions[k], args) == execute(
            m,
            m.functions[k],
            args,
        ),
    decreases n,
{
    if n > 0 {
        let m1 = folded(m);
        lemma_folded_call(m, k, args, Seq::empty(), 0);
        if module_any(m, fold_changes()) {
            law_folding_preserves_execution(m1, n - 1, k, args);
        }
    }
}

} // verus!
