use vstd::prelude::*;
use vstd::hash_map::StringHashMap;
use crate::ir::basic_block::{BasicBlock, BlockModel};
use crate::ir::function::{Function, FunctionModel};
use crate::ir::module::{Module, ModuleModel};
use crate::ir::value::{Inst, Instruction};
use crate::passes::{
    ParamRange, Pass, PassDescriptor, params_by_name, PassError, PassSafety, map_function,
    map_functions, any_function, function_any, lemma_same_shape_trans, same_shape, rewrite_functions,
};
use crate::text::string_of;
use crate::interpreter::{Machine, eval};
use crate::passes::strength_reduction::{lemma_reading_keeps_state, operands_read_only, reads_only};

verus! {

broadcast use vstd::std_specs::vec::group_vec_axioms;

/// `step` applied to every instruction of a sequence, in order, starting from `acc`.
pub open spec fn fold_insts<A>(acc: A, s: Seq<Inst>, step: spec_fn(A, Inst) -> A) -> A
    decreases s.len(),
{
    if s.len() == 0 {
        acc
    } else {
        step(fold_insts(acc, s.drop_last(), step), s.last())
    }
}

/// `step` applied to every instruction of a sequence of blocks, in order.
pub open spec fn fold_blocks<A>(acc: A, bs: Seq<BlockModel>, step: spec_fn(A, Inst) -> A) -> A
    decreases bs.len(),
{
    if bs.len() == 0 {
        acc
    } else {
        fold_insts(fold_blocks(acc, bs.drop_last(), step), bs.last().insts, step)
    }
}

/// Whether every known name that the machine holds holds its known constant.
pub open spec fn agrees_with(s: Machine, known: Map<Seq<char>, i64>) -> bool {
    forall|x: Seq<char>| #[trigger] known.contains_key(x) && s.env.contains_key(x) ==> s.env[x] == known[x]
}

/// Substituting known constants in a tree that only reads keeps its value, in a state that
/// agrees with them, wherever the tree evaluates without error.
pub proof fn lemma_substitute_keeps_value(m: ModuleModel, i: Inst, known: Map<Seq<char>, i64>, s: Machine, d: u32)
    requires
        reads_only(i),
        agrees_with(s, known),
        eval(m, i, s, d) is Ok,
    ensures
        eval(m, substitute(i, known).0, s, d) == eval(m, i, s, d),
    decreases i,
{
    match i {
        Inst::BinaryOp { lhs, rhs, .. } | Inst::Compare { lhs, rhs, .. } => {
            lemma_reading_keeps_state(m, *lhs, s, d);
            lemma_substitute_keeps_value(m, *lhs, known, s, d);
            lemma_reading_keeps_state(m, *rhs, s, d);
            lemma_substitute_keeps_value(m, *rhs, known, s, d);
        },
        _ => {},
    }
}

/// Constant propagation keeps what an instruction computes and the state it leaves, in a
/// state that agrees with the known constants, wherever the instruction runs without error
/// and its operands only read. (A name read before its store fails in the original and
/// reads the constant after the rewrite.)
pub proof fn law_propagation_preserves_eval(
    m: ModuleModel,
    i: Inst,
    known: Map<Seq<char>, i64>,
    s: Machine,
    d: u32,
)
    requires
        operands_read_only(i),
        agrees_with(s, known),
        eval(m, i, s, d) is Ok,
    ensures
        eval(m, substitute(i, known).0, s, d) == eval(m, i, s, d),
{
    match i {
        Inst::Store { value, .. } => {
            lemma_substitute_keeps_value(m, *value, known, s, d);
        },
        Inst::Return { value } => match value {
            Some(v) => {
                lemma_substitute_keeps_value(m, *v, known, s, d);
            },
            None => {},
        },
        Inst::Branch { .. } | Inst::Jump { .. } => {},
        _ => {
            lemma_substitute_keeps_value(m, i, known, s, d);
        },
    }
}

/// Records a top-level store: the name maps to `true` once it has been stored to more than once.
pub open spec fn tally_step() -> spec_fn(Map<Seq<char>, bool>, Inst) -> Map<Seq<char>, bool> {
    |acc: Map<Seq<char>, bool>, i: Inst|
        match i {
            Inst::Store { var_name, .. } => acc.insert(var_name, acc.contains_key(var_name)),
            _ => acc,
        }
}

/// Every name a top-level instruction of the function stores to; `true` for those stored to
/// more than once.
pub open spec fn function_tally(f: FunctionModel) -> Map<Seq<char>, bool> {
    fold_blocks(Map::empty(), f.blocks, tally_step())
}

/// Records the constant of a store of a constant to a name stored to exactly once.
pub open spec fn const_step(tally: Map<Seq<char>, bool>) -> spec_fn(Map<Seq<char>, i64>, Inst) -> Map<
    Seq<char>,
    i64,
> {
    |acc: Map<Seq<char>, i64>, i: Inst|
        match i {
            Inst::Store { var_name, value } => match *value {
                Inst::Constant { value: c } => if tally.contains_key(var_name) && !tally[var_name] {
                    acc.insert(var_name, c)
                } else {
                    acc
                },
                _ => acc,
            },
            _ => acc,
        }
}

/// The names whose single top-level store in the function stores a constant, with that
/// constant.
pub open spec fn function_constants(f: FunctionModel) -> Map<Seq<char>, i64> {
    fold_blocks(Map::empty(), f.blocks, const_step(function_tally(f)))
}

/// Replaces the known variables read by an instruction tree with their constants, looking
/// through arithmetic, comparisons, stores, branches and returns; whether any was replaced.
pub open spec fn substitute(i: Inst, known: Map<Seq<char>, i64>) -> (Inst, bool)
    decreases i,
{
    match i {
        Inst::BinaryOp { op, lhs, rhs } => {
            let (l, cl) = substitute(*lhs, known);
            let (r, cr) = substitute(*rhs, known);
            (Inst::BinaryOp { op, lhs: Box::new(l), rhs: Box::new(r) }, cl || cr)
        },
        Inst::Compare { condition, lhs, rhs } => {
            let (l, cl) = substitute(*lhs, known);
            let (r, cr) = substitute(*rhs, known);
            (Inst::Compare { condition, lhs: Box::new(l), rhs: Box::new(r) }, cl || cr)
        },
        Inst::Store { var_name, value } => {
            let (v, c) = substitute(*value, known);
            (Inst::Store { var_name, value: Box::new(v) }, c)
        },
        Inst::Branch { condition, then_label, else_label } => {
            let (c, cc) = substitute(*condition, known);
            (Inst::Branch { condition: Box::new(c), then_label, else_label }, cc)
        },
        Inst::Return { value } => match value {
            Some(v) => {
                let (w, c) = substitute(*v, known);
                (Inst::Return { value: Some(Box::new(w)) }, c)
            },
            None => (i, false),
        },
        Inst::Variable { name } => if known.contains_key(name) {
            (Inst::Constant { value: known[name] }, true)
        } else {
            (i, false)
        },
        _ => (i, false),
    }
}

/// The instruction substitution with `known` leaves.
pub open spec fn substitute_map(known: Map<Seq<char>, i64>) -> spec_fn(Inst) -> Inst {
    |i: Inst| substitute(i, known).0
}

/// Whether substitution with `known` changes an instruction.
pub open spec fn substitute_changes(known: Map<Seq<char>, i64>) -> spec_fn(Inst) -> bool {
    |i: Inst| substitute(i, known).1
}

/// A function with its own known constants substituted everywhere.
pub open spec fn propagate_function_map() -> spec_fn(FunctionModel) -> FunctionModel {
    |f: FunctionModel| map_function(f, substitute_map(function_constants(f)))
}

/// Whether substituting a function's own known constants changes it.
pub open spec fn propagate_function_changes() -> spec_fn(FunctionModel) -> bool {
    |f: FunctionModel| function_any(f, substitute_changes(function_constants(f)))
}

/// One round: in every function, the function's known constants substituted everywhere;
/// whether anything changed.
pub open spec fn propagate_round(m: ModuleModel) -> (ModuleModel, bool) {
    (map_functions(m, propagate_function_map()), any_function(m, propagate_function_changes()))
}

/// Up to `n` rounds, stopping after a round that changes nothing; whether the first changed
/// anything.
pub open spec fn propagate_rounds(m: ModuleModel, n: int) -> (ModuleModel, bool)
    decreases n,
{
    if n <= 0 {
        (m, false)
    } else {
        let (m1, c) = propagate_round(m);
        if !c {
            (m1, false)
        } else {
            (propagate_rounds(m1, n - 1).0, true)
        }
    }
}

/// Constant propagation rewrites instructions in place: every function and block stays,
/// with as many instructions as before.
pub proof fn law_propagation_keeps_shape(m: ModuleModel, n: int)
    ensures
        same_shape(m, propagate_rounds(m, n).0),
    decreases n,
{
    if n > 0 {
        let m1 = propagate_round(m).0;
        assert(same_shape(m, m1)) by {
            assert forall|i: int| 0 <= i < m.functions.len() implies #[trigger] m1.functions[i] == map_function(
                m.functions[i],
                substitute_map(function_constants(m.functions[i])),
            ) by {}
        }
        law_propagation_keeps_shape(m1, n - 1);
        lemma_same_shape_trans(m, m1, propagate_rounds(m1, n - 1).0);
    } else {
        assert(same_shape(m, m));
    }
}

/// Records one top-level instruction in the tally of stores.
fn tally_instruction(inst: &Instruction, tally: &mut StringHashMap<bool>)
    ensures
        final(tally)@ == tally_step()(old(tally)@, inst@),
{
    match inst {
        Instruction::Store { var_name, .. } => {
            let seen = tally.contains_key(var_name.as_str());
            tally.insert(var_name.clone(), seen);
        },
        _ => {},
    }
}

/// Records one top-level instruction among the known constants.
fn note_constant(inst: &Instruction, tally: &StringHashMap<bool>, known: &mut StringHashMap<i64>)
    ensures
        final(known)@ == const_step(tally@)(old(known)@, inst@),
{
    match inst {
        Instruction::Store { var_name, value } => match &**value {
            Instruction::Constant { value: c } => {
                assert((**value)@ == Inst::Constant { value: *c });
                match tally.get(var_name.as_str()) {
                    Some(more) => {
                        if !*more {
                            known.insert(var_name.clone(), *c);
                        }
                    },
                    None => {},
                }
            },
            _ => {},
        },
        _ => {},
    }
}

/// Scans the instructions of a block: with `tally` absent, records stores in `counts`;
/// with it present, records known constants in `known`.
fn scan_block(
    b: &BasicBlock,
    counts: &mut StringHashMap<bool>,
    tally: Option<&StringHashMap<bool>>,
    known: &mut StringHashMap<i64>,
)
    ensures
        tally is None ==> final(counts)@ == fold_insts(old(counts)@, b@.insts, tally_step()),
        tally is None ==> final(known)@ == old(known)@,
        tally matches Some(t) ==> final(known)@ == fold_insts(old(known)@, b@.insts, const_step(t@)),
        tally is Some ==> final(counts)@ == old(counts)@,
{
    let ghost s = b@.insts;
    let mut k: usize = 0;
    proof {
        assert(s.take(0) =~= Seq::<Inst>::empty());
    }
    while k < b.instructions.len()
        invariant
            k <= b.instructions.len(),
            s == b@.insts,
            tally is None ==> counts@ == fold_insts(old(counts)@, s.take(k as int), tally_step()),
            tally is None ==> known@ == old(known)@,
            tally matches Some(t) ==> known@ == fold_insts(old(known)@, s.take(k as int), const_step(t@)),
            tally is Some ==> counts@ == old(counts)@,
        decreases b.instructions.len() - k,
    {
        proof {
            assert(s.take(k + 1).drop_last() =~= s.take(k as int));
            assert(s.take(k + 1).last() == s[k as int]);
        }
        match tally {
            None => tally_instruction(&b.instructions[k], counts),
            Some(t) => note_constant(&b.instructions[k], t, known),
        }
        k = k + 1;
    }
    proof {
        assert(s.take(k as int) =~= s);
    }
}

/// Scans every block of a function, as `scan_block` does.
fn scan_function(
    f: &Function,
    counts: &mut StringHashMap<bool>,
    tally: Option<&StringHashMap<bool>>,
    known: &mut StringHashMap<i64>,
)
    ensures
        tally is None ==> final(counts)@ == fold_blocks(old(counts)@, f@.blocks, tally_step()),
        tally is None ==> final(known)@ == old(known)@,
        tally matches Some(t) ==> final(known)@ == fold_blocks(old(known)@, f@.blocks, const_step(t@)),
        tally is Some ==> final(counts)@ == old(counts)@,
{
    let ghost s = f@.blocks;
    let mut k: usize = 0;
    proof {
        assert(s.take(0) =~= Seq::<BlockModel>::empty());
    }
    while k < f.basic_blocks.len()
        invariant
            k <= f.basic_blocks.len(),
            s == f@.blocks,
            tally is None ==> counts@ == fold_blocks(old(counts)@, s.take(k as int), tally_step()),
            tally is None ==> known@ == old(known)@,
            tally matches Some(t) ==> known@ == fold_blocks(old(known)@, s.take(k as int), const_step(t@)),
            tally is Some ==> counts@ == old(counts)@,
        decreases f.basic_blocks.len() - k,
    {
        proof {
            assert(s.take(k + 1).drop_last() =~= s.take(k as int));
            assert(s.take(k + 1).last() == s[k as int]);
        }
        scan_block(&f.basic_blocks[k], counts, tally, known);
        k = k + 1;
    }
    proof {
        assert(s.take(k as int) =~= s);
    }
}

/// A function's known constants.
fn collect_constants(f: &Function) -> (r: StringHashMap<i64>)
    ensures
        r@ == function_constants(f@),
{
    let mut tally: StringHashMap<bool> = StringHashMap::new();
    let mut known: StringHashMap<i64> = StringHashMap::new();
    scan_function(f, &mut tally, None, &mut known);
    let mut unused: StringHashMap<bool> = StringHashMap::new();
    scan_function(f, &mut unused, Some(&tally), &mut known);
    known
}

/// One function with its own known constants substituted; whether anything changed.
fn propagate_function(f: Function) -> (r: (Function, bool))
    ensures
        r.0@ == propagate_function_map()(f@),
        r.1 == propagate_function_changes()(f@),
{
    let known = collect_constants(&f);
    let mut f = f;
    let sub = |i: Instruction| -> (r: (Instruction, bool))
        ensures
            r.0@ == substitute_map(known@)(i@),
            r.1 == substitute_changes(known@)(i@),
        { substitute_value(i, &known) };
    let changed = crate::passes::rewrite_function(
        &mut f,
        &sub,
        Ghost(substitute_map(known@)),
        Ghost(substitute_changes(known@)),
    );
    (f, changed)
}

/// Substitutes known constants into an instruction given by value.
fn substitute_value(inst: Instruction, known: &StringHashMap<i64>) -> (r: (Instruction, bool))
    ensures
        (r.0@, r.1) == substitute(inst@, known@),
    decreases inst,
{
    match inst {
        Instruction::BinaryOp { op, lhs, rhs } => {
            let (l, cl) = substitute_value(*lhs, known);
            let (r, cr) = substitute_value(*rhs, known);
            (Instruction::BinaryOp { op, lhs: Box::new(l), rhs: Box::new(r) }, cl || cr)
        },
        Instruction::Compare { condition, lhs, rhs } => {
            let (l, cl) = substitute_value(*lhs, known);
            let (r, cr) = substitute_value(*rhs, known);
            (Instruction::Compare { condition, lhs: Box::new(l), rhs: Box::new(r) }, cl || cr)
        },
        Instruction::Store { var_name, value } => {
            let (v, c) = substitute_value(*value, known);
            (Instruction::Store { var_name, value: Box::new(v) }, c)
        },
        Instruction::Branch { condition, then_label, else_label } => {
            let (c, cc) = substitute_value(*condition, known);
            (Instruction::Branch { condition: Box::new(c), then_label, else_label }, cc)
        },
        Instruction::Return { value } => match value {
            Some(v) => {
                let (w, c) = substitute_value(*v, known);
                (Instruction::Return { value: Some(Box::new(w)) }, c)
            },
            None => (Instruction::Return { value: None }, false),
        },
        Instruction::Variable { name } => match known.get(name.as_str()) {
            Some(v) => (Instruction::Constant { value: *v }, true),
            None => (Instruction::Variable { name }, false),
        },
        other => (other, false),
    }
}

/// Replaces, in each function, reads of variables that the function stores to exactly
/// once, with a constant, by that constant.
pub struct ConstantPropagationPass {
    params: StringHashMap<ParamRange>,
}

impl ConstantPropagationPass {
    #[verifier::type_invariant]
    spec fn wf(self) -> bool {
        &&& self.params@.contains_key("max_iterations"@)
        &&& self.params@[("max_iterations"@)].name@ == "max_iterations"@
        &&& self.params@.dom() =~= set!["max_iterations"@]
    }

    /// The number of rounds `run` performs at most.
    pub closed spec fn max_iterations(self) -> i32 {
        self.params@[("max_iterations"@)].current
    }

    /// The parameters, keyed by name.
    pub closed spec fn param_map(self) -> Map<Seq<char>, ParamRange> {
        self.params@
    }

    /// A pass with `max_iterations` at its default of 10 (range 1 to 50).
    pub fn new() -> (r: Self)
        ensures
            r.max_iterations() == 10,
            r.param_map().dom() == set!["max_iterations"@],
            r.param_map()[("max_iterations"@)].min == 1,
            r.param_map()[("max_iterations"@)].max == 50,
            r.param_map()[("max_iterations"@)].name@ == "max_iterations"@,
            r.param_map()[("max_iterations"@)].default == 10,
            r.param_map()[("max_iterations"@)].min == 1,
            r.param_map()[("max_iterations"@)].max == 50,
            r.param_map()[("max_iterations"@)].step == 1,
            r.param_map()[("max_iterations"@)].current == 10,
    {
        let mut params: StringHashMap<ParamRange> = StringHashMap::new();
        params.insert(string_of("max_iterations"), ParamRange::new("max_iterations", 10, 1, 50, 1));
        let r = Self { params };
        assert(r.params@.dom() =~= set!["max_iterations"@]);
        r
    }

    /// Substitutes the given constants into an instruction tree in place; whether it changed.
    pub fn replace_vars_with_constants(inst: &mut Instruction, const_map: &StringHashMap<i64>) -> (changed: bool)
        ensures
            (final(inst)@, changed) == substitute(old(inst)@, const_map@),
    {
        let mut tmp = Instruction::Constant { value: 0 };
        std::mem::swap(&mut tmp, inst);
        let (r, c) = substitute_value(tmp, const_map);
        *inst = r;
        c
    }
}

} // verus!

verus! {

impl Pass for ConstantPropagationPass {
    open spec fn accepts(&self, m: ModuleModel) -> bool {
        true
    }

    open spec fn outcome(&self, m: ModuleModel) -> (ModuleModel, bool) {
        propagate_rounds(m, self.max_iterations() as int)
    }

    fn id(&self) -> (r: &'static str)
        ensures
            r@ == "constant_propagation"@,
    {
        "constant_propagation"
    }

    fn name(&self) -> (r: &'static str)
        ensures
            r@ == "Constant Propagation"@,
    {
        "Constant Propagation"
    }

    fn description(&self) -> (r: &'static str)
        ensures
            r@ == "Replaces variable references with known constant values"@,
    {
        "Replaces variable references with known constant values"
    }

    fn safety(&self) -> (r: PassSafety)
        ensures
            r == PassSafety::Conservative,
    {
        PassSafety::Conservative
    }

    fn run(&self, module: &mut Module) -> (r: Result<bool, PassError>) {
        proof {
            use_type_invariant(self);
        }
        let max_iterations = match self.params.get("max_iterations") {
            Some(p) => p.current,
            None => 10,
        };
        let ghost goal = propagate_rounds(old(module)@, max_iterations as int);
        let mut changed_any = false;
        let mut it: i32 = 0;
        let g = |x: Function| -> (r: (Function, bool))
            ensures
                r.0@ == propagate_function_map()(x@),
                r.1 == propagate_function_changes()(x@),
            { propagate_function(x) };
        while it < max_iterations
            invariant
                0 <= it,
                it <= max_iterations || max_iterations <= 0,
                forall|x: Function| #[trigger] g.requires((x,)),
                forall|x: Function, r: (Function, bool)|
                    #[trigger] g.ensures((x,), r) ==> r.0@ == propagate_function_map()(x@) && r.1
                        == propagate_function_changes()(x@),
                goal == propagate_rounds(old(module)@, max_iterations as int),
                max_iterations == self.max_iterations(),
                goal.0 == propagate_rounds(module@, max_iterations - it).0,
                goal.1 == (changed_any || propagate_rounds(module@, max_iterations - it).1),
            decreases max_iterations - it,
        {
            let ghost before = module@;
            let changed = rewrite_functions(
                module,
                &g,
                Ghost(propagate_function_map()),
                Ghost(propagate_function_changes()),
            );
            if !changed {
                proof {
                    assert(propagate_rounds(before, (max_iterations - it) as int) == (module@, false));
                }
                return Ok(changed_any);
            }
            changed_any = true;
            it = it + 1;
        }
        Ok(changed_any)
    }

    fn get_param(&self, name: &str) -> (r: Option<i32>)
        ensures
            r == (if self.param_map().contains_key(name@) {
                Some(self.param_map()[name@].current)
            } else {
                None::<i32>
            }),
    {
        match self.params.get(name) {
            Some(p) => Some(p.current),
            None => None,
        }
    }

    fn set_param(&mut self, name: &str, value: i32) -> (r: bool)
        ensures
            r == old(self).param_map().contains_key(name@),
            final(self).param_map().dom() == old(self).param_map().dom(),
            r ==> final(self).param_map()[name@].current == crate::passes::clamp(
                value,
                old(self).param_map()[name@].min,
                old(self).param_map()[name@].max,
            ),
            !r ==> final(self).param_map() == old(self).param_map(),
    {
        proof {
            use_type_invariant(&*self);
        }
        let q = match self.params.get(name) {
            Some(p) => {
                let mut q = p.copy();
                q.set_current(value);
                q
            },
            None => {
                return false;
            },
        };
        let mut params: StringHashMap<ParamRange> = StringHashMap::new();
        params.insert(string_of(name), q);
        assert(params@.dom() =~= set!["max_iterations"@]);
        assert(params@ =~= old(self).params@.insert(name@, q));
        self.params = params;
        true
    }

    fn descriptor(&self) -> (r: PassDescriptor)
        ensures
            r.id@ == "constant_propagation"@,
            r.safety == PassSafety::Conservative,
            r.params@.dom() == self.param_map().dom(),
            forall|k: Seq<char>| #[trigger] r.params@.contains_key(k) ==> crate::passes::same_param(
                r.params@[k],
                self.param_map()[k],
            ),
    {
        proof {
            use_type_invariant(self);
        }
        let mut ps: Vec<ParamRange> = Vec::new();
        match self.params.get("max_iterations") {
            Some(p) => {
                ps.push(p.copy());
            },
            None => {},
        }
        let ghost q = ps@[0];
        proof {
            assert(ps@.drop_last() =~= Seq::<ParamRange>::empty());
            assert(params_by_name(ps@) == params_by_name(Seq::<ParamRange>::empty()).insert(q.name@, q));
            assert(params_by_name(Seq::<ParamRange>::empty()) == Map::<Seq<char>, ParamRange>::empty());
        }
        let r = PassDescriptor::new(
            "constant_propagation",
            "Constant Propagation",
            "Replaces variable references with known constant values",
            PassSafety::Conservative,
            ps,
        );
        proof {
            assert(r.params@.dom() =~= self.params@.dom());
        }
        r
    }
}

} // verus!
