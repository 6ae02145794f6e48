use vstd::prelude::*;
use crate::ir::module::{Module, ModuleModel};
use crate::passes::block_merging::BlockMergingPass;
use crate::passes::constant_folding::ConstantFoldingPass;
use crate::passes::constant_propagation::ConstantPropagationPass;
use crate::passes::cse::CsePass;
use crate::passes::dead_code_elimination::DeadCodeEliminationPass;
use crate::passes::loop_unroll::LoopUnrollPass;
use crate::passes::strength_reduction::StrengthReductionPass;
use crate::passes::{ParamRange, Pass, PassDescriptor, PassError, PassSafety};
use crate::text::{copy_string, string_of};

verus! {

broadcast use vstd::std_specs::vec::group_vec_axioms;

/// The built-in passes.
#[derive(Debug, Clone, Copy, PartialEq, Eq, Structural)]
pub enum PassKind {
    ConstantFolding,
    DeadCode,
    ConstantPropagation,
    StrengthReduction,
    Cse,
    BlockMerging,
    LoopUnroll,
}

/// The identifier of a built-in pass.
pub open spec fn kind_id(k: PassKind) -> Seq<char> {
    match k {
        PassKind::ConstantFolding => "constant_folding"@,
        PassKind::DeadCode => "dead_code"@,
        PassKind::ConstantPropagation => "constant_propagation"@,
        PassKind::StrengthReduction => "strength_reduction"@,
        PassKind::Cse => "cse"@,
        PassKind::BlockMerging => "block_merge"@,
        PassKind::LoopUnroll => "loop_unroll"@,
    }
}

/// The parameter of each built-in pass that has one: its name, default, least and largest
/// value, and step.
pub open spec fn kind_param(k: PassKind) -> Option<(Seq<char>, i32, i32, i32, i32)> {
    match k {
        PassKind::ConstantFolding => Some(("iterations"@, 5i32, 1i32, 50i32, 1i32)),
        PassKind::ConstantPropagation => Some(("max_iterations"@, 10i32, 1i32, 50i32, 1i32)),
        PassKind::BlockMerging => Some(("max_iterations"@, 5i32, 1i32, 20i32, 1i32)),
        PassKind::LoopUnroll => Some(("factor"@, 2i32, 1i32, 10i32, 1i32)),
        _ => None,
    }
}

/// Parameters as a fresh pass of the kind has them: its one parameter, if any, under its
/// name, at its default.
pub open spec fn fresh_params(k: PassKind, m: Map<Seq<char>, crate::passes::ParamRange>) -> bool {
    match kind_param(k) {
        Some((name, d, lo, hi, step)) => {
            &&& m.dom() == set![name]
            &&& m[name].name@ == name
            &&& m[name].default == d
            &&& m[name].min == lo
            &&& m[name].max == hi
            &&& m[name].step == step
            &&& m[name].current == d
        },
        None => m.dom() == Set::<Seq<char>>::empty(),
    }
}

/// Two parameter maps that are both fresh for one kind agree in every field: so a pass the
/// registry creates has exactly the parameters of the registry's descriptor for its id.
pub proof fn law_fresh_params_agree(
    k: PassKind,
    a: Map<Seq<char>, crate::passes::ParamRange>,
    b: Map<Seq<char>, crate::passes::ParamRange>,
)
    requires
        fresh_params(k, a),
        fresh_params(k, b),
    ensures
        a.dom() == b.dom(),
        forall|key: Seq<char>| #[trigger] a.contains_key(key) ==> {
            &&& a[key].name@ == b[key].name@
            &&& a[key].default == b[key].default
            &&& a[key].min == b[key].min
            &&& a[key].max == b[key].max
            &&& a[key].step == b[key].step
            &&& a[key].current == b[key].current
        },
{
}

/// The display name of each built-in pass.
pub open spec fn kind_name(k: PassKind) -> Seq<char> {
    match k {
        PassKind::ConstantFolding => "Constant Folding"@,
        PassKind::DeadCode => "Dead Code Elimination"@,
        PassKind::ConstantPropagation => "Constant Propagation"@,
        PassKind::StrengthReduction => "Strength Reduction"@,
        PassKind::Cse => "Common Subexpression Elimination"@,
        PassKind::BlockMerging => "Block Merging"@,
        PassKind::LoopUnroll => "Loop Unroll"@,
    }
}

/// The one-line description of each built-in pass.
pub open spec fn kind_description(k: PassKind) -> Seq<char> {
    match k {
        PassKind::ConstantFolding => "Evaluates constant expressions at compile time"@,
        PassKind::DeadCode => "Removes stores to variables that are never read"@,
        PassKind::ConstantPropagation => "Replaces variable references with known constant values"@,
        PassKind::StrengthReduction => "Simplifies algebraic identities (x*1, x*0, x+0) anywhere in an instruction tree"@,
        PassKind::Cse => "Replaces a recomputed expression (anywhere in the tree) with a reference to an earlier Store that already computed the same thing"@,
        PassKind::BlockMerging => "Merges basic blocks when possible to reduce control flow overhead"@,
        PassKind::LoopUnroll => "Unrolls loops by duplicating loop body"@,
    }
}

/// How much a built-in pass may change behaviour.
pub open spec fn kind_safety(k: PassKind) -> PassSafety {
    match k {
        PassKind::ConstantFolding => PassSafety::Safe,
        PassKind::DeadCode => PassSafety::Safe,
        PassKind::ConstantPropagation => PassSafety::Conservative,
        PassKind::StrengthReduction => PassSafety::Risky,
        PassKind::Cse => PassSafety::Conservative,
        PassKind::BlockMerging => PassSafety::Safe,
        PassKind::LoopUnroll => PassSafety::Conservative,
    }
}

/// One of the built-in passes.
pub enum AnyPass {
    ConstantFolding(ConstantFoldingPass),
    DeadCode(DeadCodeEliminationPass),
    ConstantPropagation(ConstantPropagationPass),
    StrengthReduction(StrengthReductionPass),
    Cse(CsePass),
    BlockMerging(BlockMergingPass),
    LoopUnroll(LoopUnrollPass),
}

impl AnyPass {
    /// Whether the pass can run on the module.
    pub fn accepts_module(&self, module: &Module) -> (r: bool)
        ensures
            r == self.accepts(module@),
    {
        match self {
            AnyPass::LoopUnroll(p) => p.accepts_module(module),
            _ => true,
        }
    }

    /// Which built-in pass this is.
    pub open spec fn kind(self) -> PassKind {
        match self {
            AnyPass::ConstantFolding(_) => PassKind::ConstantFolding,
            AnyPass::DeadCode(_) => PassKind::DeadCode,
            AnyPass::ConstantPropagation(_) => PassKind::ConstantPropagation,
            AnyPass::StrengthReduction(_) => PassKind::StrengthReduction,
            AnyPass::Cse(_) => PassKind::Cse,
            AnyPass::BlockMerging(_) => PassKind::BlockMerging,
            AnyPass::LoopUnroll(_) => PassKind::LoopUnroll,
        }
    }

    /// The pass's parameters, keyed by name (none for the passes without any).
    pub open spec fn param_map(self) -> Map<Seq<char>, ParamRange> {
        match self {
            AnyPass::ConstantFolding(p) => p.param_map(),
            AnyPass::ConstantPropagation(p) => p.param_map(),
            AnyPass::BlockMerging(p) => p.param_map(),
            AnyPass::LoopUnroll(p) => p.param_map(),
            _ => Map::empty(),
        }
    }

    /// Whether every parameter holds its default value.
    pub open spec fn at_defaults(self) -> bool {
        match self {
            AnyPass::ConstantFolding(p) => p.iterations() == 5,
            AnyPass::ConstantPropagation(p) => p.max_iterations() == 10,
            AnyPass::BlockMerging(p) => p.max_iterations() == 5,
            AnyPass::LoopUnroll(p) => p.factor() == 2,
            _ => true,
        }
    }

    /// A fresh pass of the given kind, with default parameters.
    pub fn of_kind(kind: PassKind) -> (r: Self)
        ensures
            r.kind() == kind,
            r.at_defaults(),
            fresh_params(kind, r.param_map()),
    {
        match kind {
            PassKind::ConstantFolding => AnyPass::ConstantFolding(ConstantFoldingPass::new()),
            PassKind::DeadCode => AnyPass::DeadCode(DeadCodeEliminationPass::new()),
            PassKind::ConstantPropagation => AnyPass::ConstantPropagation(ConstantPropagationPass::new()),
            PassKind::StrengthReduction => AnyPass::StrengthReduction(StrengthReductionPass::new()),
            PassKind::Cse => AnyPass::Cse(CsePass::new()),
            PassKind::BlockMerging => AnyPass::BlockMerging(BlockMergingPass::new()),
            PassKind::LoopUnroll => AnyPass::LoopUnroll(LoopUnrollPass::new()),
        }
    }
}

impl Pass for AnyPass {
    open spec fn accepts(&self, m: ModuleModel) -> bool {
        match self {
            AnyPass::ConstantFolding(p) => p.accepts(m),
            AnyPass::DeadCode(p) => p.accepts(m),
            AnyPass::ConstantPropagation(p) => p.accepts(m),
            AnyPass::StrengthReduction(p) => p.accepts(m),
            AnyPass::Cse(p) => p.accepts(m),
            AnyPass::BlockMerging(p) => p.accepts(m),
            AnyPass::LoopUnroll(p) => p.accepts(m),
        }
    }

    open spec fn outcome(&self, m: ModuleModel) -> (ModuleModel, bool) {
        match self {
            AnyPass::ConstantFolding(p) => p.outcome(m),
            AnyPass::DeadCode(p) => p.outcome(m),
            AnyPass::ConstantPropagation(p) => p.outcome(m),
            AnyPass::StrengthReduction(p) => p.outcome(m),
            AnyPass::Cse(p) => p.outcome(m),
            AnyPass::BlockMerging(p) => p.outcome(m),
            AnyPass::LoopUnroll(p) => p.outcome(m),
        }
    }

    fn id(&self) -> (r: &'static str)
        ensures
            r@ == kind_id(self.kind()),
    {
        match self {
            AnyPass::ConstantFolding(p) => p.id(),
            AnyPass::DeadCode(p) => p.id(),
            AnyPass::ConstantPropagation(p) => p.id(),
            AnyPass::StrengthReduction(p) => p.id(),
            AnyPass::Cse(p) => p.id(),
            AnyPass::BlockMerging(p) => p.id(),
            AnyPass::LoopUnroll(p) => p.id(),
        }
    }

    fn name(&self) -> (r: &'static str)
        ensures
            r@ == kind_name(self.kind()),
    {
        match self {
            AnyPass::ConstantFolding(p) => p.name(),
            AnyPass::DeadCode(p) => p.name(),
            AnyPass::ConstantPropagation(p) => p.name(),
            AnyPass::StrengthReduction(p) => p.name(),
            AnyPass::Cse(p) => p.name(),
            AnyPass::BlockMerging(p) => p.name(),
            AnyPass::LoopUnroll(p) => p.name(),
        }
    }

    fn description(&self) -> (r: &'static str)
        ensures
            r@ == kind_description(self.kind()),
    {
        match self {
            AnyPass::ConstantFolding(p) => p.description(),
            AnyPass::DeadCode(p) => p.description(),
            AnyPass::ConstantPropagation(p) => p.description(),
            AnyPass::StrengthReduction(p) => p.description(),
            AnyPass::Cse(p) => p.description(),
            AnyPass::BlockMerging(p) => p.description(),
            AnyPass::LoopUnroll(p) => p.description(),
        }
    }

    fn safety(&self) -> (r: PassSafety)
        ensures
            r == kind_safety(self.kind()),
    {
        match self {
            AnyPass::ConstantFolding(p) => p.safety(),
            AnyPass::DeadCode(p) => p.safety(),
            AnyPass::ConstantPropagation(p) => p.safety(),
            AnyPass::StrengthReduction(p) => p.safety(),
            AnyPass::Cse(p) => p.safety(),
            AnyPass::BlockMerging(p) => p.safety(),
            AnyPass::LoopUnroll(p) => p.safety(),
        }
    }

    fn run(&self, module: &mut Module) -> (r: Result<bool, PassError>) {
        match self {
            AnyPass::ConstantFolding(p) => p.run(module),
            AnyPass::DeadCode(p) => p.run(module),
            AnyPass::ConstantPropagation(p) => p.run(module),
            AnyPass::StrengthReduction(p) => p.run(module),
            AnyPass::Cse(p) => p.run(module),
            AnyPass::BlockMerging(p) => p.run(module),
            AnyPass::LoopUnroll(p) => p.run(module),
        }
    }

    fn get_param(&self, name: &str) -> (r: Option<i32>)
        ensures
            r == (if self.param_map().contains_key(name@) {
                Some(self.param_map()[name@].current)
            } else {
                None::<i32>
            }),
    {
        match self {
            AnyPass::ConstantFolding(p) => p.get_param(name),
            AnyPass::DeadCode(p) => p.get_param(name),
            AnyPass::ConstantPropagation(p) => p.get_param(name),
            AnyPass::StrengthReduction(p) => p.get_param(name),
            AnyPass::Cse(p) => p.get_param(name),
            AnyPass::BlockMerging(p) => p.get_param(name),
            AnyPass::LoopUnroll(p) => p.get_param(name),
        }
    }

    fn set_param(&mut self, name: &str, value: i32) -> (r: bool)
        ensures
            final(self).kind() == old(self).kind(),
            r == old(self).param_map().contains_key(name@),
            final(self).param_map().dom() == old(self).param_map().dom(),
            r ==> final(self).param_map()[name@].current == crate::passes::clamp(
                value,
                old(self).param_map()[name@].min,
                old(self).param_map()[name@].max,
            ),
            !r ==> final(self).param_map() == old(self).param_map(),
    {
        match self {
            AnyPass::ConstantFolding(p) => p.set_param(name, value),
            AnyPass::DeadCode(p) => p.set_param(name, value),
            AnyPass::ConstantPropagation(p) => p.set_param(name, value),
            AnyPass::StrengthReduction(p) => p.set_param(name, value),
            AnyPass::Cse(p) => p.set_param(name, value),
            AnyPass::BlockMerging(p) => p.set_param(name, value),
            AnyPass::LoopUnroll(p) => p.set_param(name, value),
        }
    }

    fn descriptor(&self) -> (r: PassDescriptor)
        ensures
            r.id@ == kind_id(self.kind()),
            r.safety == kind_safety(self.kind()),
            r.params@.dom() == self.param_map().dom(),
            forall|k: Seq<char>| #[trigger] r.params@.contains_key(k) ==> crate::passes::same_param(
                r.params@[k],
                self.param_map()[k],
            ),
    {
        match self {
            AnyPass::ConstantFolding(p) => p.descriptor(),
            AnyPass::DeadCode(p) => p.descriptor(),
            AnyPass::ConstantPropagation(p) => p.descriptor(),
            AnyPass::StrengthReduction(p) => p.descriptor(),
            AnyPass::Cse(p) => p.descriptor(),
            AnyPass::BlockMerging(p) => p.descriptor(),
            AnyPass::LoopUnroll(p) => p.descriptor(),
        }
    }
}


/// One registered pass: its identifier and which built-in pass it creates.
pub struct RegistryEntry {
    pub id: String,
    pub kind: PassKind,
}

/// Identifiers mapped to kinds, a later entry replacing an earlier one of the same identifier.
pub open spec fn entries_map(s: Seq<RegistryEntry>) -> Map<Seq<char>, PassKind>
    decreases s.len(),
{
    if s.len() == 0 {
        Map::empty()
    } else {
        entries_map(s.drop_last()).insert(s.last().id@, s.last().kind)
    }
}

/// The built-in passes under their identifiers.
pub open spec fn built_in_catalog() -> Map<Seq<char>, PassKind> {
    map![
        kind_id(PassKind::ConstantFolding) => PassKind::ConstantFolding,
        kind_id(PassKind::DeadCode) => PassKind::DeadCode,
        kind_id(PassKind::ConstantPropagation) => PassKind::ConstantPropagation,
        kind_id(PassKind::StrengthReduction) => PassKind::StrengthReduction,
        kind_id(PassKind::Cse) => PassKind::Cse,
        kind_id(PassKind::BlockMerging) => PassKind::BlockMerging,
        kind_id(PassKind::LoopUnroll) => PassKind::LoopUnroll,
    ]
}

/// Every built-in pass is registered under its own identifier, so creating it by that
/// identifier gives a pass of its kind.
pub proof fn law_catalog_registers_each_kind_under_its_id(k: PassKind)
    ensures
        built_in_catalog().contains_key(kind_id(k)),
        built_in_catalog()[kind_id(k)] == k,
{
    reveal_strlit("constant_folding");
    reveal_strlit("dead_code");
    reveal_strlit("constant_propagation");
    reveal_strlit("strength_reduction");
    reveal_strlit("cse");
    reveal_strlit("block_merge");
    reveal_strlit("loop_unroll");
    assert("constant_folding"@.len() == 16);
    assert("dead_code"@.len() == 9);
    assert("constant_propagation"@.len() == 20);
    assert("strength_reduction"@.len() == 18);
    assert("cse"@.len() == 3);
    assert("block_merge"@.len() == 11);
    assert("loop_unroll"@.len() == 11);
    assert("block_merge"@[0] != "loop_unroll"@[0]);
}

/// Registering a kind under an identifier: that identifier then creates a pass of that kind,
/// and every other identifier creates what it did before.
pub proof fn law_register_then_create(
    catalog: Map<Seq<char>, PassKind>,
    id: Seq<char>,
    kind: PassKind,
    other: Seq<char>,
)
    ensures
        catalog.insert(id, kind).contains_key(id),
        catalog.insert(id, kind)[id] == kind,
        other != id ==> catalog.insert(id, kind).contains_key(other) == catalog.contains_key(other),
        other != id && catalog.contains_key(other) ==> catalog.insert(id, kind)[other] == catalog[other],
{
}

/// The passes that can be created by identifier.
pub struct PassRegistry {
    catalog: Vec<RegistryEntry>,
}

impl View for PassRegistry {
    type V = Map<Seq<char>, PassKind>;

    closed spec fn view(&self) -> Map<Seq<char>, PassKind> {
        entries_map(self.catalog@)
    }
}

/// Every identifier occurs once.
pub open spec fn distinct_ids(s: Seq<RegistryEntry>) -> bool {
    forall|i: int, j: int| 0 <= i < j < s.len() ==> s[i].id@ != s[j].id@
}

/// With distinct identifiers, an entry's identifier maps to its kind.
pub proof fn lemma_entry_at(s: Seq<RegistryEntry>, i: int)
    requires
        distinct_ids(s),
        0 <= i < s.len(),
    ensures
        entries_map(s).contains_key(s[i].id@),
        entries_map(s)[s[i].id@] == s[i].kind,
    decreases s.len(),
{
    if i < s.len() - 1 {
        let t = s.drop_last();
        assert(distinct_ids(t)) by {
            assert forall|a: int, b: int| 0 <= a < b < t.len() implies t[a].id@ != t[b].id@ by {
                assert(t[a] == s[a] && t[b] == s[b]);
            }
        }
        lemma_entry_at(t, i);
        assert(t[i] == s[i]);
        assert(s[i].id@ != s[s.len() - 1].id@);
    }
}

/// With distinct identifiers, an entry's kind is what its identifier maps to, and the
/// identifiers are the keys.
pub proof fn lemma_entries_map(s: Seq<RegistryEntry>)
    requires
        distinct_ids(s),
    ensures
        forall|i: int| 0 <= i < s.len() ==> #[trigger] entries_map(s).contains_key(s[i].id@)
            && entries_map(s)[s[i].id@] == s[i].kind,
        forall|k: Seq<char>| #[trigger] entries_map(s).contains_key(k) ==> exists|i: int|
            0 <= i < s.len() && s[i].id@ == k,
        entries_map(s).dom().finite(),
        entries_map(s).dom().len() == s.len(),
    decreases s.len(),
{
    if s.len() > 0 {
        let t = s.drop_last();
        assert(distinct_ids(t)) by {
            assert forall|i: int, j: int| 0 <= i < j < t.len() implies t[i].id@ != t[j].id@ by {
                assert(t[i] == s[i] && t[j] == s[j]);
            }
        }
        lemma_entries_map(t);
        assert forall|k: Seq<char>| #[trigger] entries_map(s).contains_key(k) implies exists|i: int|
            0 <= i < s.len() && s[i].id@ == k by {
            if k != s.last().id@ {
                let i = choose|i: int| 0 <= i < t.len() && t[i].id@ == k;
                assert(s[i].id@ == k);
            }
        }
        assert(!entries_map(t).contains_key(s.last().id@)) by {
            if entries_map(t).contains_key(s.last().id@) {
                let i = choose|i: int| 0 <= i < t.len() && t[i].id@ == s.last().id@;
                assert(s[i].id@ == s[s.len() - 1].id@);
            }
        }
        assert forall|i: int| 0 <= i < s.len() implies #[trigger] entries_map(s).contains_key(s[i].id@)
            && entries_map(s)[s[i].id@] == s[i].kind by {
            lemma_entry_at(s, i);
        }
    }
}

impl PassRegistry {
    #[verifier::type_invariant]
    spec fn wf(self) -> bool {
        distinct_ids(self.catalog@)
    }

    /// A registry holding the built-in passes.
    pub fn new() -> (r: Self)
        ensures
            r@ == built_in_catalog(),
    {
        let mut registry = Self { catalog: Vec::new() };
        registry.register_all_built_in_passes();
        proof {
            assert(entries_map(Seq::<RegistryEntry>::empty()) == Map::<Seq<char>, PassKind>::empty());
            assert(registry@ =~= built_in_catalog());
        }
        registry
    }

    /// A registry with the same identifiers and kinds.
    pub fn copy(&self) -> (r: Self)
        ensures
            r@ == self@,
    {
        proof {
            use_type_invariant(self);
        }
        let ghost cat = self.catalog@;
        let mut out: Vec<RegistryEntry> = Vec::new();
        let mut i: usize = 0;
        proof {
            assert(cat.take(0) =~= Seq::<RegistryEntry>::empty());
        }
        while i < self.catalog.len()
            invariant
                i <= self.catalog.len(),
                cat == self.catalog@,
                distinct_ids(cat),
                out@.len() == i,
                forall|k: int| #![trigger out@[k]] 0 <= k < i ==> out@[k].id@ == cat[k].id@ && out@[k].kind == cat[k].kind,
                entries_map(out@) == entries_map(cat.take(i as int)),
            decreases self.catalog.len() - i,
        {
            let ghost before = out@;
            let e = RegistryEntry { id: self.catalog[i].id.clone(), kind: self.catalog[i].kind };
            let ghost ge = e;
            assert(ge.id@ == cat[i as int].id@ && ge.kind == cat[i as int].kind);
            out.push(e);
            proof {
                assert forall|k: int| #![trigger out@[k]] 0 <= k < i + 1 implies out@[k].id@ == cat[k].id@
                    && out@[k].kind == cat[k].kind by {
                    if k < i {
                        assert(out@[k] == before[k]);
                        assert(before[k].id@ == cat[k].id@);
                    } else {
                        assert(out@[k] == ge);
                    }
                }
                assert(out@.drop_last() =~= before);
                assert(cat.take(i + 1).drop_last() =~= cat.take(i as int));
            }
            i = i + 1;
        }
        proof {
            assert(cat.take(cat.len() as int) =~= cat);
            assert(distinct_ids(out@));
        }
        PassRegistry { catalog: out }
    }

    /// Where the entry with the identifier stands, if any.
    fn position(&self, id: &str) -> (r: Option<usize>)
        ensures
            match r {
                Some(i) => i < self.catalog@.len() && self.catalog@[i as int].id@ == id@,
                None => !self@.contains_key(id@),
            },
    {
        proof {
            use_type_invariant(self);
            lemma_entries_map(self.catalog@);
        }
        let mut i: usize = 0;
        while i < self.catalog.len()
            invariant
                i <= self.catalog.len(),
                forall|j: int| 0 <= j < i ==> self.catalog@[j].id@ != id@,
            decreases self.catalog.len() - i,
        {
            if crate::text::string_eq_str(&self.catalog[i].id, id) {
                return Some(i);
            }
            i = i + 1;
        }
        None
    }

    /// Registers a pass under an identifier, replacing what it named before.
    pub fn register_pass(&mut self, id: String, factory: PassKind)
        ensures
            final(self)@ == old(self)@.insert(id@, factory),
    {
        proof {
            use_type_invariant(&*self);
            lemma_entries_map(self.catalog@);
        }
        let ghost old_map = self@;
        match self.position(id.as_str()) {
            Some(i) => {
                let mut catalog = Vec::new();
                std::mem::swap(&mut catalog, &mut self.catalog);
                let ghost before = catalog@;
                catalog.set(i, RegistryEntry { id, kind: factory });
                proof {
                    lemma_entries_map(catalog@);
                    assert(distinct_ids(catalog@));
                    assert(entries_map(catalog@) =~= old_map.insert(before[i as int].id@, factory)) by {
                        assert forall|k: Seq<char>| #[trigger] entries_map(catalog@).contains_key(k)
                            <==> old_map.insert(before[i as int].id@, factory).contains_key(k) by {
                            if entries_map(catalog@).contains_key(k) {
                                let j = choose|j: int| 0 <= j < catalog@.len() && catalog@[j].id@ == k;
                                assert(before[j].id@ == k);
                            }
                            if old_map.contains_key(k) {
                                let j = choose|j: int| 0 <= j < before.len() && before[j].id@ == k;
                                assert(catalog@[j].id@ == k);
                            }
                        }
                        assert forall|k: Seq<char>| #[trigger] entries_map(catalog@).contains_key(k)
                            implies entries_map(catalog@)[k] == old_map.insert(before[i as int].id@, factory)[k] by {
                            let j = choose|j: int| 0 <= j < catalog@.len() && catalog@[j].id@ == k;
                            assert(before[j].id@ == k);
                        }
                    }
                }
                self.catalog = catalog;
            },
            None => {
                let mut catalog = Vec::new();
                std::mem::swap(&mut catalog, &mut self.catalog);
                let ghost before = catalog@;
                catalog.push(RegistryEntry { id, kind: factory });
                proof {
                    assert(catalog@.drop_last() =~= before);
                    assert forall|i: int, j: int| 0 <= i < j < catalog@.len() implies catalog@[i].id@
                        != catalog@[j].id@ by {
                        if j == catalog@.len() - 1 {
                            assert(old_map.contains_key(before[i].id@));
                        }
                    }
                }
                self.catalog = catalog;
            },
        }
    }

    /// A fresh pass registered under the identifier, with default parameters.
    pub fn create_pass(&self, id: &str) -> (r: Option<AnyPass>)
        ensures
            match r {
                Some(p) => self@.contains_key(id@) && p.kind() == self@[id@] && p.at_defaults() && fresh_params(
                    self@[id@],
                    p.param_map(),
                ),
                None => !self@.contains_key(id@),
            },
    {
        proof {
            use_type_invariant(self);
            lemma_entries_map(self.catalog@);
        }
        match self.position(id) {
            Some(i) => {
                assert(entries_map(self.catalog@).contains_key(self.catalog@[i as int].id@));
                Some(AnyPass::of_kind(self.catalog[i].kind))
            },
            None => None,
        }
    }

    /// The descriptor of a fresh pass registered under the identifier.
    pub fn get_descriptor(&self, id: &str) -> (r: Option<PassDescriptor>)
        ensures
            match r {
                Some(d) => self@.contains_key(id@) && d.id@ == kind_id(self@[id@]) && d.safety
                    == kind_safety(self@[id@]) && fresh_params(self@[id@], d.params@),
                None => !self@.contains_key(id@),
            },
    {
        match self.create_pass(id) {
            Some(p) => {
                let d = p.descriptor();
                proof {
                    if let Some((name, dv, lo, hi, st)) = kind_param(p.kind()) {
                        assert(p.param_map().contains_key(name));
                        assert(d.params@.contains_key(name));
                    }
                    assert(d.params@.dom() =~= p.param_map().dom());
                }
                Some(d)
            },
            None => None,
        }
    }

    /// Every registered identifier, once each.
    pub fn list_all(&self) -> (r: Vec<String>)
        ensures
            r@.len() == self@.dom().len(),
            forall|i: int| 0 <= i < r@.len() ==> #[trigger] self@.contains_key(r@[i]@),
            forall|k: Seq<char>| #[trigger] self@.contains_key(k) ==> exists|i: int|
                0 <= i < r@.len() && r@[i]@ == k,
            forall|i: int, j: int| 0 <= i < j < r@.len() ==> r@[i]@ != r@[j]@,
    {
        proof {
            use_type_invariant(self);
            lemma_entries_map(self.catalog@);
        }
        let mut out: Vec<String> = Vec::new();
        let mut i: usize = 0;
        while i < self.catalog.len()
            invariant
                i <= self.catalog.len(),
                out@.len() == i,
                forall|j: int| 0 <= j < i ==> #[trigger] out@[j]@ == self.catalog@[j].id@,
            decreases self.catalog.len() - i,
        {
            out.push(copy_string(&self.catalog[i].id));
            i = i + 1;
        }
        proof {
            assert forall|k: Seq<char>| #[trigger] self@.contains_key(k) implies exists|i: int|
                0 <= i < out@.len() && out@[i]@ == k by {
                let j = choose|j: int| 0 <= j < self.catalog@.len() && self.catalog@[j].id@ == k;
                assert(out@[j]@ == k);
            }
            assert forall|i: int| 0 <= i < out@.len() implies #[trigger] self@.contains_key(out@[i]@) by {
                assert(out@[i]@ == self.catalog@[i].id@);
            }
        }
        out
    }

    /// Whether a pass is registered under the identifier.
    pub fn is_registered(&self, id: &str) -> (r: bool)
        ensures
            r == self@.contains_key(id@),
    {
        proof {
            use_type_invariant(self);
            lemma_entries_map(self.catalog@);
        }
        match self.position(id) {
            Some(_) => true,
            None => false,
        }
    }

    /// Registers every built-in pass under its own identifier.
    pub fn register_all_built_in_passes(&mut self)
        ensures
            final(self)@ == old(self)@.union_prefer_right(built_in_catalog()),
    {
        let ghost start = self@;
        self.register_pass(string_of(AnyPass::of_kind(PassKind::ConstantFolding).id()), PassKind::ConstantFolding);
        self.register_pass(string_of(AnyPass::of_kind(PassKind::DeadCode).id()), PassKind::DeadCode);
        self.register_pass(
            string_of(AnyPass::of_kind(PassKind::ConstantPropagation).id()),
            PassKind::ConstantPropagation,
        );
        self.register_pass(
            string_of(AnyPass::of_kind(PassKind::StrengthReduction).id()),
            PassKind::StrengthReduction,
        );
        self.register_pass(string_of(AnyPass::of_kind(PassKind::Cse).id()), PassKind::Cse);
        self.register_pass(string_of(AnyPass::of_kind(PassKind::BlockMerging).id()), PassKind::BlockMerging);
        self.register_pass(string_of(AnyPass::of_kind(PassKind::LoopUnroll).id()), PassKind::LoopUnroll);
        proof {
            assert(self@ =~= start.union_prefer_right(built_in_catalog()));
        }
    }
}

} // verus!
