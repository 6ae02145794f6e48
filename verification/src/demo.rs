use vstd::prelude::*;
use vstd::hash_map::StringHashMap;
use crate::engine::{EngineError, OptimizationEngine};
use crate::interpreter::{Fault, Interpreter, InterpreterError, execute};
use crate::ir::module::{ModuleModel, find_function};
use crate::validator::validation_outcome;
use crate::ir::function::Function;
use crate::ir::module::Module;
use crate::ir_generator::{IRGenerator, is_variant, specialize_map};
use crate::module_builders::{build_sum_example, sum_example};
use crate::passes::{
    OptimizationLevel, PassSafety, level_ids, map_function, pipeline, pipeline_accepts, registered_kinds,
};
use crate::passes::pass_registry::AnyPass;
use crate::passes::pass_registry::{built_in_catalog, kind_id, kind_safety};
use crate::text::string_of;

verus! {

broadcast use vstd::std_specs::vec::group_vec_axioms;

/// One registered pass as the demo lists it.
pub struct PassListing {
    pub safety: PassSafety,
    pub name: &'static str,
    pub id: &'static str,
}

/// A pipeline as a fresh engine sets one up for `level`: the level's registered passes, in
/// order, at their default parameters.
pub open spec fn level_pipeline(ps: Seq<AnyPass>, level: OptimizationLevel) -> bool {
    &&& ps.len() == registered_kinds(level_ids(level), built_in_catalog()).len()
    &&& forall|i: int| 0 <= i < ps.len() ==> (#[trigger] ps[i]).kind() == registered_kinds(
        level_ids(level),
        built_in_catalog(),
    )[i] && ps[i].at_defaults()
}

/// Running the first function of a module without arguments.
pub open spec fn run_first(m: ModuleModel) -> Result<i64, Fault> {
    execute(m, m.functions[0], Seq::empty())
}

/// What the sum example of size `n` gives once a pipeline has run on it: `None` when the
/// pipeline refuses it or leaves no function.
pub open spec fn optimized_run(ps: Seq<AnyPass>, n: i32) -> Option<Result<i64, Fault>> {
    if pipeline_accepts(ps, sum_example(n)) && pipeline(ps, sum_example(n)).0.functions.len() > 0 {
        Some(run_first(pipeline(ps, sum_example(n)).0))
    } else {
        None
    }
}

/// A check of the sum example of size `n` as `functional_check` makes it: the expected sum,
/// what the example gives, and what it gives once the conservative pipeline has run.
pub open spec fn check_passes(n: i32, c: FunctionalCheck) -> bool {
    &&& c.n == n
    &&& c.expected == n * (n - 1) / 2
    &&& run_first(sum_example(n)) == Ok::<i64, Fault>(c.original)
    &&& exists|ps: Seq<AnyPass>|
        level_pipeline(ps, OptimizationLevel::Conservative) && optimized_run(ps, n) == Some(
            Ok::<i64, Fault>(c.optimized),
        )
}

/// The failure `functional_check` reports for the sum example of size `n`: the example's own
/// fault; the conservative pipeline refusing it or leaving no function; or the fault of the
/// optimized example.
pub open spec fn check_fails(n: i32, e: DemoError) -> bool {
    match e {
        DemoError::OriginalRun(x) => run_first(sum_example(n)) == Err::<i64, Fault>(x@),
        DemoError::PipelineRefuses => run_first(sum_example(n)) is Ok && exists|ps: Seq<AnyPass>|
            level_pipeline(ps, OptimizationLevel::Conservative) && optimized_run(ps, n) is None,
        DemoError::OptimizedRun(x) => run_first(sum_example(n)) is Ok && exists|ps: Seq<AnyPass>|
            level_pipeline(ps, OptimizationLevel::Conservative) && optimized_run(ps, n) == Some(
                Err::<i64, Fault>(x@),
            ),
        _ => false,
    }
}

/// The sum example of one size run before and after optimization.
pub struct FunctionalCheck {
    pub n: i32,
    pub expected: i64,
    pub original: i64,
    pub optimized: i64,
}

/// What the demo computes, for the caller to show.
pub struct DemoReport {
    /// The sum example of size 10.
    pub original: Module,
    /// Every registered pass.
    pub registry: Vec<PassListing>,
    /// Whether optimizing the hot paths changed the module.
    pub changed: bool,
    /// The module after optimization.
    pub optimized: Module,
    /// Whether the optimized module agrees with the original.
    pub validated: bool,
    /// The sum examples of sizes 5, 10 and 20, run before and after optimization.
    pub checks: Vec<FunctionalCheck>,
    /// The example's function with every store to `n` storing 5.
    pub specialized: Function,
    /// Variants of the example's function with `i`, `sum` and `n` known as 0, 0 and 10.
    pub variants: Vec<Function>,
}

/// The step of the demo that failed.
pub enum DemoError {
    Profile(EngineError),
    PipelineRefuses,
    Optimize(EngineError),
    OriginalRun(InterpreterError),
    OptimizedRun(InterpreterError),
}

/// The sum example of size `n`, run as built and after the conservative pipeline.
fn functional_check(n: i32) -> (r: Result<FunctionalCheck, DemoError>)
    requires
        0 <= n <= 1000,
    ensures
        match r {
            Ok(c) => check_passes(n, c),
            Err(e) => check_fails(n, e),
        },
{
    let test_mod = build_sum_example(n);
    let orig = match Interpreter::new().execute_function(&test_mod, &test_mod.functions[0], &[]) {
        Ok(v) => v,
        Err(e) => {
            return Err(DemoError::OriginalRun(e));
        },
    };
    let mut eng = OptimizationEngine::new(OptimizationLevel::Conservative);
    let ghost ps = eng.pipeline()@;
    assert(level_pipeline(ps, OptimizationLevel::Conservative));
    eng.load_module(test_mod.copy());
    assert(find_function(sum_example(n).functions, "compute_sum"@) == Some(0int));
    match eng.profile("compute_sum") {
        Ok(()) => {},
        Err(e) => {
            return Err(DemoError::Profile(e));
        },
    }
    eng.identify_hot_paths(1);
    proof {
        crate::profiler::law_hot_paths_are_the_busiest(eng.profiled().0, eng.profiled().1, 1);
    }
    if !eng.can_optimize() {
        return Err(DemoError::PipelineRefuses);
    }
    match eng.optimize_hot_paths() {
        Ok(_) => {},
        Err(e) => {
            return Err(DemoError::Optimize(e));
        },
    }
    assert(eng.hot().len() == 1);
    assert(eng.working() == Some(pipeline(ps, sum_example(n)).0));
    let opt = match eng.get_module() {
        Some(m) => {
            if m.functions.len() == 0 {
                assert(optimized_run(ps, n) is None);
                return Err(DemoError::PipelineRefuses);
            }
            match Interpreter::new().execute_function(m, &m.functions[0], &[]) {
                Ok(v) => v,
                Err(e) => {
                    return Err(DemoError::OptimizedRun(e));
                },
            }
        },
        None => {
            return Err(DemoError::PipelineRefuses);
        },
    };
    let wide = n as i64;
    assert(0 <= wide * (wide - 1) <= 1000 * 1000) by (nonlinear_arith)
        requires
            0 <= wide <= 1000,
    ;
    Ok(FunctionalCheck { n, expected: wide * (wide - 1) / 2, original: orig, optimized: opt })
}

/// The demonstration: the sum example of size 10 profiled, optimized by the conservative
/// pipeline and validated; the registered passes; the sum examples of sizes 5, 10 and 20 run
/// before and after optimization; a specialisation and four random variants of the
/// example's function.
pub fn run_demo() -> (r: Result<DemoReport, DemoError>)
    ensures
        r matches Ok(rep) ==> {
            &&& rep.original@ == sum_example(10)
            &&& rep.registry@.len() == built_in_catalog().dom().len()
            &&& forall|i: int| #![trigger rep.registry@[i]] 0 <= i < rep.registry@.len() ==> {
                &&& built_in_catalog().contains_key(rep.registry@[i].id@)
                &&& rep.registry@[i].id@ == kind_id(built_in_catalog()[rep.registry@[i].id@])
                &&& rep.registry@[i].safety == kind_safety(built_in_catalog()[rep.registry@[i].id@])
            }
            &&& exists|ps: Seq<AnyPass>|
                level_pipeline(ps, OptimizationLevel::Conservative) && pipeline_accepts(ps, sum_example(10))
                    && rep.optimized@ == pipeline(ps, sum_example(10)).0 && rep.changed == pipeline(
                    ps,
                    sum_example(10),
                ).1
            &&& rep.validated == validation_outcome(sum_example(10), rep.optimized@, "compute_sum"@, 1).0
            &&& rep.checks@.len() == 3
            &&& check_passes(5, rep.checks@[0])
            &&& check_passes(10, rep.checks@[1])
            &&& check_passes(20, rep.checks@[2])
            &&& rep.specialized@ == map_function(
                sum_example(10).functions[0],
                specialize_map(map!["n"@ => 5i64]),
            )
            &&& rep.variants@.len() == 4
            &&& forall|k: int| #![trigger rep.variants@[k]] 0 <= k < 4 ==> is_variant(
                sum_example(10).functions[0],
                map!["i"@ => 0i64, "sum"@ => 0i64, "n"@ => 10i64],
                rep.variants@[k]@,
            )
        },
        r matches Err(e) ==> {
            ||| (e is PipelineRefuses && exists|ps: Seq<AnyPass>|
                level_pipeline(ps, OptimizationLevel::Conservative) && !pipeline_accepts(ps, sum_example(10)))
            ||| check_fails(5, e)
            ||| check_fails(10, e)
            ||| check_fails(20, e)
        },
{
    let module = build_sum_example(10);
    let mut engine = OptimizationEngine::new(OptimizationLevel::Conservative);
    let ghost ps = engine.pipeline()@;
    assert(level_pipeline(ps, OptimizationLevel::Conservative));
    engine.load_module(module.copy());
    assert(find_function(sum_example(10).functions, "compute_sum"@) == Some(0int));
    match engine.profile("compute_sum") {
        Ok(()) => {},
        Err(e) => {
            return Err(DemoError::Profile(e));
        },
    }
    engine.identify_hot_paths(5);
    proof {
        crate::profiler::law_hot_paths_are_the_busiest(engine.profiled().0, engine.profiled().1, 5);
    }
    assert(engine.hot().len() == 1);
    let ids = engine.get_registry().list_all();
    let mut registry: Vec<PassListing> = Vec::new();
    let mut k: usize = 0;
    while k < ids.len()
        invariant
            k <= ids.len(),
            engine.registry() == built_in_catalog(),
            engine.pipeline()@ == ps,
            engine.working() == Some(sum_example(10)),
            engine.original() == Some(sum_example(10)),
            engine.hot().len() == 1,
            engine.runs() == 1,
            level_pipeline(ps, OptimizationLevel::Conservative),
            ids@.len() == built_in_catalog().dom().len(),
            forall|i: int| 0 <= i < ids@.len() ==> #[trigger] built_in_catalog().contains_key(ids@[i]@),
            registry@.len() == k,
            forall|i: int| #![trigger registry@[i]] 0 <= i < k ==> {
                &&& built_in_catalog().contains_key(registry@[i].id@)
                &&& registry@[i].id@ == kind_id(built_in_catalog()[registry@[i].id@])
                &&& registry@[i].safety == kind_safety(built_in_catalog()[registry@[i].id@])
            },
        decreases ids.len() - k,
    {
        match engine.get_registry().get_descriptor(ids[k].as_str()) {
            Some(d) => {
                proof {
                    crate::passes::pass_registry::law_catalog_registers_each_kind_under_its_id(
                        built_in_catalog()[ids@[k as int]@],
                    );
                }
                registry.push(PassListing { safety: d.safety, name: d.name, id: d.id });
            },
            None => {},
        }
        k = k + 1;
    }
    if !engine.can_optimize() {
        return Err(DemoError::PipelineRefuses);
    }
    let changed = match engine.optimize_hot_paths() {
        Ok(c) => c,
        Err(e) => {
            return Err(DemoError::Optimize(e));
        },
    };
    let optimized = match engine.get_module() {
        Some(m) => m.copy(),
        None => {
            return Err(DemoError::PipelineRefuses);
        },
    };
    let validated = engine.validate_optimization("compute_sum");
    let mut checks: Vec<FunctionalCheck> = Vec::new();
    match functional_check(5) {
        Ok(c) => checks.push(c),
        Err(e) => {
            return Err(e);
        },
    }
    match functional_check(10) {
        Ok(c) => checks.push(c),
        Err(e) => {
            return Err(e);
        },
    }
    match functional_check(20) {
        Ok(c) => checks.push(c),
        Err(e) => {
            return Err(e);
        },
    }
    let orig = module.functions[0].copy();
    let mut consts: StringHashMap<i64> = StringHashMap::new();
    consts.insert(string_of("n"), 5);
    let specialized = IRGenerator::specialize_function(&orig, &consts);
    let mut known_values: StringHashMap<i64> = StringHashMap::new();
    known_values.insert(string_of("i"), 0);
    known_values.insert(string_of("sum"), 0);
    known_values.insert(string_of("n"), 10);
    let variants = IRGenerator::generate_variants(&orig, &known_values, 4);
    proof {
        assert(consts@ =~= map!["n"@ => 5i64]);
        assert(known_values@ =~= map!["i"@ => 0i64, "sum"@ => 0i64, "n"@ => 10i64]);
    }
    Ok(DemoReport { original: module, registry, changed, optimized, validated, checks, specialized, variants })
}

} // verus!
