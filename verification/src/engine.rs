use vstd::prelude::*;
use crate::ir::module::{Module, ModuleModel, find_function};
use crate::passes::pass_registry::PassRegistry;
use crate::passes::{OptimizationLevel, PassError, PassManager, pipeline, pipeline_accepts, registered_kinds, level_ids};
use crate::profiler::CallCounts;
use crate::text::{push_str, string_of};
use crate::validator::{ValidationResult, Validator, validation_outcome};

verus! {

/// Why an engine operation failed.
#[derive(Debug)]
pub enum EngineError {
    PassError(PassError),
    ModuleNotLoaded,
    FunctionNotFound(String),
}

/// The message of a pass error.
pub open spec fn pass_error_text(e: PassError) -> Seq<char> {
    match e {
        PassError::Generic(s) => "Pass failed: "@ + s@,
        PassError::ParamNotFound(s) => "Parameter '"@ + s@ + "' not found"@,
    }
}

/// The message of an engine error.
pub open spec fn engine_error_text(e: EngineError) -> Seq<char> {
    match e {
        EngineError::PassError(p) => "Pass error: "@ + pass_error_text(p),
        EngineError::ModuleNotLoaded => "Module not loaded"@,
        EngineError::FunctionNotFound(s) => "Function '"@ + s@ + "' not found in module"@,
    }
}

impl PassError {
    /// The human-readable message of this error.
    pub fn to_string(&self) -> (r: String)
        ensures
            r@ == pass_error_text(*self),
    {
        let mut out = String::new();
        match self {
            PassError::Generic(s) => {
                push_str(&mut out, "Pass failed: ");
                push_str(&mut out, s.as_str());
            },
            PassError::ParamNotFound(s) => {
                push_str(&mut out, "Parameter '");
                push_str(&mut out, s.as_str());
                push_str(&mut out, "' not found");
            },
        }
        out
    }
}

impl EngineError {
    /// The human-readable message of this error.
    pub fn to_string(&self) -> (r: String)
        ensures
            r@ == engine_error_text(*self),
    {
        match self {
            EngineError::PassError(p) => {
                let mut out = string_of("Pass error: ");
                let inner = p.to_string();
                push_str(&mut out, inner.as_str());
                out
            },
            EngineError::ModuleNotLoaded => string_of("Module not loaded"),
            EngineError::FunctionNotFound(s) => {
                let mut out = string_of("Function '");
                push_str(&mut out, s.as_str());
                push_str(&mut out, "' not found in module");
                out
            },
        }
    }

    /// Wraps a pass error.
    pub fn from_pass_error(e: PassError) -> (r: Self)
        ensures
            r == EngineError::PassError(e),
    {
        EngineError::PassError(e)
    }
}

/// The engine as a foreign caller sees it: a handle with nothing inside that it can read.
pub struct MetamorphicEngine {
    _data: [u8; 0],
}

/// Holds a module before and during optimization, the pass pipeline, and what profiling
/// found.
pub struct OptimizationEngine {
    original_module: Option<Module>,
    working_module: Option<Module>,
    pass_manager: PassManager,
    pass_registry: PassRegistry,
    profile: CallCounts,
    validator: Validator,
    opt_level: OptimizationLevel,
    validation_runs: u32,
    hot_functions: Vec<String>,
}

impl OptimizationEngine {
    /// The module as loaded.
    pub closed spec fn original(self) -> Option<ModuleModel> {
        match self.original_module {
            Some(m) => Some(m@),
            None => None,
        }
    }

    /// The module being optimized.
    pub closed spec fn working(self) -> Option<ModuleModel> {
        match self.working_module {
            Some(m) => Some(m@),
            None => None,
        }
    }

    /// The pass pipeline.
    pub closed spec fn pipeline(self) -> PassManager {
        self.pass_manager
    }

    /// The registry passes come from.
    pub closed spec fn registry(self) -> Map<Seq<char>, crate::passes::pass_registry::PassKind> {
        self.pass_registry@
    }

    /// The preset in use.
    pub closed spec fn level(self) -> OptimizationLevel {
        self.opt_level
    }

    /// How many times validation runs each function.
    pub closed spec fn runs(self) -> u32 {
        self.validation_runs
    }

    /// The functions profiling found hottest.
    pub closed spec fn hot(self) -> Seq<Seq<char>> {
        crate::ir::function::string_views(self.hot_functions@)
    }

    /// The profiled functions, in first-profiled order, and their call counts.
    pub closed spec fn profiled(self) -> (Seq<Seq<char>>, Seq<u64>) {
        (self.profile.names(), self.profile.counts())
    }

    /// An engine with no module, the preset's passes, and one validation run.
    pub fn new(opt_level: OptimizationLevel) -> (r: Self)
        ensures
            r.original() is None,
            r.working() is None,
            r.registry() == crate::passes::pass_registry::built_in_catalog(),
            r.pipeline()@.len() == registered_kinds(level_ids(opt_level), r.registry()).len(),
            forall|i: int| 0 <= i < r.pipeline()@.len() ==> (#[trigger] r.pipeline()@[i]).kind()
                == registered_kinds(level_ids(opt_level), r.registry())[i] && r.pipeline()@[i].at_defaults(),
            r.level() == opt_level,
            r.runs() == 1,
            r.hot() == Seq::<Seq<char>>::empty(),
            r.profiled().0 == Seq::<Seq<char>>::empty(),
    {
        let registry = PassRegistry::new();
        let mut pass_manager = PassManager::new();
        pass_manager.populate_from_level(opt_level, &registry);
        let r = Self {
            original_module: None,
            working_module: None,
            pass_manager,
            pass_registry: registry,
            profile: CallCounts::new(),
            validator: Validator::new(),
            opt_level,
            validation_runs: 1,
            hot_functions: Vec::new(),
        };
        assert(r.hot() =~= Seq::<Seq<char>>::empty());
        r
    }

    /// Loads a module: it becomes both the original and the working module, and profiling
    /// starts over.
    pub fn load_module(&mut self, module: Module)
        ensures
            final(self).original() == Some(module@),
            final(self).working() == Some(module@),
            final(self).hot() == Seq::<Seq<char>>::empty(),
            final(self).profiled().0 == Seq::<Seq<char>>::empty(),
            final(self).profiled().1 == Seq::<u64>::empty(),
            final(self).pipeline() == old(self).pipeline(),
            final(self).registry() == old(self).registry(),
            final(self).level() == old(self).level(),
            final(self).runs() == old(self).runs(),
    {
        self.original_module = Some(module.copy());
        self.working_module = Some(module);
        self.profile.reset();
        self.hot_functions = Vec::new();
        assert(self.hot() =~= Seq::<Seq<char>>::empty());
    }

    /// Switches to another preset, replacing the pipeline by its passes.
    pub fn set_optimization_level(&mut self, level: OptimizationLevel)
        ensures
            final(self).level() == level,
            final(self).pipeline()@.len() == registered_kinds(level_ids(level), old(self).registry()).len(),
            forall|i: int| 0 <= i < final(self).pipeline()@.len() ==> (#[trigger] final(self).pipeline()@[i]).kind()
                == registered_kinds(level_ids(level), old(self).registry())[i] && final(self).pipeline()@[i].at_defaults(),
            final(self).registry() == old(self).registry(),
            final(self).original() == old(self).original(),
            final(self).working() == old(self).working(),
            final(self).runs() == old(self).runs(),
    {
        self.opt_level = level;
        self.pass_manager.populate_from_level(level, &self.pass_registry);
    }

    /// Sets how many times validation runs each function.
    pub fn set_validation_runs(&mut self, runs: u32)
        ensures
            final(self).runs() == runs,
            final(self).original() == old(self).original(),
            final(self).working() == old(self).working(),
            final(self).pipeline() == old(self).pipeline(),
    {
        self.validation_runs = runs;
    }

    /// Runs the named function of the working module once and counts the call.
    pub fn profile(&mut self, func_name: &str) -> (r: Result<(), EngineError>)
        ensures
            old(self).working() is None ==> r matches Err(EngineError::ModuleNotLoaded),
            old(self).working() matches Some(m) ==> (find_function(m.functions, func_name@) is None
                <==> (r matches Err(EngineError::FunctionNotFound(s)) && s@ == func_name@)),
            old(self).working() matches Some(m) ==> (find_function(m.functions, func_name@) is Some
                <==> r is Ok),
            r is Ok ==> final(self).profiled().0 == if old(self).profiled().0.contains(func_name@) {
                old(self).profiled().0
            } else {
                old(self).profiled().0.push(func_name@)
            },
            r is Err ==> final(self).profiled() == old(self).profiled(),
            r is Ok ==> final(self).profiled().1 == crate::profiler::counts_after_call(
                old(self).profiled().0,
                old(self).profiled().1,
                func_name@,
            ),
            final(self).original() == old(self).original(),
            final(self).working() == old(self).working(),
            final(self).pipeline() == old(self).pipeline(),
            final(self).hot() == old(self).hot(),
            final(self).runs() == old(self).runs(),
            final(self).registry() == old(self).registry(),
            final(self).level() == old(self).level(),
    {
        let working = match &self.working_module {
            Some(m) => m,
            None => {
                return Err(EngineError::ModuleNotLoaded);
            },
        };
        let func = match working.get_function(func_name) {
            Some(f) => f,
            None => {
                return Err(EngineError::FunctionNotFound(string_of(func_name)));
            },
        };
        let _ = self.validator.interpreter.execute_function(working, func, &[]);
        self.profile.record_call(func_name);
        Ok(())
    }

    /// Keeps the `top_n` most-called functions as the hot ones.
    pub fn identify_hot_paths(&mut self, top_n: usize)
        ensures
            final(self).hot() == crate::profiler::top_by_count(
                old(self).profiled().0,
                old(self).profiled().1,
                top_n as nat,
            ),
            final(self).profiled() == old(self).profiled(),
            final(self).original() == old(self).original(),
            final(self).working() == old(self).working(),
            final(self).pipeline() == old(self).pipeline(),
            final(self).runs() == old(self).runs(),
            final(self).registry() == old(self).registry(),
            final(self).level() == old(self).level(),
    {
        self.hot_functions = self.profile.hot_functions(top_n);
    }

    /// Runs the pipeline on the working module, once profiling has found hot functions;
    /// Whether the pipeline can run on the working module (trivially so without one); the
    /// optimization asks for it.
    pub fn can_optimize(&self) -> (r: bool)
        ensures
            r == (self.working() matches Some(m) ==> pipeline_accepts(self.pipeline()@, m)),
    {
        match &self.working_module {
            Some(m) => self.pass_manager.accepts_module(m),
            None => true,
        }
    }

    /// whether anything changed.
    pub fn optimize_hot_paths(&mut self) -> (r: Result<bool, EngineError>)
        requires
            old(self).working() matches Some(m) ==> pipeline_accepts(old(self).pipeline()@, m),
        ensures
            r is Ok,
            old(self).hot().len() == 0 ==> r == Ok::<bool, EngineError>(false) && final(self).working()
                == old(self).working(),
            old(self).hot().len() > 0 ==> match old(self).working() {
                Some(m) => (r matches Ok(c) && final(self).working() is Some && (final(self).working()->0, c)
                    == pipeline(old(self).pipeline()@, m)),
                None => r == Ok::<bool, EngineError>(false) && final(self).working() is None,
            },
            final(self).original() == old(self).original(),
            final(self).pipeline() == old(self).pipeline(),
            final(self).hot() == old(self).hot(),
            final(self).runs() == old(self).runs(),
    {
        if self.hot_functions.len() == 0 {
            return Ok(false);
        }
        let mut changed = false;
        match self.working_module.take() {
            Some(mut module) => {
                let res = self.pass_manager.run_all(&mut module);
                self.working_module = Some(module);
                match res {
                    Ok(c) => {
                        changed = c;
                    },
                    Err(e) => {
                        return Err(EngineError::from_pass_error(e));
                    },
                }
            },
            None => {},
        }
        Ok(changed)
    }

    /// Whether the working module's function still behaves as the original's.
    pub fn validate_optimization(&self, func_name: &str) -> (r: bool)
        requires
            self.original() is Some,
            self.working() is Some,
        ensures
            r == validation_outcome(self.original()->0, self.working()->0, func_name@, self.runs()).0,
    {
        let result = self.validate_optimization_result(func_name);
        result.passed
    }

    /// The full validation of the named function: working module against original.
    pub fn validate_optimization_result(&self, func_name: &str) -> (r: ValidationResult)
        requires
            self.original() is Some,
            self.working() is Some,
        ensures
            (r.passed, r.corruption_probability, r.test_count, r.failed_tests, r.failure_details@)
                == validation_outcome(self.original()->0, self.working()->0, func_name@, self.runs()),
    {
        match (&self.original_module, &self.working_module) {
            (Some(original), Some(optimized)) => self.validator.validate(
                original,
                optimized,
                func_name,
                self.validation_runs,
            ),
            _ => {
                proof {
                    assert(false);
                }
                self.validator.validate(&Module::new(String::new()), &Module::new(String::new()), func_name, 0)
            },
        }
    }

    /// The working module, if one is loaded.
    pub fn get_module(&self) -> (r: Option<&Module>)
        ensures
            match r {
                Some(m) => self.working() == Some(m@),
                None => self.working() is None,
            },
    {
        self.working_module.as_ref()
    }

    /// The working module, for modification.
    pub fn get_module_mut(&mut self) -> (r: Option<&mut Module>)
        ensures
            match r {
                Some(m) => old(self).working() == Some((*m)@) && final(self).working() == Some(
                    (*final(m))@,
                ),
                None => old(self).working() is None && final(self).working() is None,
            },
            final(self).original() == old(self).original(),
            final(self).pipeline() == old(self).pipeline(),
    {
        self.working_module.as_mut()
    }

    /// The pass pipeline.
    pub fn get_pass_manager(&self) -> (r: &PassManager)
        ensures
            *r == self.pipeline(),
    {
        &self.pass_manager
    }

    /// The pass pipeline, for modification.
    pub fn pass_manager_mut(&mut self) -> (r: &mut PassManager)
        ensures
            *r == old(self).pipeline(),
            final(self).pipeline() == *final(r),
            final(self).original() == old(self).original(),
            final(self).working() == old(self).working(),
    {
        &mut self.pass_manager
    }

    /// The validator.
    pub fn validator(&self) -> (r: &Validator) {
        &self.validator
    }

    /// The pass registry.
    pub fn get_registry(&self) -> (r: &PassRegistry)
        ensures
            r@ == self.registry(),
    {
        &self.pass_registry
    }

    /// Runs the pipeline on the working module, if one is loaded; whether anything changed.
    pub fn run_passes_on_module(&mut self) -> (r: bool)
        requires
            old(self).working() matches Some(m) ==> pipeline_accepts(old(self).pipeline()@, m),
        ensures
            match old(self).working() {
                Some(m) => (final(self).working()->0, r) == pipeline(old(self).pipeline()@, m),
                None => !r && final(self).working() is None,
            },
            final(self).original() == old(self).original(),
            final(self).pipeline() == old(self).pipeline(),
    {
        match self.working_module.take() {
            Some(mut module) => {
                let res = self.pass_manager.run_all(&mut module);
                self.working_module = Some(module);
                match res {
                    Ok(c) => c,
                    Err(_) => false,
                }
            },
            None => false,
        }
    }

    /// No predictor is attached.
    pub fn get_predictor_stub(&self) -> (r: Option<()>)
        ensures
            r is None,
    {
        None
    }

    /// An engine for a module, with the conservative preset.
    pub fn from_module(module: Module) -> (r: Self)
        ensures
            r.original() == Some(module@),
            r.working() == Some(module@),
            r.level() == OptimizationLevel::Conservative,
            r.runs() == 1,
    {
        let mut engine = OptimizationEngine::new(OptimizationLevel::Conservative);
        engine.load_module(module);
        engine
    }
}

impl Clone for OptimizationEngine {
    /// A copy with the same modules, registry, level, runs, profile and hot functions; its
    /// pipeline is built afresh from the level and the registry, every pass at its defaults.
    fn clone(&self) -> (r: Self)
        ensures
            r.original() == self.original(),
            r.working() == self.working(),
            r.registry() == self.registry(),
            r.level() == self.level(),
            r.runs() == self.runs(),
            r.hot() == self.hot(),
            r.profiled() == self.profiled(),
            r.pipeline()@.len() == registered_kinds(level_ids(self.level()), self.registry()).len(),
            forall|i: int| 0 <= i < r.pipeline()@.len() ==> (#[trigger] r.pipeline()@[i]).kind()
                == registered_kinds(level_ids(self.level()), self.registry())[i] && r.pipeline()@[i].at_defaults(),
    {
        let mut pass_manager = PassManager::new();
        pass_manager.populate_from_level(self.opt_level, &self.pass_registry);
        let original_module = match &self.original_module {
            Some(m) => Some(m.copy()),
            None => None,
        };
        let working_module = match &self.working_module {
            Some(m) => Some(m.copy()),
            None => None,
        };
        let mut hot_functions: Vec<String> = Vec::new();
        let mut i: usize = 0;
        while i < self.hot_functions.len()
            invariant
                i <= self.hot_functions.len(),
                hot_functions@.len() == i,
                forall|k: int| 0 <= k < i ==> #[trigger] hot_functions@[k]@ == self.hot_functions@[k]@,
            decreases self.hot_functions.len() - i,
        {
            hot_functions.push(self.hot_functions[i].clone());
            i = i + 1;
        }
        let r = OptimizationEngine {
            original_module,
            working_module,
            pass_manager,
            pass_registry: self.pass_registry.copy(),
            profile: self.profile.copy(),
            validator: self.validator,
            opt_level: self.opt_level,
            validation_runs: self.validation_runs,
            hot_functions,
        };
        proof {
            assert(r.hot() =~= self.hot());
        }
        r
    }
}

} // verus!
