use vstd::prelude::*;
use crate::interpreter::{Fault, Interpreter, execute, fault_message};
use crate::ir::function::{Function, FunctionModel};
use crate::ir::module::{Module, ModuleModel, find_function, lemma_find_function};
use crate::text::{push_str, string_of};

verus! {

/// Outcome of comparing an optimized module against its original.
#[derive(Debug, PartialEq)]
pub struct ValidationResult {
    pub passed: bool,
    pub corruption_probability: i32,
    pub test_count: u32,
    pub failed_tests: u32,
    pub failure_details: String,
}

/// Whether two executions behave alike: both return the same value, or both fail
/// with the same message.
pub open spec fn outcomes_agree(a: Result<i64, Fault>, b: Result<i64, Fault>) -> bool {
    match (a, b) {
        (Ok(x), Ok(y)) => x == y,
        (Err(e1), Err(e2)) => fault_message(e1) == fault_message(e2),
        _ => false,
    }
}

/// Whether function `f1` of `m1` and function `f2` of `m2`, run without arguments, behave alike.
pub open spec fn functions_agree(
    m1: ModuleModel,
    f1: FunctionModel,
    m2: ModuleModel,
    f2: FunctionModel,
) -> bool {
    outcomes_agree(execute(m1, f1, Seq::empty()), execute(m2, f2, Seq::empty()))
}

/// Failed runs out of `runs` comparisons of two functions.
pub open spec fn failure_count(
    m1: ModuleModel,
    f1: FunctionModel,
    m2: ModuleModel,
    f2: FunctionModel,
    runs: u32,
) -> u32 {
    if functions_agree(m1, f1, m2, f2) {
        0
    } else {
        runs
    }
}

/// The result `validate` gives for `func_name` in `original` and `optimized` over `runs` runs.
pub open spec fn validation_outcome(
    original: ModuleModel,
    optimized: ModuleModel,
    func_name: Seq<char>,
    runs: u32,
) -> (bool, i32, u32, u32, Seq<char>) {
    match (find_function(original.functions, func_name), find_function(optimized.functions, func_name)) {
        (Some(i), Some(j)) => {
            let failures = failure_count(
                original,
                original.functions[i],
                optimized,
                optimized.functions[j],
                runs,
            );
            (
                failures == 0,
                if runs > 0 && failures > 0 { 100i32 } else { 0i32 },
                runs,
                failures,
                if failures > 0 { "Optimization changed behavior"@ } else { Seq::empty() },
            )
        },
        _ => (false, 0i32, 0u32, 0u32, "Function not found: "@ + func_name),
    }
}

/// Any function run against itself behaves alike.
pub proof fn law_function_agrees_with_itself(m: ModuleModel, f: FunctionModel)
    ensures
        functions_agree(m, f, m, f),
{
}

/// A module validated against an identical copy passes with no failures,
/// whenever it defines the function.
pub proof fn law_identical_modules_pass(m: ModuleModel, func_name: Seq<char>, runs: u32)
    requires
        find_function(m.functions, func_name) is Some,
    ensures
        validation_outcome(m, m, func_name, runs).0,
        validation_outcome(m, m, func_name, runs).3 == 0,
        validation_outcome(m, m, func_name, runs).1 == 0,
{
    law_function_agrees_with_itself(m, m.functions[find_function(m.functions, func_name)->0]);
}

/// An optimization that changes what the function gives fails validation, every run counted
/// as failed and the corruption put at 100, whenever there is at least one run.
pub proof fn law_changed_behaviour_fails(
    original: ModuleModel,
    optimized: ModuleModel,
    func_name: Seq<char>,
    runs: u32,
)
    requires
        find_function(original.functions, func_name) matches Some(i) && find_function(
            optimized.functions,
            func_name,
        ) matches Some(j) && !functions_agree(
            original,
            original.functions[i],
            optimized,
            optimized.functions[j],
        ),
        runs > 0,
    ensures
        !validation_outcome(original, optimized, func_name, runs).0,
        validation_outcome(original, optimized, func_name, runs).1 == 100,
        validation_outcome(original, optimized, func_name, runs).3 == runs,
{
}

/// Validating a function that either module lacks fails, with no runs.
pub proof fn law_missing_function_fails(original: ModuleModel, optimized: ModuleModel, func_name: Seq<char>, runs: u32)
    requires
        find_function(original.functions, func_name) is None || find_function(optimized.functions, func_name) is None,
    ensures
        !validation_outcome(original, optimized, func_name, runs).0,
        validation_outcome(original, optimized, func_name, runs).2 == 0,
        validation_outcome(original, optimized, func_name, runs).4 == "Function not found: "@ + func_name,
{
}

/// Compares optimized functions against their originals by running both.
#[derive(Clone, Copy)]
pub struct Validator {
    pub interpreter: Interpreter,
}

impl Validator {
    /// A validator with a fresh interpreter.
    pub fn new() -> (r: Self) {
        Self { interpreter: Interpreter::new() }
    }

    /// Runs both functions `runs` times without arguments and counts the runs on
    /// which their results differ. Execution is deterministic, so the count is
    /// 0 or `runs`.
    pub fn run_randomized_validation(
        &self,
        orig_module: &Module,
        orig_func: &Function,
        opt_module: &Module,
        opt_func: &Function,
        runs: u32,
    ) -> (r: u32)
        ensures
            r == failure_count(orig_module@, orig_func@, opt_module@, opt_func@, runs),
    {
        let ghost agree = functions_agree(orig_module@, orig_func@, opt_module@, opt_func@);
        let mut failures: u32 = 0;
        let mut i: u32 = 0;
        while i < runs
            invariant
                i <= runs,
                agree == functions_agree(orig_module@, orig_func@, opt_module@, opt_func@),
                failures == if agree { 0 } else { i },
            decreases runs - i,
        {
            let no_args: Vec<i64> = Vec::new();
            let orig_result = self.interpreter.execute_function(orig_module, orig_func, no_args.as_slice());
            let opt_result = self.interpreter.execute_function(opt_module, opt_func, no_args.as_slice());
            assert(no_args@ =~= Seq::<i64>::empty());
            let differ = match (&orig_result, &opt_result) {
                (Ok(o), Ok(p)) => *o != *p,
                (Err(e1), Err(e2)) => e1.to_string() != e2.to_string(),
                _ => true,
            };
            if differ {
                failures = failures + 1;
            }
            i = i + 1;
        }
        failures
    }

    /// Compares `func_name` of `optimized` against `original` over `runs` runs.
    pub fn validate(&self, original: &Module, optimized: &Module, func_name: &str, runs: u32) -> (r:
        ValidationResult)
        ensures
            (r.passed, r.corruption_probability, r.test_count, r.failed_tests, r.failure_details@)
                == validation_outcome(original@, optimized@, func_name@, runs),
    {
        let orig_func = original.get_function(func_name);
        let opt_func = optimized.get_function(func_name);
        proof {
            lemma_find_function(original@.functions, func_name@);
            lemma_find_function(optimized@.functions, func_name@);
        }
        match (orig_func, opt_func) {
            (Some(of), Some(pf)) => {
                let failures = self.run_randomized_validation(original, of, optimized, pf, runs);
                let corruption_prob: i32 = if runs > 0 {
                    let pct = failures as u64 * 100 / runs as u64;
                    proof {
                        if failures > 0 {
                            assert(failures == runs);
                            let r = runs as int;
                            assert((r * 100) / r == 100) by (nonlinear_arith)
                                requires
                                    r > 0,
                            ;
                        }
                    }
                    pct as i32
                } else {
                    0
                };
                let details = if failures > 0 {
                    string_of("Optimization changed behavior")
                } else {
                    String::new()
                };
                ValidationResult {
                    passed: failures == 0,
                    corruption_probability: corruption_prob,
                    test_count: runs,
                    failed_tests: failures,
                    failure_details: details,
                }
            },
            _ => {
                let mut details = string_of("Function not found: ");
                push_str(&mut details, func_name);
                ValidationResult {
                    passed: false,
                    corruption_probability: 0,
                    test_count: 0,
                    failed_tests: 0,
                    failure_details: details,
                }
            },
        }
    }
}

} // verus!
