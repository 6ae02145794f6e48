use metamorphic_engine::engine::{EngineError, OptimizationEngine};
use metamorphic_engine::module_builders;
use metamorphic_engine::passes::{OptimizationLevel, PassError};

#[test]
fn profiling_needs_a_module_and_a_function() {
    let mut eng = OptimizationEngine::new(OptimizationLevel::Safe);
    assert!(matches!(eng.profile("compute_sum"), Err(EngineError::ModuleNotLoaded)));
    eng.load_module(module_builders::build_sum_example(3));
    match eng.profile("missing") {
        Err(EngineError::FunctionNotFound(name)) => assert_eq!(name, "missing"),
        other => panic!("unexpected {:?}", other),
    }
    assert!(eng.profile("compute_sum").is_ok());
}

#[test]
fn nothing_is_optimized_before_profiling() {
    let mut eng = OptimizationEngine::new(OptimizationLevel::Balanced);
    eng.load_module(module_builders::build_simple_sum(4));
    eng.identify_hot_paths(3);
    assert_eq!(eng.optimize_hot_paths().unwrap(), false);
    assert_eq!(eng.get_module().unwrap().instruction_count(), module_builders::build_simple_sum(4).instruction_count());
}

#[test]
fn optimized_module_still_validates() {
    let mut eng = OptimizationEngine::new(OptimizationLevel::Balanced);
    eng.load_module(module_builders::build_simple_sum(6));
    eng.profile("sum").unwrap();
    eng.identify_hot_paths(1);
    assert!(eng.optimize_hot_paths().unwrap());
    assert!(eng.validate_optimization("sum"));
    let result = eng.validate_optimization_result("sum");
    assert_eq!(result.test_count, 1);
    assert_eq!(result.failed_tests, 0);
}

#[test]
fn pipeline_follows_the_level() {
    let mut eng = OptimizationEngine::new(OptimizationLevel::Safe);
    assert_eq!(eng.get_pass_manager().pass_count(), 1);
    eng.set_optimization_level(OptimizationLevel::Balanced);
    assert_eq!(eng.get_pass_manager().pass_count(), 7);
    assert!(eng.get_predictor_stub().is_none());
}

#[test]
fn error_messages() {
    assert_eq!(EngineError::ModuleNotLoaded.to_string(), "Module not loaded");
    assert_eq!(EngineError::FunctionNotFound("f".to_string()).to_string(), "Function 'f' not found in module");
    assert_eq!(
        EngineError::PassError(PassError::ParamNotFound("k".to_string())).to_string(),
        "Pass error: Parameter 'k' not found"
    );
    assert_eq!(PassError::Generic("boom".to_string()).to_string(), "Pass failed: boom");
}

#[test]
fn clone_keeps_modules_and_rebuilds_the_pipeline() {
    let mut eng = OptimizationEngine::new(OptimizationLevel::Conservative);
    eng.load_module(module_builders::build_sum_example(10));
    eng.profile("compute_sum").unwrap();
    eng.identify_hot_paths(1);
    let copy = eng.clone();
    assert_eq!(copy.get_module(), eng.get_module());
    assert_eq!(copy.get_pass_manager().pass_count(), eng.get_pass_manager().pass_count());
    assert_eq!(copy.get_registry().list_all().len(), eng.get_registry().list_all().len());
}
