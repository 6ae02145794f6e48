use metamorphic_engine::interpreter::{Interpreter, InterpreterError};
use metamorphic_engine::ir::basic_block::BasicBlock;
use metamorphic_engine::ir::function::Function;
use metamorphic_engine::ir::module::Module;
use metamorphic_engine::ir::value::{BinaryOp, CompareCondition, Instruction, ValueType};
use metamorphic_engine::module_builders;
use metamorphic_engine::engine::OptimizationEngine;
use metamorphic_engine::passes::OptimizationLevel;

fn run_first(module: &Module) -> Result<i64, InterpreterError> {
    Interpreter::new().execute_function(module, &module.functions[0], &[])
}

#[test]
fn test_functional_n5() {
    let module = module_builders::build_sum_example(5);
    let result = run_first(&module).expect("Interpreter failed");
    assert_eq!(result, 10, "Expected 10 for build_sum_example(5)");
}

#[test]
fn builders_compute_what_they_describe() {
    assert_eq!(run_first(&module_builders::build_simple_sum(4)).unwrap(), 18);
    assert_eq!(run_first(&module_builders::build_fib_loop(10)).unwrap(), 89);
    assert_eq!(run_first(&module_builders::build_nested_loop(4)).unwrap(), 14);
    assert_eq!(run_first(&module_builders::build_branch_heavy(4)).unwrap(), -2);
    assert_eq!(run_first(&module_builders::build_array_reduce(2)).unwrap(), 72);
    assert_eq!(run_first(&module_builders::build_recursive_calls(3)).unwrap(), 6);
    assert_eq!(run_first(&module_builders::build_digital_root(1234)).unwrap(), 1);
    assert_eq!(run_first(&module_builders::build_digital_root(12345)).unwrap(), 6);
    assert_eq!(run_first(&module_builders::build_digital_root(7)).unwrap(), 7);
    assert_eq!(run_first(&module_builders::build_two_phase_product(2)).unwrap(), 20);
    assert_eq!(run_first(&module_builders::build_triangle_numbers(3)).unwrap(), 4);
    assert_eq!(run_first(&module_builders::build_factorial_memo(5)).unwrap(), 120);
    assert_eq!(run_first(&module_builders::build_gcd_euclidean(12)).unwrap(), 12);
    assert_eq!(run_first(&module_builders::build_call_chain(5)).unwrap(), 11);
    assert_eq!(run_first(&module_builders::build_complex_expr(1)).unwrap(), 0);
    assert_eq!(run_first(&module_builders::build_prefix_sum(5)).unwrap(), 14);
    assert_eq!(run_first(&module_builders::build_multi_exit(7)).unwrap(), 7);
    assert_eq!(run_first(&module_builders::build_multi_exit(-3)).unwrap(), 3);
}

#[test]
fn division_by_zero_is_an_error() {
    let mut module = Module::new("m".to_string());
    let mut func = Function::new("f".to_string(), ValueType::Int);
    let mut bb = BasicBlock::new("entry".to_string());
    bb.append(Instruction::Return {
        value: Some(Box::new(Instruction::BinaryOp {
            op: BinaryOp::Div,
            lhs: Box::new(Instruction::Constant { value: 1 }),
            rhs: Box::new(Instruction::Constant { value: 0 }),
        })),
    });
    func.basic_blocks.push(bb);
    module.functions.push(func);
    assert!(matches!(run_first(&module), Err(InterpreterError::DivisionByZero)));
}

#[test]
fn undefined_variable_is_an_error() {
    let mut module = Module::new("m".to_string());
    let mut func = Function::new("f".to_string(), ValueType::Int);
    let mut bb = BasicBlock::new("entry".to_string());
    bb.append(Instruction::Return { value: Some(Box::new(Instruction::Variable { name: "q".to_string() })) });
    func.basic_blocks.push(bb);
    module.functions.push(func);
    match run_first(&module) {
        Err(InterpreterError::UndefinedVariable(name)) => assert_eq!(name, "q"),
        other => panic!("unexpected {:?}", other),
    }
}

#[test]
fn endless_loop_hits_the_step_limit() {
    let mut module = Module::new("m".to_string());
    let mut func = Function::new("f".to_string(), ValueType::Int);
    let mut bb = BasicBlock::new("entry".to_string());
    bb.append(Instruction::Jump { label: "entry".to_string() });
    func.basic_blocks.push(bb);
    module.functions.push(func);
    assert!(matches!(run_first(&module), Err(InterpreterError::TooManyIterations)));
}

#[test]
fn test_functional_n10() {
    let module = module_builders::build_sum_example(10);
    let mut eng = OptimizationEngine::new(OptimizationLevel::Conservative);
    eng.load_module(module.clone());
    eng.profile("compute_sum").expect("Failed to profile in test");
    eng.identify_hot_paths(1);
    eng.optimize_hot_paths().expect("Failed to optimize in test");

    let optimized = eng.get_module().unwrap();
    let result = Interpreter::new()
        .execute_function(optimized, &optimized.functions[0], &[])
        .expect("Interpreter failed");
    assert_eq!(result, 45, "Expected 45 for build_sum_example(10) after optimization");
}

#[test]
fn test_functional_n20() {
    let module = module_builders::build_sum_example(20);
    let mut eng = OptimizationEngine::new(OptimizationLevel::Conservative);
    eng.load_module(module.clone());
    eng.profile("compute_sum").expect("Failed to profile in test");
    eng.identify_hot_paths(1);
    eng.optimize_hot_paths().expect("Failed to optimize in test");

    let optimized = eng.get_module().unwrap();
    let result = Interpreter::new()
        .execute_function(optimized, &optimized.functions[0], &[])
        .expect("Interpreter failed");
    assert_eq!(result, 190, "Expected 190 for build_sum_example(20) after optimization");
}

fn loop_to(n: i64) -> Module {
    let var = |name: &str| Box::new(Instruction::Variable { name: name.to_string() });
    let mut func = Function::new("f".to_string(), ValueType::Int);
    let mut entry = BasicBlock::new("entry".to_string());
    entry.append(Instruction::Store { var_name: "i".to_string(), value: Box::new(Instruction::Constant { value: 0 }) });
    entry.append(Instruction::Jump { label: "header".to_string() });
    let mut header = BasicBlock::new("header".to_string());
    header.append(Instruction::Branch {
        condition: Box::new(Instruction::Compare {
            condition: CompareCondition::Lt,
            lhs: var("i"),
            rhs: Box::new(Instruction::Constant { value: n }),
        }),
        then_label: "body".to_string(),
        else_label: "exit".to_string(),
    });
    let mut body = BasicBlock::new("body".to_string());
    body.append(Instruction::Store {
        var_name: "i".to_string(),
        value: Box::new(Instruction::BinaryOp {
            op: BinaryOp::Add,
            lhs: var("i"),
            rhs: Box::new(Instruction::Constant { value: 1 }),
        }),
    });
    body.append(Instruction::Jump { label: "header".to_string() });
    let mut exit = BasicBlock::new("exit".to_string());
    exit.append(Instruction::Return { value: Some(var("i")) });
    func.basic_blocks = vec![entry, header, body, exit];
    let mut module = Module::new("m".to_string());
    module.functions.push(func);
    module
}

#[test]
fn step_limit_is_ten_thousand_instructions() {
    assert_eq!(run_first(&loop_to(3000)).unwrap(), 3000);
    assert!(matches!(run_first(&loop_to(3400)), Err(InterpreterError::TooManyIterations)));
}

#[test]
fn straight_line_builders_compute_their_formulas() {
    for n in [-7, 0, 1, 12, 1000] {
        assert_eq!(run_first(&module_builders::build_call_chain(n)).unwrap(), 2 * n as i64 + 1);
        assert_eq!(run_first(&module_builders::build_two_phase_product(n)).unwrap(), 10 * n as i64);
        assert_eq!(run_first(&module_builders::build_multi_exit(n)).unwrap(), if n > 0 { n as i64 } else { -(n as i64) });
    }
}

#[test]
fn sum_example_gives_the_sum_below_n_within_the_step_limit() {
    for n in [-3, 0, 1, 2, 10, 100] {
        let k = n.max(0) as i64;
        assert_eq!(run_first(&module_builders::build_sum_example(n)).unwrap(), k * (k - 1) / 2);
    }
    assert_eq!(run_first(&module_builders::build_sum_example(2498)).unwrap(), 2498 * 2497 / 2);
    assert!(matches!(
        run_first(&module_builders::build_sum_example(2499)),
        Err(InterpreterError::TooManyIterations)
    ));
}

#[test]
fn digital_root_builder_gives_one_plus_n_minus_one_mod_nine() {
    for n in [1, 9, 10, 18, 19, 99, 12345, 987654321, i32::MAX] {
        assert_eq!(run_first(&module_builders::build_digital_root(n)).unwrap(), 1 + (n as i64 - 1) % 9);
    }
    for n in [0, -5, i32::MIN] {
        assert_eq!(run_first(&module_builders::build_digital_root(n)).unwrap(), 0);
    }
}

#[test]
fn loop_builders_compute_their_sums_up_to_the_step_limit() {
    assert_eq!(run_first(&module_builders::build_nested_loop(1999)).unwrap(), 2660670999);
    assert!(matches!(
        run_first(&module_builders::build_nested_loop(2000)),
        Err(InterpreterError::TooManyIterations)
    ));
    assert_eq!(run_first(&module_builders::build_nested_loop(-2)).unwrap(), 0);
    assert_eq!(run_first(&module_builders::build_branch_heavy(8)).unwrap(), -4);
    assert_eq!(run_first(&module_builders::build_branch_heavy(1175)).unwrap(), 587);
    assert!(matches!(
        run_first(&module_builders::build_branch_heavy(1176)),
        Err(InterpreterError::TooManyIterations)
    ));
    assert_eq!(run_first(&module_builders::build_branch_heavy(0)).unwrap(), 0);
}

#[test]
fn triangle_numbers_within_the_step_limit() {
    assert_eq!(run_first(&module_builders::build_triangle_numbers(5)).unwrap(), 20);
    assert_eq!(run_first(&module_builders::build_triangle_numbers(61)).unwrap(), 37820);
    assert!(matches!(
        run_first(&module_builders::build_triangle_numbers(62)),
        Err(InterpreterError::TooManyIterations)
    ));
    assert_eq!(run_first(&module_builders::build_triangle_numbers(-1)).unwrap(), 0);
}

#[test]
fn remaining_builders_compute_their_formulas_up_to_their_limits() {
    let too_many = |r: Result<i64, InterpreterError>| matches!(r, Err(InterpreterError::TooManyIterations));
    assert_eq!(run_first(&module_builders::build_simple_sum(10)).unwrap(), 135);
    assert_eq!(run_first(&module_builders::build_simple_sum(1665)).unwrap(), 4155840);
    assert!(too_many(run_first(&module_builders::build_simple_sum(1666))));
    assert_eq!(run_first(&module_builders::build_recursive_calls(10)).unwrap(), 55);
    assert_eq!(run_first(&module_builders::build_recursive_calls(1665)).unwrap(), 1386945);
    assert!(too_many(run_first(&module_builders::build_recursive_calls(1666))));
    assert_eq!(run_first(&module_builders::build_recursive_calls(-4)).unwrap(), 0);
    assert_eq!(run_first(&module_builders::build_fib_loop(91)).unwrap(), 7540113804746346429);
    assert_eq!(run_first(&module_builders::build_fib_loop(-2)).unwrap(), 1);
    assert_eq!(run_first(&module_builders::build_fib_loop(0)).unwrap(), 1);
    for n in [-9, 0, 3, 1000, i32::MAX, i32::MIN] {
        assert_eq!(run_first(&module_builders::build_complex_expr(n)).unwrap(), 0);
        assert_eq!(run_first(&module_builders::build_array_reduce(n)).unwrap(), 36 * n as i64);
        assert_eq!(run_first(&module_builders::build_gcd_euclidean(n)).unwrap(), (n as i64).max(10));
    }
    assert_eq!(run_first(&module_builders::build_factorial_memo(20)).unwrap(), 2432902008176640000);
    assert_eq!(run_first(&module_builders::build_factorial_memo(0)).unwrap(), 1);
    assert_eq!(run_first(&module_builders::build_entropy_loop(6)).unwrap(), 21);
    assert_eq!(run_first(&module_builders::build_entropy_loop(1249)).unwrap(), 1168752);
    assert!(too_many(run_first(&module_builders::build_entropy_loop(1250))));
    assert_eq!(run_first(&module_builders::build_prefix_sum(0)).unwrap(), 14);
    assert_eq!(run_first(&module_builders::build_prefix_sum(10)).unwrap(), 54);
    assert_eq!(run_first(&module_builders::build_prefix_sum(1428)).unwrap(), 1020305);
    assert!(too_many(run_first(&module_builders::build_prefix_sum(1429))));
}
