use metamorphic_engine::interpreter::Interpreter;
use metamorphic_engine::profiler::CallCounts;
use metamorphic_engine::engine::OptimizationEngine;
use metamorphic_engine::ir::basic_block::BasicBlock;
use metamorphic_engine::ir::function::Function;
use metamorphic_engine::ir::module::Module;
use metamorphic_engine::ir::value::{BinaryOp, Instruction, ValueType};
use metamorphic_engine::module_builders;
use metamorphic_engine::passes::block_merging::BlockMergingPass;
use metamorphic_engine::passes::constant_folding::ConstantFoldingPass;
use metamorphic_engine::passes::constant_propagation::ConstantPropagationPass;
use metamorphic_engine::passes::cse::CsePass;
use metamorphic_engine::passes::dead_code_elimination::DeadCodeEliminationPass;
use metamorphic_engine::passes::loop_unroll::LoopUnrollPass;
use metamorphic_engine::passes::pass_registry::{AnyPass, PassKind, PassRegistry};
use metamorphic_engine::passes::strength_reduction::StrengthReductionPass;
use metamorphic_engine::passes::{OptimizationLevel, Pass, PassManager};

fn shape(m: &Module) -> Vec<Vec<(String, usize)>> {
    m.functions
        .iter()
        .map(|f| f.basic_blocks.iter().map(|b| (b.name.clone(), b.instructions.len())).collect())
        .collect()
}

fn sample_modules() -> Vec<Module> {
    vec![
        module_builders::build_sum_example(10),
        module_builders::build_branch_heavy(8),
        module_builders::build_entropy_loop(6),
        module_builders::build_factorial_memo(5),
        module_builders::build_complex_expr(3),
        module_builders::build_prefix_sum(4),
    ]
}

#[test]
fn dead_code_twice_changes_nothing_more() {
    for m in sample_modules() {
        let mut once = m.clone();
        DeadCodeEliminationPass::new().run(&mut once).unwrap();
        let mut twice = once.clone();
        let changed = DeadCodeEliminationPass::new().run(&mut twice).unwrap();
        assert!(!changed);
        assert_eq!(once, twice);
    }
}

#[test]
fn dead_code_keeps_blocks_and_their_last_instructions() {
    for m in sample_modules() {
        let mut pruned = m.clone();
        let changed = DeadCodeEliminationPass::new().run(&mut pruned).unwrap();
        assert!(pruned.instruction_count() <= m.instruction_count());
        if changed {
            assert!(pruned.instruction_count() < m.instruction_count());
        }
        for (f, g) in m.functions.iter().zip(pruned.functions.iter()) {
            assert_eq!(f.basic_blocks.len(), g.basic_blocks.len());
            for (a, b) in f.basic_blocks.iter().zip(g.basic_blocks.iter()) {
                assert_eq!(a.name, b.name);
                assert_eq!(a.instructions.last(), b.instructions.last());
            }
        }
    }
}

#[test]
fn merging_drops_one_jump_per_block() {
    for m in sample_modules() {
        let mut merged = m.clone();
        BlockMergingPass::new().run(&mut merged).unwrap();
        for (f, g) in m.functions.iter().zip(merged.functions.iter()) {
            let insts = |x: &metamorphic_engine::ir::function::Function| {
                x.basic_blocks.iter().map(|b| b.instructions.len()).sum::<usize>()
            };
            assert!(g.basic_blocks.len() <= f.basic_blocks.len());
            assert_eq!(insts(g) + f.basic_blocks.len(), insts(f) + g.basic_blocks.len());
        }
    }
}

#[test]
fn rewriting_passes_keep_the_shape() {
    for m in sample_modules() {
        let mut a = m.clone();
        ConstantFoldingPass::new().run(&mut a).unwrap();
        assert_eq!(shape(&a), shape(&m));
        let mut b = m.clone();
        ConstantPropagationPass::new().run(&mut b).unwrap();
        assert_eq!(shape(&b), shape(&m));
        let mut c = m.clone();
        StrengthReductionPass::new().run(&mut c).unwrap();
        assert_eq!(shape(&c), shape(&m));
    }
}

#[test]
fn appended_pass_runs_after_the_others() {
    for m in sample_modules() {
        let mut pm = PassManager::new();
        pm.add(AnyPass::of_kind(PassKind::ConstantPropagation));
        pm.add(AnyPass::of_kind(PassKind::ConstantFolding));
        let mut stepwise = m.clone();
        let c1 = pm.run_all(&mut stepwise).unwrap();
        let c2 = DeadCodeEliminationPass::new().run(&mut stepwise).unwrap();
        pm.add(AnyPass::of_kind(PassKind::DeadCode));
        let mut whole = m.clone();
        assert!(pm.accepts_module(&whole));
        let c = pm.run_all(&mut whole).unwrap();
        assert_eq!(whole, stepwise);
        assert_eq!(c, c1 || c2);
    }
}

#[test]
fn registering_then_creating_gives_that_kind() {
    let mut registry = PassRegistry::new();
    for (id, kind) in [
        ("constant_folding", PassKind::ConstantFolding),
        ("dead_code", PassKind::DeadCode),
        ("constant_propagation", PassKind::ConstantPropagation),
        ("strength_reduction", PassKind::StrengthReduction),
        ("cse", PassKind::Cse),
        ("block_merge", PassKind::BlockMerging),
        ("loop_unroll", PassKind::LoopUnroll),
    ] {
        assert_eq!(registry.create_pass(id).unwrap().id(), AnyPass::of_kind(kind).id());
        assert_eq!(AnyPass::of_kind(kind).id(), id);
    }
    registry.register_pass("cse".to_string(), PassKind::LoopUnroll);
    assert_eq!(registry.create_pass("cse").unwrap().id(), "loop_unroll");
    assert_eq!(registry.create_pass("dead_code").unwrap().id(), "dead_code");
}

#[test]
fn engine_checks_the_pipeline_before_optimizing() {
    let mut eng = OptimizationEngine::new(OptimizationLevel::Balanced);
    assert!(eng.can_optimize());
    eng.load_module(module_builders::build_sum_example(10));
    assert!(eng.can_optimize());
}

#[test]
fn hot_functions_are_the_most_called() {
    let mut counts = CallCounts::new();
    for name in ["a", "b", "b", "c", "c", "c", "b", "d"] {
        counts.record_call(name);
    }
    assert_eq!(counts.hot_functions(2), vec!["b".to_string(), "c".to_string()]);
    assert_eq!(counts.hot_functions(10).len(), 4);
    assert_eq!(counts.hot_functions(10)[0], "b");
    assert!(counts.hot_functions(0).is_empty());
    counts.reset();
    assert!(counts.hot_functions(3).is_empty());
}

#[test]
fn folding_and_dead_code_keep_what_functions_give() {
    for m in sample_modules() {
        let before = Interpreter::new().execute_function(&m, &m.functions[0], &[]);
        let mut folded = m.clone();
        ConstantFoldingPass::new().run(&mut folded).unwrap();
        let after_fold = Interpreter::new().execute_function(&folded, &folded.functions[0], &[]);
        assert_eq!(format!("{:?}", before), format!("{:?}", after_fold));
        let mut pruned = m.clone();
        DeadCodeEliminationPass::new().run(&mut pruned).unwrap();
        let after_dce = Interpreter::new().execute_function(&pruned, &pruned.functions[0], &[]);
        if let Ok(v) = before {
            assert_eq!(after_dce.unwrap(), v);
        }
    }
}

#[test]
fn merging_keeps_what_functions_give() {
    for m in sample_modules() {
        let before = Interpreter::new().execute_function(&m, &m.functions[0], &[]);
        let mut merged = m.clone();
        BlockMergingPass::new().run(&mut merged).unwrap();
        let after = Interpreter::new().execute_function(&merged, &merged.functions[0], &[]);
        if let Ok(v) = before {
            assert_eq!(after.unwrap(), v);
        }
    }
}

#[test]
fn unrolling_keeps_what_functions_give() {
    for m in sample_modules() {
        let before = Interpreter::new().execute_function(&m, &m.functions[0], &[]);
        let mut unrolled = m.clone();
        LoopUnrollPass::new().run(&mut unrolled).unwrap();
        let after = Interpreter::new().execute_function(&unrolled, &unrolled.functions[0], &[]);
        if let Ok(v) = before {
            assert_eq!(after.unwrap(), v);
        }
    }
}

fn straight_line_module() -> Module {
    let store = |name: &str, value: Instruction| Instruction::Store { var_name: name.to_string(), value: Box::new(value) };
    let var = |name: &str| Instruction::Variable { name: name.to_string() };
    let bin = |op: BinaryOp, l: Instruction, r: Instruction| Instruction::BinaryOp { op, lhs: Box::new(l), rhs: Box::new(r) };
    let mut module = Module::new("m".to_string());
    let mut func = Function::new("f".to_string(), ValueType::Int);
    let mut bb = BasicBlock::new("entry".to_string());
    bb.append(store("a", Instruction::Constant { value: 6 }));
    bb.append(store("b", Instruction::Constant { value: 7 }));
    bb.append(store("x", bin(BinaryOp::Mul, var("a"), var("b"))));
    bb.append(store("y", bin(BinaryOp::Add, bin(BinaryOp::Mul, var("a"), var("b")), var("x"))));
    bb.append(Instruction::Return { value: Some(Box::new(var("y"))) });
    func.basic_blocks.push(bb);
    module.functions.push(func);
    module
}

#[test]
fn cse_keeps_what_functions_give() {
    let m = straight_line_module();
    let before = Interpreter::new().execute_function(&m, &m.functions[0], &[]).unwrap();
    let mut reduced = m.clone();
    assert!(CsePass::new().run(&mut reduced).unwrap());
    assert_ne!(reduced, m);
    let after = Interpreter::new().execute_function(&reduced, &reduced.functions[0], &[]).unwrap();
    assert_eq!(before, 84);
    assert_eq!(after, before);
}
