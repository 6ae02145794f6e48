use metamorphic_engine::interpreter::Interpreter;
use metamorphic_engine::ir::basic_block::BasicBlock;
use metamorphic_engine::ir::function::Function;
use metamorphic_engine::ir::module::Module;
use metamorphic_engine::ir::value::{BinaryOp, CompareCondition, Instruction, ValueType};
use metamorphic_engine::module_builders;
use metamorphic_engine::passes::block_merging::BlockMergingPass;
use metamorphic_engine::passes::constant_folding::ConstantFoldingPass;
use metamorphic_engine::passes::constant_propagation::ConstantPropagationPass;
use metamorphic_engine::passes::cse::CsePass;
use metamorphic_engine::passes::dead_code_elimination::DeadCodeEliminationPass;
use metamorphic_engine::passes::loop_unroll::LoopUnrollPass;
use metamorphic_engine::passes::pass_registry::{AnyPass, PassKind, PassRegistry};
use metamorphic_engine::passes::strength_reduction::StrengthReductionPass;
use metamorphic_engine::passes::{OptimizationLevel, ParamRange, Pass, PassManager, PassSafety};

fn run_first(module: &Module) -> i64 {
    Interpreter::new()
        .execute_function(module, &module.functions[0], &[])
        .expect("Interpreter failed")
}

fn store(name: &str, value: Instruction) -> Instruction {
    Instruction::Store { var_name: name.to_string(), value: Box::new(value) }
}

fn var(name: &str) -> Instruction {
    Instruction::Variable { name: name.to_string() }
}

fn cst(v: i64) -> Instruction {
    Instruction::Constant { value: v }
}

fn bin(op: BinaryOp, l: Instruction, r: Instruction) -> Instruction {
    Instruction::BinaryOp { op, lhs: Box::new(l), rhs: Box::new(r) }
}

fn single_block_module(insts: Vec<Instruction>) -> Module {
    let mut module = Module::new("m".to_string());
    let mut func = Function::new("f".to_string(), ValueType::Int);
    let mut bb = BasicBlock::new("entry".to_string());
    bb.instructions.extend(insts);
    func.basic_blocks.push(bb);
    module.functions.push(func);
    module
}

#[test]
fn test_constant_folding_iterations_1() {
    let mut module = Module::new("cf_test".to_string());
    let mut func = Function::new("f".to_string(), ValueType::Int);
    let mut bb = BasicBlock::new("entry".to_string());
    bb.instructions.extend(vec![
        Instruction::Store {
            var_name: "x".to_string(),
            value: Box::new(Instruction::BinaryOp {
                op: BinaryOp::Add,
                lhs: Box::new(Instruction::Constant { value: 2 }),
                rhs: Box::new(Instruction::Constant { value: 3 }),
            }),
        },
        Instruction::Return { value: Some(Box::new(Instruction::Variable { name: "x".to_string() })) },
    ]);
    func.basic_blocks.push(bb);
    module.functions.push(func);

    let mut cf_pass = ConstantFoldingPass::new();
    cf_pass.set_param("iterations", 1);
    cf_pass.run(&mut module).expect("ConstantFoldingPass failed");

    let result = run_first(&module);
    assert_eq!(result, 5, "Expected 5 after constant folding");
}

#[test]
fn test_loop_unroll_factor_3() {
    let mut module = module_builders::build_sum_example(6);

    let mut lu_pass = LoopUnrollPass::new();
    lu_pass.set_param("factor", 3);
    lu_pass.run(&mut module).expect("LoopUnrollPass failed");

    let result = run_first(&module);
    assert_eq!(result, 15, "Expected 15 after loop unrolling");
}

#[test]
fn test_pass_manager_add_remove() {
    let mut pm = PassManager::new();
    assert_eq!(pm.pass_count(), 0);

    pm.add(AnyPass::of_kind(PassKind::ConstantFolding));
    assert_eq!(pm.pass_count(), 1);

    pm.add(AnyPass::of_kind(PassKind::DeadCode));
    assert_eq!(pm.pass_count(), 2);

    pm.remove(0);
    assert_eq!(pm.pass_count(), 1);
    assert_eq!(pm.get_pass_info(0).unwrap().id, "dead_code");

    pm.remove(0);
    assert_eq!(pm.pass_count(), 0);
}

#[test]
fn test_pass_manager_set_param() {
    let mut pm = PassManager::new();
    let mut pass1 = AnyPass::of_kind(PassKind::ConstantFolding);
    assert_eq!(pass1.get_param("iterations"), Some(5));
    assert!(pass1.set_param("iterations", 7));
    pm.add(pass1);

    let desc = pm.get_pass_info(0).unwrap();
    assert_eq!(desc.get_param("iterations"), Some(7));
}

#[test]
fn test_pass_manager_populate_from_level() {
    let mut pm = PassManager::new();
    let registry = PassRegistry::new();

    pm.populate_from_level(OptimizationLevel::Safe, &registry);
    assert_eq!(pm.pass_count(), 1);
    assert_eq!(pm.get_pass_info(0).unwrap().id, "constant_folding");

    pm.populate_from_level(OptimizationLevel::Conservative, &registry);
    assert_eq!(pm.pass_count(), 4);

    pm.populate_from_level(OptimizationLevel::Balanced, &registry);
    assert_eq!(pm.pass_count(), 7);
}

#[test]
fn param_range_clamps() {
    let mut p = ParamRange::new("k", 3, 1, 10, 1);
    assert_eq!(p.current, 3);
    p.set_current(42);
    assert_eq!(p.current, 10);
    p.set_current(-7);
    assert_eq!(p.current, 1);
    p.set_current(4);
    assert_eq!(p.current, 4);
}

#[test]
fn unknown_param_is_refused() {
    let mut cf = ConstantFoldingPass::new();
    assert!(!cf.set_param("nope", 3));
    assert_eq!(cf.get_param("nope"), None);
    assert_eq!(cf.get_param("iterations"), Some(5));
    let mut dce = DeadCodeEliminationPass::new();
    assert!(!dce.set_param("iterations", 3));
    assert_eq!(dce.get_param("iterations"), None);
}

#[test]
fn folding_leaves_division_by_zero() {
    let mut module = single_block_module(vec![
        store("x", bin(BinaryOp::Div, cst(7), cst(0))),
        Instruction::Return { value: Some(Box::new(var("x"))) },
    ]);
    let changed = ConstantFoldingPass::new().run(&mut module).unwrap();
    assert!(!changed);
    assert_eq!(
        module.functions[0].basic_blocks[0].instructions[0],
        store("x", bin(BinaryOp::Div, cst(7), cst(0)))
    );
}

#[test]
fn folding_nested_arithmetic() {
    let mut module = single_block_module(vec![Instruction::Return {
        value: Some(Box::new(bin(BinaryOp::Mul, bin(BinaryOp::Add, cst(2), cst(3)), cst(4)))),
    }]);
    assert!(ConstantFoldingPass::new().run(&mut module).unwrap());
    assert_eq!(
        module.functions[0].basic_blocks[0].instructions[0],
        Instruction::Return { value: Some(Box::new(cst(20))) }
    );
    assert_eq!(run_first(&module), 20);
}

#[test]
fn dead_code_removes_unread_stores_but_not_the_last() {
    let mut module = single_block_module(vec![
        store("dead", cst(1)),
        store("x", cst(2)),
        Instruction::Return { value: Some(Box::new(var("x"))) },
    ]);
    assert!(DeadCodeEliminationPass::new().run(&mut module).unwrap());
    assert_eq!(module.functions[0].basic_blocks[0].instructions.len(), 2);
    assert_eq!(run_first(&module), 2);

    let mut last = single_block_module(vec![store("dead", cst(1))]);
    assert!(!DeadCodeEliminationPass::new().run(&mut last).unwrap());
    assert_eq!(last.functions[0].basic_blocks[0].instructions.len(), 1);
}

#[test]
fn dead_code_on_simple_sum_keeps_result() {
    let mut module = module_builders::build_simple_sum(6);
    let before = module.instruction_count();
    assert!(DeadCodeEliminationPass::new().run(&mut module).unwrap());
    assert_eq!(module.instruction_count(), before - 2);
    assert_eq!(run_first(&module), 45);
}

#[test]
fn propagation_replaces_single_constant_stores_only() {
    let mut module = single_block_module(vec![
        store("k", cst(5)),
        store("i", cst(0)),
        store("i", bin(BinaryOp::Add, var("i"), cst(1))),
        Instruction::Return { value: Some(Box::new(bin(BinaryOp::Add, var("k"), var("i")))) },
    ]);
    assert!(ConstantPropagationPass::new().run(&mut module).unwrap());
    assert_eq!(
        module.functions[0].basic_blocks[0].instructions[3],
        Instruction::Return { value: Some(Box::new(bin(BinaryOp::Add, cst(5), var("i")))) }
    );
    assert_eq!(run_first(&module), 6);
}

#[test]
fn strength_reduction_identities() {
    let mut module = single_block_module(vec![
        store("a", bin(BinaryOp::Mul, var("x"), cst(1))),
        store("b", bin(BinaryOp::Add, cst(0), var("y"))),
        store("c", bin(BinaryOp::Mul, cst(0), var("z"))),
        Instruction::Return { value: None },
    ]);
    assert!(StrengthReductionPass::new().run(&mut module).unwrap());
    let insts = &module.functions[0].basic_blocks[0].instructions;
    assert_eq!(insts[0], store("a", var("x")));
    assert_eq!(insts[1], store("b", var("y")));
    assert_eq!(insts[2], store("c", cst(0)));
}

#[test]
fn cse_reuses_an_earlier_store() {
    let mut module = single_block_module(vec![
        store("p", bin(BinaryOp::Mul, var("a"), var("b"))),
        store("q", bin(BinaryOp::Add, bin(BinaryOp::Mul, var("a"), var("b")), cst(1))),
        Instruction::Return { value: Some(Box::new(var("q"))) },
    ]);
    let before = module.instruction_count();
    assert!(CsePass::new().run(&mut module).unwrap());
    assert_eq!(module.instruction_count(), before);
    assert_eq!(
        module.functions[0].basic_blocks[0].instructions[1],
        store("q", bin(BinaryOp::Add, var("p"), cst(1)))
    );
}

#[test]
fn block_merging_joins_single_predecessor() {
    let mut module = Module::new("m".to_string());
    let mut func = Function::new("f".to_string(), ValueType::Int);
    let mut a = BasicBlock::new("a".to_string());
    a.append(store("x", cst(3)));
    a.append(Instruction::Jump { label: "b".to_string() });
    let mut b = BasicBlock::new("b".to_string());
    b.append(Instruction::Return { value: Some(Box::new(var("x"))) });
    func.basic_blocks.push(a);
    func.basic_blocks.push(b);
    module.functions.push(func);

    let insts = module.instruction_count();
    let blocks = module.block_count();
    assert!(BlockMergingPass::new().run(&mut module).unwrap());
    assert_eq!(module.block_count(), blocks - 1);
    assert_eq!(module.instruction_count(), insts - 1);
    assert_eq!(run_first(&module), 3);
}

#[test]
fn loop_unroll_factor_one_does_nothing() {
    let mut module = module_builders::build_sum_example(6);
    let mut lu = LoopUnrollPass::new();
    lu.set_param("factor", 1);
    assert!(!lu.run(&mut module).unwrap());
    assert_eq!(module.block_count(), 4);
}

#[test]
fn loop_unroll_names_copies() {
    let mut module = module_builders::build_sum_example(6);
    assert!(LoopUnrollPass::new().run(&mut module).unwrap());
    let names: Vec<&str> = module.functions[0].basic_blocks.iter().map(|b| b.name.as_str()).collect();
    assert_eq!(names, vec!["entry", "loop_cond", "loop_body", "loop_body_ur1", "exit"]);
    assert_eq!(run_first(&module), 15);
}

#[test]
fn registry_lists_and_creates() {
    let mut registry = PassRegistry::new();
    let mut ids = registry.list_all();
    ids.sort();
    assert_eq!(
        ids,
        vec!["block_merge", "constant_folding", "constant_propagation", "cse", "dead_code", "loop_unroll", "strength_reduction"]
    );
    assert!(registry.is_registered("cse"));
    assert!(!registry.is_registered("nope"));
    assert!(registry.create_pass("nope").is_none());
    assert_eq!(registry.get_descriptor("loop_unroll").unwrap().safety, PassSafety::Conservative);
    registry.register_pass("alias".to_string(), PassKind::Cse);
    assert_eq!(registry.create_pass("alias").unwrap().id(), "cse");
    assert_eq!(registry.list_all().len(), 8);
}

#[test]
fn pass_manager_runs_in_order() {
    let mut pm = PassManager::new();
    pm.add(AnyPass::of_kind(PassKind::ConstantPropagation));
    pm.add(AnyPass::of_kind(PassKind::ConstantFolding));
    let mut module = single_block_module(vec![
        store("k", cst(5)),
        Instruction::Return { value: Some(Box::new(bin(BinaryOp::Add, var("k"), cst(3)))) },
    ]);
    assert!(pm.run_all(&mut module).unwrap());
    assert_eq!(
        module.functions[0].basic_blocks[0].instructions[1],
        Instruction::Return { value: Some(Box::new(cst(8))) }
    );
}

#[test]
fn compare_in_branch_is_folded_through() {
    let mut module = single_block_module(vec![Instruction::Branch {
        condition: Box::new(Instruction::Compare {
            condition: CompareCondition::Lt,
            lhs: Box::new(bin(BinaryOp::Sub, cst(4), cst(1))),
            rhs: Box::new(var("n")),
        }),
        then_label: "a".to_string(),
        else_label: "b".to_string(),
    }]);
    assert!(ConstantFoldingPass::new().run(&mut module).unwrap());
    assert_eq!(
        module.functions[0].basic_blocks[0].instructions[0],
        Instruction::Branch {
            condition: Box::new(Instruction::Compare {
                condition: CompareCondition::Lt,
                lhs: Box::new(cst(3)),
                rhs: Box::new(var("n")),
            }),
            then_label: "a".to_string(),
            else_label: "b".to_string(),
        }
    );
}

#[test]
fn cse_forgets_a_reassigned_variable() {
    let mut module = single_block_module(vec![
        store("i", cst(0)),
        store("i", bin(BinaryOp::Add, var("i"), cst(1))),
        store("j", bin(BinaryOp::Add, var("i"), cst(1))),
        Instruction::Return { value: Some(Box::new(var("j"))) },
    ]);
    assert_eq!(run_first(&module), 2);
    CsePass::new().run(&mut module).unwrap();
    assert_eq!(
        module.functions[0].basic_blocks[0].instructions[2],
        store("j", bin(BinaryOp::Add, var("i"), cst(1)))
    );
    assert_eq!(run_first(&module), 2);
}

#[test]
fn cse_drops_an_entry_whose_operand_is_stored_again() {
    let mut module = single_block_module(vec![
        store("a", cst(3)),
        store("p", bin(BinaryOp::Mul, var("a"), cst(2))),
        store("a", cst(10)),
        store("q", bin(BinaryOp::Mul, var("a"), cst(2))),
        Instruction::Return { value: Some(Box::new(var("q"))) },
    ]);
    assert_eq!(run_first(&module), 20);
    CsePass::new().run(&mut module).unwrap();
    assert_eq!(
        module.functions[0].basic_blocks[0].instructions[3],
        store("q", bin(BinaryOp::Mul, var("a"), cst(2)))
    );
    assert_eq!(run_first(&module), 20);
}

#[test]
fn propagation_counts_stores_per_function() {
    let mut module = Module::new("m".to_string());
    let mut main = Function::new("main".to_string(), ValueType::Int);
    let mut entry = BasicBlock::new("entry".to_string());
    entry.append(store("k", cst(5)));
    entry.append(store(
        "r",
        Instruction::Call { function_name: "inc".to_string(), args: vec![Box::new(cst(40))] },
    ));
    entry.append(Instruction::Return { value: Some(Box::new(bin(BinaryOp::Add, var("k"), var("r")))) });
    main.basic_blocks.push(entry);
    let mut inc = Function::new("inc".to_string(), ValueType::Int);
    inc.params.push("k".to_string());
    let mut body = BasicBlock::new("entry".to_string());
    body.append(Instruction::Return { value: Some(Box::new(bin(BinaryOp::Add, var("k"), cst(1)))) });
    inc.basic_blocks.push(body);
    module.functions.push(main);
    module.functions.push(inc);
    assert_eq!(run_first(&module), 46);
    assert!(ConstantPropagationPass::new().run(&mut module).unwrap());
    assert_eq!(
        module.functions[0].basic_blocks[0].instructions[2],
        Instruction::Return { value: Some(Box::new(bin(BinaryOp::Add, cst(5), var("r")))) }
    );
    assert_eq!(
        module.functions[1].basic_blocks[0].instructions[0],
        Instruction::Return { value: Some(Box::new(bin(BinaryOp::Add, var("k"), cst(1)))) }
    );
    assert_eq!(run_first(&module), 46);
}

#[test]
fn folding_a_second_time_reports_no_change() {
    for mut module in vec![
        module_builders::build_complex_expr(3),
        module_builders::build_sum_example(10),
        single_block_module(vec![
            store("x", bin(BinaryOp::Mul, bin(BinaryOp::Add, cst(2), cst(3)), cst(4))),
            Instruction::Return { value: Some(Box::new(var("x"))) },
        ]),
    ] {
        let original = module.clone();
        let first = ConstantFoldingPass::new().run(&mut module).unwrap();
        assert_eq!(first, module != original);
        let once = module.clone();
        assert!(!ConstantFoldingPass::new().run(&mut module).unwrap());
        assert_eq!(module, once);
    }
}

fn reads(inst: &Instruction, out: &mut Vec<String>) {
    match inst {
        Instruction::Variable { name } => out.push(name.clone()),
        Instruction::BinaryOp { lhs, rhs, .. } | Instruction::Compare { lhs, rhs, .. } => {
            reads(lhs, out);
            reads(rhs, out);
        }
        Instruction::Store { value, .. } => reads(value, out),
        Instruction::Branch { condition, .. } => reads(condition, out),
        Instruction::Return { value: Some(v) } => reads(v, out),
        Instruction::Call { args, .. } => args.iter().for_each(|a| reads(a, out)),
        Instruction::GetElementPtr { base, index } => {
            reads(base, out);
            reads(index, out);
        }
        Instruction::LoadPtr { ptr } => reads(ptr, out),
        Instruction::StorePtr { ptr, value } => {
            reads(ptr, out);
            reads(value, out);
        }
        _ => {}
    }
}

#[test]
fn dead_code_removes_only_stores_and_leaves_read_ones() {
    for module in vec![
        module_builders::build_simple_sum(6),
        module_builders::build_sum_example(10),
        module_builders::build_branch_heavy(8),
        single_block_module(vec![
            store("a", cst(1)),
            store("b", var("a")),
            store("c", cst(2)),
            Instruction::Return { value: Some(Box::new(var("c"))) },
        ]),
    ] {
        let mut pruned = module.clone();
        DeadCodeEliminationPass::new().run(&mut pruned).unwrap();
        let mut read = Vec::new();
        for f in &pruned.functions {
            for b in &f.basic_blocks {
                b.instructions.iter().for_each(|i| reads(i, &mut read));
            }
        }
        for (f, g) in module.functions.iter().zip(pruned.functions.iter()) {
            for (a, b) in f.basic_blocks.iter().zip(g.basic_blocks.iter()) {
                let keep = |s: &Vec<Instruction>| -> Vec<Instruction> {
                    s.iter().filter(|i| !matches!(i, Instruction::Store { .. })).cloned().collect()
                };
                assert_eq!(keep(&a.instructions), keep(&b.instructions));
                let mut rest = a.instructions.iter();
                for inst in &b.instructions {
                    assert!(rest.any(|x| x == inst));
                }
                let n = b.instructions.len();
                for inst in b.instructions.iter().take(n.saturating_sub(1)) {
                    if let Instruction::Store { var_name, .. } = inst {
                        assert!(read.contains(var_name));
                    }
                }
            }
        }
    }
    let mut chain = single_block_module(vec![
        store("a", cst(1)),
        store("b", var("a")),
        store("c", cst(2)),
        Instruction::Return { value: Some(Box::new(var("c"))) },
    ]);
    assert!(DeadCodeEliminationPass::new().run(&mut chain).unwrap());
    assert_eq!(
        chain.functions[0].basic_blocks[0].instructions,
        vec![store("c", cst(2)), Instruction::Return { value: Some(Box::new(var("c"))) }]
    );
}

fn counting_loop(name: &str, body_len: usize) -> Function {
    let mut func = Function::new(name.to_string(), ValueType::Int);
    let mut entry = BasicBlock::new("entry".to_string());
    entry.append(store("i", cst(0)));
    entry.append(Instruction::Jump { label: "header".to_string() });
    let mut header = BasicBlock::new("header".to_string());
    header.append(Instruction::Branch {
        condition: Box::new(Instruction::Compare {
            condition: CompareCondition::Lt,
            lhs: Box::new(var("i")),
            rhs: Box::new(cst(3)),
        }),
        then_label: "body".to_string(),
        else_label: "exit".to_string(),
    });
    let mut body = BasicBlock::new("body".to_string());
    for _ in 0..body_len {
        body.append(store("x", var("i")));
    }
    body.append(store("i", bin(BinaryOp::Add, var("i"), cst(1))));
    body.append(Instruction::Jump { label: "header".to_string() });
    let mut exit = BasicBlock::new("exit".to_string());
    exit.append(Instruction::Return { value: Some(Box::new(var("i"))) });
    func.basic_blocks = vec![entry, header, body, exit];
    func
}

#[test]
fn loop_unroll_stops_at_a_loop_too_large() {
    let mut module = Module::new("m".to_string());
    module.functions.push(counting_loop("big", 600));
    module.functions.push(counting_loop("small", 1));
    let before = module.clone();
    let mut lu = LoopUnrollPass::new();
    lu.set_param("factor", 2);
    assert!(!lu.run(&mut module).unwrap());
    assert_eq!(module, before);
    let mut small_first = Module::new("m".to_string());
    small_first.functions.push(counting_loop("small", 1));
    let mut lu = LoopUnrollPass::new();
    lu.set_param("factor", 2);
    assert!(lu.run(&mut small_first).unwrap());
    assert_eq!(small_first.functions[0].basic_blocks.len(), 5);
    assert_eq!(small_first.functions[0].basic_blocks[3].name, "body_ur1");
    let small = small_first.functions[0].clone();
    assert_eq!(Interpreter::new().execute_function(&small_first, &small, &[]).unwrap(), 3);
}

#[test]
fn shape_hash_counts_instructions_blocks_branches_stores_and_loops() {
    let mut module = Module::new("m".to_string());
    module.functions.push(counting_loop("f", 0));
    assert_eq!(metamorphic_engine::blueprint_archive::compute_shape_hash(&module), "6_4_1_2_1");
    module.functions.push(counting_loop("g", 2));
    assert_eq!(metamorphic_engine::blueprint_archive::compute_shape_hash(&module), "14_8_2_6_2");
    assert_eq!(metamorphic_engine::blueprint_archive::compute_shape_hash(&Module::new("e".to_string())), "0_0_0_0_0");
}

#[test]
fn shape_hashes_are_similar_within_a_fifth() {
    assert!(metamorphic_engine::blueprint_archive::shapes_are_similar("10_4_1_2_1", "10_4_1_2_1"));
    assert!(metamorphic_engine::blueprint_archive::shapes_are_similar("10_5_0_2_1", "12_4_0_2_1"));
    assert!(!metamorphic_engine::blueprint_archive::shapes_are_similar("10_4_1_2_1", "13_4_1_2_1"));
    assert!(metamorphic_engine::blueprint_archive::shapes_are_similar("5_0_0_0_0", "4_0_0_0_0"));
    assert!(!metamorphic_engine::blueprint_archive::shapes_are_similar("5_0_0_0_0", "4_0_1_0_0"));
    assert!(metamorphic_engine::blueprint_archive::shapes_are_similar("-10_4_1_2_1", "-9_4_1_2_1"));
    assert!(metamorphic_engine::blueprint_archive::shapes_are_similar("1_x_2_3_4_5", "1_2_3_4_5"));
    assert!(!metamorphic_engine::blueprint_archive::shapes_are_similar("1_2_3_4", "1_2_3_4"));
    assert!(!metamorphic_engine::blueprint_archive::shapes_are_similar("1_2_3_4_5_6", "1_2_3_4_5_6"));
    assert!(!metamorphic_engine::blueprint_archive::shapes_are_similar("", "1_2_3_4_5"));
    assert!(!metamorphic_engine::blueprint_archive::shapes_are_similar("1_2_3_4_99999999999", "1_2_3_4_5"));
}
