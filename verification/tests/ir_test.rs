use metamorphic_engine::ir::basic_block::BasicBlock;
use metamorphic_engine::ir::function::Function;
use metamorphic_engine::ir::module::Module;
use metamorphic_engine::ir::value::{BinaryOp, CompareCondition, Instruction, ValueType};

#[test]
fn test_basic_block_new() {
    let bb = BasicBlock::new("entry".to_string());
    assert_eq!(bb.name, "entry");
    assert!(bb.instructions.is_empty());
}

#[test]
fn test_basic_block_append() {
    let mut bb = BasicBlock::new("entry".to_string());
    let inst1 = Instruction::Constant { value: 1 };
    let inst2 = Instruction::Variable { name: "x".to_string() };
    bb.append(inst1.clone());
    bb.append(inst2.clone());
    assert_eq!(bb.instructions.len(), 2);
    assert_eq!(bb.instructions[0], inst1);
    assert_eq!(bb.instructions[1], inst2);
}

#[test]
fn test_basic_block_terminator() {
    let mut bb = BasicBlock::new("entry".to_string());
    let inst1 = Instruction::Constant { value: 1 };
    let inst2 = Instruction::Jump { label: "exit".to_string() };
    bb.append(inst1.clone());
    bb.append(inst2.clone());
    assert_eq!(bb.terminator(), Some(&inst2));

    let mut bb2 = BasicBlock::new("entry2".to_string());
    bb2.append(inst1);
    assert_eq!(bb2.terminator(), None);
}

#[test]
fn test_function_new() {
    let func = Function::new("my_func".to_string(), ValueType::Int);
    assert_eq!(func.name, "my_func");
    assert_eq!(func.return_type, ValueType::Int);
    assert!(func.basic_blocks.is_empty());
}

#[test]
fn test_function_get_block() {
    let mut func = Function::new("my_func".to_string(), ValueType::Int);
    let bb1 = BasicBlock::new("entry".to_string());
    let bb2 = BasicBlock::new("exit".to_string());
    func.basic_blocks.push(bb1.clone());
    func.basic_blocks.push(bb2.clone());

    assert_eq!(func.get_block("entry").map(|b| &b.name), Some(&"entry".to_string()));
    assert_eq!(func.get_block("exit").map(|b| &b.name), Some(&"exit".to_string()));
    assert_eq!(func.get_block("non_existent"), None);
}

#[test]
fn test_function_get_block_mut() {
    let mut func = Function::new("my_func".to_string(), ValueType::Int);
    let bb1 = BasicBlock::new("entry".to_string());
    func.basic_blocks.push(bb1.clone());

    let mut_bb = func.get_block_mut("entry").expect("Should find entry block");
    mut_bb.instructions.push(Instruction::Constant { value: 10 });

    assert_eq!(func.get_block("entry").unwrap().instructions.len(), 1);
}

#[test]
fn test_module_new() {
    let module = Module::new("my_module".to_string());
    assert_eq!(module.name, "my_module");
    assert!(module.functions.is_empty());
}

#[test]
fn test_module_instruction_count() {
    let mut module = Module::new("test".to_string());
    let mut func = Function::new("f1".to_string(), ValueType::Int);
    let mut bb1 = BasicBlock::new("entry".to_string());
    bb1.instructions.push(Instruction::Constant { value: 1 });
    bb1.instructions.push(Instruction::Return { value: None });
    func.basic_blocks.push(bb1);
    module.functions.push(func);

    assert_eq!(module.instruction_count(), 2);

    let mut func2 = Function::new("f2".to_string(), ValueType::Int);
    let mut bb2 = BasicBlock::new("entry2".to_string());
    bb2.instructions.push(Instruction::Constant { value: 2 });
    bb2.instructions.push(Instruction::Jump { label: "exit2".to_string() });
    func2.basic_blocks.push(bb2);
    module.functions.push(func2);

    assert_eq!(module.instruction_count(), 4);
}

#[test]
fn test_module_block_count() {
    let mut module = Module::new("test".to_string());
    let mut func = Function::new("f1".to_string(), ValueType::Int);
    func.basic_blocks.push(BasicBlock::new("entry".to_string()));
    func.basic_blocks.push(BasicBlock::new("exit".to_string()));
    module.functions.push(func);

    assert_eq!(module.block_count(), 2);

    let mut func2 = Function::new("f2".to_string(), ValueType::Int);
    func2.basic_blocks.push(BasicBlock::new("entry2".to_string()));
    module.functions.push(func2);

    assert_eq!(module.block_count(), 3);
}

#[test]
fn test_module_branch_count() {
    let mut module = Module::new("test".to_string());
    let mut func = Function::new("f1".to_string(), ValueType::Int);
    let mut bb1 = BasicBlock::new("entry".to_string());
    bb1.instructions.push(Instruction::Branch {
        condition: Box::new(Instruction::Constant { value: 1 }),
        then_label: "then".to_string(),
        else_label: "else".to_string(),
    });
    func.basic_blocks.push(bb1);
    module.functions.push(func);

    assert_eq!(module.branch_count(), 1);

    let mut func2 = Function::new("f2".to_string(), ValueType::Int);
    let mut bb2 = BasicBlock::new("entry2".to_string());
    bb2.instructions.push(Instruction::Constant { value: 0 });
    bb2.instructions.push(Instruction::Branch {
        condition: Box::new(Instruction::Constant { value: 1 }),
        then_label: "then2".to_string(),
        else_label: "else2".to_string(),
    });
    bb2.instructions.push(Instruction::Jump { label: "end".to_string() });
    func2.basic_blocks.push(bb2);
    module.functions.push(func2);

    assert_eq!(module.branch_count(), 2);
}

#[test]
fn test_value_type_enum() {
    assert_eq!(std::mem::discriminant(&ValueType::Int), std::mem::discriminant(&ValueType::Int));
    assert_eq!(std::mem::discriminant(&ValueType::Float), std::mem::discriminant(&ValueType::Float));
    assert_eq!(std::mem::discriminant(&ValueType::Void), std::mem::discriminant(&ValueType::Void));
}

#[test]
fn test_binary_op_enum() {
    assert_eq!(std::mem::discriminant(&BinaryOp::Add), std::mem::discriminant(&BinaryOp::Add));
    assert_eq!(std::mem::discriminant(&BinaryOp::Sub), std::mem::discriminant(&BinaryOp::Sub));
    assert_eq!(std::mem::discriminant(&BinaryOp::Mul), std::mem::discriminant(&BinaryOp::Mul));
    assert_eq!(std::mem::discriminant(&BinaryOp::Div), std::mem::discriminant(&BinaryOp::Div));
}

#[test]
fn test_compare_condition_enum() {
    assert_eq!(std::mem::discriminant(&CompareCondition::Eq), std::mem::discriminant(&CompareCondition::Eq));
    assert_eq!(std::mem::discriminant(&CompareCondition::Ne), std::mem::discriminant(&CompareCondition::Ne));
    assert_eq!(std::mem::discriminant(&CompareCondition::Lt), std::mem::discriminant(&CompareCondition::Lt));
    assert_eq!(std::mem::discriminant(&CompareCondition::Le), std::mem::discriminant(&CompareCondition::Le));
    assert_eq!(std::mem::discriminant(&CompareCondition::Gt), std::mem::discriminant(&CompareCondition::Gt));
    assert_eq!(std::mem::discriminant(&CompareCondition::Ge), std::mem::discriminant(&CompareCondition::Ge));
}

#[test]
fn test_instruction_enum() {
    let _ = Instruction::Constant { value: 42 };
    let _ = Instruction::Variable { name: "x".to_string() };
    let _ = Instruction::BinaryOp {
        op: BinaryOp::Add,
        lhs: Box::new(Instruction::Constant { value: 1 }),
        rhs: Box::new(Instruction::Constant { value: 2 }),
    };
    let _ = Instruction::Compare {
        condition: CompareCondition::Eq,
        lhs: Box::new(Instruction::Constant { value: 1 }),
        rhs: Box::new(Instruction::Constant { value: 2 }),
    };
    let _ = Instruction::Store {
        var_name: "ptr".to_string(),
        value: Box::new(Instruction::Constant { value: 10 }),
    };
    let _ = Instruction::Branch {
        condition: Box::new(Instruction::Constant { value: 1 }),
        then_label: "then".to_string(),
        else_label: "else".to_string(),
    };
    let _ = Instruction::Jump { label: "target".to_string() };
    let _ = Instruction::Return {
        value: Some(Box::new(Instruction::Constant { value: 100 })),
    };
}

#[test]
fn test_instruction_methods() {
    let instr = Instruction::Constant { value: 42 };
    let _ = instr.clone();
    let _ = instr.to_string();
    let _ = instr.is_terminator();
}

#[test]
fn clone_keeps_instruction() {
    let instr = Instruction::Store {
        var_name: "x".to_string(),
        value: Box::new(Instruction::BinaryOp {
            op: BinaryOp::Mul,
            lhs: Box::new(Instruction::Variable { name: "y".to_string() }),
            rhs: Box::new(Instruction::Constant { value: -3 }),
        }),
    };
    assert_eq!(instr.clone(), instr);
}

#[test]
fn terminators_are_branch_jump_return() {
    assert!(Instruction::Jump { label: "a".to_string() }.is_terminator());
    assert!(Instruction::Return { value: None }.is_terminator());
    assert!(Instruction::Branch {
        condition: Box::new(Instruction::Constant { value: 1 }),
        then_label: "a".to_string(),
        else_label: "b".to_string(),
    }
    .is_terminator());
    assert!(!Instruction::Constant { value: 1 }.is_terminator());
    assert!(!Instruction::Store { var_name: "x".to_string(), value: Box::new(Instruction::Constant { value: 1 }) }
        .is_terminator());
}

#[test]
fn display_renders_trees() {
    let instr = Instruction::Store {
        var_name: "x".to_string(),
        value: Box::new(Instruction::BinaryOp {
            op: BinaryOp::Add,
            lhs: Box::new(Instruction::Variable { name: "y".to_string() }),
            rhs: Box::new(Instruction::Constant { value: -3 }),
        }),
    };
    assert_eq!(instr.display(), "store var y + const -3 -> x");
    assert_eq!(BinaryOp::Div.display(), "/");
}

#[test]
fn function_get_block_finds_first_of_a_name() {
    let mut func = Function::new("f".to_string(), ValueType::Int);
    let mut first = BasicBlock::new("b".to_string());
    first.append(Instruction::Constant { value: 1 });
    func.basic_blocks.push(first);
    func.basic_blocks.push(BasicBlock::new("b".to_string()));
    assert_eq!(func.get_block("b").unwrap().instructions.len(), 1);
}

#[test]
fn module_get_function() {
    let mut module = Module::new("m".to_string());
    module.functions.push(Function::new("f".to_string(), ValueType::Int));
    module.functions.push(Function::new("g".to_string(), ValueType::Void));
    assert_eq!(module.get_function("g").unwrap().return_type, ValueType::Void);
    assert!(module.get_function("h").is_none());
    module.get_function_mut("f").unwrap().set_params(vec!["p".to_string()]);
    assert_eq!(module.functions[0].params, vec!["p".to_string()]);
}
