use metamorphic_engine::interpreter::Interpreter;
use metamorphic_engine::ir::value::{BinaryOp, CompareCondition, Instruction, ValueType};
use metamorphic_engine::llvm_frontend::{
    BodyReader, clean_line_of, find_and_parse_definition, map_binop, map_cmp_cond, map_llvm_type, parse_function_body,
    parse_ll_text, strip_percent, FrontendError,
};

fn read_float(s: String) -> Option<i64> {
    s.parse::<f64>().ok().map(|f| f as i64)
}

const SUM_LL: &str = "; ModuleID = 'sum.c'
define dso_local i32 @count_up(i32 noundef %0) #0 {
  %2 = alloca i32, align 4
  %3 = alloca i32, align 4
  store i32 %0, ptr %2, align 4
  store i32 0, ptr %3, align 4
  br label %4

4:                                                ; preds = %8, %1
  %5 = load i32, ptr %3, align 4
  %6 = load i32, ptr %2, align 4
  %7 = icmp slt i32 %5, %6
  br i1 %7, label %8, label %11

8:                                                ; preds = %4
  %9 = load i32, ptr %3, align 4
  %10 = add nsw i32 %9, 1
  store i32 %10, ptr %3, align 4
  br label %4

11:                                               ; preds = %4
  %12 = load i32, ptr %3, align 4
  ret i32 %12
}
";

const CALL_LL: &str = "define i32 @main() {
  %1 = call i32 @twice(i32 noundef 21)
  ret i32 %1
}

define i32 @twice(i32 %0) {
  %2 = mul i32 %0, 2
  ret i32 %2
}
";

fn lines(body: &str) -> Vec<String> {
    body.lines().map(|l| l.to_string()).collect()
}

#[test]
fn opcode_condition_and_type_tables() {
    assert_eq!(map_binop("fadd"), Some(BinaryOp::Add));
    assert_eq!(map_binop("udiv"), Some(BinaryOp::Div));
    assert_eq!(map_binop("srem"), None);
    assert_eq!(map_cmp_cond("ult"), Some(CompareCondition::Lt));
    assert_eq!(map_cmp_cond("oge"), Some(CompareCondition::Ge));
    assert_eq!(map_cmp_cond("uno"), None);
    assert_eq!(map_llvm_type("double"), ValueType::Float);
    assert_eq!(map_llvm_type("void"), ValueType::Void);
    assert_eq!(map_llvm_type("i128"), ValueType::Int);
    assert_eq!(strip_percent("%%reg"), "reg");
}

#[test]
fn lines_lose_comments_and_blanks() {
    assert_eq!(clean_line_of("   "), None);
    assert_eq!(clean_line_of("; just a comment"), None);
    let cleaned: String = clean_line_of("  %5 = load i32, ptr %3 ; trailing").unwrap().into_iter().collect();
    assert_eq!(cleaned, "%5 = load i32, ptr %3");
}

#[test]
fn loop_body_reads_into_blocks_and_runs() {
    let body = SUM_LL.split('{').nth(1).unwrap().split('}').next().unwrap();
    let f = parse_function_body(
        "count_up",
        ValueType::Int,
        &["0".to_string()],
        &lines(body),
        Some(7),
        &read_float,
    )
    .expect("body should parse");
    let names: Vec<&str> = f.basic_blocks.iter().map(|b| b.name.as_str()).collect();
    assert_eq!(names, vec!["entry", "4", "8", "11"]);
    assert_eq!(
        f.basic_blocks[0].instructions[0],
        Instruction::Store { var_name: "2".to_string(), value: Box::new(Instruction::Constant { value: 7 }) }
    );
    assert_eq!(f.basic_blocks[0].instructions[2], Instruction::Jump { label: "4".to_string() });
    let mut module = metamorphic_engine::ir::module::Module::new("t".to_string());
    module.functions.push(f);
    let r = Interpreter::new().execute_function(&module, &module.functions[0], &[]).unwrap();
    assert_eq!(r, 7);
}

#[test]
fn operands_read_floats_booleans_and_registers() {
    let body = vec![
        "%1 = alloca double".to_string(),
        "store double 3.75, ptr %1".to_string(),
        "%2 = fcmp olt double 1.5, true".to_string(),
        "ret i1 %2".to_string(),
    ];
    let f = parse_function_body("g", ValueType::Int, &[], &body, None, &read_float).unwrap();
    let insts = &f.basic_blocks[0].instructions;
    assert_eq!(
        insts[0],
        Instruction::Store { var_name: "1".to_string(), value: Box::new(Instruction::Constant { value: 3 }) }
    );
    assert_eq!(
        insts[1],
        Instruction::Return {
            value: Some(Box::new(Instruction::Compare {
                condition: CompareCondition::Lt,
                lhs: Box::new(Instruction::Constant { value: 1 }),
                rhs: Box::new(Instruction::Constant { value: 1 }),
            }))
        }
    );
}

#[test]
fn each_reading_error_has_its_message() {
    let cases: Vec<(&str, &str)> = vec![
        ("%1 = load i32, ptr %9", "load from unknown pointer register %9 (no matching alloca)"),
        ("store i32 1, ptr %9", "store to unknown pointer register %9 (no matching alloca)"),
        ("ret i32 %4", "reference to undefined SSA register %4"),
        ("ret i32 banana", "unrecognized operand 'banana'"),
        ("%2 = zext i1 %7 to i32", "type-cast from undefined SSA register %7"),
        ("br i1 %3, label %a, label %b", "conditional branch on undefined SSA register %3"),
        ("call void @sink(i32 1)", "void call to 'sink' in function 'h' — Phase 1 (scalar-only calls) requires a used return value; side-effecting void calls aren't supported yet"),
        ("%5 = getelementptr i32, ptr %1, i64 0", "unsupported LLVM IR construct in function 'h': %5 = getelementptr i32, ptr %1, i64 0"),
        ("%5 = fcmp uno double 1.0, 2.0", "unsupported icmp/fcmp condition 'uno'"),
    ];
    for (line, message) in cases {
        let err = parse_function_body("h", ValueType::Int, &[], &[line.to_string()], None, &read_float)
            .expect_err(line);
        assert_eq!(err.to_string(), message, "for line {}", line);
    }
}

#[test]
fn definition_found_by_name() {
    let f = find_and_parse_definition(CALL_LL, "twice", None, &read_float).unwrap();
    assert_eq!(f.name, "twice");
    assert_eq!(f.params, vec!["0".to_string()]);
    assert_eq!(f.return_type, ValueType::Int);
    assert_eq!(
        f.basic_blocks[0].instructions[0],
        Instruction::Return {
            value: Some(Box::new(Instruction::BinaryOp {
                op: BinaryOp::Mul,
                lhs: Box::new(Instruction::Variable { name: "0".to_string() }),
                rhs: Box::new(Instruction::Constant { value: 2 }),
            }))
        }
    );
    let missing = find_and_parse_definition(CALL_LL, "thrice", None, &read_float).unwrap_err();
    assert!(matches!(missing, FrontendError::NoDefinition(ref n) if n == "thrice"));
    let open = find_and_parse_definition("define i32 @f() {\n  ret i32 0\n", "f", None, &read_float).unwrap_err();
    assert_eq!(open.to_string(), "unterminated function body for 'f'");
}

#[test]
fn module_pulls_in_called_functions() {
    let module = parse_ll_text(CALL_LL, "target_calls", 0, None, &read_float).unwrap();
    assert_eq!(module.name, "target_calls");
    let names: Vec<&str> = module.functions.iter().map(|f| f.name.as_str()).collect();
    assert_eq!(names, vec!["main", "twice"]);
    let r = Interpreter::new().execute_function(&module, &module.functions[0], &[]).unwrap();
    assert_eq!(r, 42);
}

#[test]
fn entry_is_the_first_definition_or_the_one_asked_for() {
    let first = parse_ll_text(SUM_LL, "s", 4, None, &read_float).unwrap();
    assert_eq!(first.functions[0].name, "count_up");
    let r = Interpreter::new().execute_function(&first, &first.functions[0], &[]).unwrap();
    assert_eq!(r, 4);
    let chosen = parse_ll_text(CALL_LL, "c", 0, Some("twice"), &read_float).unwrap();
    assert_eq!(chosen.functions.len(), 1);
    assert_eq!(chosen.functions[0].name, "twice");
    let none = parse_ll_text("; nothing here\n", "n", 0, None, &read_float).unwrap_err();
    assert!(matches!(none, FrontendError::NoFunctions));
}

#[test]
fn names_with_regex_meta_characters_are_found_literally() {
    let text = "define i32 @ab() {\n  ret i32 1\n}\ndefine i32 @a$b() {\n  ret i32 3\n}\n";
    let f = find_and_parse_definition(text, "a$b", None, &read_float).unwrap();
    assert_eq!(f.name, "a$b");
    assert_eq!(
        f.basic_blocks[0].instructions[0],
        Instruction::Return { value: Some(Box::new(Instruction::Constant { value: 3 })) }
    );
    let g = find_and_parse_definition("define i32 @x.y() {\n  ret i32 5\n}\n", "x.y", None, &read_float).unwrap();
    assert_eq!(g.name, "x.y");
    assert!(find_and_parse_definition("define i32 @xzy() {\n  ret i32 5\n}\n", "x.y", None, &read_float).is_err());
}

fn matched(k: usize, groups: &[Option<&str>]) -> Vec<Option<Vec<Option<String>>>> {
    let mut m: Vec<Option<Vec<Option<String>>>> = vec![None; 12];
    m[k] = Some(groups.iter().map(|g| g.map(|s| s.to_string())).collect());
    m
}

#[test]
fn reader_applies_given_matches() {
    let mut reader = BodyReader::new(&["n".to_string()], None);
    let line = "%x = alloca i64, align 8";
    reader.read_matched_line(&matched(1, &[Some("%x = alloca"), Some("x")]), line, "f", &read_float).unwrap();
    let line = "store i64 %n, ptr %x, align 8";
    reader
        .read_matched_line(&matched(3, &[Some("store i64 %n, ptr %x"), Some("%n"), Some("x")]), line, "f", &read_float)
        .unwrap();
    let line = "%v = load i64, ptr %x, align 8";
    reader.read_matched_line(&matched(2, &[Some("%v = load i64, ptr %x"), Some("v"), Some("x")]), line, "f", &read_float).unwrap();
    let line = "%w = add nsw i64 %v, 2";
    reader
        .read_matched_line(
            &matched(4, &[Some(line), Some("w"), Some("add"), Some("%v"), Some("2")]),
            line,
            "f",
            &read_float,
        )
        .unwrap();
    let line = "ret i64 %w";
    reader.read_matched_line(&matched(9, &[Some(line), Some("%w")]), line, "f", &read_float).unwrap();
    let var = |s: &str| Box::new(Instruction::Variable { name: s.to_string() });
    assert_eq!(
        reader.current_block().instructions,
        vec![
            Instruction::Store { var_name: "x".to_string(), value: var("n") },
            Instruction::Return {
                value: Some(Box::new(Instruction::BinaryOp {
                    op: BinaryOp::Add,
                    lhs: var("x"),
                    rhs: Box::new(Instruction::Constant { value: 2 }),
                })),
            },
        ]
    );
    let blocks = reader.finish();
    assert_eq!(blocks.len(), 1);
    assert_eq!(blocks[0].name, "entry");
}

#[test]
fn reader_reports_what_the_matches_refuse() {
    let mut reader = BodyReader::new(&[], None);
    let line = "%v = load i64, ptr %q, align 8";
    let r = reader.read_matched_line(&matched(2, &[Some(line), Some("v"), Some("q")]), line, "f", &read_float);
    assert!(matches!(r, Err(FrontendError::UnknownLoadPointer(ref p)) if p == "q"));
    let line = "%w = frem double %a, %b";
    let r = reader.read_matched_line(&vec![None; 12], line, "f", &read_float);
    assert!(matches!(r, Err(FrontendError::Unsupported(ref f, ref l)) if f == "f" && l == line));
    let line = "%c = icmp weird i64 1, 2";
    let r = reader.read_matched_line(
        &matched(5, &[Some(line), Some("c"), Some("weird"), Some("1"), Some("2")]),
        line,
        "f",
        &read_float,
    );
    assert!(matches!(r, Err(FrontendError::UnsupportedCondition(ref c)) if c == "weird"));
    let line = "foo:";
    reader.read_matched_line(&matched(0, &[Some(line), Some("foo")]), line, "f", &read_float).unwrap();
    assert_eq!(reader.current_block().name, "foo");
    assert_eq!(reader.finish().len(), 1);
}
