use metamorphic_engine::demo::run_demo;
use metamorphic_engine::experience::{compute_function_stats, CurriculumStage, ExperienceConfig, FunctionStats};
use metamorphic_engine::ir::value::Instruction;
use metamorphic_engine::ir_generator::{apply_coins, function_demand, IRGenerator, StringHashMap};
use metamorphic_engine::module_builders;

fn known(pairs: &[(&str, i64)]) -> StringHashMap<i64> {
    let mut m = StringHashMap::new();
    for (k, v) in pairs {
        m.insert(k.to_string(), *v);
    }
    m
}

fn stores_constant(inst: &Instruction, name: &str, value: i64) -> bool {
    matches!(inst, Instruction::Store { var_name, value: v }
        if var_name == name && matches!(**v, Instruction::Constant { value: c } if c == value))
}

#[test]
fn specialization_rewrites_stores_of_known_names() {
    let module = module_builders::build_sum_example(10);
    let f = &module.functions[0];
    let spec = IRGenerator::specialize_function(f, &known(&[("n", 5)]));
    let mut seen = 0;
    for (b, sb) in f.basic_blocks.iter().zip(spec.basic_blocks.iter()) {
        for (i, si) in b.instructions.iter().zip(sb.instructions.iter()) {
            match i {
                Instruction::Store { var_name, .. } if var_name == "n" => {
                    assert!(stores_constant(si, "n", 5));
                    seen += 1;
                },
                _ => assert_eq!(i, si),
            }
        }
    }
    assert!(seen > 0);
}

#[test]
fn coins_decide_each_substitution() {
    let module = module_builders::build_sum_example(10);
    let f = &module.functions[0];
    let k = known(&[("i", 0), ("sum", 0), ("n", 10)]);
    let demand = function_demand(f, &k);
    assert!(demand > 0);
    let unchanged = apply_coins(f, &k, &vec![false; demand]);
    assert_eq!(&unchanged, f);
    let all = apply_coins(f, &k, &vec![true; demand]);
    assert_ne!(&all, f);
    assert_eq!(function_demand(&all, &k), 0);
}

#[test]
fn variants_come_in_the_number_asked_for() {
    let module = module_builders::build_sum_example(10);
    let f = &module.functions[0];
    let k = known(&[("i", 0), ("sum", 0), ("n", 10)]);
    let variants = IRGenerator::generate_variants(f, &k, 4);
    assert_eq!(variants.len(), 4);
    for v in &variants {
        assert_eq!(v.name, f.name);
        assert_eq!(v.basic_blocks.len(), f.basic_blocks.len());
    }
    assert!(IRGenerator::generate_variants(f, &k, 0).is_empty());
}

#[test]
fn stats_and_settings() {
    let module = module_builders::build_sum_example(10);
    let stats = compute_function_stats(&module);
    assert_eq!(stats.instruction_count, module.instruction_count());
    assert_eq!(stats.block_count, module.block_count());
    assert_eq!(stats.branch_count, module.branch_count());
    assert_eq!(stats.max_depth, 0);
    let d = FunctionStats::default();
    assert_eq!(d.instruction_count + d.block_count + d.store_count + d.constant_count, 0);
    let cfg = ExperienceConfig::default();
    assert_eq!(cfg.hot_capacity, 100_000);
    assert_eq!(cfg.db_path, "experience.db");
    assert!(cfg.curriculum_enabled);
    assert_ne!(CurriculumStage::Novice, CurriculumStage::Expert);
}

#[test]
fn demo_runs_and_checks_the_sums() {
    let report = run_demo().unwrap_or_else(|_| panic!("demo failed"));
    assert_eq!(report.checks.len(), 3);
    for c in &report.checks {
        assert_eq!(c.expected, (c.n as i64) * (c.n as i64 - 1) / 2);
        assert_eq!(c.original, c.expected);
        assert_eq!(c.optimized, c.expected);
    }
    assert_eq!(report.registry.len(), 7);
    assert!(report.validated);
    assert_eq!(report.variants.len(), 4);
    assert_eq!(report.original, module_builders::build_sum_example(10));
}
