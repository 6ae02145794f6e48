use metamorphic_engine::evolution::{
    apply_mutation, cap_pipeline, crossover, fresh, Mutation, PipelineSlot, MAX_PASSES,
};
use metamorphic_engine::passes::pass_registry::PassKind;

fn slot(kind: PassKind) -> PipelineSlot {
    fresh(kind)
}

#[test]
fn fresh_slots_hold_default_parameters() {
    assert_eq!(slot(PassKind::ConstantFolding).param, Some(5));
    assert_eq!(slot(PassKind::LoopUnroll).param, Some(2));
    assert_eq!(slot(PassKind::DeadCode).param, None);
}

#[test]
fn mutations_edit_the_pipeline() {
    let mut p = vec![slot(PassKind::ConstantFolding), slot(PassKind::DeadCode)];
    assert_eq!(apply_mutation(&mut p, Mutation::Add, PassKind::Cse, 0, 1, 0), Some(PassKind::Cse));
    assert_eq!(p.iter().map(|s| s.kind).collect::<Vec<_>>(), vec![PassKind::ConstantFolding, PassKind::Cse, PassKind::DeadCode]);
    assert_eq!(apply_mutation(&mut p, Mutation::Reorder, PassKind::Cse, 0, 2, 0), Some(PassKind::DeadCode));
    assert_eq!(p[0].kind, PassKind::DeadCode);
    assert_eq!(p[2].kind, PassKind::ConstantFolding);
    assert_eq!(apply_mutation(&mut p, Mutation::Tune, PassKind::Cse, 2, 0, 99), Some(PassKind::ConstantFolding));
    assert_eq!(p[2].param, Some(50));
    assert_eq!(apply_mutation(&mut p, Mutation::Duplicate, PassKind::Cse, 2, 0, 0), Some(PassKind::ConstantFolding));
    assert_eq!(p.len(), 4);
    assert_eq!(p[0], p[3]);
    assert_eq!(apply_mutation(&mut p, Mutation::Remove, PassKind::Cse, 1, 0, 0), Some(PassKind::DeadCode));
    assert_eq!(p.len(), 3);
    assert_eq!(Mutation::Duplicate.name(), "duplicate");
}

#[test]
fn mutations_respect_the_cap() {
    let mut p = vec![slot(PassKind::DeadCode); MAX_PASSES];
    assert_eq!(apply_mutation(&mut p, Mutation::Add, PassKind::Cse, 0, 0, 0), None);
    assert_eq!(apply_mutation(&mut p, Mutation::Duplicate, PassKind::Cse, 0, 0, 0), None);
    assert_eq!(p.len(), MAX_PASSES);
    let mut long = vec![slot(PassKind::Cse); 30];
    cap_pipeline(&mut long);
    assert_eq!(long.len(), 24);
    let mut empty: Vec<PipelineSlot> = Vec::new();
    assert_eq!(apply_mutation(&mut empty, Mutation::Remove, PassKind::Cse, 0, 0, 0), None);
}

#[test]
fn crossover_joins_a_prefix_and_a_suffix() {
    let a = vec![slot(PassKind::ConstantFolding), slot(PassKind::DeadCode), slot(PassKind::Cse)];
    let b = vec![slot(PassKind::LoopUnroll), slot(PassKind::BlockMerging)];
    let c = crossover(&a, &b, 1);
    assert_eq!(c.iter().map(|s| s.kind).collect::<Vec<_>>(), vec![PassKind::ConstantFolding, PassKind::BlockMerging]);
    let d = crossover(&a, &b, 2);
    assert_eq!(d.iter().map(|s| s.kind).collect::<Vec<_>>(), vec![PassKind::ConstantFolding, PassKind::DeadCode]);
}
