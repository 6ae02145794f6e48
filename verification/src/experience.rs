use vstd::prelude::*;
use std::collections::HashMap;
use crate::ir::module::{Module, block_total, branch_total, instruction_total};
use crate::text::string_of;

verus! {

/// Counts that describe a module to a predictor of pass outcomes.
#[derive(Debug, Clone, Copy)]
pub struct FunctionStats {
    pub instruction_count: usize,
    pub block_count: usize,
    pub max_depth: usize,
    pub constant_count: usize,
    pub store_count: usize,
    pub branch_count: usize,
}

impl Default for FunctionStats {
    fn default() -> (r: Self)
        ensures
            r.instruction_count == 0 && r.block_count == 0 && r.max_depth == 0 && r.constant_count == 0
                && r.store_count == 0 && r.branch_count == 0,
    {
        FunctionStats {
            instruction_count: 0,
            block_count: 0,
            max_depth: 0,
            constant_count: 0,
            store_count: 0,
            branch_count: 0,
        }
    }
}

/// The statistics of a module as the evolutionary search records them: its instruction,
/// block and branch totals; the other counts stay zero.
pub fn compute_function_stats(module: &Module) -> (r: FunctionStats)
    requires
        instruction_total(module@) <= usize::MAX,
        block_total(module@) <= usize::MAX,
        branch_total(module@) <= usize::MAX,
    ensures
        r.instruction_count == instruction_total(module@),
        r.block_count == block_total(module@),
        r.branch_count == branch_total(module@),
        r.max_depth == 0 && r.constant_count == 0 && r.store_count == 0,
{
    FunctionStats {
        instruction_count: module.instruction_count(),
        block_count: module.block_count(),
        max_depth: 0,
        constant_count: 0,
        store_count: 0,
        branch_count: module.branch_count(),
    }
}

/// A pass as the experience store keeps it: its identifier and parameter values.
#[derive(Debug, Clone)]
pub struct ExperiencePassDescriptor {
    pub id: String,
    pub params: HashMap<String, i32>,
}

/// Settings of the experience store.
#[derive(Debug, Clone)]
pub struct ExperienceConfig {
    pub hot_capacity: usize,
    /// Where the store keeps its database.
    pub db_path: String,
    pub curriculum_enabled: bool,
}

impl Default for ExperienceConfig {
    fn default() -> (r: Self)
        ensures
            r.hot_capacity == 100_000,
            r.db_path@ == "experience.db"@,
            r.curriculum_enabled,
    {
        ExperienceConfig { hot_capacity: 100_000, db_path: string_of("experience.db"), curriculum_enabled: true }
    }
}

/// Stages of the curriculum, easiest first.
#[derive(Debug, Clone, Copy, PartialEq, Eq, Structural)]
pub enum CurriculumStage {
    Novice,
    Intermediate,
    Advanced,
    Expert,
}

} // verus!
