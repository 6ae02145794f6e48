use vstd::prelude::*;
use crate::passes::clamp;
use crate::passes::pass_registry::{PassKind, kind_param};

verus! {

broadcast use vstd::std_specs::vec::group_vec_axioms;

/// The most passes a pipeline may hold.
pub const MAX_PASSES: usize = 24;

/// One pass of a pipeline: its kind and, for a kind with a parameter, that parameter's value.
#[derive(Debug, Clone, Copy, PartialEq, Eq, Structural)]
pub struct PipelineSlot {
    pub kind: PassKind,
    pub param: Option<i32>,
}

/// A freshly created pass of the kind: its parameter, if it has one, at its default.
pub open spec fn fresh_slot(k: PassKind) -> PipelineSlot {
    PipelineSlot {
        kind: k,
        param: match kind_param(k) {
            Some((_, d, _, _, _)) => Some(d),
            None => None,
        },
    }
}

/// A slot with its parameter set to `value`, clamped into the parameter's range; a slot of a
/// kind without a parameter stays as it is.
pub open spec fn tuned_slot(s: PipelineSlot, value: i32) -> PipelineSlot {
    match kind_param(s.kind) {
        Some((_, _, lo, hi, _)) => PipelineSlot { kind: s.kind, param: Some(clamp(value, lo, hi)) },
        None => s,
    }
}

/// The ways a pipeline is changed.
#[derive(Debug, Clone, Copy, PartialEq, Eq, Structural)]
pub enum Mutation {
    Add,
    Remove,
    Reorder,
    Duplicate,
    Tune,
}

impl Mutation {
    /// The mutation's name.
    pub fn name(&self) -> (r: &'static str)
        ensures
            r@ == match *self {
                Mutation::Add => "add"@,
                Mutation::Remove => "remove"@,
                Mutation::Reorder => "reorder"@,
                Mutation::Duplicate => "duplicate"@,
                Mutation::Tune => "tune"@,
            },
    {
        match self {
            Mutation::Add => "add",
            Mutation::Remove => "remove",
            Mutation::Reorder => "reorder",
            Mutation::Duplicate => "duplicate",
            Mutation::Tune => "tune",
        }
    }
}

/// A fresh pass of the kind, its parameter at its default.
pub fn fresh(k: PassKind) -> (r: PipelineSlot)
    ensures
        r == fresh_slot(k),
{
    let param = match k {
        PassKind::ConstantFolding => Some(5),
        PassKind::ConstantPropagation => Some(10),
        PassKind::BlockMerging => Some(5),
        PassKind::LoopUnroll => Some(2),
        _ => None,
    };
    PipelineSlot { kind: k, param }
}

/// The first `MAX_PASSES` passes of a pipeline.
pub fn cap_pipeline(p: &mut Vec<PipelineSlot>)
    ensures
        final(p)@ == if old(p)@.len() > MAX_PASSES { old(p)@.take(MAX_PASSES as int) } else { old(p)@ },
{
    if p.len() > MAX_PASSES {
        p.truncate(MAX_PASSES);
    }
}

/// A child of two pipelines: the passes of `p1` before `point`, then those of `p2` from
/// `point` on.
pub fn crossover(p1: &Vec<PipelineSlot>, p2: &Vec<PipelineSlot>, point: usize) -> (r: Vec<PipelineSlot>)
    requires
        point < p1@.len() || point < p2@.len(),
    ensures
        r@ == p1@.take(if point < p1@.len() { point as int } else { p1@.len() as int }) + p2@.skip(
            if point < p2@.len() { point as int } else { p2@.len() as int },
        ),
{
    let a = if point < p1.len() { point } else { p1.len() };
    let b = if point < p2.len() { point } else { p2.len() };
    let mut child: Vec<PipelineSlot> = Vec::new();
    let mut i: usize = 0;
    while i < a
        invariant
            a <= p1@.len(),
            i <= a,
            child@ == p1@.take(i as int),
        decreases a - i,
    {
        child.push(p1[i]);
        i = i + 1;
        proof {
            assert(child@ =~= p1@.take(i as int));
        }
    }
    let mut j: usize = b;
    while j < p2.len()
        invariant
            b <= j <= p2@.len(),
            child@ == p1@.take(a as int) + p2@.subrange(b as int, j as int),
        decreases p2.len() - j,
    {
        child.push(p2[j]);
        j = j + 1;
        proof {
            assert(child@ =~= p1@.take(a as int) + p2@.subrange(b as int, j as int));
        }
    }
    proof {
        assert(p2@.subrange(b as int, j as int) =~= p2@.skip(b as int));
    }
    child
}

/// What a mutation with the given draws does to a pipeline: `kind` is the pass an addition
/// creates; `i` and `j` are positions (`j` the insertion point of an addition or a copy, the
/// second position of a swap); `value` is the parameter value a tuning sets.
pub open spec fn mutated(p: Seq<PipelineSlot>, m: Mutation, kind: PassKind, i: int, j: int, value: i32) -> Seq<PipelineSlot> {
    match m {
        Mutation::Add => if p.len() < MAX_PASSES { p.insert(j, fresh_slot(kind)) } else { p },
        Mutation::Remove => if p.len() > 0 { p.remove(i) } else { p },
        Mutation::Reorder => if p.len() >= 2 { p.update(i, p[j]).update(j, p[i]) } else { p },
        Mutation::Duplicate => if p.len() > 0 && p.len() < MAX_PASSES { p.insert(j, p[i]) } else { p },
        Mutation::Tune => if p.len() > 0 { p.update(i, tuned_slot(p[i], value)) } else { p },
    }
}

/// The draws fit the pipeline: positions inside it, an insertion point at most its length.
pub open spec fn draws_fit(p: Seq<PipelineSlot>, m: Mutation, i: int, j: int) -> bool {
    match m {
        Mutation::Add => 0 <= j <= p.len(),
        Mutation::Remove | Mutation::Tune => p.len() == 0 || 0 <= i < p.len(),
        Mutation::Reorder => p.len() < 2 || (0 <= i < p.len() && 0 <= j < p.len()),
        Mutation::Duplicate => p.len() == 0 || (0 <= i < p.len() && 0 <= j <= p.len()),
    }
}

/// Applies a mutation with the given draws; the pass it concerns, if any.
pub fn apply_mutation(
    p: &mut Vec<PipelineSlot>,
    m: Mutation,
    kind: PassKind,
    i: usize,
    j: usize,
    value: i32,
) -> (r: Option<PassKind>)
    requires
        draws_fit(old(p)@, m, i as int, j as int),
    ensures
        final(p)@ == mutated(old(p)@, m, kind, i as int, j as int, value),
        r == match m {
            Mutation::Add => if old(p)@.len() < MAX_PASSES { Some(kind) } else { None },
            Mutation::Reorder => if old(p)@.len() >= 2 { Some(old(p)@[j as int].kind) } else { None },
            Mutation::Duplicate => if old(p)@.len() > 0 && old(p)@.len() < MAX_PASSES {
                Some(old(p)@[i as int].kind)
            } else {
                None
            },
            _ => if old(p)@.len() > 0 { Some(old(p)@[i as int].kind) } else { None },
        },
{
    match m {
        Mutation::Add => {
            if p.len() < MAX_PASSES {
                p.insert(j, fresh(kind));
                Some(kind)
            } else {
                None
            }
        },
        Mutation::Remove => {
            if p.len() > 0 {
                let s = p.remove(i);
                Some(s.kind)
            } else {
                None
            }
        },
        Mutation::Reorder => {
            if p.len() >= 2 {
                let a = p[i];
                let b = p[j];
                p.set(i, b);
                p.set(j, a);
                Some(b.kind)
            } else {
                None
            }
        },
        Mutation::Duplicate => {
            if p.len() > 0 && p.len() < MAX_PASSES {
                let s = p[i];
                p.insert(j, s);
                Some(s.kind)
            } else {
                None
            }
        },
        Mutation::Tune => {
            if p.len() > 0 {
                let s = p[i];
                let t = match s.kind {
                    PassKind::ConstantFolding => PipelineSlot { kind: s.kind, param: Some(clamp_exec(value, 1, 50)) },
                    PassKind::ConstantPropagation => PipelineSlot { kind: s.kind, param: Some(clamp_exec(value, 1, 50)) },
                    PassKind::BlockMerging => PipelineSlot { kind: s.kind, param: Some(clamp_exec(value, 1, 20)) },
                    PassKind::LoopUnroll => PipelineSlot { kind: s.kind, param: Some(clamp_exec(value, 1, 10)) },
                    _ => s,
                };
                p.set(i, t);
                Some(s.kind)
            } else {
                None
            }
        },
    }
}

/// `value` raised to `lo` and lowered to `hi`.
fn clamp_exec(value: i32, lo: i32, hi: i32) -> (r: i32)
    ensures
        r == clamp(value, lo, hi),
{
    let raised = if value >= lo { value } else { lo };
    if raised <= hi { raised } else { hi }
}

/// No mutation takes a pipeline past the cap, and crossover followed by the cap stays within
/// it: a pipeline within the cap stays within it whatever the draws.
pub proof fn law_mutation_keeps_cap(p: Seq<PipelineSlot>, m: Mutation, kind: PassKind, i: int, j: int, value: i32)
    requires
        p.len() <= MAX_PASSES,
        draws_fit(p, m, i, j),
    ensures
        mutated(p, m, kind, i, j, value).len() <= MAX_PASSES,
{
}

} // verus!
