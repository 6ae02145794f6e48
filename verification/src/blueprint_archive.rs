use vstd::prelude::*;
use crate::ir::basic_block::BlockModel;
use crate::ir::function::{FunctionModel, block_index, block_models, find_block};
use crate::ir::module::{
    Module, ModuleModel, block_total, branch_total, instruction_total, lemma_sum_prefix, sum,
};
use crate::ir::value::{Inst, Instruction};
use crate::text::{decimal, push_str, push_usize};
use crate::chars::{chars_of, parse_i64, parse_i64_of, split_char, split_chars};

verus! {

broadcast use vstd::std_specs::vec::group_vec_axioms;

/// 1 for a store, 0 otherwise.
pub open spec fn store_flags(insts: Seq<Inst>) -> Seq<nat> {
    insts.map_values(|i: Inst| if i is Store { 1nat } else { 0nat })
}

/// Number of stores among the top-level instructions of each block of a list.
pub open spec fn block_store_counts(bs: Seq<BlockModel>) -> Seq<nat> {
    bs.map_values(|b: BlockModel| sum(store_flags(b.insts)))
}

/// Number of stores in each function of a list.
pub open spec fn function_store_counts(fs: Seq<FunctionModel>) -> Seq<nat> {
    fs.map_values(|f: FunctionModel| sum(block_store_counts(f.blocks)))
}

/// Number of top-level store instructions in a module.
pub open spec fn store_total(m: ModuleModel) -> nat {
    sum(function_store_counts(m.functions))
}

/// Whether an instruction of the block named `here`, among the blocks `bs`, jumps back to a
/// block listed before it (each name taken at its first place in the list).
pub open spec fn jumps_back(bs: Seq<BlockModel>, here: Seq<char>, i: Inst) -> bool {
    match i {
        Inst::Jump { label } => match (find_block(bs, here), find_block(bs, label)) {
            (Some(it), Some(tgt)) => tgt < it,
            _ => false,
        },
        _ => false,
    }
}

/// 1 for a jump back, 0 otherwise, for the instructions of the block named `here`.
pub open spec fn loop_flags(bs: Seq<BlockModel>, here: Seq<char>, insts: Seq<Inst>) -> Seq<nat> {
    insts.map_values(|i: Inst| if jumps_back(bs, here, i) { 1nat } else { 0nat })
}

/// Number of jumps back in each block of a function's list of blocks.
pub open spec fn block_loop_counts(bs: Seq<BlockModel>) -> Seq<nat> {
    bs.map_values(|b: BlockModel| sum(loop_flags(bs, b.name, b.insts)))
}

/// Number of jumps back in each function of a list.
pub open spec fn function_loop_counts(fs: Seq<FunctionModel>) -> Seq<nat> {
    fs.map_values(|f: FunctionModel| sum(block_loop_counts(f.blocks)))
}

/// Number of jumps back to an earlier block in a module: its loops.
pub open spec fn loop_total(m: ModuleModel) -> nat {
    sum(function_loop_counts(m.functions))
}

/// The shape of a module: its instruction, block, branch, store and loop counts in decimal,
/// joined by `_`.
pub open spec fn shape_hash(m: ModuleModel) -> Seq<char> {
    decimal(instruction_total(m) as int) + "_"@ + decimal(block_total(m) as int) + "_"@ + decimal(
        branch_total(m) as int,
    ) + "_"@ + decimal(store_total(m) as int) + "_"@ + decimal(loop_total(m) as int)
}

/// Number of top-level stores in a module.
fn store_count(m: &Module) -> (r: usize)
    requires
        store_total(m@) <= usize::MAX,
    ensures
        r == store_total(m@),
{
    let ghost fc = function_store_counts(m@.functions);
    let mut total: usize = 0;
    let mut i: usize = 0;
    while i < m.functions.len()
        invariant
            i <= m.functions.len(),
            fc == function_store_counts(m@.functions),
            sum(fc) <= usize::MAX,
            total == sum(fc.take(i as int)),
        decreases m.functions.len() - i,
    {
        let f = &m.functions[i];
        let ghost bc = block_store_counts(f@.blocks);
        proof {
            lemma_sum_prefix(fc, i as int);
            lemma_sum_prefix(fc, i as int + 1);
            assert(fc[i as int] == sum(bc));
        }
        let mut j: usize = 0;
        while j < f.basic_blocks.len()
            invariant
                j <= f.basic_blocks.len(),
                bc == block_store_counts(f@.blocks),
                sum(fc.take(i as int)) + sum(bc) <= usize::MAX,
                total == sum(fc.take(i as int)) + sum(bc.take(j as int)),
            decreases f.basic_blocks.len() - j,
        {
            let b = &f.basic_blocks[j];
            let ghost fl = store_flags(b@.insts);
            proof {
                lemma_sum_prefix(bc, j as int);
                lemma_sum_prefix(bc, j as int + 1);
                assert(bc[j as int] == sum(fl));
            }
            let mut k: usize = 0;
            while k < b.instructions.len()
                invariant
                    k <= b.instructions.len(),
                    fl == store_flags(b@.insts),
                    sum(fc.take(i as int)) + sum(bc.take(j as int)) + sum(fl) <= usize::MAX,
                    total == sum(fc.take(i as int)) + sum(bc.take(j as int)) + sum(fl.take(k as int)),
                decreases b.instructions.len() - k,
            {
                proof {
                    lemma_sum_prefix(fl, k as int);
                    lemma_sum_prefix(fl, k as int + 1);
                }
                match &b.instructions[k] {
                    Instruction::Store { .. } => {
                        total = total + 1;
                    },
                    _ => {},
                }
                k = k + 1;
            }
            proof {
                assert(fl.take(k as int) =~= fl);
            }
            j = j + 1;
        }
        proof {
            assert(bc.take(j as int) =~= bc);
        }
        i = i + 1;
    }
    proof {
        assert(fc.take(i as int) =~= fc);
    }
    total
}

/// Number of jumps back to an earlier block in a module.
fn loop_count(m: &Module) -> (r: usize)
    requires
        loop_total(m@) <= usize::MAX,
    ensures
        r == loop_total(m@),
{
    let ghost fc = function_loop_counts(m@.functions);
    let mut total: usize = 0;
    let mut i: usize = 0;
    while i < m.functions.len()
        invariant
            i <= m.functions.len(),
            fc == function_loop_counts(m@.functions),
            sum(fc) <= usize::MAX,
            total == sum(fc.take(i as int)),
        decreases m.functions.len() - i,
    {
        let f = &m.functions[i];
        let ghost bs = block_models(f.basic_blocks@);
        let ghost bc = block_loop_counts(bs);
        proof {
            lemma_sum_prefix(fc, i as int);
            lemma_sum_prefix(fc, i as int + 1);
            assert(f@.blocks == bs);
            assert(fc[i as int] == sum(bc));
        }
        let mut j: usize = 0;
        while j < f.basic_blocks.len()
            invariant
                j <= f.basic_blocks.len(),
                bs == block_models(f.basic_blocks@),
                bc == block_loop_counts(bs),
                sum(fc.take(i as int)) + sum(bc) <= usize::MAX,
                total == sum(fc.take(i as int)) + sum(bc.take(j as int)),
            decreases f.basic_blocks.len() - j,
        {
            let b = &f.basic_blocks[j];
            let ghost fl = loop_flags(bs, b@.name, b@.insts);
            proof {
                lemma_sum_prefix(bc, j as int);
                lemma_sum_prefix(bc, j as int + 1);
                assert(bs[j as int] == b@);
                assert(bc[j as int] == sum(fl));
            }
            let here = block_index(&f.basic_blocks, b.name.as_str());
            let mut k: usize = 0;
            while k < b.instructions.len()
                invariant
                    k <= b.instructions.len(),
                    bs == block_models(f.basic_blocks@),
                    fl == loop_flags(bs, b@.name, b@.insts),
                    here matches Some(h) ==> find_block(bs, b@.name) == Some(h as int),
                    here is None ==> find_block(bs, b@.name) is None,
                    sum(fc.take(i as int)) + sum(bc.take(j as int)) + sum(fl) <= usize::MAX,
                    total == sum(fc.take(i as int)) + sum(bc.take(j as int)) + sum(fl.take(k as int)),
                decreases b.instructions.len() - k,
            {
                proof {
                    lemma_sum_prefix(fl, k as int);
                    lemma_sum_prefix(fl, k as int + 1);
                }
                match &b.instructions[k] {
                    Instruction::Jump { label } => {
                        let target = block_index(&f.basic_blocks, label.as_str());
                        match (here, target) {
                            (Some(it), Some(tgt)) => {
                                if tgt < it {
                                    total = total + 1;
                                }
                            },
                            _ => {},
                        }
                    },
                    _ => {},
                }
                k = k + 1;
            }
            proof {
                assert(fl.take(k as int) =~= fl);
            }
            j = j + 1;
        }
        proof {
            assert(bc.take(j as int) =~= bc);
        }
        i = i + 1;
    }
    proof {
        assert(fc.take(i as int) =~= fc);
    }
    total
}

/// The shape of a module as `instructions_blocks_branches_stores_loops`, loops being jumps to
/// a block listed before the one that jumps.
pub fn compute_shape_hash(module: &Module) -> (r: String)
    requires
        instruction_total(module@) <= usize::MAX,
        block_total(module@) <= usize::MAX,
        branch_total(module@) <= usize::MAX,
        store_total(module@) <= usize::MAX,
        loop_total(module@) <= usize::MAX,
    ensures
        r@ == shape_hash(module@),
{
    let ic = module.instruction_count();
    let bc = module.block_count();
    let brc = module.branch_count();
    let sc = store_count(module);
    let lc = loop_count(module);
    let mut s = String::new();
    push_usize(&mut s, ic);
    push_str(&mut s, "_");
    push_usize(&mut s, bc);
    push_str(&mut s, "_");
    push_usize(&mut s, brc);
    push_str(&mut s, "_");
    push_usize(&mut s, sc);
    push_str(&mut s, "_");
    push_usize(&mut s, lc);
    proof {
        assert(s@ =~= shape_hash(module@));
    }
    s
}

/// The 32-bit integer a piece of text spells, as `str::parse::<i32>` reads it.
pub open spec fn parse_i32(s: Seq<char>) -> Option<i32> {
    match parse_i64(s) {
        Some(v) => if i32::MIN <= v <= i32::MAX {
            Some(v as i32)
        } else {
            None
        },
        None => None,
    }
}

/// The integers among `_`-separated pieces, in order, pieces that are not integers left out.
pub open spec fn hash_fields(pieces: Seq<Seq<char>>) -> Seq<i32>
    decreases pieces.len(),
{
    if pieces.len() == 0 {
        Seq::empty()
    } else {
        let rest = hash_fields(pieces.drop_last());
        match parse_i32(pieces.last()) {
            Some(v) => rest.push(v),
            None => rest,
        }
    }
}

/// Two counts are close: both 0, or they differ by at most a fifth of the larger magnitude.
pub open spec fn counts_close(a: int, b: int) -> bool {
    let da = if a >= 0 { a } else { -a };
    let db = if b >= 0 { b } else { -b };
    let mx = if da >= db { da } else { db };
    let diff = if a >= b { a - b } else { b - a };
    mx == 0 || 5 * diff <= mx
}

/// Two shape hashes are similar: each holds exactly five integer fields, and the fields at
/// the same place are close.
pub open spec fn shapes_similar(h1: Seq<char>, h2: Seq<char>) -> bool {
    let v1 = hash_fields(split_char(h1, '_'));
    let v2 = hash_fields(split_char(h2, '_'));
    &&& v1.len() == 5
    &&& v2.len() == 5
    &&& forall|i: int| 0 <= i < 5 ==> #[trigger] counts_close(v1[i] as int, v2[i] as int)
}

/// The integer fields of a shape hash.
fn fields_of(h: &str) -> (r: Vec<i32>)
    ensures
        r@ == hash_fields(split_char(h@, '_')),
{
    let cs = chars_of(h);
    let pieces = split_chars(cs.as_slice(), '_');
    let ghost ps = split_char(h@, '_');
    let mut out: Vec<i32> = Vec::new();
    let mut k: usize = 0;
    proof {
        assert(ps.take(0) =~= Seq::<Seq<char>>::empty());
    }
    while k < pieces.len()
        invariant
            k <= pieces.len(),
            pieces@.len() == ps.len(),
            ps == split_char(h@, '_'),
            forall|i: int| 0 <= i < pieces@.len() ==> #[trigger] pieces@[i]@ == ps[i],
            out@ == hash_fields(ps.take(k as int)),
        decreases pieces.len() - k,
    {
        proof {
            assert(ps.take(k + 1).drop_last() =~= ps.take(k as int));
            assert(ps.take(k + 1).last() == ps[k as int]);
        }
        match parse_i64_of(pieces[k].as_slice()) {
            Some(v) => {
                if -2147483648 <= v && v <= 2147483647 {
                    out.push(v as i32);
                }
            },
            None => {},
        }
        k = k + 1;
    }
    proof {
        assert(ps.take(ps.len() as int) =~= ps);
    }
    out
}

/// Whether two shape hashes describe similar modules: both hold five integer fields and each
/// pair of fields differs by at most a fifth of the larger magnitude.
pub fn shapes_are_similar(h1: &str, h2: &str) -> (r: bool)
    ensures
        r == shapes_similar(h1@, h2@),
{
    let v1 = fields_of(h1);
    let v2 = fields_of(h2);
    if v1.len() != 5 || v2.len() != 5 {
        return false;
    }
    let mut i: usize = 0;
    while i < 5
        invariant
            i <= 5,
            v1@.len() == 5,
            v2@.len() == 5,
            v1@ == hash_fields(split_char(h1@, '_')),
            v2@ == hash_fields(split_char(h2@, '_')),
            forall|k: int| 0 <= k < i ==> #[trigger] counts_close(v1@[k] as int, v2@[k] as int),
        decreases 5 - i,
    {
        let a = v1[i] as i64;
        let b = v2[i] as i64;
        let da = if a >= 0 { a } else { -a };
        let db = if b >= 0 { b } else { -b };
        let mx = if da >= db { da } else { db };
        let diff = if a >= b { a - b } else { b - a };
        if mx != 0 && 5 * diff > mx {
            proof {
                assert(!counts_close(v1@[i as int] as int, v2@[i as int] as int));
            }
            return false;
        }
        i = i + 1;
    }
    true
}

/// Magnitude of an integer.
pub open spec fn magnitude(x: int) -> int {
    if x >= 0 { x } else { -x }
}

/// Two shape hashes are similar exactly when each holds five integer fields and at every one
/// of the five places, the last (the loop count) included, five times the gap between the two
/// values is at most the larger of their magnitudes; similarity does not depend on the order of
/// the two hashes, and a hash of five fields is similar to itself.
pub proof fn law_similar_fields(h1: Seq<char>, h2: Seq<char>)
    ensures
        shapes_similar(h1, h2) <==> {
            let v1 = hash_fields(split_char(h1, '_'));
            let v2 = hash_fields(split_char(h2, '_'));
            &&& v1.len() == 5
            &&& v2.len() == 5
            &&& forall|i: int| 0 <= i < 5 ==> 5 * magnitude(#[trigger] v1[i] - v2[i])
                <= (if magnitude(v1[i] as int) >= magnitude(v2[i] as int) {
                magnitude(v1[i] as int)
            } else {
                magnitude(v2[i] as int)
            })
        },
        shapes_similar(h1, h2) == shapes_similar(h2, h1),
        hash_fields(split_char(h1, '_')).len() == 5 ==> shapes_similar(h1, h1),
{
    let v1 = hash_fields(split_char(h1, '_'));
    let v2 = hash_fields(split_char(h2, '_'));
    assert forall|i: int| 0 <= i < 5 implies (counts_close(v1[i] as int, v2[i] as int) <==> 5
        * magnitude(v1[i] - v2[i]) <= (if magnitude(v1[i] as int) >= magnitude(v2[i] as int) {
        magnitude(v1[i] as int)
    } else {
        magnitude(v2[i] as int)
    })) && (counts_close(v1[i] as int, v2[i] as int) <==> counts_close(v2[i] as int, v1[i] as int)) by {}
    assert forall|i: int| 0 <= i < 5 implies #[trigger] counts_close(v1[i] as int, v1[i] as int) by {}
}

} // verus!
