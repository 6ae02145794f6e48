use vstd::prelude::*;
pub use vstd::hash_map::StringHashMap;
use crate::ir::basic_block::{BasicBlock, BlockModel, inst_models};
use crate::ir::function::{Function, FunctionModel, block_models};
use crate::ir::value::{Inst, Instruction};
use crate::passes::{map_function, rewrite_function};

verus! {

/// A top-level store to a name with a given constant stores that constant instead.
pub open spec fn specialize_inst(i: Inst, constants: Map<Seq<char>, i64>) -> Inst {
    match i {
        Inst::Store { var_name, .. } => if constants.contains_key(var_name) {
            Inst::Store { var_name, value: Box::new(Inst::Constant { value: constants[var_name] }) }
        } else {
            i
        },
        _ => i,
    }
}

/// Specialisation with the given constants, instruction by instruction.
pub open spec fn specialize_map(constants: Map<Seq<char>, i64>) -> spec_fn(Inst) -> Inst {
    |i: Inst| specialize_inst(i, constants)
}

/// Whether specialisation with the given constants rewrites an instruction.
pub open spec fn specialize_changes(constants: Map<Seq<char>, i64>) -> spec_fn(Inst) -> bool {
    |i: Inst| i matches Inst::Store { var_name, .. } && constants.contains_key(var_name)
}

/// Specialises one top-level instruction.
fn specialize_value(inst: Instruction, constants: &StringHashMap<i64>) -> (r: (Instruction, bool))
    ensures
        r.0@ == specialize_inst(inst@, constants@),
        r.1 == specialize_changes(constants@)(inst@),
{
    match inst {
        Instruction::Store { var_name, value } => {
            let ghost key = var_name@;
            match constants.get(var_name.as_str()) {
                Some(c) => {
                    assert(constants@.contains_key(key) && constants@[key] == *c);
                    let cv = Instruction::Constant { value: *c };
                    assert(cv@ == Inst::Constant { value: *c });
                    let r = Instruction::Store { var_name, value: Box::new(cv) };
                    assert(r@ == Inst::Store { var_name: key, value: Box::new(Inst::Constant { value: *c }) });
                    (r, true)
                },
                None => (Instruction::Store { var_name, value }, false),
            }
        },
        other => (other, false),
    }
}

/// Substitution by coins in one instruction tree, reading coins from `pos` on: each variable
/// with a known value, met left to right inside operands, stored values, branch conditions
/// and returned values, takes the next coin and becomes that constant when the coin is
/// `true`; once the coins run out nothing more changes. The tree, the position after the
/// last coin taken, and whether anything changed.
pub open spec fn coin_subst(i: Inst, known: Map<Seq<char>, i64>, coins: Seq<bool>, pos: int) -> (
    Inst,
    int,
    bool,
)
    decreases i,
{
    match i {
        Inst::Variable { name } => if known.contains_key(name) && 0 <= pos < coins.len() {
            if coins[pos] {
                (Inst::Constant { value: known[name] }, pos + 1, true)
            } else {
                (i, pos + 1, false)
            }
        } else {
            (i, pos, false)
        },
        Inst::BinaryOp { op, lhs, rhs } => {
            let (l, p1, c1) = coin_subst(*lhs, known, coins, pos);
            let (r, p2, c2) = coin_subst(*rhs, known, coins, p1);
            (Inst::BinaryOp { op, lhs: Box::new(l), rhs: Box::new(r) }, p2, c1 || c2)
        },
        Inst::Compare { condition, lhs, rhs } => {
            let (l, p1, c1) = coin_subst(*lhs, known, coins, pos);
            let (r, p2, c2) = coin_subst(*rhs, known, coins, p1);
            (Inst::Compare { condition, lhs: Box::new(l), rhs: Box::new(r) }, p2, c1 || c2)
        },
        Inst::Store { var_name, value } => {
            let (v, p1, c1) = coin_subst(*value, known, coins, pos);
            (Inst::Store { var_name, value: Box::new(v) }, p1, c1)
        },
        Inst::Branch { condition, then_label, else_label } => {
            let (c, p1, c1) = coin_subst(*condition, known, coins, pos);
            (Inst::Branch { condition: Box::new(c), then_label, else_label }, p1, c1)
        },
        Inst::Return { value } => match value {
            Some(v) => {
                let (w, p1, c1) = coin_subst(*v, known, coins, pos);
                (Inst::Return { value: Some(Box::new(w)) }, p1, c1)
            },
            None => (i, pos, false),
        },
        _ => (i, pos, false),
    }
}

/// How many coins substitution in an instruction tree can take.
pub open spec fn coin_demand(i: Inst, known: Map<Seq<char>, i64>) -> nat
    decreases i,
{
    match i {
        Inst::Variable { name } => if known.contains_key(name) { 1 } else { 0 },
        Inst::BinaryOp { lhs, rhs, .. } | Inst::Compare { lhs, rhs, .. } => coin_demand(*lhs, known)
            + coin_demand(*rhs, known),
        Inst::Store { value, .. } => coin_demand(*value, known),
        Inst::Branch { condition, .. } => coin_demand(*condition, known),
        Inst::Return { value } => match value {
            Some(v) => coin_demand(*v, known),
            None => 0,
        },
        _ => 0,
    }
}

/// Substitution by coins through a list of instructions, in order.
pub open spec fn coin_subst_insts(s: Seq<Inst>, known: Map<Seq<char>, i64>, coins: Seq<bool>, pos: int) -> (
    Seq<Inst>,
    int,
)
    decreases s.len(),
{
    if s.len() == 0 {
        (s, pos)
    } else {
        let (a, p) = coin_subst_insts(s.drop_last(), known, coins, pos);
        let (x, p2, _) = coin_subst(s.last(), known, coins, p);
        (a.push(x), p2)
    }
}

/// Substitution by coins through the blocks of a function, in order.
pub open spec fn coin_subst_blocks(
    bs: Seq<BlockModel>,
    known: Map<Seq<char>, i64>,
    coins: Seq<bool>,
    pos: int,
) -> (Seq<BlockModel>, int)
    decreases bs.len(),
{
    if bs.len() == 0 {
        (bs, pos)
    } else {
        let (a, p) = coin_subst_blocks(bs.drop_last(), known, coins, pos);
        let (x, p2) = coin_subst_insts(bs.last().insts, known, coins, p);
        (a.push(BlockModel { name: bs.last().name, insts: x }), p2)
    }
}

/// How many coins a list of instructions can take.
pub open spec fn insts_demand(s: Seq<Inst>, known: Map<Seq<char>, i64>) -> nat
    decreases s.len(),
{
    if s.len() == 0 {
        0
    } else {
        insts_demand(s.drop_last(), known) + coin_demand(s.last(), known)
    }
}

/// How many coins the blocks of a function can take.
pub open spec fn blocks_demand(bs: Seq<BlockModel>, known: Map<Seq<char>, i64>) -> nat
    decreases bs.len(),
{
    if bs.len() == 0 {
        0
    } else {
        blocks_demand(bs.drop_last(), known) + insts_demand(bs.last().insts, known)
    }
}

/// The variant of a function that the given coins make: the function with each variable of
/// known value, in order, replaced by its value when its coin is `true`.
pub open spec fn variant_with_coins(f: FunctionModel, known: Map<Seq<char>, i64>, coins: Seq<bool>) -> FunctionModel {
    FunctionModel { blocks: coin_subst_blocks(f.blocks, known, coins, 0).0, ..f }
}

/// How many coins a variant of the function takes: one per variable of known value, at most
/// `usize::MAX`.
pub open spec fn function_coins(f: FunctionModel, known: Map<Seq<char>, i64>) -> nat {
    if blocks_demand(f.blocks, known) <= usize::MAX {
        blocks_demand(f.blocks, known)
    } else {
        usize::MAX as nat
    }
}

/// Whether `v` is a variant of `f` that some coins make, one per variable of known value.
pub open spec fn is_variant(f: FunctionModel, known: Map<Seq<char>, i64>, v: FunctionModel) -> bool {
    exists|coins: Seq<bool>| coins.len() == function_coins(f, known) && v == #[trigger] variant_with_coins(f, known, coins)
}

/// A fair coin: `rand::random::<bool>()`, drawn from the thread-local generator. Nothing is
/// claimed of the outcome.
#[verifier::external_body]
fn flip_coin() -> (r: bool) {
    rand::random::<bool>()
}

/// Substitution by coins in one instruction tree, reading coins from `pos` on.
fn substitute_by_coins(inst: &Instruction, known: &StringHashMap<i64>, coins: &[bool], pos: usize) -> (r: (
    Instruction,
    usize,
    bool,
))
    requires
        pos <= coins.len(),
    ensures
        (r.0@, r.1 as int, r.2) == coin_subst(inst@, known@, coins@, pos as int),
        r.1 <= coins.len(),
    decreases inst,
{
    match inst {
        Instruction::Variable { name } => {
            match known.get(name.as_str()) {
                Some(v) => {
                    if pos < coins.len() {
                        if coins[pos] {
                            (Instruction::Constant { value: *v }, pos + 1, true)
                        } else {
                            (inst.copy(), pos + 1, false)
                        }
                    } else {
                        (inst.copy(), pos, false)
                    }
                },
                None => (inst.copy(), pos, false),
            }
        },
        Instruction::BinaryOp { op, lhs, rhs } => {
            let (l, p1, c1) = substitute_by_coins(lhs, known, coins, pos);
            let (r, p2, c2) = substitute_by_coins(rhs, known, coins, p1);
            (Instruction::BinaryOp { op: *op, lhs: Box::new(l), rhs: Box::new(r) }, p2, c1 || c2)
        },
        Instruction::Compare { condition, lhs, rhs } => {
            let (l, p1, c1) = substitute_by_coins(lhs, known, coins, pos);
            let (r, p2, c2) = substitute_by_coins(rhs, known, coins, p1);
            (Instruction::Compare { condition: *condition, lhs: Box::new(l), rhs: Box::new(r) }, p2, c1 || c2)
        },
        Instruction::Store { var_name, value } => {
            let (v, p1, c1) = substitute_by_coins(value, known, coins, pos);
            (Instruction::Store { var_name: var_name.clone(), value: Box::new(v) }, p1, c1)
        },
        Instruction::Branch { condition, then_label, else_label } => {
            let (c, p1, c1) = substitute_by_coins(condition, known, coins, pos);
            (
                Instruction::Branch {
                    condition: Box::new(c),
                    then_label: then_label.clone(),
                    else_label: else_label.clone(),
                },
                p1,
                c1,
            )
        },
        Instruction::Return { value } => match value {
            Some(v) => {
                let (w, p1, c1) = substitute_by_coins(v, known, coins, pos);
                (Instruction::Return { value: Some(Box::new(w)) }, p1, c1)
            },
            None => (inst.copy(), pos, false),
        },
        _ => (inst.copy(), pos, false),
    }
}

/// How many coins substitution in an instruction tree can take, at most `usize::MAX`.
fn demand_of(inst: &Instruction, known: &StringHashMap<i64>) -> (r: usize)
    ensures
        r as int == if coin_demand(inst@, known@) <= usize::MAX { coin_demand(inst@, known@) as int } else { usize::MAX as int },
    decreases inst,
{
    match inst {
        Instruction::Variable { name } => if known.contains_key(name.as_str()) { 1 } else { 0 },
        Instruction::BinaryOp { lhs, rhs, .. } | Instruction::Compare { lhs, rhs, .. } => {
            demand_of(lhs, known).saturating_add(demand_of(rhs, known))
        },
        Instruction::Store { value, .. } => demand_of(value, known),
        Instruction::Branch { condition, .. } => demand_of(condition, known),
        Instruction::Return { value } => match value {
            Some(v) => demand_of(v, known),
            None => 0,
        },
        _ => 0,
    }
}

/// A coin per known variable, each applied in order: the variant of `func` these coins make.
pub fn apply_coins(func: &Function, known: &StringHashMap<i64>, coins: &[bool]) -> (r: Function)
    ensures
        r@ == variant_with_coins(func@, known@, coins@),
{
    let ghost bms = block_models(func.basic_blocks@);
    let mut blocks: Vec<BasicBlock> = Vec::new();
    let mut pos: usize = 0;
    let mut k: usize = 0;
    proof {
        assert(bms.take(0) =~= Seq::<BlockModel>::empty());
        assert(block_models(blocks@) =~= Seq::<BlockModel>::empty());
    }
    while k < func.basic_blocks.len()
        invariant
            k <= func.basic_blocks.len(),
            bms == block_models(func.basic_blocks@),
            pos <= coins.len(),
            (block_models(blocks@), pos as int) == coin_subst_blocks(bms.take(k as int), known@, coins@, 0),
        decreases func.basic_blocks.len() - k,
    {
        let b = &func.basic_blocks[k];
        let ghost ims = b@.insts;
        let ghost pos0 = pos as int;
        let mut insts: Vec<Instruction> = Vec::new();
        let mut j: usize = 0;
        proof {
            assert(ims.take(0) =~= Seq::<Inst>::empty());
            assert(inst_models(insts@) =~= Seq::<Inst>::empty());
        }
        while j < b.instructions.len()
            invariant
                j <= b.instructions.len(),
                ims == b@.insts,
                ims == inst_models(b.instructions@),
                pos <= coins.len(),
                (inst_models(insts@), pos as int) == coin_subst_insts(ims.take(j as int), known@, coins@, pos0),
            decreases b.instructions.len() - j,
        {
            let (x, p2, _) = substitute_by_coins(&b.instructions[j], known, coins, pos);
            let ghost before = insts@;
            let ghost xm = x@;
            insts.push(x);
            pos = p2;
            proof {
                assert(ims.take(j + 1).drop_last() =~= ims.take(j as int));
                assert(ims.take(j + 1).last() == ims[j as int]);
                assert(inst_models(insts@) =~= inst_models(before).push(xm));
            }
            j = j + 1;
        }
        proof {
            assert(ims.take(b.instructions.len() as int) =~= ims);
        }
        let nb = BasicBlock { name: b.name.clone(), instructions: insts };
        let ghost before = blocks@;
        let ghost nbm = nb@;
        blocks.push(nb);
        proof {
            assert(bms.take(k + 1).drop_last() =~= bms.take(k as int));
            assert(bms.take(k + 1).last() == bms[k as int]);
            assert(block_models(blocks@) =~= block_models(before).push(nbm));
        }
        k = k + 1;
    }
    proof {
        assert(bms.take(func.basic_blocks.len() as int) =~= bms);
    }
    let mut r = func.copy();
    r.basic_blocks = blocks;
    r
}

/// How many coins the function can take, at most `usize::MAX`.
pub fn function_demand(func: &Function, known: &StringHashMap<i64>) -> (r: usize)
    ensures
        r as int == if blocks_demand(func@.blocks, known@) <= usize::MAX {
            blocks_demand(func@.blocks, known@) as int
        } else {
            usize::MAX as int
        },
{
    let ghost bms = block_models(func.basic_blocks@);
    let mut total: usize = 0;
    let mut k: usize = 0;
    proof {
        assert(bms.take(0) =~= Seq::<BlockModel>::empty());
    }
    while k < func.basic_blocks.len()
        invariant
            k <= func.basic_blocks.len(),
            bms == block_models(func.basic_blocks@),
            total as int == if blocks_demand(bms.take(k as int), known@) <= usize::MAX {
                blocks_demand(bms.take(k as int), known@) as int
            } else {
                usize::MAX as int
            },
        decreases func.basic_blocks.len() - k,
    {
        let b = &func.basic_blocks[k];
        let ghost ims = b@.insts;
        let mut sub: usize = 0;
        let mut j: usize = 0;
        proof {
            assert(ims.take(0) =~= Seq::<Inst>::empty());
        }
        while j < b.instructions.len()
            invariant
                j <= b.instructions.len(),
                ims == inst_models(b.instructions@),
                sub as int == if insts_demand(ims.take(j as int), known@) <= usize::MAX {
                    insts_demand(ims.take(j as int), known@) as int
                } else {
                    usize::MAX as int
                },
            decreases b.instructions.len() - j,
        {
            sub = sub.saturating_add(demand_of(&b.instructions[j], known));
            proof {
                assert(ims.take(j + 1).drop_last() =~= ims.take(j as int));
                assert(ims.take(j + 1).last() == ims[j as int]);
            }
            j = j + 1;
        }
        proof {
            assert(ims.take(b.instructions.len() as int) =~= ims);
        }
        total = total.saturating_add(sub);
        proof {
            assert(bms.take(k + 1).drop_last() =~= bms.take(k as int));
            assert(bms.take(k + 1).last() == bms[k as int]);
        }
        k = k + 1;
    }
    proof {
        assert(bms.take(func.basic_blocks.len() as int) =~= bms);
    }
    total
}

/// Makes specialised copies of functions.
pub struct IRGenerator;

impl IRGenerator {
    /// A copy of the function in which every top-level store to a name with a given constant
    /// stores that constant.
    pub fn specialize_function(func: &Function, constants: &StringHashMap<i64>) -> (r: Function)
        ensures
            r@ == map_function(func@, specialize_map(constants@)),
    {
        let mut specialized = func.copy();
        let step = |i: Instruction| -> (r: (Instruction, bool))
            ensures
                r.0@ == specialize_map(constants@)(i@),
                r.1 == specialize_changes(constants@)(i@),
            { specialize_value(i, constants) };
        rewrite_function(
            &mut specialized,
            &step,
            Ghost(specialize_map(constants@)),
            Ghost(specialize_changes(constants@)),
        );
        specialized
    }

    /// `count` variants of the function, each with every variable of known value (inside
    /// operands, stored values, branch conditions and returned values) replaced by its value
    /// or not, by a fair coin. Every variant is what `apply_coins` makes from some coins, one
    /// per such variable.
    pub fn generate_variants(func: &Function, known_values: &StringHashMap<i64>, count: usize) -> (r: Vec<Function>)
        ensures
            r@.len() == count,
            forall|k: int| 0 <= k < count ==> is_variant(func@, known_values@, #[trigger] r@[k]@),
    {
        let demand = function_demand(func, known_values);
        let mut variants: Vec<Function> = Vec::new();
        let mut k: usize = 0;
        while k < count
            invariant
                k <= count,
                variants@.len() == k,
                demand == function_coins(func@, known_values@),
                forall|i: int| 0 <= i < k ==> is_variant(func@, known_values@, #[trigger] variants@[i]@),
            decreases count - k,
        {
            let mut coins: Vec<bool> = Vec::new();
            let mut c: usize = 0;
            while c < demand
                invariant
                    c <= demand,
                    coins@.len() == c,
                decreases demand - c,
            {
                coins.push(flip_coin());
                c = c + 1;
            }
            let v = apply_coins(func, known_values, coins.as_slice());
            let ghost cs = coins@;
            variants.push(v);
            proof {
                assert(variants@[k as int]@ == variant_with_coins(func@, known_values@, cs));
                assert(is_variant(func@, known_values@, variants@[k as int]@));
            }
            k = k + 1;
        }
        variants
    }
}

} // verus!
