use vstd::prelude::*;
use vstd::hash_map::StringHashMap;
use crate::interpreter::{inst_size, lemma_list_size_elem, list_size};
use crate::ir::basic_block::{BasicBlock, BlockModel};
use crate::ir::function::{Function, FunctionModel};
use crate::ir::module::{Module, ModuleModel, block_sizes, function_sizes, instruction_total};
use crate::ir::value::{
    BinaryOp, Inst, Instruction, arg_models, display_text, lemma_arg_models, op_text,
};
use crate::passes::{
    Pass, PassDescriptor, PassError, PassSafety, any_block, any_function, map_blocks,
    map_functions, params_by_name, rewrite_blocks, rewrite_functions,
};
use crate::text::{push_str, str_eq};
use crate::chars::{chars_of, split_char, split_chars, string_from};
use crate::passes::dead_code_elimination::used_vars;

verus! {

broadcast use vstd::std_specs::vec::group_vec_axioms;

/// Whether an operand is a plain variable or constant.
pub open spec fn simple(i: Inst) -> bool {
    i is Variable || i is Constant
}

/// The key under which `lhs op rhs` is remembered: the operator and both operands as text,
/// separated by `|`.
pub open spec fn signature(op: BinaryOp, lhs: Inst, rhs: Inst) -> Seq<char> {
    op_text(op) + "|"@ + display_text(lhs) + "|"@ + display_text(rhs)
}

/// Bottom-up replacement of every arithmetic node on two simple operands whose signature is
/// known by the variable that holds it; whether anything was replaced.
pub open spec fn cse_tree(i: Inst, known: Map<Seq<char>, Seq<char>>) -> (Inst, bool)
    decreases i,
{
    match i {
        Inst::BinaryOp { op, lhs, rhs } => {
            let (l, cl) = cse_tree(*lhs, known);
            let (r, cr) = cse_tree(*rhs, known);
            if simple(l) && simple(r) && known.contains_key(signature(op, l, r)) {
                (Inst::Variable { name: known[signature(op, l, r)] }, true)
            } else {
                (Inst::BinaryOp { op, lhs: Box::new(l), rhs: Box::new(r) }, cl || cr)
            }
        },
        Inst::Store { var_name, value } => {
            let (v, c) = cse_tree(*value, known);
            (Inst::Store { var_name, value: Box::new(v) }, c)
        },
        Inst::Compare { condition, lhs, rhs } => {
            let (l, cl) = cse_tree(*lhs, known);
            let (r, cr) = cse_tree(*rhs, known);
            (Inst::Compare { condition, lhs: Box::new(l), rhs: Box::new(r) }, cl || cr)
        },
        Inst::Branch { condition, then_label, else_label } => {
            let (c, cc) = cse_tree(*condition, known);
            (Inst::Branch { condition: Box::new(c), then_label, else_label }, cc)
        },
        Inst::Return { value } => match value {
            Some(v) => {
                let (w, c) = cse_tree(*v, known);
                (Inst::Return { value: Some(Box::new(w)) }, c)
            },
            None => (i, false),
        },
        Inst::Call { function_name, args } => {
            let (a, c) = cse_list(args, known);
            (Inst::Call { function_name, args: a }, c)
        },
        Inst::GetElementPtr { base, index } => {
            let (b, cb) = cse_tree(*base, known);
            let (x, cx) = cse_tree(*index, known);
            (Inst::GetElementPtr { base: Box::new(b), index: Box::new(x) }, cb || cx)
        },
        Inst::LoadPtr { ptr } => {
            let (p, c) = cse_tree(*ptr, known);
            (Inst::LoadPtr { ptr: Box::new(p) }, c)
        },
        Inst::StorePtr { ptr, value } => {
            let (p, cp) = cse_tree(*ptr, known);
            let (v, cv) = cse_tree(*value, known);
            (Inst::StorePtr { ptr: Box::new(p), value: Box::new(v) }, cp || cv)
        },
        _ => (i, false),
    }
}

/// `cse_tree` on each tree of a list; whether any changed.
pub open spec fn cse_list(s: Seq<Inst>, known: Map<Seq<char>, Seq<char>>) -> (Seq<Inst>, bool)
    decreases s,
{
    if s.len() == 0 {
        (Seq::empty(), false)
    } else {
        let (h, ch) = cse_tree(s[0], known);
        let (t, ct) = cse_list(s.drop_first(), known);
        (seq![h] + t, ch || ct)
    }
}

/// `cse_list` works element by element.
pub proof fn lemma_cse_list(s: Seq<Inst>, known: Map<Seq<char>, Seq<char>>)
    ensures
        cse_list(s, known).0.len() == s.len(),
        forall|k: int| 0 <= k < s.len() ==> #[trigger] cse_list(s, known).0[k] == cse_tree(s[k], known).0,
        cse_list(s, known).1 == exists|k: int| 0 <= k < s.len() && #[trigger] cse_tree(s[k], known).1,
    decreases s.len(),
{
    if s.len() > 0 {
        lemma_cse_list(s.drop_first(), known);
        assert forall|k: int| 0 < k < s.len() implies #[trigger] s[k] == s.drop_first()[k - 1] by {}
        if cse_list(s, known).1 {
            if !cse_tree(s[0], known).1 {
                let k = choose|k: int|
                    0 <= k < s.len() - 1 && #[trigger] cse_tree(s.drop_first()[k], known).1;
                assert(cse_tree(s[k + 1], known).1);
            }
        }
        if exists|k: int| 0 <= k < s.len() && #[trigger] cse_tree(s[k], known).1 {
            let k = choose|k: int| 0 <= k < s.len() && #[trigger] cse_tree(s[k], known).1;
            if k > 0 {
                assert(cse_tree(s.drop_first()[k - 1], known).1);
            }
        }
    }
}

/// Whether a signature names the variable `y` among its operands: one of its `|`-separated
/// pieces is `var y`.
pub open spec fn sig_reads(sig: Seq<char>, y: Seq<char>) -> bool {
    split_char(sig, '|').contains("var "@ + y)
}

/// What stays known once the variable `y` is assigned: every remembered arithmetic held in
/// `y` or reading `y` is forgotten.
pub open spec fn forget(known: Map<Seq<char>, Seq<char>>, y: Seq<char>) -> Map<Seq<char>, Seq<char>> {
    known.restrict(Set::new(|sig: Seq<char>| known.contains_key(sig) && known[sig] != y && !sig_reads(sig, y)))
}

/// The variable a top-level instruction assigns, if any.
pub open spec fn assigned(i: Inst) -> Option<Seq<char>> {
    match i {
        Inst::Store { var_name, .. } => Some(var_name),
        Inst::AllocaArray { name, .. } => Some(name),
        _ => None,
    }
}

/// After an instruction: whatever it assigns invalidates what was remembered from that
/// variable; then a store of arithmetic on two simple operands that do not read the stored
/// variable makes its signature known under that variable, unless the signature is known
/// already.
pub open spec fn remember(known: Map<Seq<char>, Seq<char>>, i: Inst) -> Map<Seq<char>, Seq<char>> {
    let kept = match assigned(i) {
        Some(y) => forget(known, y),
        None => known,
    };
    match i {
        Inst::Store { var_name, value } => match *value {
            Inst::BinaryOp { op, lhs, rhs } => if simple(*lhs) && simple(*rhs) && !kept.contains_key(
                signature(op, *lhs, *rhs),
            ) && !used_vars(*lhs).contains(var_name) && !used_vars(*rhs).contains(var_name) {
                kept.insert(signature(op, *lhs, *rhs), var_name)
            } else {
                kept
            },
            _ => kept,
        },
        _ => kept,
    }
}

/// The instructions of a block, from the first on, each rewritten against what the earlier
/// ones made known; whether any changed.
pub open spec fn cse_scan(s: Seq<Inst>, known: Map<Seq<char>, Seq<char>>) -> (Seq<Inst>, bool)
    decreases s.len(),
{
    if s.len() == 0 {
        (s, false)
    } else {
        let (h, ch) = cse_tree(s[0], known);
        let (t, ct) = cse_scan(s.drop_first(), remember(known, h));
        (seq![h] + t, ch || ct)
    }
}

/// A block after elimination, starting with nothing known.
pub open spec fn cse_block(b: BlockModel) -> BlockModel {
    BlockModel { name: b.name, insts: cse_scan(b.insts, Map::empty()).0 }
}

/// Elimination for every block.
pub open spec fn cse_block_map() -> spec_fn(BlockModel) -> BlockModel {
    |b: BlockModel| cse_block(b)
}

/// Whether elimination changes a block.
pub open spec fn cse_block_changes() -> spec_fn(BlockModel) -> bool {
    |b: BlockModel| cse_scan(b.insts, Map::empty()).1
}

/// Elimination for every block of a function.
pub open spec fn cse_function_map() -> spec_fn(FunctionModel) -> FunctionModel {
    |f: FunctionModel| map_blocks(f, cse_block_map())
}

/// Whether elimination changes a function.
pub open spec fn cse_function_changes() -> spec_fn(FunctionModel) -> bool {
    |f: FunctionModel| any_block(f, cse_block_changes())
}

/// A module after elimination, and whether anything changed.
pub open spec fn cse_module(m: ModuleModel) -> (ModuleModel, bool) {
    (map_functions(m, cse_function_map()), any_function(m, cse_function_changes()))
}

/// Elimination reports a change in a tree exactly when it changed the tree.
pub proof fn lemma_cse_tree_honest(i: Inst, known: Map<Seq<char>, Seq<char>>)
    ensures
        cse_tree(i, known).1 == (cse_tree(i, known).0 != i),
    decreases i,
{
    match i {
        Inst::BinaryOp { op, lhs, rhs } => {
            lemma_cse_tree_honest(*lhs, known);
            lemma_cse_tree_honest(*rhs, known);
        },
        Inst::Store { value, .. } => {
            lemma_cse_tree_honest(*value, known);
        },
        Inst::Compare { lhs, rhs, .. } => {
            lemma_cse_tree_honest(*lhs, known);
            lemma_cse_tree_honest(*rhs, known);
        },
        Inst::Branch { condition, .. } => {
            lemma_cse_tree_honest(*condition, known);
        },
        Inst::Return { value } => match value {
            Some(v) => {
                lemma_cse_tree_honest(*v, known);
            },
            None => {},
        },
        Inst::Call { args, .. } => {
            lemma_cse_list_honest(args, known);
        },
        Inst::GetElementPtr { base, index } => {
            lemma_cse_tree_honest(*base, known);
            lemma_cse_tree_honest(*index, known);
        },
        Inst::LoadPtr { ptr } => {
            lemma_cse_tree_honest(*ptr, known);
        },
        Inst::StorePtr { ptr, value } => {
            lemma_cse_tree_honest(*ptr, known);
            lemma_cse_tree_honest(*value, known);
        },
        _ => {},
    }
}

/// Elimination reports a change in a list exactly when it changed the list.
pub proof fn lemma_cse_list_honest(s: Seq<Inst>, known: Map<Seq<char>, Seq<char>>)
    ensures
        cse_list(s, known).1 == (cse_list(s, known).0 != s),
    decreases s,
{
    if s.len() > 0 {
        lemma_cse_tree_honest(s[0], known);
        lemma_cse_list_honest(s.drop_first(), known);
        let (h, ch) = cse_tree(s[0], known);
        let (t, ct) = cse_list(s.drop_first(), known);
        let r = seq![h] + t;
        if r == s {
            assert(r[0] == h);
            assert(t =~= r.drop_first());
            assert(s.drop_first() =~= r.drop_first());
        }
        if !ch && !ct {
            assert(r =~= s);
        }
    } else {
        assert(cse_list(s, known).0 =~= s);
    }
}

/// Elimination reports a change in a block's instructions exactly when it changed them.
pub proof fn lemma_cse_scan_honest(s: Seq<Inst>, known: Map<Seq<char>, Seq<char>>)
    ensures
        cse_scan(s, known).1 == (cse_scan(s, known).0 != s),
    decreases s.len(),
{
    if s.len() > 0 {
        let (h, ch) = cse_tree(s[0], known);
        lemma_cse_tree_honest(s[0], known);
        lemma_cse_scan_honest(s.drop_first(), remember(known, h));
        let (t, ct) = cse_scan(s.drop_first(), remember(known, h));
        let r = seq![h] + t;
        if r == s {
            assert(r[0] == h);
            assert(t =~= r.drop_first());
            assert(s.drop_first() =~= r.drop_first());
        }
        if !ch && !ct {
            assert(r =~= s);
        }
    }
}

/// Common subexpression elimination reports a change exactly when it changed the module.
pub proof fn law_cse_flag_honest(m: ModuleModel)
    ensures
        cse_module(m).1 == (cse_module(m).0 != m),
{
    let m1 = cse_module(m).0;
    assert forall|k: int, bi: int|
        0 <= k < m.functions.len() && 0 <= bi < m.functions[k].blocks.len()
        implies #[trigger] m1.functions[k].blocks[bi] == cse_block(m.functions[k].blocks[bi]) by {
        assert(m1.functions[k] == map_blocks(m.functions[k], cse_block_map()));
    }
    if cse_module(m).1 {
        let k = choose|k: int| 0 <= k < m.functions.len() && #[trigger] cse_function_changes()(m.functions[k]);
        let bi = choose|bi: int| 0 <= bi < m.functions[k].blocks.len() && #[trigger] cse_block_changes()(m.functions[k].blocks[bi]);
        let b = m.functions[k].blocks[bi];
        lemma_cse_scan_honest(b.insts, Map::empty());
        assert(m1.functions[k].blocks[bi].insts != b.insts);
        assert(m1.functions[k].blocks[bi] != b);
    } else {
        assert forall|k: int| 0 <= k < m.functions.len() implies #[trigger] m1.functions[k] == m.functions[k] by {
            let f = m.functions[k];
            assert(!cse_function_changes()(f));
            assert(m1.functions[k] == map_blocks(f, cse_block_map()));
            assert forall|bi: int| 0 <= bi < f.blocks.len() implies #[trigger] m1.functions[k].blocks[bi] == f.blocks[bi] by {
                assert(!cse_block_changes()(f.blocks[bi]));
                lemma_cse_scan_honest(f.blocks[bi].insts, Map::empty());
            }
            assert(m1.functions[k].blocks =~= f.blocks);
        }
        assert(m1.functions =~= m.functions);
    }
}

/// A block keeps as many instructions as it had.
pub proof fn lemma_cse_scan_len(s: Seq<Inst>, known: Map<Seq<char>, Seq<char>>)
    ensures
        cse_scan(s, known).0.len() == s.len(),
    decreases s.len(),
{
    if s.len() > 0 {
        lemma_cse_scan_len(s.drop_first(), remember(known, cse_tree(s[0], known).0));
    }
}

/// Common subexpression elimination only rewrites inside instructions: every function keeps
/// its blocks, every block its name and its number of instructions, so the module's
/// instruction count never grows.
pub proof fn law_cse_keeps_instruction_count(m: ModuleModel)
    ensures
        cse_module(m).0.functions.len() == m.functions.len(),
        forall|i: int| 0 <= i < m.functions.len() ==> #[trigger] cse_module(m).0.functions[i].blocks.len()
            == m.functions[i].blocks.len(),
        forall|i: int, j: int|
            0 <= i < m.functions.len() && 0 <= j < m.functions[i].blocks.len() ==> {
                let b = #[trigger] cse_module(m).0.functions[i].blocks[j];
                b.name == m.functions[i].blocks[j].name && b.insts.len()
                    == m.functions[i].blocks[j].insts.len()
            },
        instruction_total(cse_module(m).0) == instruction_total(m),
{
    let m2 = cse_module(m).0;
    assert forall|i: int| 0 <= i < m.functions.len() implies #[trigger] function_sizes(m2.functions)[i]
        == function_sizes(m.functions)[i] by {
        let f = m.functions[i];
        let f2 = m2.functions[i];
        assert forall|j: int| 0 <= j < f.blocks.len() implies #[trigger] block_sizes(f2.blocks)[j]
            == block_sizes(f.blocks)[j] by {
            lemma_cse_scan_len(f.blocks[j].insts, Map::empty());
        }
        assert(block_sizes(f2.blocks) =~= block_sizes(f.blocks));
    }
    assert(function_sizes(m2.functions) =~= function_sizes(m.functions));
    assert forall|i: int, j: int|
        0 <= i < m.functions.len() && 0 <= j < m.functions[i].blocks.len() implies {
            let b = #[trigger] m2.functions[i].blocks[j];
            b.name == m.functions[i].blocks[j].name && b.insts.len()
                == m.functions[i].blocks[j].insts.len()
        } by {
        lemma_cse_scan_len(m.functions[i].blocks[j].insts, Map::empty());
    }
}

/// The names a map of strings holds, by their characters.
pub open spec fn names_of(m: Map<Seq<char>, String>) -> Map<Seq<char>, Seq<char>> {
    m.map_values(|s: String| s@)
}

/// Rewrites an instruction tree given by value against the known signatures.
fn cse_value(inst: Instruction, known: &StringHashMap<String>) -> (r: (Instruction, bool))
    ensures
        (r.0@, r.1) == cse_tree(inst@, names_of(known@)),
    decreases inst_size(inst@),
{
    let ghost whole = inst;
    match inst {
        Instruction::BinaryOp { op, lhs, rhs } => {
            let (l, cl) = cse_value(*lhs, known);
            let (r, cr) = cse_value(*rhs, known);
            if CsePass::is_simple(&l) && CsePass::is_simple(&r) {
                let sig = CsePass::signature(op.display(), &l, &r);
                match known.get(sig.as_str()) {
                    Some(existing) => {
                        return (Instruction::Variable { name: existing.clone() }, true);
                    },
                    None => {},
                }
            }
            (Instruction::BinaryOp { op, lhs: Box::new(l), rhs: Box::new(r) }, cl || cr)
        },
        Instruction::Store { var_name, value } => {
            let (v, c) = cse_value(*value, known);
            (Instruction::Store { var_name, value: Box::new(v) }, c)
        },
        Instruction::Compare { condition, lhs, rhs } => {
            let (l, cl) = cse_value(*lhs, known);
            let (r, cr) = cse_value(*rhs, known);
            (Instruction::Compare { condition, lhs: Box::new(l), rhs: Box::new(r) }, cl || cr)
        },
        Instruction::Branch { condition, then_label, else_label } => {
            let (c, cc) = cse_value(*condition, known);
            (Instruction::Branch { condition: Box::new(c), then_label, else_label }, cc)
        },
        Instruction::Return { value } => match value {
            Some(v) => {
                let (w, c) = cse_value(*v, known);
                (Instruction::Return { value: Some(Box::new(w)) }, c)
            },
            None => (Instruction::Return { value: None }, false),
        },
        Instruction::Call { function_name, args } => {
            let ghost orig = args@;
            proof {
                lemma_arg_models(orig);
                lemma_cse_list(arg_models(orig), names_of(known@));
            }
            let mut rest = args;
            let mut out: Vec<Box<Instruction>> = Vec::new();
            let mut changed = false;
            let ghost mut i: int = 0;
            proof {
                assert(orig.skip(0) =~= orig);
            }
            while rest.len() > 0
                invariant
                    0 <= i <= orig.len(),
                    rest@ == orig.skip(i),
                    out@.len() == i,
                    whole == (Instruction::Call { function_name: whole->function_name, args: whole->args }),
                    whole == inst,
                    whole->args@ == orig,
                    arg_models(orig).len() == orig.len(),
                    forall|k: int| 0 <= k < orig.len() ==> #[trigger] arg_models(orig)[k] == orig[k].model(),
                    cse_list(arg_models(orig), names_of(known@)).0.len() == orig.len(),
                    forall|k: int| 0 <= k < orig.len() ==> #[trigger] cse_list(arg_models(orig), names_of(known@)).0[k]
                        == cse_tree(arg_models(orig)[k], names_of(known@)).0,
                    cse_list(arg_models(orig), names_of(known@)).1 == exists|k: int|
                        0 <= k < orig.len() && #[trigger] cse_tree(arg_models(orig)[k], names_of(known@)).1,
                    forall|k: int| 0 <= k < i ==> #[trigger] out@[k].model() == cse_tree(orig[k].model(), names_of(known@)).0,
                    changed == exists|k: int| 0 <= k < i && #[trigger] cse_tree(arg_models(orig)[k], names_of(known@)).1,
                decreases rest.len(),
            {
                let a = rest.remove(0);
                proof {
                    assert(a == orig[i]);
                    lemma_list_size_elem(arg_models(orig), i);
                    assert(inst_size(whole@) == 1 + list_size(arg_models(orig)));
                    assert(orig.skip(i + 1) =~= orig.skip(i).drop_first());
                }
                let (x, c) = cse_value(*a, known);
                out.push(Box::new(x));
                assert(c == cse_tree(arg_models(orig)[i], names_of(known@)).1);
                changed = changed || c;
                proof {
                    i = i + 1;
                }
            }
            proof {
                lemma_arg_models(out@);
                assert(arg_models(out@) =~= cse_list(arg_models(orig), names_of(known@)).0);
            }
            (Instruction::Call { function_name, args: out }, changed)
        },
        Instruction::GetElementPtr { base, index } => {
            let (b, cb) = cse_value(*base, known);
            let (x, cx) = cse_value(*index, known);
            (Instruction::GetElementPtr { base: Box::new(b), index: Box::new(x) }, cb || cx)
        },
        Instruction::LoadPtr { ptr } => {
            let (p, c) = cse_value(*ptr, known);
            (Instruction::LoadPtr { ptr: Box::new(p) }, c)
        },
        Instruction::StorePtr { ptr, value } => {
            let (p, cp) = cse_value(*ptr, known);
            let (v, cv) = cse_value(*value, known);
            (Instruction::StorePtr { ptr: Box::new(p), value: Box::new(v) }, cp || cv)
        },
        other => (other, false),
    }
}

/// Whether a signature names the variable `y` among its operands.
fn sig_reads_exec(sig: &str, y: &str) -> (r: bool)
    ensures
        r == sig_reads(sig@, y@),
{
    let cs = chars_of(sig);
    let pieces = split_chars(cs.as_slice(), '|');
    let mut target = String::new();
    push_str(&mut target, "var ");
    push_str(&mut target, y);
    let mut j: usize = 0;
    while j < pieces.len()
        invariant
            j <= pieces.len(),
            pieces@.len() == split_char(sig@, '|').len(),
            forall|i: int| 0 <= i < pieces@.len() ==> #[trigger] pieces@[i]@ == split_char(sig@, '|')[i],
            target@ == "var "@ + y@,
            forall|i: int| 0 <= i < j ==> split_char(sig@, '|')[i] != target@,
        decreases pieces.len() - j,
    {
        let piece = string_from(pieces[j].as_slice());
        if str_eq(piece.as_str(), target.as_str()) {
            assert(split_char(sig@, '|')[j as int] == "var "@ + y@);
            return true;
        }
        j = j + 1;
    }
    assert(!split_char(sig@, '|').contains("var "@ + y@));
    false
}

/// Whether a simple operand reads the variable `y`.
fn reads_name(i: &Instruction, y: &String) -> (r: bool)
    requires
        simple(i@),
    ensures
        r == used_vars(i@).contains(y@),
{
    match i {
        Instruction::Variable { name } => {
            assert(used_vars(i@) =~= set![name@]);
            *name == *y
        },
        _ => false,
    }
}

/// Whether one of the first `n` signatures listed is `k`.
pub open spec fn listed(sigs: Seq<String>, n: int, k: Seq<char>) -> bool {
    exists|j: int| 0 <= j < n && #[trigger] sigs[j]@ == k
}

/// Forgets every remembered arithmetic held in `y` or reading `y`; `sigs` lists every
/// remembered signature.
fn forget_var(known: &mut StringHashMap<String>, sigs: &Vec<String>, y: &String)
    requires
        forall|k: Seq<char>| #[trigger] old(known)@.contains_key(k) ==> listed(sigs@, sigs@.len() as int, k),
    ensures
        names_of(final(known)@) == forget(names_of(old(known)@), y@),
        forall|k: Seq<char>| #[trigger] final(known)@.contains_key(k) ==> old(known)@.contains_key(k),
{
    let ghost start = old(known)@;
    let ghost st = names_of(start);
    let mut i: usize = 0;
    while i < sigs.len()
        invariant
            i <= sigs.len(),
            start == old(known)@,
            st == names_of(start),
            forall|k: Seq<char>| #[trigger] start.contains_key(k) ==> listed(sigs@, sigs@.len() as int, k),
            forall|k: Seq<char>| #[trigger] known@.contains_key(k) == (start.contains_key(k) && !(listed(sigs@, i as int, k)
                && (start[k]@ == y@ || sig_reads(k, y@)))),
            forall|k: Seq<char>| #[trigger] known@.contains_key(k) ==> known@[k] == start[k],
        decreases sigs.len() - i,
    {
        let s = &sigs[i];
        let ghost before = known@;
        let drop = match known.get(s.as_str()) {
            Some(v) => *v == *y || sig_reads_exec(s.as_str(), y.as_str()),
            None => false,
        };
        if drop {
            known.remove(s.as_str());
        }
        proof {
            assert forall|k: Seq<char>| #[trigger] known@.contains_key(k) == (start.contains_key(k) && !(listed(sigs@, i + 1, k)
                && (start[k]@ == y@ || sig_reads(k, y@)))) by {
                if k == s@ {
                    assert(sigs@[i as int]@ == k);
                } else {
                    if listed(sigs@, i + 1, k) {
                        let j = choose|j: int| 0 <= j < i + 1 && #[trigger] sigs@[j]@ == k;
                        assert(j < i);
                        assert(listed(sigs@, i as int, k));
                    }
                    if listed(sigs@, i as int, k) {
                        let j = choose|j: int| 0 <= j < i && #[trigger] sigs@[j]@ == k;
                        assert(listed(sigs@, i + 1, k));
                    }
                }
            }
        }
        i = i + 1;
    }
    proof {
        assert(names_of(known@) =~= forget(st, y@));
    }
}

/// What an instruction makes known, as `remember` says; `sigs` lists every remembered
/// signature and keeps doing so.
fn remember_store(inst: &Instruction, known: &mut StringHashMap<String>, sigs: &mut Vec<String>)
    requires
        forall|k: Seq<char>| #[trigger] old(known)@.contains_key(k) ==> listed(old(sigs)@, old(sigs)@.len() as int, k),
    ensures
        names_of(final(known)@) == remember(names_of(old(known)@), inst@),
        forall|k: Seq<char>| #[trigger] final(known)@.contains_key(k) ==> listed(final(sigs)@, final(sigs)@.len() as int, k),
{
    match inst {
        Instruction::Store { var_name, value } => {
            forget_var(known, sigs, var_name);
            match &**value {
                Instruction::BinaryOp { op, lhs, rhs } => {
                    assert((**value)@ == Inst::BinaryOp { op: *op, lhs: Box::new((**lhs)@), rhs: Box::new((**rhs)@) });
                    if CsePass::is_simple(lhs) && CsePass::is_simple(rhs) && !reads_name(lhs, var_name) && !reads_name(rhs, var_name) {
                        let sig = CsePass::signature(op.display(), lhs, rhs);
                        if !known.contains_key(sig.as_str()) {
                            let ghost before = known@;
                            let ghost bsigs = sigs@;
                            known.insert(sig.clone(), var_name.clone());
                            sigs.push(sig);
                            assert(names_of(known@) =~= names_of(before).insert(
                                signature(*op, (**lhs)@, (**rhs)@),
                                var_name@,
                            ));
                            assert forall|k: Seq<char>| #[trigger] known@.contains_key(k) implies listed(sigs@, sigs@.len() as int, k) by {
                                if k == signature(*op, (**lhs)@, (**rhs)@) {
                                    assert(sigs@[sigs@.len() - 1]@ == k);
                                } else {
                                    assert(before.contains_key(k));
                                    let i = choose|i: int| 0 <= i < bsigs.len() && #[trigger] bsigs[i]@ == k;
                                    assert(sigs@[i] == bsigs[i]);
                                }
                            }
                        }
                    }
                },
                _ => {},
            }
        },
        Instruction::AllocaArray { name, .. } => {
            forget_var(known, sigs, name);
        },
        _ => {},
    }
}

/// Rewrites the instructions of a block in order, each against what the earlier ones made
/// known; whether anything changed.
fn cse_block_exec(b: BasicBlock) -> (r: (BasicBlock, bool))
    ensures
        r.0@ == cse_block_map()(b@),
        r.1 == cse_block_changes()(b@),
{
    let ghost ms = b@.insts;
    let ghost goal = cse_scan(ms, Map::empty());
    let BasicBlock { name, instructions } = b;
    let mut rest = instructions;
    let mut out: Vec<Instruction> = Vec::new();
    let mut known: StringHashMap<String> = StringHashMap::new();
    let mut sigs: Vec<String> = Vec::new();
    let mut changed = false;
    let ghost mut k: int = 0;
    proof {
        assert(ms.skip(0) =~= ms);
        assert(names_of(known@) =~= Map::<Seq<char>, Seq<char>>::empty());
        assert(crate::ir::basic_block::inst_models(out@) + cse_scan(ms.skip(0), names_of(known@)).0 =~= goal.0);
    }
    while rest.len() > 0
        invariant
            0 <= k <= ms.len(),
            crate::ir::basic_block::inst_models(rest@) == ms.skip(k),
            goal == cse_scan(ms, Map::empty()),
            crate::ir::basic_block::inst_models(out@) + cse_scan(ms.skip(k), names_of(known@)).0 == goal.0,
            (changed || cse_scan(ms.skip(k), names_of(known@)).1) == goal.1,
            forall|key: Seq<char>| #[trigger] known@.contains_key(key) ==> listed(sigs@, sigs@.len() as int, key),
        decreases rest.len(),
    {
        let ghost s = ms.skip(k);
        let inst = rest.remove(0);
        proof {
            assert(s.len() > 0);
            assert(inst@ == s[0]);
            assert(s.drop_first() =~= ms.skip(k + 1));
        }
        let (ni, c) = cse_value(inst, &known);
        remember_store(&ni, &mut known, &mut sigs);
        let ghost before = out@;
        out.push(ni);
        changed = changed || c;
        proof {
            assert(crate::ir::basic_block::inst_models(out@) =~= crate::ir::basic_block::inst_models(before).push(ni@));
            assert(crate::ir::basic_block::inst_models(rest@) =~= ms.skip(k + 1));
            k = k + 1;
        }
    }
    proof {
        assert(ms.skip(k).len() == 0);
        assert(crate::ir::basic_block::inst_models(out@) =~= goal.0);
    }
    (BasicBlock { name, instructions: out }, changed)
}

/// Eliminates common subexpressions within each block, against earlier stores of the block.
pub struct CsePass;

impl CsePass {
    /// The pass.
    pub fn new() -> (r: Self) {
        CsePass
    }

    /// Whether an operand is a plain variable or constant.
    pub fn is_simple(inst: &Instruction) -> (r: bool)
        ensures
            r == simple(inst@),
    {
        match inst {
            Instruction::Variable { .. } | Instruction::Constant { .. } => true,
            _ => false,
        }
    }

    /// `op|lhs|rhs`, with both operands in their readable rendering.
    pub fn signature(op_display: &str, lhs: &Instruction, rhs: &Instruction) -> (r: String)
        ensures
            r@ == op_display@ + "|"@ + display_text(lhs@) + "|"@ + display_text(rhs@),
    {
        let mut out = String::new();
        push_str(&mut out, op_display);
        push_str(&mut out, "|");
        lhs.write_display(&mut out);
        push_str(&mut out, "|");
        rhs.write_display(&mut out);
        out
    }

    /// Rewrites an instruction tree in place against the known signatures; sets `changed`
    /// when anything was replaced.
    pub fn replace_known_duplicates(
        inst: &mut Instruction,
        known: &StringHashMap<String>,
        changed: &mut bool,
    )
        ensures
            final(inst)@ == cse_tree(old(inst)@, names_of(known@)).0,
            *final(changed) == (*old(changed) || cse_tree(old(inst)@, names_of(known@)).1),
    {
        let mut tmp = Instruction::Constant { value: 0 };
        std::mem::swap(&mut tmp, inst);
        let (r, c) = cse_value(tmp, known);
        *inst = r;
        *changed = *changed || c;
    }
}

impl Pass for CsePass {
    open spec fn accepts(&self, m: ModuleModel) -> bool {
        true
    }

    open spec fn outcome(&self, m: ModuleModel) -> (ModuleModel, bool) {
        cse_module(m)
    }

    fn id(&self) -> (r: &'static str)
        ensures
            r@ == "cse"@,
    {
        "cse"
    }

    fn name(&self) -> (r: &'static str)
        ensures
            r@ == "Common Subexpression Elimination"@,
    {
        "Common Subexpression Elimination"
    }

    fn description(&self) -> (r: &'static str)
        ensures
            r@ == "Replaces a recomputed expression (anywhere in the tree) with a reference to an earlier Store that already computed the same thing"@,
    {
        "Replaces a recomputed expression (anywhere in the tree) with a reference to an earlier Store that already computed the same thing"
    }

    fn safety(&self) -> (r: PassSafety)
        ensures
            r == PassSafety::Conservative,
    {
        PassSafety::Conservative
    }

    fn run(&self, module: &mut Module) -> (r: Result<bool, PassError>)
        ensures
            r == Ok::<bool, PassError>(final(module)@ != old(module)@),
    {
        proof {
            law_cse_flag_honest(old(module)@);
        }
        let per_block = |b: BasicBlock| -> (r: (BasicBlock, bool))
            ensures
                r.0@ == cse_block_map()(b@),
                r.1 == cse_block_changes()(b@),
            { cse_block_exec(b) };
        let per_function = |f: Function| -> (r: (Function, bool))
            ensures
                r.0@ == cse_function_map()(f@),
                r.1 == cse_function_changes()(f@),
            {
                let mut f = f;
                let c = rewrite_blocks(&mut f, &per_block, Ghost(cse_block_map()), Ghost(cse_block_changes()));
                (f, c)
            };
        let changed = rewrite_functions(
            module,
            &per_function,
            Ghost(cse_function_map()),
            Ghost(cse_function_changes()),
        );
        Ok(changed)
    }

    fn get_param(&self, _name: &str) -> (r: Option<i32>)
        ensures
            r is None,
    {
        None
    }

    fn set_param(&mut self, _name: &str, _value: i32) -> (r: bool)
        ensures
            !r,
    {
        false
    }

    fn descriptor(&self) -> (r: PassDescriptor)
        ensures
            r.id@ == "cse"@,
            r.safety == PassSafety::Conservative,
            r.params@ == Map::<Seq<char>, crate::passes::ParamRange>::empty(),
    {
        let r = PassDescriptor::new(
            "cse",
            "Common Subexpression Elimination",
            "Replaces a recomputed expression (anywhere in the tree) with a reference to an earlier Store that already computed the same thing",
            PassSafety::Conservative,
            Vec::new(),
        );
        proof {
            assert(params_by_name(Seq::<crate::passes::ParamRange>::empty()) == Map::<Seq<char>, crate::passes::ParamRange>::empty());
        }
        r
    }
}

} // verus!
