use vstd::prelude::*;
use crate::interpreter::{
    MAX_INSTRUCTIONS, Machine, arith, block_rest, call, eval, execute, find_last_block, leave,
    lemma_find_last_block, run, step_budget,
};
use crate::ir::basic_block::BlockModel;
use crate::ir::function::FunctionModel;
use crate::ir::module::ModuleModel;
use crate::ir::value::{BinaryOp, Inst, display_text, is_terminator_model, op_text};
use crate::passes::cse::{
    cse_block, cse_block_map, cse_function_map, cse_module, cse_scan, cse_tree, remember, signature,
    simple,
};
use crate::passes::dead_code_elimination::used_vars;
use crate::passes::strength_reduction::{
    all_operands_read_only, lemma_reading_ignores_module, lemma_reading_keeps_state, operands_read_only,
    reads_only,
};
use crate::passes::merging_semantics::ends_only;
use crate::passes::{map_blocks, map_functions};
use crate::text::{digit_char, decimal, nat_digits};
use crate::chars::split_char;

verus! {

/// A name with no `|` in it.
pub open spec fn plain(name: Seq<char>) -> bool {
    forall|i: int| 0 <= i < name.len() ==> name[i] != '|'
}

/// Digits name their values.
pub proof fn lemma_digit_char_injective(a: int, b: int)
    requires
        0 <= a < 10,
        0 <= b < 10,
        digit_char(a) == digit_char(b),
    ensures
        a == b,
{
}

/// The decimal digits of a number hold no `|` and no `-`, and there is at least one.
pub proof fn lemma_nat_digits_chars(n: nat)
    ensures
        nat_digits(n).len() >= 1,
        n >= 10 ==> nat_digits(n).len() >= 2,
        forall|i: int| 0 <= i < nat_digits(n).len() ==> #[trigger] nat_digits(n)[i] != '|' && nat_digits(n)[i] != '-',
    decreases n,
{
    if n >= 10 {
        lemma_nat_digits_chars(n / 10);
        let p = nat_digits(n / 10);
        assert forall|i: int| 0 <= i < nat_digits(n).len() implies #[trigger] nat_digits(n)[i] != '|' && nat_digits(n)[i] != '-' by {
            if i < p.len() {
                assert(nat_digits(n)[i] == p[i]);
            }
        }
    }
}

/// Different numbers have different decimal digits.
pub proof fn lemma_nat_digits_injective(a: nat, b: nat)
    requires
        nat_digits(a) == nat_digits(b),
    ensures
        a == b,
    decreases a,
{
    lemma_nat_digits_chars(a);
    lemma_nat_digits_chars(b);
    if a < 10 && b < 10 {
        assert(nat_digits(a)[0] == digit_char(a as int));
        assert(nat_digits(b)[0] == digit_char(b as int));
        lemma_digit_char_injective(a as int, b as int);
    } else if a >= 10 && b >= 10 {
        let da = nat_digits(a / 10);
        let db = nat_digits(b / 10);
        assert(nat_digits(a).drop_last() =~= da);
        assert(nat_digits(b).drop_last() =~= db);
        lemma_nat_digits_injective(a / 10, b / 10);
        assert(nat_digits(a).last() == digit_char((a % 10) as int));
        assert(nat_digits(b).last() == digit_char((b % 10) as int));
        lemma_digit_char_injective((a % 10) as int, (b % 10) as int);
    }
}

/// Different integers have different decimal renderings, which hold no `|`.
pub proof fn lemma_decimal_injective(a: int, b: int)
    ensures
        decimal(a) == decimal(b) ==> a == b,
        forall|i: int| 0 <= i < decimal(a).len() ==> #[trigger] decimal(a)[i] != '|',
{
    lemma_nat_digits_chars((if a < 0 { -a } else { a }) as nat);
    lemma_nat_digits_chars((if b < 0 { -b } else { b }) as nat);
    if a < 0 {
        assert forall|i: int| 0 <= i < decimal(a).len() implies #[trigger] decimal(a)[i] != '|' by {
            if i > 0 {
                assert(decimal(a)[i] == nat_digits((-a) as nat)[i - 1]);
            }
        }
    }
    if decimal(a) == decimal(b) {
        if a < 0 && b < 0 {
            assert(decimal(a).drop_first() =~= nat_digits((-a) as nat));
            assert(decimal(b).drop_first() =~= nat_digits((-b) as nat));
            lemma_nat_digits_injective((-a) as nat, (-b) as nat);
        } else if a >= 0 && b >= 0 {
            lemma_nat_digits_injective(a as nat, b as nat);
        } else if a < 0 {
            assert(decimal(a)[0] == '-');
            assert(decimal(b)[0] == nat_digits(b as nat)[0]);
        } else {
            assert(decimal(b)[0] == '-');
            assert(decimal(a)[0] == nat_digits(a as nat)[0]);
        }
    }
}

/// A simple operand with a plain name, if it is a variable.
pub open spec fn plain_operand(i: Inst) -> bool {
    simple(i) && (i matches Inst::Variable { name } ==> plain(name))
}

/// The text of a plain simple operand holds no `|`, and tells the operand.
pub proof fn lemma_operand_text(a: Inst, b: Inst)
    requires
        plain_operand(a),
        plain_operand(b),
    ensures
        forall|i: int| 0 <= i < display_text(a).len() ==> #[trigger] display_text(a)[i] != '|',
        display_text(a) == display_text(b) ==> a == b,
{
    reveal_strlit("const ");
    reveal_strlit("var ");
    let ta = display_text(a);
    let tb = display_text(b);
    match a {
        Inst::Constant { value } => {
            lemma_decimal_injective(value as int, 0);
            assert forall|i: int| 0 <= i < ta.len() implies #[trigger] ta[i] != '|' by {
                if i >= 6 {
                    assert(ta[i] == decimal(value as int)[i - 6]);
                }
            }
        },
        Inst::Variable { name } => {
            assert forall|i: int| 0 <= i < ta.len() implies #[trigger] ta[i] != '|' by {
                if i >= 4 {
                    assert(ta[i] == name[i - 4]);
                }
            }
        },
        _ => {},
    }
    if ta == tb {
        match (a, b) {
            (Inst::Constant { value: v1 }, Inst::Constant { value: v2 }) => {
                assert(ta.skip(6) =~= decimal(v1 as int));
                assert(tb.skip(6) =~= decimal(v2 as int));
                lemma_decimal_injective(v1 as int, v2 as int);
            },
            (Inst::Variable { name: n1 }, Inst::Variable { name: n2 }) => {
                assert(ta.skip(4) =~= n1);
                assert(tb.skip(4) =~= n2);
            },
            (Inst::Constant { .. }, Inst::Variable { .. }) => {
                assert(ta[0] == 'c');
                assert(tb[0] == 'v');
            },
            (Inst::Variable { .. }, Inst::Constant { .. }) => {
                assert(ta[0] == 'v');
                assert(tb[0] == 'c');
            },
            _ => {},
        }
    }
}

/// With plain operands, a signature tells its operator and operands.
pub proof fn lemma_signature_injective(op1: BinaryOp, l1: Inst, r1: Inst, op2: BinaryOp, l2: Inst, r2: Inst)
    requires
        plain_operand(l1),
        plain_operand(r1),
        plain_operand(l2),
        plain_operand(r2),
        signature(op1, l1, r1) == signature(op2, l2, r2),
    ensures
        op1 == op2,
        l1 == l2,
        r1 == r2,
{
    reveal_strlit("|");
    reveal_strlit("+");
    reveal_strlit("-");
    reveal_strlit("*");
    reveal_strlit("/");
    let a1 = display_text(l1);
    let a2 = display_text(l2);
    let b1 = display_text(r1);
    let b2 = display_text(r2);
    lemma_operand_text(l1, l2);
    lemma_operand_text(l2, l1);
    let s1 = signature(op1, l1, r1);
    let s2 = signature(op2, l2, r2);
    assert(op_text(op1).len() == 1 && op_text(op2).len() == 1);
    assert(s1[0] == op_text(op1)[0]);
    assert(s2[0] == op_text(op2)[0]);
    let t1 = a1 + "|"@ + b1;
    let t2 = a2 + "|"@ + b2;
    assert(s1.skip(2) =~= t1);
    assert(s2.skip(2) =~= t2);
    if a1.len() < a2.len() {
        assert(t1[a1.len() as int] == '|');
        assert(t2[a1.len() as int] == a2[a1.len() as int]);
    } else if a2.len() < a1.len() {
        assert(t2[a2.len() as int] == '|');
        assert(t1[a2.len() as int] == a1[a2.len() as int]);
    }
    assert(t1.take(a1.len() as int) =~= a1);
    assert(t2.take(a2.len() as int) =~= a2);
    assert(t1.skip(a1.len() + 1int) =~= b1);
    assert(t2.skip(a2.len() + 1int) =~= b2);
    lemma_operand_text(r1, r2);
}

/// Every variable an instruction tree names, read or stored, is plain.
pub open spec fn names_plain(i: Inst) -> bool
    decreases i,
{
    match i {
        Inst::Variable { name } => plain(name),
        Inst::BinaryOp { lhs, rhs, .. } | Inst::Compare { lhs, rhs, .. } => names_plain(*lhs) && names_plain(*rhs),
        Inst::Store { var_name, value } => plain(var_name) && names_plain(*value),
        Inst::Branch { condition, .. } => names_plain(*condition),
        Inst::Return { value } => match value {
            Some(v) => names_plain(*v),
            None => true,
        },
        Inst::GetElementPtr { base, index } => names_plain(*base) && names_plain(*index),
        Inst::LoadPtr { ptr } => names_plain(*ptr),
        Inst::StorePtr { ptr, value } => names_plain(*ptr) && names_plain(*value),
        _ => true,
    }
}

/// The value of a simple operand.
pub open spec fn operand_value(i: Inst, env: Map<Seq<char>, i64>) -> Option<i64> {
    match i {
        Inst::Constant { value } => Some(value),
        Inst::Variable { name } => if env.contains_key(name) {
            Some(env[name])
        } else {
            None
        },
        _ => None,
    }
}

/// The value of arithmetic on two simple operands, where it has one.
pub open spec fn bin_value(op: BinaryOp, l: Inst, r: Inst, env: Map<Seq<char>, i64>) -> Option<i64> {
    match (operand_value(l, env), operand_value(r, env)) {
        (Some(a), Some(b)) => arith(op, a, b),
        _ => None,
    }
}

/// What is known holds: each known signature of arithmetic on plain operands names a
/// variable that holds the arithmetic's value.
pub open spec fn holds(known: Map<Seq<char>, Seq<char>>, env: Map<Seq<char>, i64>) -> bool {
    forall|op: BinaryOp, l: Inst, r: Inst|
        #![trigger known.contains_key(signature(op, l, r))]
        plain_operand(l) && plain_operand(r) && known.contains_key(signature(op, l, r)) ==> env.contains_key(
            known[signature(op, l, r)],
        ) && bin_value(op, l, r, env) == Some(env[known[signature(op, l, r)]])
}

/// Every known variable is plain.
pub open spec fn values_plain(known: Map<Seq<char>, Seq<char>>) -> bool {
    forall|sig: Seq<char>| #[trigger] known.contains_key(sig) ==> plain(known[sig])
}

/// `y` is the variable of some known arithmetic on plain operands.
pub open spec fn is_known_var(known: Map<Seq<char>, Seq<char>>, y: Seq<char>) -> bool {
    exists|op: BinaryOp, l: Inst, r: Inst|
        #![trigger known.contains_key(signature(op, l, r))]
        plain_operand(l) && plain_operand(r) && known.contains_key(signature(op, l, r)) && known[signature(
            op,
            l,
            r,
        )] == y
}

/// A tree evaluates to the value of a simple operand, leaving the machine alone.
pub proof fn lemma_operand_eval(m: ModuleModel, i: Inst, s: Machine, d: u32)
    requires
        simple(i),
    ensures
        eval(m, i, s, d) == match operand_value(i, s.env) {
            Some(v) => Ok::<(i64, Machine), crate::interpreter::Fault>((v, s)),
            None => Err(crate::interpreter::Fault::UndefinedVariable(i->Variable_name)),
        },
{
}

/// Rewriting a tree that only reads, against what holds, keeps what it evaluates to, keeps
/// it reading only with plain names, and makes it read only names it read or known
/// variables; only arithmetic may turn into a variable.
pub proof fn lemma_cse_tree_read(m: ModuleModel, i: Inst, known: Map<Seq<char>, Seq<char>>, s: Machine, d: u32)
    requires
        reads_only(i),
        names_plain(i),
        holds(known, s.env),
        values_plain(known),
    ensures
        reads_only(cse_tree(i, known).0),
        names_plain(cse_tree(i, known).0),
        eval(m, i, s, d) is Ok ==> eval(m, cse_tree(i, known).0, s, d) == eval(m, i, s, d),
        forall|y: Seq<char>| #[trigger] used_vars(cse_tree(i, known).0).contains(y) ==> used_vars(i).contains(y)
            || is_known_var(known, y),
        !(i is BinaryOp) ==> cse_tree(i, known).0 is Constant == i is Constant && cse_tree(i, known).0 is Variable
            == i is Variable && cse_tree(i, known).0 is Compare == i is Compare && cse_tree(i, known).0 is GetElementPtr
            == i is GetElementPtr && cse_tree(i, known).0 is LoadPtr == i is LoadPtr,
        cse_tree(i, known).0 is BinaryOp ==> i is BinaryOp,
    decreases i,
{
    match i {
        Inst::BinaryOp { op, lhs, rhs } => {
            lemma_cse_tree_read(m, *lhs, known, s, d);
            lemma_cse_tree_read(m, *rhs, known, s, d);
            lemma_reading_keeps_state(m, *lhs, s, d);
            let l = cse_tree(*lhs, known).0;
            let r = cse_tree(*rhs, known).0;
            let sig = signature(op, l, r);
            if simple(l) && simple(r) && known.contains_key(sig) {
                let x = known[sig];
                assert(plain_operand(l) && plain_operand(r));
                lemma_operand_eval(m, l, s, d);
                lemma_operand_eval(m, r, s, d);
                assert(known.contains_key(signature(op, l, r)));
                let a = operand_value(l, s.env)->0;
                let b = operand_value(r, s.env)->0;
                assert(cse_tree(i, known).0 == Inst::Variable { name: x });
                if eval(m, i, s, d) is Ok {
                    assert(eval(m, *lhs, s, d) == Ok::<(i64, Machine), crate::interpreter::Fault>((a, s)));
                    assert(eval(m, *rhs, s, d) == Ok::<(i64, Machine), crate::interpreter::Fault>((b, s)));
                    assert(eval(m, i, s, d) == Ok::<(i64, Machine), crate::interpreter::Fault>((s.env[x], s)));
                }
                assert(used_vars(Inst::Variable { name: x }) =~= set![x]);
                assert forall|y: Seq<char>| #[trigger] used_vars(cse_tree(i, known).0).contains(y) implies used_vars(
                    i,
                ).contains(y) || is_known_var(known, y) by {
                    assert(y == x);
                    assert(known.contains_key(signature(op, l, r)) && known[signature(op, l, r)] == y);
                }
            } else {
                let t = Inst::BinaryOp { op, lhs: Box::new(l), rhs: Box::new(r) };
                assert(cse_tree(i, known).0 == t);
                if let Ok((a, s1)) = eval(m, *lhs, s, d) {
                    assert(s1 == s);
                }
                if eval(m, i, s, d) is Ok {
                assert(eval(m, t, s, d) == eval(m, i, s, d));
            }
                assert forall|y: Seq<char>| #[trigger] used_vars(cse_tree(i, known).0).contains(y) implies used_vars(
                    i,
                ).contains(y) || is_known_var(known, y) by {
                    assert(used_vars(t) == used_vars(l) + used_vars(r));
                    if used_vars(l).contains(y) {
                        assert(used_vars(cse_tree(*lhs, known).0).contains(y));
                    } else {
                        assert(used_vars(cse_tree(*rhs, known).0).contains(y));
                    }
                }
            }
        },
        Inst::Compare { condition, lhs, rhs } => {
            lemma_cse_tree_read(m, *lhs, known, s, d);
            lemma_cse_tree_read(m, *rhs, known, s, d);
            lemma_reading_keeps_state(m, *lhs, s, d);
            let l = cse_tree(*lhs, known).0;
            let r = cse_tree(*rhs, known).0;
            let t = Inst::Compare { condition, lhs: Box::new(l), rhs: Box::new(r) };
            assert(cse_tree(i, known).0 == t);
            if let Ok((a, s1)) = eval(m, *lhs, s, d) {
                assert(s1 == s);
            }
            if eval(m, i, s, d) is Ok {
                assert(eval(m, t, s, d) == eval(m, i, s, d));
            }
            assert forall|y: Seq<char>| #[trigger] used_vars(cse_tree(i, known).0).contains(y) implies used_vars(
                i,
            ).contains(y) || is_known_var(known, y) by {
                if used_vars(l).contains(y) {
                    assert(used_vars(cse_tree(*lhs, known).0).contains(y));
                } else {
                    assert(used_vars(cse_tree(*rhs, known).0).contains(y));
                }
            }
        },
        Inst::GetElementPtr { base, index } => {
            lemma_cse_tree_read(m, *base, known, s, d);
            lemma_cse_tree_read(m, *index, known, s, d);
            lemma_reading_keeps_state(m, *base, s, d);
            let l = cse_tree(*base, known).0;
            let r = cse_tree(*index, known).0;
            let t = Inst::GetElementPtr { base: Box::new(l), index: Box::new(r) };
            assert(cse_tree(i, known).0 == t);
            if let Ok((a, s1)) = eval(m, *base, s, d) {
                assert(s1 == s);
            }
            if eval(m, i, s, d) is Ok {
                assert(eval(m, t, s, d) == eval(m, i, s, d));
            }
            assert forall|y: Seq<char>| #[trigger] used_vars(cse_tree(i, known).0).contains(y) implies used_vars(
                i,
            ).contains(y) || is_known_var(known, y) by {
                if used_vars(l).contains(y) {
                    assert(used_vars(cse_tree(*base, known).0).contains(y));
                } else {
                    assert(used_vars(cse_tree(*index, known).0).contains(y));
                }
            }
        },
        Inst::LoadPtr { ptr } => {
            lemma_cse_tree_read(m, *ptr, known, s, d);
            let p = cse_tree(*ptr, known).0;
            let t = Inst::LoadPtr { ptr: Box::new(p) };
            assert(cse_tree(i, known).0 == t);
            assert forall|y: Seq<char>| #[trigger] used_vars(cse_tree(i, known).0).contains(y) implies used_vars(
                i,
            ).contains(y) || is_known_var(known, y) by {
                assert(used_vars(cse_tree(*ptr, known).0).contains(y));
            }
            if let Ok((a, s1)) = eval(m, *ptr, s, d) {
                assert(eval(m, p, s, d) == Ok::<(i64, Machine), crate::interpreter::Fault>((a, s1)));
            }
            if eval(m, i, s, d) is Ok {
                assert(eval(m, t, s, d) == eval(m, i, s, d));
            }
        },
        _ => {},
    }
}

/// An instruction whose operands only read evaluates alike in any two modules.
pub proof fn lemma_top_ignores_module(m1: ModuleModel, m2: ModuleModel, i: Inst, s: Machine, d: u32)
    requires
        operands_read_only(i),
    ensures
        eval(m1, i, s, d) == eval(m2, i, s, d),
{
    match i {
        Inst::Store { value, .. } => {
            lemma_reading_ignores_module(m1, m2, *value, s, d);
        },
        Inst::Return { value } => match value {
            Some(v) => {
                lemma_reading_ignores_module(m1, m2, *v, s, d);
            },
            None => {},
        },
        Inst::Branch { .. } | Inst::Jump { .. } => {},
        _ => {
            lemma_reading_ignores_module(m1, m2, i, s, d);
        },
    }
}

/// Rewriting an instruction whose operands only read, against what holds, keeps what it
/// evaluates to, its kind, its labels and what it stores into.
pub proof fn lemma_cse_inst(m: ModuleModel, i: Inst, known: Map<Seq<char>, Seq<char>>, s: Machine, d: u32)
    requires
        operands_read_only(i),
        names_plain(i),
        holds(known, s.env),
        values_plain(known),
    ensures
        operands_read_only(cse_tree(i, known).0),
        names_plain(cse_tree(i, known).0),
        eval(m, i, s, d) is Ok ==> eval(m, cse_tree(i, known).0, s, d) == eval(m, i, s, d),
        is_terminator_model(cse_tree(i, known).0) == is_terminator_model(i),
        cse_tree(i, known).0 is Return == i is Return,
        cse_tree(i, known).0 is Store == i is Store,
        i matches Inst::Store { var_name, value } ==> cse_tree(i, known).0 == (Inst::Store {
            var_name,
            value: Box::new(cse_tree(*value, known).0),
        }),
        i matches Inst::Branch { condition, then_label, else_label } ==> cse_tree(i, known).0 == (Inst::Branch {
            condition: Box::new(cse_tree(*condition, known).0),
            then_label,
            else_label,
        }),
        i is Jump ==> cse_tree(i, known).0 == i,
{
    match i {
        Inst::Store { var_name, value } => {
            lemma_cse_tree_read(m, *value, known, s, d);
        },
        Inst::Return { value } => match value {
            Some(v) => {
                lemma_cse_tree_read(m, *v, known, s, d);
            },
            None => {},
        },
        Inst::Branch { condition, .. } => {
            lemma_cse_tree_read(m, *condition, known, s, d);
        },
        Inst::Jump { .. } => {},
        _ => {
            lemma_cse_tree_read(m, i, known, s, d);
        },
    }
}

/// What is known before instruction `k` of a list, starting from `known`.
pub open spec fn known_from(ins: Seq<Inst>, known: Map<Seq<char>, Seq<char>>, k: nat) -> Map<Seq<char>, Seq<char>>
    decreases k,
{
    if k == 0 {
        known
    } else {
        let p = known_from(ins, known, (k - 1) as nat);
        remember(p, cse_tree(ins[k - 1], p).0)
    }
}

/// Starting one instruction later is knowing what the first made known.
pub proof fn lemma_known_from_shift(ins: Seq<Inst>, known: Map<Seq<char>, Seq<char>>, k: nat)
    requires
        ins.len() > 0,
        k < ins.len(),
    ensures
        known_from(ins.drop_first(), remember(known, cse_tree(ins[0], known).0), k) == known_from(
            ins,
            known,
            k + 1,
        ),
    decreases k,
{
    if k > 0 {
        lemma_known_from_shift(ins, known, (k - 1) as nat);
        assert(ins.drop_first()[k - 1] == ins[k as int]);
    } else {
        assert(known_from(ins, known, 0) == known);
        assert(known_from(ins.drop_first(), remember(known, cse_tree(ins[0], known).0), 0) == remember(
            known,
            cse_tree(ins[0], known).0,
        ));
    }
}

/// Each instruction of a scanned list is the instruction rewritten against what was known
/// before it.
pub proof fn lemma_cse_scan_at(ins: Seq<Inst>, known: Map<Seq<char>, Seq<char>>, k: int)
    requires
        0 <= k < ins.len(),
    ensures
        cse_scan(ins, known).0.len() == ins.len(),
        cse_scan(ins, known).0[k] == cse_tree(ins[k], known_from(ins, known, k as nat)).0,
    decreases ins.len(),
{
    crate::passes::cse::lemma_cse_scan_len(ins, known);
    if k > 0 {
        let k1 = remember(known, cse_tree(ins[0], known).0);
        lemma_cse_scan_at(ins.drop_first(), k1, k - 1);
        lemma_known_from_shift(ins, known, (k - 1) as nat);
        assert(ins.drop_first()[k - 1] == ins[k]);
    }
}

/// A text without `|` splits into itself alone.
pub proof fn lemma_split_whole(t: Seq<char>)
    requires
        forall|i: int| 0 <= i < t.len() ==> t[i] != '|',
    ensures
        split_char(t, '|') == seq![t],
    decreases t.len(),
{
    if t.len() > 0 {
        lemma_split_whole(t.drop_last());
        assert(t.drop_last().push(t.last()) =~= t);
    } else {
        assert(t =~= Seq::<char>::empty());
    }
}

/// Splitting gives at least one piece.
pub proof fn lemma_split_nonempty(t: Seq<char>)
    ensures
        split_char(t, '|').len() >= 1,
    decreases t.len(),
{
    if t.len() > 0 {
        lemma_split_nonempty(t.drop_last());
    }
}

/// Splitting at a `|` splits each side apart.
pub proof fn lemma_split_join(s: Seq<char>, t: Seq<char>)
    ensures
        split_char(s + seq!['|'] + t, '|') == split_char(s, '|') + split_char(t, '|'),
    decreases t.len(),
{
    let whole = s + seq!['|'] + t;
    if t.len() == 0 {
        assert(whole.drop_last() =~= s);
        assert(split_char(t, '|') =~= seq![Seq::<char>::empty()]);
        assert(split_char(whole, '|') =~= split_char(s, '|') + split_char(t, '|'));
    } else {
        lemma_split_join(s, t.drop_last());
        assert(whole.drop_last() =~= s + seq!['|'] + t.drop_last());
        let a = split_char(s, '|');
        let b = split_char(t.drop_last(), '|');
        lemma_split_nonempty(t.drop_last());
        assert(split_char(whole, '|') =~= a + split_char(t, '|'));
    }
}

/// A signature of plain operands names every variable they read among its pieces.
pub proof fn lemma_sig_reads_operands(op: BinaryOp, l: Inst, r: Inst, x: Seq<char>)
    requires
        plain_operand(l),
        plain_operand(r),
        used_vars(l).contains(x) || used_vars(r).contains(x),
    ensures
        crate::passes::cse::sig_reads(signature(op, l, r), x),
{
    reveal_strlit("|");
    reveal_strlit("+");
    reveal_strlit("-");
    reveal_strlit("*");
    reveal_strlit("/");
    reveal_strlit("var ");
    let o = op_text(op);
    let a = display_text(l);
    let b = display_text(r);
    lemma_operand_text(l, l);
    lemma_operand_text(r, r);
    assert(o.len() == 1 && o[0] != '|');
    lemma_split_whole(o);
    lemma_split_whole(a);
    lemma_split_whole(b);
    lemma_split_join(o, a);
    lemma_split_join(o + seq!['|'] + a, b);
    assert(signature(op, l, r) =~= (o + seq!['|'] + a) + seq!['|'] + b);
    let pieces = split_char(signature(op, l, r), '|');
    assert(pieces =~= seq![o, a, b]);
    if used_vars(l).contains(x) {
        assert(l == Inst::Variable { name: x });
        assert(pieces[1] == "var "@ + x);
    } else {
        assert(r == Inst::Variable { name: x });
        assert(pieces[2] == "var "@ + x);
    }
}

/// What holds at instruction `k` of a block: what is known there holds in the state and
/// names plain variables.
pub open spec fn block_inv(ins: Seq<Inst>, k: nat, env: Map<Seq<char>, i64>) -> bool {
    let known = known_from(ins, Map::empty(), k);
    &&& holds(known, env)
    &&& values_plain(known)
}

/// Arithmetic on two simple operands evaluates to its value, leaving the machine alone.
pub proof fn lemma_bin_eval(m: ModuleModel, op: BinaryOp, l: Inst, r: Inst, s: Machine, d: u32)
    requires
        simple(l),
        simple(r),
    ensures
        (eval(m, Inst::BinaryOp { op, lhs: Box::new(l), rhs: Box::new(r) }, s, d) is Ok) == (bin_value(op, l, r, s.env) is Some),
        bin_value(op, l, r, s.env) matches Some(v) ==> eval(m, Inst::BinaryOp { op, lhs: Box::new(l), rhs: Box::new(r) }, s, d)
            == Ok::<(i64, Machine), crate::interpreter::Fault>((v, s)),
{
    lemma_operand_eval(m, l, s, d);
    lemma_operand_eval(m, r, s, d);
}

/// Forgetting what a store invalidates keeps what is left holding after the store.
pub proof fn lemma_forget_holds(known: Map<Seq<char>, Seq<char>>, env: Map<Seq<char>, i64>, x: Seq<char>, val: i64)
    requires
        holds(known, env),
        values_plain(known),
    ensures
        holds(crate::passes::cse::forget(known, x), env.insert(x, val)),
        values_plain(crate::passes::cse::forget(known, x)),
{
    let kept = crate::passes::cse::forget(known, x);
    let env1 = env.insert(x, val);
    assert forall|op: BinaryOp, l: Inst, r: Inst|
        #![trigger kept.contains_key(signature(op, l, r))]
        plain_operand(l) && plain_operand(r) && kept.contains_key(signature(op, l, r)) implies env1.contains_key(
            kept[signature(op, l, r)],
        ) && bin_value(op, l, r, env1) == Some(env1[kept[signature(op, l, r)]]) by {
        assert(known.contains_key(signature(op, l, r)));
        if used_vars(l).contains(x) || used_vars(r).contains(x) {
            lemma_sig_reads_operands(op, l, r, x);
        }
        if let Inst::Variable { name } = l {
            assert(used_vars(l).contains(name));
        }
        if let Inst::Variable { name } = r {
            assert(used_vars(r).contains(name));
        }
        assert(operand_value(l, env1) == operand_value(l, env));
        assert(operand_value(r, env1) == operand_value(r, env));
    }
    assert forall|sig: Seq<char>| #[trigger] kept.contains_key(sig) implies plain(kept[sig]) by {
        assert(known.contains_key(sig));
    }
}

/// One instruction of a block keeps what holds: after it runs, what is then known holds in
/// the new state; only a store changes the state, and never the heap.
#[verifier::rlimit(40)]
pub proof fn lemma_cse_step(m: ModuleModel, ins: Seq<Inst>, k: int, s: Machine, d: u32)
    requires
        0 <= k < ins.len(),
        forall|j: int| 0 <= j < ins.len() ==> operands_read_only(#[trigger] ins[j]) && names_plain(ins[j]),
        block_inv(ins, k as nat, s.env),
    ensures
        eval(m, ins[k], s, d) matches Ok((v, s1)) ==> block_inv(ins, (k + 1) as nat, s1.env) && s1.heap == s.heap
            && (!(ins[k] is Store) ==> s1 == s),
{
    let known = known_from(ins, Map::empty(), k as nat);
    let i = ins[k];
    let h = cse_tree(i, known).0;
    assert(operands_read_only(ins[k]) && names_plain(ins[k]));
    lemma_cse_inst(m, i, known, s, d);
    assert(known_from(ins, Map::empty(), (k + 1) as nat) == remember(known, h));
    if let Ok((v, s1)) = eval(m, i, s, d) {
        match i {
            Inst::Store { var_name, value } => {
                let x = var_name;
                lemma_reading_keeps_state(m, *value, s, d);
                lemma_cse_tree_read(m, *value, known, s, d);
                let v2 = cse_tree(*value, known).0;
                assert(h == Inst::Store { var_name: x, value: Box::new(v2) });
                assert(s1 == Machine { env: s.env.insert(x, v), heap: s.heap });
                let kept = crate::passes::cse::forget(known, x);
                lemma_forget_holds(known, s.env, x, v);
                let env1 = s.env.insert(x, v);
                match v2 {
                    Inst::BinaryOp { op: op2, lhs: l2, rhs: r2 } => {
                        let sig2 = signature(op2, *l2, *r2);
                        if simple(*l2) && simple(*r2) && !kept.contains_key(sig2) && !used_vars(*l2).contains(x)
                            && !used_vars(*r2).contains(x) {
                            let k2 = kept.insert(sig2, x);
                            assert(remember(known, h) == k2);
                            assert(names_plain(v2));
                            assert(names_plain(*l2) && names_plain(*r2));
                            assert(plain_operand(*l2) && plain_operand(*r2));
                            lemma_bin_eval(m, op2, *l2, *r2, s, d);
                            assert(bin_value(op2, *l2, *r2, s.env) == Some(v));
                            assert(operand_value(*l2, env1) == operand_value(*l2, s.env)) by {
                                if let Inst::Variable { name } = *l2 {
                                    assert(used_vars(*l2).contains(name));
                                }
                            }
                            assert(operand_value(*r2, env1) == operand_value(*r2, s.env)) by {
                                if let Inst::Variable { name } = *r2 {
                                    assert(used_vars(*r2).contains(name));
                                }
                            }
                            assert forall|op: BinaryOp, l: Inst, r: Inst|
                                #![trigger k2.contains_key(signature(op, l, r))]
                                plain_operand(l) && plain_operand(r) && k2.contains_key(signature(op, l, r)) implies env1.contains_key(
                                    k2[signature(op, l, r)],
                                ) && bin_value(op, l, r, env1) == Some(env1[k2[signature(op, l, r)]]) by {
                                if signature(op, l, r) == sig2 {
                                    lemma_signature_injective(op, l, r, op2, *l2, *r2);
                                } else {
                                    assert(kept.contains_key(signature(op, l, r)));
                                }
                            }
                            assert forall|sig: Seq<char>| #[trigger] k2.contains_key(sig) implies plain(k2[sig]) by {
                                if sig != sig2 {
                                    assert(kept.contains_key(sig));
                                }
                            }
                        } else {
                            assert(remember(known, h) == kept);
                        }
                    },
                    _ => {
                        assert(remember(known, h) == kept);
                    },
                }
            },
            Inst::Return { value } => {
                if let Some(w) = value {
                    lemma_reading_keeps_state(m, *w, s, d);
                }
                assert(remember(known, h) == known);
            },
            Inst::Branch { .. } | Inst::Jump { .. } => {
                assert(remember(known, h) == known);
            },
            _ => {
                lemma_reading_keeps_state(m, i, s, d);
                assert(h is Store == i is Store);
                assert(!(h is AllocaArray));
                assert(remember(known, h) == known);
            },
        }
    }
}

/// A module where common subexpression elimination keeps meaning: every operand only
/// reads, every name is plain, and terminators stand only at block ends.
pub open spec fn cse_safe(m: ModuleModel) -> bool {
    &&& all_operands_read_only(m)
    &&& forall|k: int, bi: int, j: int|
        0 <= k < m.functions.len() && 0 <= bi < m.functions[k].blocks.len() && 0 <= j
            < m.functions[k].blocks[bi].insts.len() ==> names_plain(#[trigger] m.functions[k].blocks[bi].insts[j])
    &&& forall|k: int, bi: int|
        0 <= k < m.functions.len() && 0 <= bi < m.functions[k].blocks.len() ==> ends_only(
            #[trigger] m.functions[k].blocks[bi],
        )
}

/// Elimination keeps where each block name leads.
pub proof fn lemma_cse_blocks_found_alike(bs: Seq<BlockModel>, name: Seq<char>)
    ensures
        find_last_block(bs.map_values(cse_block_map()), name) == find_last_block(bs, name),
    decreases bs.len(),
{
    if bs.len() > 0 {
        assert(bs.map_values(cse_block_map()).drop_last() =~= bs.drop_last().map_values(cse_block_map()));
        lemma_cse_blocks_found_alike(bs.drop_last(), name);
    }
}

/// Nothing is known at the start of a block.
pub proof fn lemma_block_inv_start(ins: Seq<Inst>, env: Map<Seq<char>, i64>)
    ensures
        block_inv(ins, 0, env),
{
    assert(known_from(ins, Map::empty(), 0) == Map::<Seq<char>, Seq<char>>::empty());
}

/// Running from a position of a block, where what is known holds, gives what it gave once
/// common subexpressions are eliminated, when it gives a value.
pub proof fn lemma_cse_run(m: ModuleModel, k: int, name: Seq<char>, j: nat, start: nat, s: Machine, d: u32)
    requires
        cse_safe(m),
        0 <= k < m.functions.len(),
        find_last_block(m.functions[k].blocks, name) matches Some(bi) ==> {
            let ins = m.functions[k].blocks[bi].insts;
            &&& j <= ins.len()
            &&& j == ins.len() ==> ins.len() == 0 || !is_terminator_model(ins[ins.len() - 1])
            &&& block_inv(ins, j, s.env)
        },
    ensures
        run(m, m.functions[k], name, j, start, s, d) is Ok ==> run(
            cse_module(m).0,
            cse_module(m).0.functions[k],
            name,
            j,
            start,
            s,
            d,
        ) == run(m, m.functions[k], name, j, start, s, d),
    decreases step_budget(start), 2nat, block_rest(m.functions[k], name, j),
{
    let m2 = cse_module(m).0;
    let f = m.functions[k];
    let f2 = m2.functions[k];
    assert(f2 == map_blocks(f, cse_block_map()));
    lemma_cse_blocks_found_alike(f.blocks, name);
    lemma_find_last_block(f.blocks, name);
    if start <= MAX_INSTRUCTIONS {
        if let Some(bi) = find_last_block(f.blocks, name) {
            let b = f.blocks[bi];
            let b2 = f2.blocks[bi];
            assert(b2 == cse_block(b));
            let ins = b.insts;
            crate::passes::cse::lemma_cse_scan_len(ins, Map::empty());
            assert(forall|q: int| 0 <= q < ins.len() ==> operands_read_only(#[trigger] ins[q]) && names_plain(ins[q])) by {
                assert forall|q: int| 0 <= q < ins.len() implies operands_read_only(#[trigger] ins[q]) && names_plain(ins[q]) by {
                    assert(operands_read_only(m.functions[k].blocks[bi].insts[q]));
                    assert(names_plain(m.functions[k].blocks[bi].insts[q]));
                }
            }
            assert(ends_only(m.functions[k].blocks[bi]));
            if j < ins.len() {
                let inst = ins[j as int];
                let known = known_from(ins, Map::empty(), j);
                lemma_cse_scan_at(ins, Map::empty(), j as int);
                let h = cse_tree(inst, known).0;
                assert(b2.insts[j as int] == h);
                lemma_cse_inst(m, inst, known, s, d);
                lemma_top_ignores_module(m, m2, h, s, d);
                lemma_cse_step(m, ins, j as int, s, d);
                if let Ok((v, s1)) = eval(m, inst, s, d) {
                    if is_terminator_model(inst) {
                        if !(inst is Return) {
                            assert(j == ins.len() - 1);
                            lemma_cse_leave(m, k, bi, start, j + 1, s1, d);
                        }
                    } else {
                        lemma_cse_run(m, k, name, j + 1, start, s1, d);
                    }
                }
            } else {
                assert(ins.len() > 0 ==> ins.last() == ins[ins.len() - 1]);
                assert(leave(m, f, b, start, j, s, d) is Err);
                assert(run(m, f, name, j, start, s, d) is Err);
            }
        }
    }
}

/// Leaving a block, where what is known before its last instruction holds, gives what it
/// gave once common subexpressions are eliminated, when it gives a value.
pub proof fn lemma_cse_leave(
    m: ModuleModel,
    k: int,
    bi: int,
    start: nat,
    executed: nat,
    s: Machine,
    d: u32,
)
    requires
        cse_safe(m),
        0 <= k < m.functions.len(),
        0 <= bi < m.functions[k].blocks.len(),
        m.functions[k].blocks[bi].insts.len() > 0 ==> block_inv(
            m.functions[k].blocks[bi].insts,
            (m.functions[k].blocks[bi].insts.len() - 1) as nat,
            s.env,
        ),
    ensures
        leave(m, m.functions[k], m.functions[k].blocks[bi], start, executed, s, d) is Ok ==> leave(
            cse_module(m).0,
            cse_module(m).0.functions[k],
            cse_module(m).0.functions[k].blocks[bi],
            start,
            executed,
            s,
            d,
        ) == leave(m, m.functions[k], m.functions[k].blocks[bi], start, executed, s, d),
    decreases step_budget(start), 1nat, 0nat,
{
    let m2 = cse_module(m).0;
    let f = m.functions[k];
    let f2 = m2.functions[k];
    assert(f2 == map_blocks(f, cse_block_map()));
    let b = f.blocks[bi];
    let b2 = f2.blocks[bi];
    assert(b2 == cse_block(b));
    let ins = b.insts;
    if start <= MAX_INSTRUCTIONS && ins.len() > 0 && executed > 0 {
        let n = ins.len() - 1;
        let known = known_from(ins, Map::empty(), n as nat);
        lemma_cse_scan_at(ins, Map::empty(), n);
        let last = ins[n];
        assert(ins.last() == last);
        assert(operands_read_only(m.functions[k].blocks[bi].insts[n]));
        assert(names_plain(m.functions[k].blocks[bi].insts[n]));
        lemma_cse_inst(m, last, known, s, d);
        let h = cse_tree(last, known).0;
        assert(b2.insts.last() == h);
        match last {
            Inst::Branch { condition, then_label, else_label } => {
                lemma_cse_tree_read(m, *condition, known, s, d);
                let c2 = cse_tree(*condition, known).0;
                lemma_reading_ignores_module(m, m2, c2, s, d);
                lemma_reading_keeps_state(m, *condition, s, d);
                if let Ok((c, s1)) = eval(m, *condition, s, d) {
                    let target = if c != 0 {
                        then_label
                    } else {
                        else_label
                    };
                    lemma_find_last_block(f.blocks, target);
                    if let Some(ti) = find_last_block(f.blocks, target) {
                        lemma_block_inv_start(f.blocks[ti].insts, s1.env);
                    }
                    lemma_cse_run(m, k, target, 0, start + executed, s1, d);
                }
            },
            Inst::Jump { label } => {
                lemma_find_last_block(f.blocks, label);
                if let Some(ti) = find_last_block(f.blocks, label) {
                    lemma_block_inv_start(f.blocks[ti].insts, s.env);
                }
                lemma_cse_run(m, k, label, 0, start + executed, s, d);
            },
            _ => {},
        }
    }
}

/// Common subexpression elimination keeps what every function gives: in a module whose
/// operands only read (no calls, array stores or stores nested in expressions), whose names
/// hold no `|`, and whose blocks end in their only terminator, a function that gives a
/// value on some arguments gives the same one after the pass.
pub proof fn law_cse_keeps_results(m: ModuleModel, k: int, args: Seq<i64>)
    requires
        cse_safe(m),
        0 <= k < m.functions.len(),
    ensures
        cse_module(m).0.functions.len() == m.functions.len(),
        execute(m, m.functions[k], args) is Ok ==> execute(
            cse_module(m).0,
            cse_module(m).0.functions[k],
            args,
        ) == execute(m, m.functions[k], args),
{
    let m2 = cse_module(m).0;
    let f = m.functions[k];
    let f2 = m2.functions[k];
    assert(f2 == map_blocks(f, cse_block_map()));
    if f.blocks.len() > 0 {
        let s0 = Machine { env: crate::interpreter::bind(f.params, args), heap: Seq::empty() };
        assert(f2.blocks[0] == cse_block(f.blocks[0]));
        lemma_find_last_block(f.blocks, f.blocks[0].name);
        if let Some(bi) = find_last_block(f.blocks, f.blocks[0].name) {
            lemma_block_inv_start(f.blocks[bi].insts, s0.env);
        }
        lemma_cse_run(m, k, f.blocks[0].name, 0, 0, s0, 0);
    }
}

} // verus!
