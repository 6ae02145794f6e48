use vstd::prelude::*;
use crate::interpreter::{arith, compare};
use crate::llvm_frontend::{binop_of, cond_of};

verus! {

/// Each LLVM arithmetic opcode denotes the operator that computes it: `add`, `sub` and `mul`
/// give the wrapping sum, difference and product of their operands, the three divisions
/// fail exactly on a zero divisor, each float opcode denotes the same operator as its integer
/// twin, and no other opcode denotes an operator.
pub proof fn law_opcode_meaning(opcode: Seq<char>, a: i64, b: i64)
    ensures
        binop_of("add"@) matches Some(o) && arith(o, a, b) == Some(a.wrapping_add(b)),
        binop_of("sub"@) matches Some(o) && arith(o, a, b) == Some(a.wrapping_sub(b)),
        binop_of("mul"@) matches Some(o) && arith(o, a, b) == Some(a.wrapping_mul(b)),
        binop_of("sdiv"@) matches Some(o) && (arith(o, a, b) is None <==> b == 0),
        binop_of("fadd"@) == binop_of("add"@),
        binop_of("fsub"@) == binop_of("sub"@),
        binop_of("fmul"@) == binop_of("mul"@),
        binop_of("udiv"@) == binop_of("sdiv"@),
        binop_of("fdiv"@) == binop_of("sdiv"@),
        binop_of(opcode) is Some ==> opcode == "add"@ || opcode == "fadd"@ || opcode == "sub"@
            || opcode == "fsub"@ || opcode == "mul"@ || opcode == "fmul"@ || opcode == "sdiv"@
            || opcode == "udiv"@ || opcode == "fdiv"@,
{
    reveal_strlit("add");
    reveal_strlit("fadd");
    reveal_strlit("sub");
    reveal_strlit("fsub");
    reveal_strlit("mul");
    reveal_strlit("fmul");
    reveal_strlit("sdiv");
    reveal_strlit("udiv");
    reveal_strlit("fdiv");
    assert("add"@.len() == 3 && "add"@[0] == 'a' && "add"@[1] == 'd' && "add"@[2] == 'd');
    assert("fadd"@.len() == 4 && "fadd"@[0] == 'f' && "fadd"@[1] == 'a' && "fadd"@[2] == 'd' && "fadd"@[3] == 'd');
    assert("sub"@.len() == 3 && "sub"@[0] == 's' && "sub"@[1] == 'u' && "sub"@[2] == 'b');
    assert("fsub"@.len() == 4 && "fsub"@[0] == 'f' && "fsub"@[1] == 's' && "fsub"@[2] == 'u' && "fsub"@[3] == 'b');
    assert("mul"@.len() == 3 && "mul"@[0] == 'm' && "mul"@[1] == 'u' && "mul"@[2] == 'l');
    assert("fmul"@.len() == 4 && "fmul"@[0] == 'f' && "fmul"@[1] == 'm' && "fmul"@[2] == 'u' && "fmul"@[3] == 'l');
    assert("sdiv"@.len() == 4 && "sdiv"@[0] == 's' && "sdiv"@[1] == 'd' && "sdiv"@[2] == 'i' && "sdiv"@[3] == 'v');
    assert("udiv"@.len() == 4 && "udiv"@[0] == 'u' && "udiv"@[1] == 'd' && "udiv"@[2] == 'i' && "udiv"@[3] == 'v');
    assert("fdiv"@.len() == 4 && "fdiv"@[0] == 'f' && "fdiv"@[1] == 'd' && "fdiv"@[2] == 'i' && "fdiv"@[3] == 'v');
}

/// Each LLVM condition code denotes the comparison it tests: `eq`/`oeq` equality, `ne`/`one`
/// inequality, the `lt` codes `<`, the `le` codes `<=`, the `gt` codes `>`, the `ge` codes
/// `>=`, whatever the signedness prefix.
pub proof fn law_condition_meaning(a: i64, b: i64)
    ensures
        cond_of("eq"@) matches Some(c) && compare(c, a, b) == (a == b),
        cond_of("ne"@) matches Some(c) && compare(c, a, b) == (a != b),
        cond_of("slt"@) matches Some(c) && compare(c, a, b) == (a < b),
        cond_of("sle"@) matches Some(c) && compare(c, a, b) == (a <= b),
        cond_of("sgt"@) matches Some(c) && compare(c, a, b) == (a > b),
        cond_of("sge"@) matches Some(c) && compare(c, a, b) == (a >= b),
        cond_of("oeq"@) == cond_of("eq"@),
        cond_of("one"@) == cond_of("ne"@),
        cond_of("ult"@) == cond_of("slt"@) && cond_of("olt"@) == cond_of("slt"@),
        cond_of("ule"@) == cond_of("sle"@) && cond_of("ole"@) == cond_of("sle"@),
        cond_of("ugt"@) == cond_of("sgt"@) && cond_of("ogt"@) == cond_of("sgt"@),
        cond_of("uge"@) == cond_of("sge"@) && cond_of("oge"@) == cond_of("sge"@),
{
    reveal_strlit("eq");
    reveal_strlit("oeq");
    reveal_strlit("ne");
    reveal_strlit("one");
    reveal_strlit("slt");
    reveal_strlit("ult");
    reveal_strlit("olt");
    reveal_strlit("sle");
    reveal_strlit("ule");
    reveal_strlit("ole");
    reveal_strlit("sgt");
    reveal_strlit("ugt");
    reveal_strlit("ogt");
    reveal_strlit("sge");
    reveal_strlit("uge");
    reveal_strlit("oge");
    assert("eq"@.len() == 2 && "eq"@[0] == 'e' && "eq"@[1] == 'q');
    assert("oeq"@.len() == 3 && "oeq"@[0] == 'o' && "oeq"@[1] == 'e' && "oeq"@[2] == 'q');
    assert("ne"@.len() == 2 && "ne"@[0] == 'n' && "ne"@[1] == 'e');
    assert("one"@.len() == 3 && "one"@[0] == 'o' && "one"@[1] == 'n' && "one"@[2] == 'e');
    assert("slt"@.len() == 3 && "slt"@[0] == 's' && "slt"@[1] == 'l' && "slt"@[2] == 't');
    assert("ult"@.len() == 3 && "ult"@[0] == 'u' && "ult"@[1] == 'l' && "ult"@[2] == 't');
    assert("olt"@.len() == 3 && "olt"@[0] == 'o' && "olt"@[1] == 'l' && "olt"@[2] == 't');
    assert("sle"@.len() == 3 && "sle"@[0] == 's' && "sle"@[1] == 'l' && "sle"@[2] == 'e');
    assert("ule"@.len() == 3 && "ule"@[0] == 'u' && "ule"@[1] == 'l' && "ule"@[2] == 'e');
    assert("ole"@.len() == 3 && "ole"@[0] == 'o' && "ole"@[1] == 'l' && "ole"@[2] == 'e');
    assert("sgt"@.len() == 3 && "sgt"@[0] == 's' && "sgt"@[1] == 'g' && "sgt"@[2] == 't');
    assert("ugt"@.len() == 3 && "ugt"@[0] == 'u' && "ugt"@[1] == 'g' && "ugt"@[2] == 't');
    assert("ogt"@.len() == 3 && "ogt"@[0] == 'o' && "ogt"@[1] == 'g' && "ogt"@[2] == 't');
    assert("sge"@.len() == 3 && "sge"@[0] == 's' && "sge"@[1] == 'g' && "sge"@[2] == 'e');
    assert("uge"@.len() == 3 && "uge"@[0] == 'u' && "uge"@[1] == 'g' && "uge"@[2] == 'e');
    assert("oge"@.len() == 3 && "oge"@[0] == 'o' && "oge"@[1] == 'g' && "oge"@[2] == 'e');
}

} // verus!
