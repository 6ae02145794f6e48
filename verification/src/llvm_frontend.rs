use vstd::prelude::*;
use vstd::hash_map::StringHashMap;
use vstd::hash_set::StringHashSet;
use crate::chars::{
    chars_of, lemma_find_from_occurs, find_chars, find_from, last_word, last_word_of, parse_i64, parse_i64_of, split_char,
    split_chars, string_from, sub_chars, trim, trim_chars, trim_end_char, trim_end_char_of,
    trim_start_char, trim_start_char_of,
};
use crate::ir::basic_block::{BasicBlock, BlockModel, inst_models};
use crate::ir::function::{Function, FunctionModel, block_models, string_views};
use crate::ir::module::{Module, ModuleModel, function_models};
use crate::ir::value::{BinaryOp, CompareCondition, Inst, Instruction, ValueType, arg_models, lemma_arg_models};
use crate::passes::cse::names_of;
use crate::text::{push_str, string_eq_str, string_of};

verus! {

broadcast use vstd::std_specs::vec::group_vec_axioms;

/// A line that starts a block: its label.
pub const LABEL_RE: &'static str = r"^([A-Za-z0-9_.$]+):\s*(;.*)?$";

/// A stack slot: its register.
pub const ALLOCA_RE: &'static str = r"^%([A-Za-z0-9_.$]+)\s*=\s*alloca\b";

/// A load from a stack slot: destination and slot.
pub const LOAD_RE: &'static str = r"^%([A-Za-z0-9_.$]+)\s*=\s*load\s+[^,]+,\s*ptr\s+%([A-Za-z0-9_.$]+)";

/// A store to a stack slot: value and slot.
pub const STORE_RE: &'static str = r"^store\s+[A-Za-z0-9_]+\s+(.+?),\s*ptr\s+%([A-Za-z0-9_.$]+)";

/// Arithmetic: destination, opcode and operands.
pub const BINOP_RE: &'static str = r"^%([A-Za-z0-9_.$]+)\s*=\s*(add|sub|mul|sdiv|udiv|fadd|fsub|fmul|fdiv)\b(?:\s+\w+)*\s+[A-Za-z0-9_]+\s+(.+?),\s*(.+)$";

/// A comparison: destination, condition and operands.
pub const ICMP_RE: &'static str = r"^%([A-Za-z0-9_.$]+)\s*=\s*[fi]cmp\s+(\w+)\s+[A-Za-z0-9_]+\s+(.+?),\s*(.+)$";

/// A conversion that keeps the value: destination, kind and source.
pub const PASSTHROUGH_RE: &'static str = r"^%([A-Za-z0-9_.$]+)\s*=\s*(sext|zext|trunc|bitcast|fptosi|sitofp|fpext|fptrunc)\b.*\s%([A-Za-z0-9_.$]+)\s+to\b";

/// A conditional branch: condition register and both labels.
pub const BR_COND_RE: &'static str = r"^br\s+i1\s+%([A-Za-z0-9_.$]+),\s*label\s+%([A-Za-z0-9_.$]+),\s*label\s+%([A-Za-z0-9_.$]+)";

/// An unconditional branch: its label.
pub const BR_UNCOND_RE: &'static str = r"^br\s+label\s+%([A-Za-z0-9_.$]+)";

/// A return of a value: the value.
pub const RET_VAL_RE: &'static str = r"^ret\s+[A-Za-z0-9_]+\s+(.+)$";

/// A return without a value.
pub const RET_VOID_RE: &'static str = r"^ret\s+void\b";

/// A call with scalar arguments: optional destination, return type, callee and arguments.
pub const CALL_RE: &'static str = r"^(?:%([A-Za-z0-9_.$]+)\s*=\s*)?(?:tail\s+|musttail\s+|notail\s+)?call\s+(?:\w+\s+)*?(void|i1|i8|i16|i32|i64|i128|float|double|ptr)\s+@([A-Za-z0-9_.$]+)\s*\(([^)]*)\)";

/// The start of a function definition, up to the function's name.
pub const DEFINE_HEAD: &'static str = r"(?m)^define[^@]*@";

/// The rest of a function definition's first line after its name: the parameter list and
/// the opening brace.
pub const DEFINE_TAIL: &'static str = r"\s*\(([^)]*)\)[^\{]*\{";

/// The return type in a definition's first line.
pub const RET_TYPE_RE: &'static str = r"^define\s+\S*\s*([A-Za-z][A-Za-z0-9]*)\b";

/// A parameter register.
pub const PARAM_RE: &'static str = r"%([A-Za-z0-9_.$]+)";

/// The name of a defined function.
pub const ENTRY_RE: &'static str = r"(?m)^define[^@]*@([A-Za-z0-9_.$]+)\s*\(";

/// The groups of the leftmost match of `pattern` in `text`, group 0 being the whole match
/// and `None` a group that took no part; `None` when nothing matches or the pattern does
/// not compile.
pub uninterp spec fn regex_captures(pattern: Seq<char>, text: Seq<char>) -> Option<Seq<Option<Seq<char>>>>;

/// The characters of optional strings.
pub open spec fn group_views(v: Seq<Option<String>>) -> Seq<Option<Seq<char>>> {
    v.map_values(|g: Option<String>| match g {
        Some(s) => Some(s@),
        None => None,
    })
}

/// `regex::Regex::new(pattern)` and, when it compiles, `Regex::captures(text)`, each group
/// taken by its text (`Captures::iter`, `Match::as_str`). Claimed: the result is
/// `regex_captures` of the two arguments; nothing is claimed of what that is.
#[verifier::external_body]
fn captures(pattern: &str, text: &str) -> (r: Option<Vec<Option<String>>>)
    ensures
        match r {
            Some(v) => regex_captures(pattern@, text@) == Some(group_views(v@)),
            None => regex_captures(pattern@, text@) is None,
        },
{
    match regex::Regex::new(pattern) {
        Ok(re) => re.captures(text).map(|c| c.iter().map(|m| m.map(|m| m.as_str().to_string())).collect()),
        Err(_) => None,
    }
}

/// The text after the leftmost match of `pattern` in `text`; `None` when nothing matches or
/// the pattern does not compile.
pub uninterp spec fn regex_after_match(pattern: Seq<char>, text: Seq<char>) -> Option<Seq<char>>;

/// `regex::Regex::new(pattern)` and, when it compiles, `Regex::find(text)`, giving the text
/// from the end of the match on. Claimed: the result is `regex_after_match` of the two
/// arguments; nothing is claimed of what that is.
#[verifier::external_body]
fn after_match(pattern: &str, text: &str) -> (r: Option<String>)
    ensures
        match r {
            Some(v) => regex_after_match(pattern@, text@) == Some(v@),
            None => regex_after_match(pattern@, text@) is None,
        },
{
    match regex::Regex::new(pattern) {
        Ok(re) => re.find(text).map(|m| text[m.end()..].to_string()),
        Err(_) => None,
    }
}

/// The groups of every successive non-overlapping match of `pattern` in `text`, in order;
/// `None` when the pattern does not compile.
pub uninterp spec fn regex_captures_all(pattern: Seq<char>, text: Seq<char>) -> Option<Seq<Seq<Option<Seq<char>>>>>;

/// `regex::Regex::new(pattern)` and, when it compiles, `Regex::captures_iter(text)`, each
/// match's groups taken by their text. Claimed: the result is `regex_captures_all` of the two
/// arguments; nothing is claimed of what that is.
#[verifier::external_body]
fn captures_all(pattern: &str, text: &str) -> (r: Option<Vec<Vec<Option<String>>>>)
    ensures
        match r {
            Some(v) => regex_captures_all(pattern@, text@) == Some(v@.map_values(|g: Vec<Option<String>>| group_views(g@))),
            None => regex_captures_all(pattern@, text@) is None,
        },
{
    match regex::Regex::new(pattern) {
        Ok(re) => Some(re.captures_iter(text).map(|c| c.iter().map(|m| m.map(|m| m.as_str().to_string())).collect()).collect()),
        Err(_) => None,
    }
}

/// Whether a character means something in a regular expression (`regex_syntax::is_meta_character`).
pub open spec fn is_meta(c: char) -> bool {
    c == '\\' || c == '.' || c == '+' || c == '*' || c == '?' || c == '(' || c == ')' || c == '|'
        || c == '[' || c == ']' || c == '{' || c == '}' || c == '^' || c == '$' || c == '#' || c == '&'
        || c == '-' || c == '~'
}

/// The text with a backslash before every character that means something in a regular
/// expression.
pub open spec fn escaped(s: Seq<char>) -> Seq<char>
    decreases s.len(),
{
    if s.len() == 0 {
        s
    } else if is_meta(s.last()) {
        escaped(s.drop_last()) + seq!['\\', s.last()]
    } else {
        escaped(s.drop_last()).push(s.last())
    }
}

/// `regex::escape`: the text with a backslash before each meta character, as its source
/// writes it out.
#[verifier::external_body]
fn escape(text: &str) -> (r: String)
    ensures
        r@ == escaped(text@),
{
    regex::escape(text)
}

/// The text of group `k`, empty when it took no part.
pub open spec fn group(g: Seq<Option<Seq<char>>>, k: int) -> Seq<char> {
    if 0 <= k < g.len() {
        match g[k] {
            Some(s) => s,
            None => Seq::empty(),
        }
    } else {
        Seq::empty()
    }
}

/// Why a function body could not be read.
#[derive(Debug)]
pub enum FrontendError {
    UndefinedRegister(String),
    UnrecognizedOperand(String),
    UnknownLoadPointer(String),
    UnknownStorePointer(String),
    UnsupportedOpcode(String),
    UnsupportedCondition(String),
    UndefinedCastSource(String),
    UndefinedBranchCondition(String),
    VoidCall(String, String),
    Unsupported(String, String),
    NoDefinition(String),
    UnterminatedBody(String),
    NoFunctions,
    TooManyFunctions,
}

/// Model of a reading failure.
pub enum FrontendFault {
    UndefinedRegister(Seq<char>),
    UnrecognizedOperand(Seq<char>),
    UnknownLoadPointer(Seq<char>),
    UnknownStorePointer(Seq<char>),
    UnsupportedOpcode(Seq<char>),
    UnsupportedCondition(Seq<char>),
    UndefinedCastSource(Seq<char>),
    UndefinedBranchCondition(Seq<char>),
    VoidCall(Seq<char>, Seq<char>),
    Unsupported(Seq<char>, Seq<char>),
    NoDefinition(Seq<char>),
    UnterminatedBody(Seq<char>),
    NoFunctions,
    TooManyFunctions,
}

impl View for FrontendError {
    type V = FrontendFault;

    open spec fn view(&self) -> FrontendFault {
        match self {
            FrontendError::UndefinedRegister(s) => FrontendFault::UndefinedRegister(s@),
            FrontendError::UnrecognizedOperand(s) => FrontendFault::UnrecognizedOperand(s@),
            FrontendError::UnknownLoadPointer(s) => FrontendFault::UnknownLoadPointer(s@),
            FrontendError::UnknownStorePointer(s) => FrontendFault::UnknownStorePointer(s@),
            FrontendError::UnsupportedOpcode(s) => FrontendFault::UnsupportedOpcode(s@),
            FrontendError::UnsupportedCondition(s) => FrontendFault::UnsupportedCondition(s@),
            FrontendError::UndefinedCastSource(s) => FrontendFault::UndefinedCastSource(s@),
            FrontendError::UndefinedBranchCondition(s) => FrontendFault::UndefinedBranchCondition(s@),
            FrontendError::VoidCall(c, f) => FrontendFault::VoidCall(c@, f@),
            FrontendError::Unsupported(f, l) => FrontendFault::Unsupported(f@, l@),
            FrontendError::NoDefinition(n) => FrontendFault::NoDefinition(n@),
            FrontendError::UnterminatedBody(n) => FrontendFault::UnterminatedBody(n@),
            FrontendError::NoFunctions => FrontendFault::NoFunctions,
            FrontendError::TooManyFunctions => FrontendFault::TooManyFunctions,
        }
    }
}

/// The message of a reading failure.
pub open spec fn fault_text(e: FrontendFault) -> Seq<char> {
    match e {
        FrontendFault::UndefinedRegister(r) => "reference to undefined SSA register %"@ + r,
        FrontendFault::UnrecognizedOperand(t) => "unrecognized operand '"@ + t + "'"@,
        FrontendFault::UnknownLoadPointer(p) => "load from unknown pointer register %"@ + p
            + " (no matching alloca)"@,
        FrontendFault::UnknownStorePointer(p) => "store to unknown pointer register %"@ + p
            + " (no matching alloca)"@,
        FrontendFault::UnsupportedOpcode(o) => "unsupported binary opcode '"@ + o + "'"@,
        FrontendFault::UnsupportedCondition(c) => "unsupported icmp/fcmp condition '"@ + c + "'"@,
        FrontendFault::UndefinedCastSource(r) => "type-cast from undefined SSA register %"@ + r,
        FrontendFault::UndefinedBranchCondition(r) => "conditional branch on undefined SSA register %"@
            + r,
        FrontendFault::VoidCall(c, f) => "void call to '"@ + c + "' in function '"@ + f
            + "' — Phase 1 (scalar-only calls) requires a used return value; side-effecting void calls aren't supported yet"@,
        FrontendFault::Unsupported(f, l) => "unsupported LLVM IR construct in function '"@ + f + "': "@
            + l,
        FrontendFault::NoDefinition(n) => "call to '"@ + n
            + "' but no definition found in this file — Phase 1 only supports calls to other functions defined in the same module (no external/libc/std calls)"@,
        FrontendFault::UnterminatedBody(n) => "unterminated function body for '"@ + n + "'"@,
        FrontendFault::NoFunctions => "no function definitions found"@,
        FrontendFault::TooManyFunctions => "more functions pulled in than the text has characters"@,
    }
}

impl FrontendError {
    /// The human-readable message of this error.
    pub fn to_string(&self) -> (r: String)
        ensures
            r@ == fault_text(self@),
    {
        let mut out = String::new();
        match self {
            FrontendError::UndefinedRegister(r) => {
                push_str(&mut out, "reference to undefined SSA register %");
                push_str(&mut out, r.as_str());
            },
            FrontendError::UnrecognizedOperand(t) => {
                push_str(&mut out, "unrecognized operand '");
                push_str(&mut out, t.as_str());
                push_str(&mut out, "'");
            },
            FrontendError::UnknownLoadPointer(p) => {
                push_str(&mut out, "load from unknown pointer register %");
                push_str(&mut out, p.as_str());
                push_str(&mut out, " (no matching alloca)");
            },
            FrontendError::UnknownStorePointer(p) => {
                push_str(&mut out, "store to unknown pointer register %");
                push_str(&mut out, p.as_str());
                push_str(&mut out, " (no matching alloca)");
            },
            FrontendError::UnsupportedOpcode(o) => {
                push_str(&mut out, "unsupported binary opcode '");
                push_str(&mut out, o.as_str());
                push_str(&mut out, "'");
            },
            FrontendError::UnsupportedCondition(c) => {
                push_str(&mut out, "unsupported icmp/fcmp condition '");
                push_str(&mut out, c.as_str());
                push_str(&mut out, "'");
            },
            FrontendError::UndefinedCastSource(r) => {
                push_str(&mut out, "type-cast from undefined SSA register %");
                push_str(&mut out, r.as_str());
            },
            FrontendError::UndefinedBranchCondition(r) => {
                push_str(&mut out, "conditional branch on undefined SSA register %");
                push_str(&mut out, r.as_str());
            },
            FrontendError::VoidCall(c, f) => {
                push_str(&mut out, "void call to '");
                push_str(&mut out, c.as_str());
                push_str(&mut out, "' in function '");
                push_str(&mut out, f.as_str());
                push_str(
                    &mut out,
                    "' — Phase 1 (scalar-only calls) requires a used return value; side-effecting void calls aren't supported yet",
                );
            },
            FrontendError::Unsupported(f, l) => {
                push_str(&mut out, "unsupported LLVM IR construct in function '");
                push_str(&mut out, f.as_str());
                push_str(&mut out, "': ");
                push_str(&mut out, l.as_str());
            },
            FrontendError::NoDefinition(n) => {
                push_str(&mut out, "call to '");
                push_str(&mut out, n.as_str());
                push_str(
                    &mut out,
                    "' but no definition found in this file — Phase 1 only supports calls to other functions defined in the same module (no external/libc/std calls)",
                );
            },
            FrontendError::UnterminatedBody(n) => {
                push_str(&mut out, "unterminated function body for '");
                push_str(&mut out, n.as_str());
                push_str(&mut out, "'");
            },
            FrontendError::NoFunctions => {
                push_str(&mut out, "no function definitions found");
            },
            FrontendError::TooManyFunctions => {
                push_str(&mut out, "more functions pulled in than the text has characters");
            },
        }
        out
    }
}

/// The arithmetic operator an LLVM opcode stands for.
pub open spec fn binop_of(opcode: Seq<char>) -> Option<BinaryOp> {
    if opcode == "add"@ || opcode == "fadd"@ {
        Some(BinaryOp::Add)
    } else if opcode == "sub"@ || opcode == "fsub"@ {
        Some(BinaryOp::Sub)
    } else if opcode == "mul"@ || opcode == "fmul"@ {
        Some(BinaryOp::Mul)
    } else if opcode == "sdiv"@ || opcode == "udiv"@ || opcode == "fdiv"@ {
        Some(BinaryOp::Div)
    } else {
        None
    }
}

/// The comparison an LLVM condition code stands for.
pub open spec fn cond_of(cond: Seq<char>) -> Option<CompareCondition> {
    if cond == "eq"@ || cond == "oeq"@ {
        Some(CompareCondition::Eq)
    } else if cond == "ne"@ || cond == "one"@ {
        Some(CompareCondition::Ne)
    } else if cond == "slt"@ || cond == "ult"@ || cond == "olt"@ {
        Some(CompareCondition::Lt)
    } else if cond == "sle"@ || cond == "ule"@ || cond == "ole"@ {
        Some(CompareCondition::Le)
    } else if cond == "sgt"@ || cond == "ugt"@ || cond == "ogt"@ {
        Some(CompareCondition::Gt)
    } else if cond == "sge"@ || cond == "uge"@ || cond == "oge"@ {
        Some(CompareCondition::Ge)
    } else {
        None
    }
}

/// The value type an LLVM type name stands for.
pub open spec fn type_of(ty: Seq<char>) -> ValueType {
    if ty == "void"@ {
        ValueType::Void
    } else if ty == "float"@ || ty == "double"@ {
        ValueType::Float
    } else {
        ValueType::Int
    }
}

/// Whether the float reader can give `r` for a token with the characters `t`.
pub open spec fn may_read<F: Fn(String) -> Option<i64>>(f: F, t: Seq<char>, r: Option<i64>) -> bool {
    exists|s: String| s@ == t && #[trigger] call_ensures(f, (s,), r)
}

/// What the float reader gives for a token: the one result its calls can have.
pub open spec fn float_reading<F: Fn(String) -> Option<i64>>(f: F, t: Seq<char>) -> Option<i64> {
    choose|r: Option<i64>| #[trigger] may_read(f, t, r)
}

/// The float reader can read any token, and gives equal tokens equal results.
pub open spec fn reads_floats<F: Fn(String) -> Option<i64>>(f: F) -> bool {
    &&& forall|s: String| #[trigger] f.requires((s,))
    &&& forall|s1: String, s2: String, r1: Option<i64>, r2: Option<i64>|
        s1@ == s2@ && #[trigger] call_ensures(f, (s1,), r1) && #[trigger] call_ensures(f, (s2,), r2)
            ==> r1 == r2
}

/// The register names of the SSA map, with their trees.
pub open spec fn tree_map(m: Map<Seq<char>, Instruction>) -> Map<Seq<char>, Inst> {
    m.map_values(|i: Instruction| i@)
}

/// An operand as the IR reads it: after trimming and dropping trailing commas, a `%register`
/// holding a tree, an integer, a float (by `fl`), or `true` or `false`.
pub open spec fn resolve(tok: Seq<char>, ssa: Map<Seq<char>, Inst>, fl: spec_fn(Seq<char>) -> Option<i64>) -> Result<
    Inst,
    FrontendFault,
> {
    let t = trim_end_char(trim(tok), ',');
    if t.len() > 0 && t[0] == '%' {
        let reg = trim_start_char(t, '%');
        if ssa.contains_key(reg) {
            Ok(ssa[reg])
        } else {
            Err(FrontendFault::UndefinedRegister(reg))
        }
    } else {
        match parse_i64(t) {
            Some(i) => Ok(Inst::Constant { value: i }),
            None => match fl(t) {
                Some(v) => Ok(Inst::Constant { value: v }),
                None => if t == "true"@ {
                    Ok(Inst::Constant { value: 1 })
                } else if t == "false"@ {
                    Ok(Inst::Constant { value: 0 })
                } else {
                    Err(FrontendFault::UnrecognizedOperand(t))
                },
            },
        }
    }
}

/// The operands of a call, from its comma-separated pieces, each the last word of the
/// trimmed piece; the first failure stops.
pub open spec fn resolve_args(
    pieces: Seq<Seq<char>>,
    ssa: Map<Seq<char>, Inst>,
    fl: spec_fn(Seq<char>) -> Option<i64>,
) -> Result<Seq<Inst>, FrontendFault>
    decreases pieces.len(),
{
    if pieces.len() == 0 {
        Ok(Seq::empty())
    } else {
        match resolve(last_word(trim(pieces[0])), ssa, fl) {
            Ok(a) => match resolve_args(pieces.drop_first(), ssa, fl) {
                Ok(rest) => Ok(seq![a] + rest),
                Err(e) => Err(e),
            },
            Err(e) => Err(e),
        }
    }
}

/// What a function body's reader holds between lines.
pub struct ParseState {
    pub ssa: Map<Seq<char>, Inst>,
    pub allocas: Map<Seq<char>, Seq<char>>,
    pub blocks: Seq<BlockModel>,
    pub current: BlockModel,
}

/// The state with an instruction appended to the current block.
pub open spec fn emit(st: ParseState, i: Inst) -> ParseState {
    ParseState { current: BlockModel { name: st.current.name, insts: st.current.insts.push(i) }, ..st }
}

/// The line, trimmed and without a trailing ` ; ` comment, unless it is blank or a comment.
pub open spec fn clean_line(raw: Seq<char>) -> Option<Seq<char>> {
    let full = trim(raw);
    if full.len() == 0 {
        None
    } else {
        let line = match find_from(full, seq![' ', ';', ' '], 0) {
            Some(idx) => trim(full.subrange(0, idx)),
            None => full,
        };
        if line.len() == 0 || line[0] == ';' {
            None
        } else {
            Some(line)
        }
    }
}

/// A new block starts: the current one is kept when it has instructions or is the entry.
pub open spec fn label_step(st: ParseState, name: Seq<char>) -> ParseState {
    let blocks = if st.current.insts.len() > 0 || st.current.name == "entry"@ {
        st.blocks.push(st.current)
    } else {
        st.blocks
    };
    ParseState { blocks, current: BlockModel { name, insts: Seq::empty() }, ..st }
}

/// A call: its operands, then its destination, which a call must have.
pub open spec fn call_step(
    st: ParseState,
    g: Seq<Option<Seq<char>>>,
    fname: Seq<char>,
    fl: spec_fn(Seq<char>) -> Option<i64>,
) -> Result<ParseState, FrontendFault> {
    let callee = group(g, 3);
    let arglist = group(g, 4);
    let args = if trim(arglist).len() == 0 {
        Ok(Seq::empty())
    } else {
        resolve_args(split_char(arglist, ','), st.ssa, fl)
    };
    match args {
        Err(e) => Err(e),
        Ok(a) => if 1 < g.len() && g[1] is Some {
            Ok(
                ParseState {
                    ssa: st.ssa.insert(g[1]->0, Inst::Call { function_name: callee, args: a }),
                    ..st
                },
            )
        } else {
            Err(FrontendFault::VoidCall(callee, fname))
        },
    }
}

/// One cleaned line, given what each of the line patterns matched in it (`m`, in the order
/// of `line_matches`): the first form that matched decides.
pub open spec fn parse_matched(
    st: ParseState,
    m: Seq<Option<Seq<Option<Seq<char>>>>>,
    line: Seq<char>,
    fname: Seq<char>,
    fl: spec_fn(Seq<char>) -> Option<i64>,
) -> Result<ParseState, FrontendFault> {
    if let Some(g) = m[0] {
        Ok(label_step(st, group(g, 1)))
    } else if let Some(g) = m[1] {
        Ok(ParseState { allocas: st.allocas.insert(group(g, 1), group(g, 1)), ..st })
    } else if let Some(g) = m[2] {
        let ptr = group(g, 2);
        if st.allocas.contains_key(ptr) {
            Ok(ParseState { ssa: st.ssa.insert(group(g, 1), Inst::Variable { name: st.allocas[ptr] }), ..st })
        } else {
            Err(FrontendFault::UnknownLoadPointer(ptr))
        }
    } else if let Some(g) = m[3] {
        let ptr = group(g, 2);
        if st.allocas.contains_key(ptr) {
            match resolve(group(g, 1), st.ssa, fl) {
                Ok(v) => Ok(emit(st, Inst::Store { var_name: st.allocas[ptr], value: Box::new(v) })),
                Err(e) => Err(e),
            }
        } else {
            Err(FrontendFault::UnknownStorePointer(ptr))
        }
    } else if let Some(g) = m[4] {
        match binop_of(group(g, 2)) {
            None => Err(FrontendFault::UnsupportedOpcode(group(g, 2))),
            Some(op) => match resolve(group(g, 3), st.ssa, fl) {
                Err(e) => Err(e),
                Ok(l) => match resolve(group(g, 4), st.ssa, fl) {
                    Err(e) => Err(e),
                    Ok(r) => Ok(
                        ParseState {
                            ssa: st.ssa.insert(
                                group(g, 1),
                                Inst::BinaryOp { op, lhs: Box::new(l), rhs: Box::new(r) },
                            ),
                            ..st
                        },
                    ),
                },
            },
        }
    } else if let Some(g) = m[5] {
        match cond_of(group(g, 2)) {
            None => Err(FrontendFault::UnsupportedCondition(group(g, 2))),
            Some(c) => match resolve(group(g, 3), st.ssa, fl) {
                Err(e) => Err(e),
                Ok(l) => match resolve(group(g, 4), st.ssa, fl) {
                    Err(e) => Err(e),
                    Ok(r) => Ok(
                        ParseState {
                            ssa: st.ssa.insert(
                                group(g, 1),
                                Inst::Compare { condition: c, lhs: Box::new(l), rhs: Box::new(r) },
                            ),
                            ..st
                        },
                    ),
                },
            },
        }
    } else if let Some(g) = m[6] {
        let src = group(g, 3);
        if st.ssa.contains_key(src) {
            Ok(ParseState { ssa: st.ssa.insert(group(g, 1), st.ssa[src]), ..st })
        } else {
            Err(FrontendFault::UndefinedCastSource(src))
        }
    } else if let Some(g) = m[7] {
        let reg = group(g, 1);
        if st.ssa.contains_key(reg) {
            Ok(
                emit(
                    st,
                    Inst::Branch {
                        condition: Box::new(st.ssa[reg]),
                        then_label: group(g, 2),
                        else_label: group(g, 3),
                    },
                ),
            )
        } else {
            Err(FrontendFault::UndefinedBranchCondition(reg))
        }
    } else if let Some(g) = m[8] {
        Ok(emit(st, Inst::Jump { label: group(g, 1) }))
    } else if let Some(g) = m[9] {
        match resolve(group(g, 1), st.ssa, fl) {
            Ok(v) => Ok(emit(st, Inst::Return { value: Some(Box::new(v)) })),
            Err(e) => Err(e),
        }
    } else if m[10] is Some {
        Ok(emit(st, Inst::Return { value: None }))
    } else if let Some(g) = m[11] {
        call_step(st, g, fname, fl)
    } else {
        Err(FrontendFault::Unsupported(fname, line))
    }
}

/// What each line pattern matches in a line, in the order in which they are tried.
pub open spec fn line_matches(line: Seq<char>) -> Seq<Option<Seq<Option<Seq<char>>>>> {
    seq![
        regex_captures(LABEL_RE@, line),
        regex_captures(ALLOCA_RE@, line),
        regex_captures(LOAD_RE@, line),
        regex_captures(STORE_RE@, line),
        regex_captures(BINOP_RE@, line),
        regex_captures(ICMP_RE@, line),
        regex_captures(PASSTHROUGH_RE@, line),
        regex_captures(BR_COND_RE@, line),
        regex_captures(BR_UNCOND_RE@, line),
        regex_captures(RET_VAL_RE@, line),
        regex_captures(RET_VOID_RE@, line),
        regex_captures(CALL_RE@, line),
    ]
}

/// One cleaned line: the first of the recognized forms that matches decides.
pub open spec fn parse_line(
    st: ParseState,
    line: Seq<char>,
    fname: Seq<char>,
    fl: spec_fn(Seq<char>) -> Option<i64>,
) -> Result<ParseState, FrontendFault> {
    parse_matched(st, line_matches(line), line, fname, fl)
}

/// The groups of each match, by their text.
pub open spec fn match_views(m: Seq<Option<Vec<Option<String>>>>) -> Seq<Option<Seq<Option<Seq<char>>>>> {
    m.map_values(|o: Option<Vec<Option<String>>>| match o {
        Some(v) => Some(group_views(v@)),
        None => None,
    })
}

/// The lines of a body read in order; the first failure stops.
pub open spec fn parse_lines(
    st: ParseState,
    lines: Seq<Seq<char>>,
    fname: Seq<char>,
    fl: spec_fn(Seq<char>) -> Option<i64>,
) -> Result<ParseState, FrontendFault>
    decreases lines.len(),
{
    if lines.len() == 0 {
        Ok(st)
    } else {
        match clean_line(lines[0]) {
            None => parse_lines(st, lines.drop_first(), fname, fl),
            Some(l) => match parse_line(st, l, fname, fl) {
                Ok(s2) => parse_lines(s2, lines.drop_first(), fname, fl),
                Err(e) => Err(e),
            },
        }
    }
}

/// The parameters as registers: each bound to the given constant, or, without one, to a
/// variable of its own name.
pub open spec fn param_registers(params: Seq<Seq<char>>, value: Option<i64>) -> Map<Seq<char>, Inst>
    decreases params.len(),
{
    if params.len() == 0 {
        Map::empty()
    } else {
        param_registers(params.drop_last(), value).insert(
            params.last(),
            match value {
                Some(v) => Inst::Constant { value: v },
                None => Inst::Variable { name: params.last() },
            },
        )
    }
}

/// The reader's state before the first line.
pub open spec fn start_state(params: Seq<Seq<char>>, value: Option<i64>) -> ParseState {
    ParseState {
        ssa: param_registers(params, value),
        allocas: Map::empty(),
        blocks: Seq::empty(),
        current: BlockModel { name: "entry"@, insts: Seq::empty() },
    }
}

/// The blocks once the body is read: the last block is kept when it has instructions or
/// when it would be the only one.
pub open spec fn finish_blocks(st: ParseState) -> Seq<BlockModel> {
    if st.current.insts.len() > 0 || st.blocks.len() == 0 {
        st.blocks.push(st.current)
    } else {
        st.blocks
    }
}

/// The function a body reads as.
pub open spec fn parse_body(
    name: Seq<char>,
    return_type: ValueType,
    params: Seq<Seq<char>>,
    lines: Seq<Seq<char>>,
    value: Option<i64>,
    fl: spec_fn(Seq<char>) -> Option<i64>,
) -> Result<FunctionModel, FrontendFault> {
    match parse_lines(start_state(params, value), lines, name, fl) {
        Ok(st) => Ok(FunctionModel { name, return_type, blocks: finish_blocks(st), params }),
        Err(e) => Err(e),
    }
}

/// Float reading with `f`, token by token.
pub open spec fn readings<F: Fn(String) -> Option<i64>>(f: F) -> spec_fn(Seq<char>) -> Option<i64> {
    |t: Seq<char>| float_reading(f, t)
}

/// A call of a float reader that reads all tokens alike gives its reading.
pub proof fn lemma_float_call<F: Fn(String) -> Option<i64>>(f: F, s: String, r: Option<i64>)
    requires
        reads_floats(f),
        call_ensures(f, (s,), r),
    ensures
        r == float_reading(f, s@),
{
    assert(may_read(f, s@, r));
    let r2 = float_reading(f, s@);
    assert(may_read(f, s@, r2));
    let s2 = choose|s2: String| s2@ == s@ && #[trigger] call_ensures(f, (s2,), r2);
    assert(call_ensures(f, (s2,), r2));
}

/// The arithmetic operator an LLVM opcode stands for.
pub fn map_binop(opcode: &str) -> (r: Option<BinaryOp>)
    ensures
        r == binop_of(opcode@),
{
    if crate::text::str_eq(opcode, "add") || crate::text::str_eq(opcode, "fadd") {
        Some(BinaryOp::Add)
    } else if crate::text::str_eq(opcode, "sub") || crate::text::str_eq(opcode, "fsub") {
        Some(BinaryOp::Sub)
    } else if crate::text::str_eq(opcode, "mul") || crate::text::str_eq(opcode, "fmul") {
        Some(BinaryOp::Mul)
    } else if crate::text::str_eq(opcode, "sdiv") || crate::text::str_eq(opcode, "udiv")
        || crate::text::str_eq(opcode, "fdiv") {
        Some(BinaryOp::Div)
    } else {
        None
    }
}

/// The comparison an LLVM condition code stands for.
pub fn map_cmp_cond(cond: &str) -> (r: Option<CompareCondition>)
    ensures
        r == cond_of(cond@),
{
    if crate::text::str_eq(cond, "eq") || crate::text::str_eq(cond, "oeq") {
        Some(CompareCondition::Eq)
    } else if crate::text::str_eq(cond, "ne") || crate::text::str_eq(cond, "one") {
        Some(CompareCondition::Ne)
    } else if crate::text::str_eq(cond, "slt") || crate::text::str_eq(cond, "ult")
        || crate::text::str_eq(cond, "olt") {
        Some(CompareCondition::Lt)
    } else if crate::text::str_eq(cond, "sle") || crate::text::str_eq(cond, "ule")
        || crate::text::str_eq(cond, "ole") {
        Some(CompareCondition::Le)
    } else if crate::text::str_eq(cond, "sgt") || crate::text::str_eq(cond, "ugt")
        || crate::text::str_eq(cond, "ogt") {
        Some(CompareCondition::Gt)
    } else if crate::text::str_eq(cond, "sge") || crate::text::str_eq(cond, "uge")
        || crate::text::str_eq(cond, "oge") {
        Some(CompareCondition::Ge)
    } else {
        None
    }
}

/// The value type an LLVM type name stands for (every integer width is `Int`).
pub fn map_llvm_type(ty: &str) -> (r: ValueType)
    ensures
        r == type_of(ty@),
{
    if crate::text::str_eq(ty, "void") {
        ValueType::Void
    } else if crate::text::str_eq(ty, "float") || crate::text::str_eq(ty, "double") {
        ValueType::Float
    } else {
        ValueType::Int
    }
}

/// A register name without its leading `%` signs.
pub fn strip_percent(tok: &str) -> (r: String)
    ensures
        r@ == trim_start_char(tok@, '%'),
{
    let cs = chars_of(tok);
    let t = trim_start_char_of(cs.as_slice(), '%');
    string_from(t.as_slice())
}

/// The text of group `k`.
fn group_text(g: &Vec<Option<String>>, k: usize) -> (r: String)
    ensures
        r@ == group(group_views(g@), k as int),
{
    if k < g.len() {
        match &g[k] {
            Some(s) => s.clone(),
            None => String::new(),
        }
    } else {
        String::new()
    }
}

/// Reads an operand: a `%register` holding a tree, an integer, a float (by `read_float`),
/// or `true` or `false`.
pub fn resolve_operand<F: Fn(String) -> Option<i64>>(
    tok: &str,
    ssa: &StringHashMap<Instruction>,
    read_float: &F,
) -> (r: Result<Instruction, FrontendError>)
    requires
        reads_floats(*read_float),
    ensures
        match resolve(tok@, tree_map(ssa@), readings(*read_float)) {
            Ok(i) => r matches Ok(x) && x@ == i,
            Err(e) => r matches Err(x) && x@ == e,
        },
{
    let cs = chars_of(tok);
    let trimmed = trim_chars(cs.as_slice());
    let t = trim_end_char_of(trimmed.as_slice(), ',');
    if t.len() > 0 && t[0] == '%' {
        let reg = string_from(trim_start_char_of(t.as_slice(), '%').as_slice());
        return match ssa.get(reg.as_str()) {
            Some(i) => Ok(i.copy()),
            None => Err(FrontendError::UndefinedRegister(reg)),
        };
    }
    match parse_i64_of(t.as_slice()) {
        Some(i) => {
            return Ok(Instruction::Constant { value: i });
        },
        None => {},
    }
    let text = string_from(t.as_slice());
    let ghost tv = text@;
    let fr = read_float(text);
    proof {
        lemma_float_call(*read_float, text, fr);
    }
    match fr {
        Some(v) => Ok(Instruction::Constant { value: v }),
        None => {
            let text = string_from(t.as_slice());
            if string_eq_str(&text, "true") {
                Ok(Instruction::Constant { value: 1 })
            } else if string_eq_str(&text, "false") {
                Ok(Instruction::Constant { value: 0 })
            } else {
                Err(FrontendError::UnrecognizedOperand(text))
            }
        },
    }
}

/// The working state of a function body's reader.
pub struct BodyReader {
    ssa: StringHashMap<Instruction>,
    allocas: StringHashMap<String>,
    blocks: Vec<BasicBlock>,
    current: BasicBlock,
}

impl BodyReader {
    /// The state this reader holds.
    pub closed spec fn state(self) -> ParseState {
        ParseState {
            ssa: tree_map(self.ssa@),
            allocas: names_of(self.allocas@),
            blocks: block_models(self.blocks@),
            current: self.current@,
        }
    }

    /// A reader before the first line of a body, the parameters bound to `param_value` when
    /// it is given, else each to a variable of its own name.
    pub fn new(params: &[String], param_value: Option<i64>) -> (r: Self)
        ensures
            r.state() == start_state(string_views(params@), param_value),
    {
        let r = BodyReader {
            ssa: bind_params(params, param_value),
            allocas: StringHashMap::new(),
            blocks: Vec::new(),
            current: BasicBlock::new(string_of("entry")),
        };
        proof {
            assert(names_of(r.allocas@) =~= Map::<Seq<char>, Seq<char>>::empty());
            assert(block_models(r.blocks@) =~= Seq::<BlockModel>::empty());
        }
        r
    }

    /// The block the next instruction goes to.
    pub fn current_block(&self) -> (r: &BasicBlock)
        ensures
            r@ == self.state().current,
    {
        &self.current
    }

    /// The blocks read so far, the current one kept when it has instructions or would be the
    /// only one.
    pub fn finish(self) -> (r: Vec<BasicBlock>)
        ensures
            block_models(r@) == finish_blocks(self.state()),
    {
        let BodyReader { ssa: _, allocas: _, mut blocks, current } = self;
        if current.instructions.len() > 0 || blocks.len() == 0 {
            let ghost before = blocks@;
            let ghost cm = current@;
            blocks.push(current);
            proof {
                assert(block_models(blocks@) =~= block_models(before).push(cm));
            }
        }
        blocks
    }

    /// Appends an instruction to the current block.
    fn emit(&mut self, i: Instruction)
        ensures
            final(self).state() == emit(old(self).state(), i@),
    {
        self.current.append(i);
    }

    /// Binds a register to a tree.
    fn bind(&mut self, reg: String, i: Instruction)
        ensures
            final(self).state() == (ParseState { ssa: old(self).state().ssa.insert(reg@, i@), ..old(self).state() }),
    {
        let ghost before = self.ssa@;
        let ghost key = reg@;
        let ghost im = i@;
        self.ssa.insert(reg, i);
        assert(tree_map(self.ssa@) =~= tree_map(before).insert(key, im));
    }

    /// Reads the operands of a call, from the comma-separated pieces of its argument list.
    fn read_args<F: Fn(String) -> Option<i64>>(&self, arglist: &[char], read_float: &F) -> (r: Result<
        Vec<Box<Instruction>>,
        FrontendError,
    >)
        requires
            reads_floats(*read_float),
        ensures
            match resolve_args(split_char(arglist@, ','), self.state().ssa, readings(*read_float)) {
                Ok(a) => r matches Ok(x) && arg_models(x@) == a,
                Err(e) => r matches Err(x) && x@ == e,
            },
    {
        let pieces = split_chars(arglist, ',');
        let ghost ps = split_char(arglist@, ',');
        let ghost ssa = self.state().ssa;
        let ghost fl = readings(*read_float);
        let mut out: Vec<Box<Instruction>> = Vec::new();
        let mut k: usize = 0;
        proof {
            assert(ps.skip(0) =~= ps);
            lemma_arg_models(out@);
            assert(arg_models(out@) =~= Seq::<Inst>::empty());
        }
        while k < pieces.len()
            invariant
                k <= pieces.len(),
                pieces@.len() == ps.len(),
                ps == split_char(arglist@, ','),
                forall|i: int| 0 <= i < pieces@.len() ==> #[trigger] pieces@[i]@ == ps[i],
                ssa == self.state().ssa,
                fl == readings(*read_float),
                reads_floats(*read_float),
                resolve_args(ps, ssa, fl) == match resolve_args(ps.skip(k as int), ssa, fl) {
                    Ok(rest) => Ok(arg_models(out@) + rest),
                    Err(e) => Err(e),
                },
            decreases pieces.len() - k,
        {
            let piece = trim_chars(pieces[k].as_slice());
            let word = last_word_of(piece.as_slice());
            let text = string_from(word.as_slice());
            proof {
                assert(ps.skip(k as int)[0] == ps[k as int]);
                assert(ps.skip(k as int).drop_first() =~= ps.skip(k + 1));
            }
            match resolve_operand(text.as_str(), &self.ssa, read_float) {
                Ok(a) => {
                    let ghost before = out@;
                    let ghost am = a@;
                    out.push(Box::new(a));
                    proof {
                        lemma_arg_models(out@);
                        lemma_arg_models(before);
                        assert(arg_models(out@) =~= arg_models(before).push(am));
                        match resolve_args(ps.skip(k + 1), ssa, fl) {
                            Ok(rest) => {
                                assert(arg_models(before) + (seq![am] + rest) =~= arg_models(out@) + rest);
                            },
                            Err(_) => {},
                        }
                    }
                },
                Err(e) => {
                    proof {
                        assert(resolve_args(ps.skip(k as int), ssa, fl) == Err::<Seq<Inst>, FrontendFault>(e@));
                    }
                    return Err(e);
                },
            }
            k = k + 1;
        }
        proof {
            assert(ps.skip(k as int) =~= Seq::<Seq<char>>::empty());
            assert(arg_models(out@) + Seq::<Inst>::empty() =~= arg_models(out@));
        }
        Ok(out)
    }

    /// Reads one cleaned line.
    fn read_line<F: Fn(String) -> Option<i64>>(&mut self, line: &[char], fname: &str, read_float: &F) -> (r: Result<
        (),
        FrontendError,
    >)
        requires
            reads_floats(*read_float),
        ensures
            match parse_line(old(self).state(), line@, fname@, readings(*read_float)) {
                Ok(st) => r is Ok && final(self).state() == st,
                Err(e) => r matches Err(x) && x@ == e,
            },
    {
        let text = string_from(line);
        let m = vec![
            captures(LABEL_RE, text.as_str()),
            captures(ALLOCA_RE, text.as_str()),
            captures(LOAD_RE, text.as_str()),
            captures(STORE_RE, text.as_str()),
            captures(BINOP_RE, text.as_str()),
            captures(ICMP_RE, text.as_str()),
            captures(PASSTHROUGH_RE, text.as_str()),
            captures(BR_COND_RE, text.as_str()),
            captures(BR_UNCOND_RE, text.as_str()),
            captures(RET_VAL_RE, text.as_str()),
            captures(RET_VOID_RE, text.as_str()),
            captures(CALL_RE, text.as_str()),
        ];
        proof {
            assert(match_views(m@) =~= line_matches(line@));
        }
        self.read_matched_line(&m, text.as_str(), fname, read_float)
    }

    /// Reads one cleaned line, given what each line pattern matched in it, in the order of
    /// `line_matches`.
    pub fn read_matched_line<F: Fn(String) -> Option<i64>>(
        &mut self,
        m: &Vec<Option<Vec<Option<String>>>>,
        line: &str,
        fname: &str,
        read_float: &F,
    ) -> (r: Result<(), FrontendError>)
        requires
            reads_floats(*read_float),
            m@.len() == 12,
        ensures
            match parse_matched(old(self).state(), match_views(m@), line@, fname@, readings(*read_float)) {
                Ok(st) => r is Ok && final(self).state() == st,
                Err(e) => r matches Err(x) && x@ == e,
            },
    {
        let ghost fl = readings(*read_float);
        let text = string_of(line);
        if let Some(g) = &m[0] {
            let name = group_text(g, 1);
            let mut fresh = BasicBlock::new(name);
            std::mem::swap(&mut fresh, &mut self.current);
            let keep = fresh.instructions.len() > 0 || string_eq_str(&fresh.name, "entry");
            if keep {
                let ghost before = self.blocks@;
                let ghost fm = fresh@;
                self.blocks.push(fresh);
                proof {
                    assert(block_models(self.blocks@) =~= block_models(before).push(fm));
                }
            }
            return Ok(());
        }
        if let Some(g) = &m[1] {
            let reg = group_text(g, 1);
            let ghost before = self.allocas@;
            let ghost key = reg@;
            let copy = reg.clone();
            self.allocas.insert(reg, copy);
            proof {
                assert(names_of(self.allocas@) =~= names_of(before).insert(key, key));
            }
            return Ok(());
        }
        if let Some(g) = &m[2] {
            let dest = group_text(g, 1);
            let ptr = group_text(g, 2);
            let var_name = match self.allocas.get(ptr.as_str()) {
                Some(v) => v.clone(),
                None => {
                    return Err(FrontendError::UnknownLoadPointer(ptr));
                },
            };
            self.bind(dest, Instruction::Variable { name: var_name });
            return Ok(());
        }
        if let Some(g) = &m[3] {
            let value_tok = group_text(g, 1);
            let ptr = group_text(g, 2);
            let var_name = match self.allocas.get(ptr.as_str()) {
                Some(v) => v.clone(),
                None => {
                    return Err(FrontendError::UnknownStorePointer(ptr));
                },
            };
            let value = resolve_operand(value_tok.as_str(), &self.ssa, read_float)?;
            self.emit(Instruction::Store { var_name, value: Box::new(value) });
            return Ok(());
        }
        if let Some(g) = &m[4] {
            let dest = group_text(g, 1);
            let opcode = group_text(g, 2);
            let op = match map_binop(opcode.as_str()) {
                Some(op) => op,
                None => {
                    return Err(FrontendError::UnsupportedOpcode(opcode));
                },
            };
            let lhs = resolve_operand(group_text(g, 3).as_str(), &self.ssa, read_float)?;
            let rhs = resolve_operand(group_text(g, 4).as_str(), &self.ssa, read_float)?;
            self.bind(dest, Instruction::BinaryOp { op, lhs: Box::new(lhs), rhs: Box::new(rhs) });
            return Ok(());
        }
        if let Some(g) = &m[5] {
            let dest = group_text(g, 1);
            let cond_str = group_text(g, 2);
            let cond = match map_cmp_cond(cond_str.as_str()) {
                Some(c) => c,
                None => {
                    return Err(FrontendError::UnsupportedCondition(cond_str));
                },
            };
            let lhs = resolve_operand(group_text(g, 3).as_str(), &self.ssa, read_float)?;
            let rhs = resolve_operand(group_text(g, 4).as_str(), &self.ssa, read_float)?;
            self.bind(dest, Instruction::Compare { condition: cond, lhs: Box::new(lhs), rhs: Box::new(rhs) });
            return Ok(());
        }
        if let Some(g) = &m[6] {
            let dest = group_text(g, 1);
            let src_reg = group_text(g, 3);
            let src = match self.ssa.get(src_reg.as_str()) {
                Some(i) => i.copy(),
                None => {
                    return Err(FrontendError::UndefinedCastSource(src_reg));
                },
            };
            self.bind(dest, src);
            return Ok(());
        }
        if let Some(g) = &m[7] {
            let cond_reg = group_text(g, 1);
            let condition = match self.ssa.get(cond_reg.as_str()) {
                Some(i) => i.copy(),
                None => {
                    return Err(FrontendError::UndefinedBranchCondition(cond_reg));
                },
            };
            self.emit(
                Instruction::Branch {
                    condition: Box::new(condition),
                    then_label: group_text(g, 2),
                    else_label: group_text(g, 3),
                },
            );
            return Ok(());
        }
        if let Some(g) = &m[8] {
            self.emit(Instruction::Jump { label: group_text(g, 1) });
            return Ok(());
        }
        if let Some(g) = &m[9] {
            let value = resolve_operand(group_text(g, 1).as_str(), &self.ssa, read_float)?;
            self.emit(Instruction::Return { value: Some(Box::new(value)) });
            return Ok(());
        }
        if let Some(_) = &m[10] {
            self.emit(Instruction::Return { value: None });
            return Ok(());
        }
        if let Some(g) = &m[11] {
            let function_name = group_text(g, 3);
            let arglist = chars_of(group_text(g, 4).as_str());
            let args = if trim_chars(arglist.as_slice()).len() == 0 {
                proof {
                    lemma_arg_models(Seq::<Box<Instruction>>::empty());
                }
                Vec::new()
            } else {
                self.read_args(arglist.as_slice(), read_float)?
            };
            let has_dest = 1 < g.len() && g[1].is_some();
            if !has_dest {
                return Err(FrontendError::VoidCall(function_name, string_of(fname)));
            }
            let dest = group_text(g, 1);
            self.bind(dest, Instruction::Call { function_name, args });
            return Ok(());
        }
        Err(FrontendError::Unsupported(string_of(fname), text))
    }
}

/// The line, trimmed and without a trailing ` ; ` comment, unless it is blank or a comment.
pub fn clean_line_of(raw: &str) -> (r: Option<Vec<char>>)
    ensures
        match clean_line(raw@) {
            Some(l) => r matches Some(v) && v@ == l,
            None => r is None,
        },
{
    let cs = chars_of(raw);
    let full = trim_chars(cs.as_slice());
    if full.len() == 0 {
        return None;
    }
    let pat = vec![' ', ';', ' '];
    proof {
        assert(pat@ =~= seq![' ', ';', ' ']);
        lemma_find_from_occurs(full@, pat@, 0);
    }
    let line = match find_chars(full.as_slice(), pat.as_slice()) {
        Some(idx) => {
            let head = sub_chars(full.as_slice(), 0, idx);
            trim_chars(head.as_slice())
        },
        None => full,
    };
    if line.len() == 0 || line[0] == ';' {
        None
    } else {
        Some(line)
    }
}

/// Binds each parameter register: to the given constant, or, without one, to a variable of
/// its own name.
fn bind_params(params: &[String], param_value: Option<i64>) -> (r: StringHashMap<Instruction>)
    ensures
        tree_map(r@) == param_registers(string_views(params@), param_value),
{
    let mut ssa: StringHashMap<Instruction> = StringHashMap::new();
    let mut i: usize = 0;
    proof {
        assert(string_views(params@.take(0)) =~= Seq::<Seq<char>>::empty());
        assert(tree_map(ssa@) =~= Map::<Seq<char>, Inst>::empty());
    }
    while i < params.len()
        invariant
            i <= params.len(),
            tree_map(ssa@) == param_registers(string_views(params@.take(i as int)), param_value),
        decreases params.len() - i,
    {
        let p = params[i].clone();
        let inst = match param_value {
            Some(v) => Instruction::Constant { value: v },
            None => Instruction::Variable { name: params[i].clone() },
        };
        let ghost before = ssa@;
        let ghost key = p@;
        let ghost im = inst@;
        ssa.insert(p, inst);
        proof {
            let names = string_views(params@.take(i + 1));
            assert(names.drop_last() =~= string_views(params@.take(i as int)));
            assert(names.last() == params@[i as int]@);
            assert(tree_map(ssa@) =~= tree_map(before).insert(key, im));
        }
        i = i + 1;
    }
    proof {
        assert(params@.take(params@.len() as int) =~= params@);
    }
    ssa
}

/// Reads one function body (the lines between the `{` of its `define` and the matching
/// `}`) into a function with the given name, return type and parameter registers. With
/// `param_value`, every parameter is that constant; without, each is a variable bound at
/// call time. Floats in operands are read by `read_float`.
pub fn parse_function_body<F: Fn(String) -> Option<i64>>(
    fn_name: &str,
    return_type: ValueType,
    params: &[String],
    body_lines: &[String],
    param_value: Option<i64>,
    read_float: &F,
) -> (r: Result<Function, FrontendError>)
    requires
        reads_floats(*read_float),
    ensures
        match parse_body(
            fn_name@,
            return_type,
            string_views(params@),
            string_views(body_lines@),
            param_value,
            readings(*read_float),
        ) {
            Ok(f) => r matches Ok(x) && x@ == f,
            Err(e) => r matches Err(x) && x@ == e,
        },
{
    let ghost fl = readings(*read_float);
    let ghost lines = string_views(body_lines@);
    let ghost fname = fn_name@;
    let ghost st0 = start_state(string_views(params@), param_value);
    let mut reader = BodyReader::new(params, param_value);
    proof {
        assert(lines.skip(0) =~= lines);
    }
    let mut j: usize = 0;
    while j < body_lines.len()
        invariant
            j <= body_lines.len(),
            lines == string_views(body_lines@),
            st0 == start_state(string_views(params@), param_value),
            fname == fn_name@,
            fl == readings(*read_float),
            reads_floats(*read_float),
            parse_lines(st0, lines, fname, fl) == parse_lines(reader.state(), lines.skip(j as int), fname, fl),
        decreases body_lines.len() - j,
    {
        proof {
            assert(lines.skip(j as int)[0] == lines[j as int]);
            assert(lines.skip(j as int).drop_first() =~= lines.skip(j + 1));
        }
        match clean_line_of(body_lines[j].as_str()) {
            None => {},
            Some(line) => {
                let ghost pre = reader.state();
                let res = reader.read_line(line.as_slice(), fn_name, read_float);
                match res {
                    Ok(()) => {},
                    Err(e) => {
                        proof {
                            assert(parse_lines(pre, lines.skip(j as int), fname, fl) == Err::<
                                ParseState,
                                FrontendFault,
                            >(e@));
                        }
                        return Err(e);
                    },
                }
            },
        }
        j = j + 1;
    }
    proof {
        assert(lines.skip(j as int) =~= Seq::<Seq<char>>::empty());
    }
    let blocks = reader.finish();
    let mut names: Vec<String> = Vec::new();
    let mut k: usize = 0;
    while k < params.len()
        invariant
            k <= params.len(),
            string_views(names@) =~= string_views(params@.take(k as int)),
        decreases params.len() - k,
    {
        let ghost before = names@;
        names.push(params[k].clone());
        proof {
            assert(params@.take(k + 1) =~= params@.take(k as int).push(params@[k as int]));
            assert(string_views(names@) =~= string_views(before).push(params@[k as int]@));
            assert(string_views(params@.take(k + 1)) =~= string_views(params@.take(k as int)).push(
                params@[k as int]@,
            ));
        }
        k = k + 1;
    }
    proof {
        assert(params@.take(params@.len() as int) =~= params@);
    }
    Ok(Function { name: string_of(fn_name), return_type, basic_blocks: blocks, params: names })
}

/// The names of the functions an instruction tree calls, at any depth.
pub open spec fn called_names(i: Inst) -> Set<Seq<char>>
    decreases i,
{
    match i {
        Inst::Call { function_name, args } => set![function_name].union(args_called(args)),
        Inst::BinaryOp { lhs, rhs, .. } | Inst::Compare { lhs, rhs, .. } => called_names(*lhs).union(
            called_names(*rhs),
        ),
        Inst::GetElementPtr { base, index } => called_names(*base).union(called_names(*index)),
        Inst::StorePtr { ptr, value } => called_names(*ptr).union(called_names(*value)),
        Inst::Store { value, .. } => called_names(*value),
        Inst::Branch { condition, .. } => called_names(*condition),
        Inst::LoadPtr { ptr } => called_names(*ptr),
        Inst::Return { value } => match value {
            Some(v) => called_names(*v),
            None => Set::empty(),
        },
        Inst::Constant { .. } | Inst::Variable { .. } | Inst::Jump { .. } | Inst::AllocaArray {
            ..
        } => Set::empty(),
    }
}

/// The names of the functions a list of instruction trees calls.
pub open spec fn args_called(s: Seq<Inst>) -> Set<Seq<char>>
    decreases s,
{
    if s.len() == 0 {
        Set::empty()
    } else {
        args_called(s.drop_last()).union(called_names(s.last()))
    }
}

/// Adds to `out` the name of every function the instruction tree calls, at any depth.
pub fn collect_called_functions(inst: &Instruction, out: &mut StringHashSet)
    ensures
        final(out)@ == old(out)@.union(called_names(inst@)),
    decreases inst,
{
    let ghost start = out@;
    match inst {
        Instruction::Call { function_name, args } => {
            out.insert(function_name.clone());
            let ghost pre = out@;
            let ghost ms = arg_models(args@);
            proof {
                lemma_arg_models(args@);
                assert(ms.take(0) =~= Seq::<Inst>::empty());
                assert(pre.union(args_called(ms.take(0))) =~= pre);
            }
            let mut j: usize = 0;
            while j < args.len()
                invariant
                    j <= args.len(),
                    ms == arg_models(args@),
                    *inst == (Instruction::Call { function_name: *function_name, args: *args }),
                    ms.len() == args.len(),
                    forall|k: int| 0 <= k < args.len() ==> #[trigger] ms[k] == args@[k]@,
                    out@ == pre.union(args_called(ms.take(j as int))),
                decreases args.len() - j,
            {
                proof {
                    assert(decreases_to!(args@ => args@[j as int]));
                    assert(decreases_to!(*inst => (*inst)->args));
                }
                let ghost before = out@;
                let arg: &Instruction = &args[j];
                collect_called_functions(arg, out);
                proof {
                    assert(ms.take(j + 1).drop_last() =~= ms.take(j as int));
                    assert(ms.take(j + 1).last() == ms[j as int]);
                    assert(out@ =~= pre.union(args_called(ms.take(j + 1))));
                }
                j = j + 1;
            }
            proof {
                assert(ms.take(args.len() as int) =~= ms);
                assert(out@ =~= start.union(called_names(inst@)));
            }
        },
        Instruction::BinaryOp { lhs, rhs, .. } | Instruction::Compare { lhs, rhs, .. } => {
            collect_called_functions(lhs, out);
            collect_called_functions(rhs, out);
            proof {
                assert(out@ =~= start.union(called_names(inst@)));
            }
        },
        Instruction::GetElementPtr { base, index } => {
            collect_called_functions(base, out);
            collect_called_functions(index, out);
            proof {
                assert(out@ =~= start.union(called_names(inst@)));
            }
        },
        Instruction::StorePtr { ptr, value } => {
            collect_called_functions(ptr, out);
            collect_called_functions(value, out);
            proof {
                assert(out@ =~= start.union(called_names(inst@)));
            }
        },
        Instruction::Store { value, .. } => {
            collect_called_functions(value, out);
        },
        Instruction::Branch { condition, .. } => {
            collect_called_functions(condition, out);
        },
        Instruction::LoadPtr { ptr } => {
            collect_called_functions(ptr, out);
        },
        Instruction::Return { value } => match value {
            Some(v) => {
                collect_called_functions(v, out);
            },
            None => {
                proof {
                    assert(out@ =~= start.union(called_names(inst@)));
                }
            },
        },
        _ => {
            proof {
                assert(out@ =~= start.union(called_names(inst@)));
            }
        },
    }
}

/// Where the brace that closes a body is: scanning from `i` with `depth` braces open, the
/// index at which the count reaches zero.
pub open spec fn closing_brace(s: Seq<char>, i: int, depth: int) -> Option<int>
    decreases s.len() - i,
{
    if i < 0 || i >= s.len() {
        None
    } else if s[i] == '{' {
        closing_brace(s, i + 1, depth + 1)
    } else if s[i] == '}' {
        if depth == 1 {
            Some(i)
        } else {
            closing_brace(s, i + 1, depth - 1)
        }
    } else {
        closing_brace(s, i + 1, depth)
    }
}

/// The closing brace lies inside the text, at or after where the scan started.
pub proof fn lemma_closing_brace_inside(s: Seq<char>, i: int, depth: int)
    ensures
        closing_brace(s, i, depth) matches Some(e) ==> i <= e < s.len(),
    decreases s.len() - i,
{
    if 0 <= i < s.len() {
        if s[i] == '{' {
            lemma_closing_brace_inside(s, i + 1, depth + 1);
        } else if s[i] == '}' {
            lemma_closing_brace_inside(s, i + 1, depth - 1);
        } else {
            lemma_closing_brace_inside(s, i + 1, depth);
        }
    }
}

/// The pattern that finds the definition of the function with the given escaped name.
pub open spec fn define_pattern(escaped_name: Seq<char>) -> Seq<char> {
    DEFINE_HEAD@ + escaped_name + DEFINE_TAIL@
}

/// The register of each match of the parameter pattern, in order.
pub open spec fn param_names(all: Seq<Seq<Option<Seq<char>>>>) -> Seq<Seq<char>> {
    all.map_values(|g: Seq<Option<Seq<char>>>| group(g, 1))
}

/// The function the text defines under `name`: its return type and parameter registers from
/// the definition's first line, its body up to the matching closing brace, read line by line.
pub open spec fn definition(
    text: Seq<char>,
    name: Seq<char>,
    value: Option<i64>,
    fl: spec_fn(Seq<char>) -> Option<i64>,
) -> Result<FunctionModel, FrontendFault> {
    let pat = define_pattern(escaped(name));
    match (regex_captures(pat, text), regex_after_match(pat, text)) {
        (Some(g), Some(rest)) => match closing_brace(rest, 0, 1) {
            None => Err(FrontendFault::UnterminatedBody(name)),
            Some(end) => {
                let ret = match regex_captures(RET_TYPE_RE@, group(g, 0)) {
                    Some(h) => type_of(group(h, 1)),
                    None => ValueType::Int,
                };
                let params = match regex_captures_all(PARAM_RE@, group(g, 1)) {
                    Some(all) => param_names(all),
                    None => Seq::empty(),
                };
                parse_body(name, ret, params, split_char(rest.subrange(0, end), '\n'), value, fl)
            },
        },
        _ => Err(FrontendFault::NoDefinition(name)),
    }
}

/// The index of the brace that closes a body whose opening brace came just before `cs`.
fn find_closing_brace(cs: &[char]) -> (r: Option<usize>)
    ensures
        match closing_brace(cs@, 0, 1) {
            Some(e) => r == Some(e as usize),
            None => r is None,
        },
{
    let mut depth: u128 = 1;
    let mut i: usize = 0;
    while i < cs.len()
        invariant
            i <= cs.len(),
            1 <= depth <= i + 1,
            closing_brace(cs@, 0, 1) == closing_brace(cs@, i as int, depth as int),
        decreases cs.len() - i,
    {
        let c = cs[i];
        if c == '{' {
            depth = depth + 1;
        } else if c == '}' {
            if depth == 1 {
                return Some(i);
            }
            depth = depth - 1;
        }
        i = i + 1;
    }
    None
}

/// The registers of the parameter matches.
fn params_from(all: &Vec<Vec<Option<String>>>) -> (r: Vec<String>)
    ensures
        string_views(r@) == param_names(all@.map_values(|g: Vec<Option<String>>| group_views(g@))),
{
    let ghost gs = all@.map_values(|g: Vec<Option<String>>| group_views(g@));
    let mut out: Vec<String> = Vec::new();
    let mut k: usize = 0;
    while k < all.len()
        invariant
            k <= all.len(),
            gs == all@.map_values(|g: Vec<Option<String>>| group_views(g@)),
            string_views(out@) =~= param_names(gs.take(k as int)),
        decreases all.len() - k,
    {
        let ghost before = out@;
        out.push(group_text(&all[k], 1));
        proof {
            assert(string_views(out@) =~= string_views(before).push(out@[k as int]@));
            assert(param_names(gs.take(k + 1)) =~= param_names(gs.take(k as int)).push(group(gs[k as int], 1)));
        }
        k = k + 1;
    }
    proof {
        assert(gs.take(all.len() as int) =~= gs);
    }
    out
}

/// Finds the `define` of the function `name` in the text and reads it: its return type and
/// parameter registers from the first line, its body up to the matching closing brace. With
/// `bake_param_value`, every parameter is that constant.
pub fn find_and_parse_definition<F: Fn(String) -> Option<i64>>(
    text: &str,
    name: &str,
    bake_param_value: Option<i64>,
    read_float: &F,
) -> (r: Result<Function, FrontendError>)
    requires
        reads_floats(*read_float),
    ensures
        match definition(text@, name@, bake_param_value, readings(*read_float)) {
            Ok(f) => r matches Ok(x) && x@ == f,
            Err(e) => r matches Err(x) && x@ == e,
        },
{
    let mut pattern = string_of(DEFINE_HEAD);
    let esc = escape(name);
    push_str(&mut pattern, esc.as_str());
    push_str(&mut pattern, DEFINE_TAIL);
    proof {
        assert(pattern@ =~= define_pattern(escaped(name@)));
    }
    let g = match captures(pattern.as_str(), text) {
        Some(g) => g,
        None => {
            return Err(FrontendError::NoDefinition(string_of(name)));
        },
    };
    let rest = match after_match(pattern.as_str(), text) {
        Some(rest) => rest,
        None => {
            return Err(FrontendError::NoDefinition(string_of(name)));
        },
    };
    let rest_chars = chars_of(rest.as_str());
    proof {
        lemma_closing_brace_inside(rest_chars@, 0, 1);
    }
    let end = match find_closing_brace(rest_chars.as_slice()) {
        Some(e) => e,
        None => {
            return Err(FrontendError::UnterminatedBody(string_of(name)));
        },
    };
    let header = group_text(&g, 0);
    let return_type = match captures(RET_TYPE_RE, header.as_str()) {
        Some(h) => map_llvm_type(group_text(&h, 1).as_str()),
        None => ValueType::Int,
    };
    let param_list = group_text(&g, 1);
    let params = match captures_all(PARAM_RE, param_list.as_str()) {
        Some(all) => params_from(&all),
        None => Vec::new(),
    };
    let body = sub_chars(rest_chars.as_slice(), 0, end);
    let pieces = split_chars(body.as_slice(), '\n');
    let mut lines: Vec<String> = Vec::new();
    let mut k: usize = 0;
    let ghost ls = split_char(body@, '\n');
    while k < pieces.len()
        invariant
            k <= pieces.len(),
            pieces@.len() == ls.len(),
            forall|i: int| 0 <= i < pieces@.len() ==> #[trigger] pieces@[i]@ == ls[i],
            string_views(lines@) =~= ls.take(k as int),
        decreases pieces.len() - k,
    {
        let ghost before = lines@;
        lines.push(string_from(pieces[k].as_slice()));
        proof {
            assert(string_views(lines@) =~= string_views(before).push(ls[k as int]));
            assert(ls.take(k + 1) =~= ls.take(k as int).push(ls[k as int]));
        }
        k = k + 1;
    }
    proof {
        assert(ls.take(pieces.len() as int) =~= ls);
        assert(string_views(params@) == match regex_captures_all(PARAM_RE@, group(group_views(g@), 1)) {
            Some(all) => param_names(all),
            None => Seq::<Seq<char>>::empty(),
        });
    }
    parse_function_body(name, return_type, params.as_slice(), lines.as_slice(), bake_param_value, read_float)
}

/// The names of the functions an instruction tree calls, in the order they appear, a call
/// before those in its arguments.
pub open spec fn call_order(i: Inst) -> Seq<Seq<char>>
    decreases i,
{
    match i {
        Inst::Call { function_name, args } => seq![function_name] + calls_in_list(args),
        Inst::BinaryOp { lhs, rhs, .. } | Inst::Compare { lhs, rhs, .. } => call_order(*lhs) + call_order(
            *rhs,
        ),
        Inst::GetElementPtr { base, index } => call_order(*base) + call_order(*index),
        Inst::StorePtr { ptr, value } => call_order(*ptr) + call_order(*value),
        Inst::Store { value, .. } => call_order(*value),
        Inst::Branch { condition, .. } => call_order(*condition),
        Inst::LoadPtr { ptr } => call_order(*ptr),
        Inst::Return { value } => match value {
            Some(v) => call_order(*v),
            None => Seq::empty(),
        },
        _ => Seq::empty(),
    }
}

/// The names of the functions a list of instruction trees calls, in order.
pub open spec fn calls_in_list(s: Seq<Inst>) -> Seq<Seq<char>>
    decreases s,
{
    if s.len() == 0 {
        Seq::empty()
    } else {
        calls_in_list(s.drop_last()) + call_order(s.last())
    }
}

/// The names of the functions the blocks call, in order.
pub open spec fn calls_in_blocks(bs: Seq<BlockModel>) -> Seq<Seq<char>>
    decreases bs.len(),
{
    if bs.len() == 0 {
        Seq::empty()
    } else {
        calls_in_blocks(bs.drop_last()) + calls_in_list(bs.last().insts)
    }
}

/// Appends to `out` the names of the functions an instruction tree calls, in order.
fn push_calls(inst: &Instruction, out: &mut Vec<String>)
    ensures
        string_views(final(out)@) == string_views(old(out)@) + call_order(inst@),
    decreases inst,
{
    let ghost start = string_views(out@);
    match inst {
        Instruction::Call { function_name, args } => {
            let ghost b0 = out@;
            out.push(function_name.clone());
            let ghost pre = string_views(out@);
            let ghost ms = arg_models(args@);
            proof {
                assert(pre =~= start.push(function_name@));
                lemma_arg_models(args@);
                assert(ms.take(0) =~= Seq::<Inst>::empty());
            }
            let mut j: usize = 0;
            while j < args.len()
                invariant
                    j <= args.len(),
                    ms == arg_models(args@),
                    *inst == (Instruction::Call { function_name: *function_name, args: *args }),
                    ms.len() == args.len(),
                    forall|k: int| 0 <= k < args.len() ==> #[trigger] ms[k] == args@[k]@,
                    string_views(out@) =~= pre + calls_in_list(ms.take(j as int)),
                decreases args.len() - j,
            {
                proof {
                    assert(decreases_to!(args@ => args@[j as int]));
                    assert(decreases_to!(*inst => (*inst)->args));
                }
                let arg: &Instruction = &args[j];
                push_calls(arg, out);
                proof {
                    assert(ms.take(j + 1).drop_last() =~= ms.take(j as int));
                    assert(ms.take(j + 1).last() == ms[j as int]);
                }
                j = j + 1;
            }
            proof {
                assert(ms.take(args.len() as int) =~= ms);
            }
        },
        Instruction::BinaryOp { lhs, rhs, .. } | Instruction::Compare { lhs, rhs, .. } => {
            push_calls(lhs, out);
            push_calls(rhs, out);
        },
        Instruction::GetElementPtr { base, index } => {
            push_calls(base, out);
            push_calls(index, out);
        },
        Instruction::StorePtr { ptr, value } => {
            push_calls(ptr, out);
            push_calls(value, out);
        },
        Instruction::Store { value, .. } => {
            push_calls(value, out);
        },
        Instruction::Branch { condition, .. } => {
            push_calls(condition, out);
        },
        Instruction::LoadPtr { ptr } => {
            push_calls(ptr, out);
        },
        Instruction::Return { value } => match value {
            Some(v) => {
                push_calls(v, out);
            },
            None => {},
        },
        _ => {},
    }
    proof {
        assert(string_views(out@) =~= start + call_order(inst@));
    }
}

/// The names of the functions a function calls, in order of appearance.
fn calls_of(f: &Function) -> (r: Vec<String>)
    ensures
        string_views(r@) == calls_in_blocks(f@.blocks),
{
    let ghost bms = f@.blocks;
    let mut out: Vec<String> = Vec::new();
    let mut k: usize = 0;
    proof {
        assert(bms.take(0) =~= Seq::<BlockModel>::empty());
        assert(string_views(out@) =~= Seq::<Seq<char>>::empty());
    }
    while k < f.basic_blocks.len()
        invariant
            k <= f.basic_blocks.len(),
            bms == f@.blocks,
            string_views(out@) =~= calls_in_blocks(bms.take(k as int)),
        decreases f.basic_blocks.len() - k,
    {
        let b = &f.basic_blocks[k];
        let ghost ims = b@.insts;
        let ghost pre = string_views(out@);
        let mut j: usize = 0;
        proof {
            assert(ims.take(0) =~= Seq::<Inst>::empty());
        }
        while j < b.instructions.len()
            invariant
                j <= b.instructions.len(),
                ims == inst_models(b.instructions@),
                string_views(out@) =~= pre + calls_in_list(ims.take(j as int)),
            decreases b.instructions.len() - j,
        {
            push_calls(&b.instructions[j], &mut out);
            proof {
                assert(ims.take(j + 1).drop_last() =~= ims.take(j as int));
                assert(ims.take(j + 1).last() == ims[j as int]);
            }
            j = j + 1;
        }
        proof {
            assert(ims.take(b.instructions.len() as int) =~= ims);
            assert(bms.take(k + 1).drop_last() =~= bms.take(k as int));
            assert(bms.take(k + 1).last() == bms[k as int]);
        }
        k = k + 1;
    }
    proof {
        assert(bms.take(f.basic_blocks.len() as int) =~= bms);
    }
    out
}

/// The work list and the names already seen after the names, in order, each one not seen
/// before joining the list.
pub open spec fn enqueue(pending: Seq<Seq<char>>, seen: Set<Seq<char>>, names: Seq<Seq<char>>) -> (
    Seq<Seq<char>>,
    Set<Seq<char>>,
)
    decreases names.len(),
{
    if names.len() == 0 {
        (pending, seen)
    } else {
        let (p, s) = enqueue(pending, seen, names.drop_last());
        if s.contains(names.last()) {
            (p, s)
        } else {
            (p.push(names.last()), s.insert(names.last()))
        }
    }
}

/// The functions pulled in from the work list, the latest name first, each adding the
/// functions it calls that were not seen yet; at most `fuel` of them.
pub open spec fn pull_callees(
    text: Seq<char>,
    pending: Seq<Seq<char>>,
    seen: Set<Seq<char>>,
    done: Seq<FunctionModel>,
    fuel: nat,
    fl: spec_fn(Seq<char>) -> Option<i64>,
) -> Result<Seq<FunctionModel>, FrontendFault>
    decreases fuel,
{
    if pending.len() == 0 {
        Ok(done)
    } else if fuel == 0 {
        Err(FrontendFault::TooManyFunctions)
    } else {
        match definition(text, pending.last(), None, fl) {
            Err(e) => Err(e),
            Ok(f) => {
                let (p, s) = enqueue(pending.drop_last(), seen, calls_in_blocks(f.blocks));
                pull_callees(text, p, s, done.push(f), (fuel - 1) as nat, fl)
            },
        }
    }
}

/// The function a module is read from: the one asked for, else the first defined.
pub open spec fn entry_name(text: Seq<char>, filter: Option<Seq<char>>) -> Option<Seq<char>> {
    match filter {
        Some(f) => Some(f),
        None => match regex_captures(ENTRY_RE@, text) {
            Some(g) => Some(group(g, 1)),
            None => None,
        },
    }
}

/// The module read from LLVM text: the entry function with its parameters bound to `value`,
/// then every function it calls, directly or not, with parameters bound at call time.
pub open spec fn parse_ll(
    text: Seq<char>,
    module_name: Seq<char>,
    value: i64,
    filter: Option<Seq<char>>,
    fl: spec_fn(Seq<char>) -> Option<i64>,
) -> Result<ModuleModel, FrontendFault> {
    match entry_name(text, filter) {
        None => Err(FrontendFault::NoFunctions),
        Some(entry) => match definition(text, entry, Some(value), fl) {
            Err(e) => Err(e),
            Ok(f) => {
                let (p, s) = enqueue(Seq::empty(), set![f.name], calls_in_blocks(f.blocks));
                match pull_callees(text, p, s, seq![f], text.len(), fl) {
                    Ok(fs) => Ok(ModuleModel { name: module_name, functions: fs }),
                    Err(e) => Err(e),
                }
            },
        },
    }
}

/// Adds each name not seen yet to the work list, in order.
fn enqueue_names(pending: &mut Vec<String>, seen: &mut StringHashSet, names: &Vec<String>)
    ensures
        (string_views(final(pending)@), final(seen)@) == enqueue(
            string_views(old(pending)@),
            old(seen)@,
            string_views(names@),
        ),
{
    let ghost p0 = string_views(pending@);
    let ghost s0 = seen@;
    let ghost ns = string_views(names@);
    let mut k: usize = 0;
    proof {
        assert(ns.take(0) =~= Seq::<Seq<char>>::empty());
    }
    while k < names.len()
        invariant
            k <= names.len(),
            ns == string_views(names@),
            (string_views(pending@), seen@) == enqueue(p0, s0, ns.take(k as int)),
        decreases names.len() - k,
    {
        proof {
            assert(ns.take(k + 1).drop_last() =~= ns.take(k as int));
            assert(ns.take(k + 1).last() == names@[k as int]@);
        }
        if !seen.contains(names[k].as_str()) {
            let ghost before = pending@;
            seen.insert(names[k].clone());
            pending.push(names[k].clone());
            proof {
                assert(string_views(pending@) =~= string_views(before).push(names@[k as int]@));
            }
        }
        k = k + 1;
    }
    proof {
        assert(ns.take(names.len() as int) =~= ns);
    }
}

/// Reads a module from LLVM text: the entry function (`fn_filter`, else the first defined)
/// with every parameter bound to `param_value`, then, from a work list, every function it
/// calls, directly or not, with parameters bound at call time. Floats in operands are read by
/// `read_float`.
pub fn parse_ll_text<F: Fn(String) -> Option<i64>>(
    text: &str,
    module_name: &str,
    param_value: i64,
    fn_filter: Option<&str>,
    read_float: &F,
) -> (r: Result<Module, FrontendError>)
    requires
        reads_floats(*read_float),
    ensures
        match parse_ll(
            text@,
            module_name@,
            param_value,
            match fn_filter {
                Some(f) => Some(f@),
                None => None,
            },
            readings(*read_float),
        ) {
            Ok(m) => r matches Ok(x) && x@ == m,
            Err(e) => r matches Err(x) && x@ == e,
        },
{
    let ghost fl = readings(*read_float);
    let entry = match fn_filter {
        Some(f) => string_of(f),
        None => match captures(ENTRY_RE, text) {
            Some(g) => group_text(&g, 1),
            None => {
                return Err(FrontendError::NoFunctions);
            },
        },
    };
    let entry_fn = find_and_parse_definition(text, entry.as_str(), Some(param_value), read_float)?;
    let mut pending: Vec<String> = Vec::new();
    let mut seen = StringHashSet::new();
    seen.insert(entry_fn.name.clone());
    let calls = calls_of(&entry_fn);
    proof {
        assert(string_views(pending@) =~= Seq::<Seq<char>>::empty());
        assert(seen@ =~= set![entry_fn@.name]);
    }
    enqueue_names(&mut pending, &mut seen, &calls);
    let mut functions: Vec<Function> = Vec::new();
    functions.push(entry_fn);
    let ghost goal = pull_callees(text@, string_views(pending@), seen@, function_models(functions@), text@.len(), fl);
    let ghost filt = match fn_filter {
        Some(f) => Some(f@),
        None => None,
    };
    let ghost whole = parse_ll(text@, module_name@, param_value, filt, fl);
    proof {
        assert(function_models(functions@) =~= seq![functions@[0]@]);
        assert(whole == match goal {
            Ok(fs) => Ok(ModuleModel { name: module_name@, functions: fs }),
            Err(e) => Err(e),
        });
    }
    let mut fuel: usize = chars_of(text).len();
    while pending.len() > 0
        invariant
            whole == match goal {
                Ok(fs) => Ok(ModuleModel { name: module_name@, functions: fs }),
                Err(e) => Err(e),
            },
            whole == parse_ll(text@, module_name@, param_value, filt, fl),
            filt == match fn_filter {
                Some(f) => Some(f@),
                None => None,
            },
            fl == readings(*read_float),
            reads_floats(*read_float),
            goal == pull_callees(text@, string_views(pending@), seen@, function_models(functions@), fuel as nat, fl),
        decreases fuel,
    {
        if fuel == 0 {
            return Err(FrontendError::TooManyFunctions);
        }
        let ghost pv = string_views(pending@);
        let name = pending.pop().unwrap();
        proof {
            assert(string_views(pending@) =~= pv.drop_last());
            assert(name@ == pv.last());
        }
        let callee = find_and_parse_definition(text, name.as_str(), None, read_float)?;
        let names = calls_of(&callee);
        enqueue_names(&mut pending, &mut seen, &names);
        let ghost before = functions@;
        let ghost cm = callee@;
        functions.push(callee);
        proof {
            assert(function_models(functions@) =~= function_models(before).push(cm));
        }
        fuel = fuel - 1;
    }
    let mut module = Module::new(string_of(module_name));
    module.functions = functions;
    Ok(module)
}

} // verus!
