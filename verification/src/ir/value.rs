use vstd::prelude::*;
use crate::text::{decimal, push_i64, push_str, push_usize};

verus! {

broadcast use vstd::std_specs::vec::group_vec_axioms;

/// The type of a value produced or returned by IR code.
#[derive(Debug, PartialEq, Eq)]
pub enum ValueType {
    Int,
    Float,
    Void,
    /// Pointee type, kept for documentation: memory is uniformly one i64 per slot.
    Pointer(Box<ValueType>),
    Array(Box<ValueType>, usize),
}

impl ValueType {
    /// A copy of this type.
    pub fn copy(&self) -> (r: ValueType)
        ensures
            r == *self,
        decreases self,
    {
        match self {
            ValueType::Int => ValueType::Int,
            ValueType::Float => ValueType::Float,
            ValueType::Void => ValueType::Void,
            ValueType::Pointer(t) => ValueType::Pointer(Box::new(t.copy())),
            ValueType::Array(t, n) => ValueType::Array(Box::new(t.copy()), *n),
        }
    }
}

impl Clone for ValueType {
    fn clone(&self) -> (r: ValueType)
        ensures
            r == *self,
    {
        self.copy()
    }
}

/// Arithmetic operators of the IR.
#[derive(Debug, Clone, Copy, PartialEq, Eq, Structural)]
pub enum BinaryOp {
    Add,
    Sub,
    Mul,
    Div,
}

/// Comparison conditions of the IR.
#[derive(Debug, Clone, Copy, PartialEq, Eq, Structural)]
pub enum CompareCondition {
    Eq,
    Ne,
    Lt,
    Le,
    Gt,
    Ge,
}

/// One IR instruction: an expression tree whose root may have an effect
/// (a store, a control transfer, a call or a memory access).
#[derive(Debug, PartialEq)]
#[allow(inconsistent_fields)]
pub enum Instruction {
    Constant { value: i64 },
    Variable { name: String },
    BinaryOp { op: BinaryOp, lhs: Box<Instruction>, rhs: Box<Instruction> },
    Compare { condition: CompareCondition, lhs: Box<Instruction>, rhs: Box<Instruction> },
    Store { var_name: String, value: Box<Instruction> },
    Branch { condition: Box<Instruction>, then_label: String, else_label: String },
    Jump { label: String },
    Return { value: Option<Box<Instruction>> },
    /// Intra-module call; arguments are evaluated in the caller's scope and
    /// bound positionally to the callee's parameters.
    Call { function_name: String, args: Vec<Box<Instruction>> },
    /// Reserves `count` zero-initialised heap slots and binds `name` to the base address.
    AllocaArray { name: String, count: usize },
    /// `base + index` as a heap address.
    GetElementPtr { base: Box<Instruction>, index: Box<Instruction> },
    LoadPtr { ptr: Box<Instruction> },
    StorePtr { ptr: Box<Instruction>, value: Box<Instruction> },
}

/// Mathematical model of an instruction: names are character sequences.
#[allow(inconsistent_fields)]
pub enum Inst {
    Constant { value: i64 },
    Variable { name: Seq<char> },
    BinaryOp { op: BinaryOp, lhs: Box<Inst>, rhs: Box<Inst> },
    Compare { condition: CompareCondition, lhs: Box<Inst>, rhs: Box<Inst> },
    Store { var_name: Seq<char>, value: Box<Inst> },
    Branch { condition: Box<Inst>, then_label: Seq<char>, else_label: Seq<char> },
    Jump { label: Seq<char> },
    Return { value: Option<Box<Inst>> },
    Call { function_name: Seq<char>, args: Seq<Inst> },
    AllocaArray { name: Seq<char>, count: usize },
    GetElementPtr { base: Box<Inst>, index: Box<Inst> },
    LoadPtr { ptr: Box<Inst> },
    StorePtr { ptr: Box<Inst>, value: Box<Inst> },
}

impl Instruction {
    /// The model of this instruction tree.
    pub open spec fn model(self) -> Inst
        decreases self,
    {
        match self {
            Instruction::Constant { value } => Inst::Constant { value },
            Instruction::Variable { name } => Inst::Variable { name: name@ },
            Instruction::BinaryOp { op, lhs, rhs } => Inst::BinaryOp {
                op,
                lhs: Box::new(lhs.model()),
                rhs: Box::new(rhs.model()),
            },
            Instruction::Compare { condition, lhs, rhs } => Inst::Compare {
                condition,
                lhs: Box::new(lhs.model()),
                rhs: Box::new(rhs.model()),
            },
            Instruction::Store { var_name, value } => Inst::Store {
                var_name: var_name@,
                value: Box::new(value.model()),
            },
            Instruction::Branch { condition, then_label, else_label } => Inst::Branch {
                condition: Box::new(condition.model()),
                then_label: then_label@,
                else_label: else_label@,
            },
            Instruction::Jump { label } => Inst::Jump { label: label@ },
            Instruction::Return { value } => match value {
                Some(v) => Inst::Return { value: Some(Box::new(v.model())) },
                None => Inst::Return { value: None },
            },
            Instruction::Call { function_name, args } => Inst::Call {
                function_name: function_name@,
                args: arg_models(args@),
            },
            Instruction::AllocaArray { name, count } => Inst::AllocaArray { name: name@, count },
            Instruction::GetElementPtr { base, index } => Inst::GetElementPtr {
                base: Box::new(base.model()),
                index: Box::new(index.model()),
            },
            Instruction::LoadPtr { ptr } => Inst::LoadPtr { ptr: Box::new(ptr.model()) },
            Instruction::StorePtr { ptr, value } => Inst::StorePtr {
                ptr: Box::new(ptr.model()),
                value: Box::new(value.model()),
            },
        }
    }
}

/// Models of a sequence of boxed instructions, in order.
pub open spec fn arg_models(args: Seq<Box<Instruction>>) -> Seq<Inst>
    decreases args,
{
    if args.len() == 0 {
        Seq::empty()
    } else {
        arg_models(args.drop_last()).push(args.last().model())
    }
}

impl View for Instruction {
    type V = Inst;

    open spec fn view(&self) -> Inst {
        self.model()
    }
}

} // verus!

verus! {

/// Text of an arithmetic operator.
pub open spec fn op_text(op: BinaryOp) -> Seq<char> {
    match op {
        BinaryOp::Add => "+"@,
        BinaryOp::Sub => "-"@,
        BinaryOp::Mul => "*"@,
        BinaryOp::Div => "/"@,
    }
}

/// Text of a comparison condition.
pub open spec fn cond_text(c: CompareCondition) -> Seq<char> {
    match c {
        CompareCondition::Eq => "=="@,
        CompareCondition::Ne => "!="@,
        CompareCondition::Lt => "<"@,
        CompareCondition::Le => "<="@,
        CompareCondition::Gt => ">"@,
        CompareCondition::Ge => ">="@,
    }
}

impl BinaryOp {
    /// The operator's symbol.
    pub fn display(&self) -> (r: &'static str)
        ensures
            r@ == op_text(*self),
    {
        match self {
            BinaryOp::Add => "+",
            BinaryOp::Sub => "-",
            BinaryOp::Mul => "*",
            BinaryOp::Div => "/",
        }
    }
}

impl CompareCondition {
    /// The condition's symbol.
    pub fn symbol(&self) -> (r: &'static str)
        ensures
            r@ == cond_text(*self),
    {
        match self {
            CompareCondition::Eq => "==",
            CompareCondition::Ne => "!=",
            CompareCondition::Lt => "<",
            CompareCondition::Le => "<=",
            CompareCondition::Gt => ">",
            CompareCondition::Ge => ">=",
        }
    }
}

/// The readable rendering of an instruction, as `Instruction::display` prints it.
pub open spec fn display_text(i: Inst) -> Seq<char>
    decreases i,
{
    match i {
        Inst::Constant { value } => "const "@ + decimal(value as int),
        Inst::Variable { name } => "var "@ + name,
        Inst::BinaryOp { op, lhs, rhs } => display_text(*lhs) + " "@ + op_text(op) + " "@
            + display_text(*rhs),
        Inst::Compare { condition, lhs, rhs } => display_text(*lhs) + " "@ + cond_text(condition)
            + " "@ + display_text(*rhs),
        Inst::Store { var_name, value } => "store "@ + display_text(*value) + " -> "@ + var_name,
        Inst::Branch { condition, then_label, else_label } => "br "@ + display_text(*condition)
            + " -> "@ + then_label + ", "@ + else_label,
        Inst::Jump { label } => "jmp "@ + label,
        Inst::Return { value } => match value {
            Some(v) => "ret "@ + display_text(*v),
            None => "ret void"@,
        },
        Inst::Call { function_name, args } => "call "@ + function_name + "("@ + display_list(args)
            + ")"@,
        Inst::AllocaArray { name, count } => "alloca ["@ + decimal(count as int) + " x i64] -> "@
            + name,
        Inst::GetElementPtr { base, index } => "gep "@ + display_text(*base) + ", "@ + display_text(
            *index,
        ),
        Inst::LoadPtr { ptr } => "load *("@ + display_text(*ptr) + ")"@,
        Inst::StorePtr { ptr, value } => "store "@ + display_text(*value) + " -> *("@ + display_text(
            *ptr,
        ) + ")"@,
    }
}

/// Renderings of a list of instructions joined by ", ".
pub open spec fn display_list(s: Seq<Inst>) -> Seq<char>
    decreases s,
{
    if s.len() == 0 {
        Seq::empty()
    } else if s.len() == 1 {
        display_text(s[0])
    } else {
        display_list(s.drop_last()) + ", "@ + display_text(s.last())
    }
}

/// The compact rendering of an instruction, as `Instruction::to_string` prints it.
pub open spec fn compact_text(i: Inst) -> Seq<char>
    decreases i,
{
    match i {
        Inst::Constant { value } => decimal(value as int),
        Inst::Variable { name } => "%"@ + name,
        Inst::BinaryOp { op, lhs, rhs } => "("@ + compact_text(*lhs) + " "@ + op_text(op) + " "@
            + compact_text(*rhs) + ")"@,
        Inst::Compare { condition, lhs, rhs } => "("@ + compact_text(*lhs) + " "@ + cond_text(
            condition,
        ) + " "@ + compact_text(*rhs) + ")"@,
        Inst::Store { var_name, value } => "store "@ + var_name + " = "@ + compact_text(*value),
        Inst::Branch { condition, then_label, else_label } => "br "@ + compact_text(*condition)
            + ", "@ + then_label + ", "@ + else_label,
        Inst::Jump { label } => "jmp "@ + label,
        Inst::Return { value } => match value {
            Some(v) => "return "@ + compact_text(*v),
            None => "return void"@,
        },
        Inst::Call { function_name, args } => "call "@ + function_name + "("@ + compact_list(args)
            + ")"@,
        Inst::AllocaArray { name, count } => "alloca ["@ + decimal(count as int) + " x i64] -> "@
            + name,
        Inst::GetElementPtr { base, index } => "gep "@ + compact_text(*base) + ", "@ + compact_text(
            *index,
        ),
        Inst::LoadPtr { ptr } => "load *("@ + compact_text(*ptr) + ")"@,
        Inst::StorePtr { ptr, value } => "store "@ + compact_text(*value) + " -> *("@ + compact_text(
            *ptr,
        ) + ")"@,
    }
}

/// Compact renderings of a list of instructions joined by ", ".
pub open spec fn compact_list(s: Seq<Inst>) -> Seq<char>
    decreases s,
{
    if s.len() == 0 {
        Seq::empty()
    } else if s.len() == 1 {
        compact_text(s[0])
    } else {
        compact_list(s.drop_last()) + ", "@ + compact_text(s.last())
    }
}

/// The models of the first `n` arguments are the first `n` of the list's models.
pub proof fn lemma_arg_models(args: Seq<Box<Instruction>>)
    ensures
        arg_models(args).len() == args.len(),
        forall|k: int| 0 <= k < args.len() ==> #[trigger] arg_models(args)[k] == args[k].model(),
    decreases args.len(),
{
    if args.len() > 0 {
        lemma_arg_models(args.drop_last());
        assert forall|k: int| 0 <= k < args.len() implies #[trigger] arg_models(args)[k]
            == args[k].model() by {
            if k < args.len() - 1 {
                assert(args.drop_last()[k] == args[k]);
            }
        }
    }
}

} // verus!

verus! {

impl Instruction {
    /// Appends the readable rendering of this instruction.
    #[verifier::loop_isolation(false)]
    pub fn write_display(&self, out: &mut String)
        ensures
            final(out)@ == old(out)@ + display_text(self@),
        decreases self,
    {
        let ghost o = out@;
        match self {
            Instruction::Constant { value } => {
                push_str(out, "const ");
                push_i64(out, *value);
            },
            Instruction::Variable { name } => {
                push_str(out, "var ");
                push_str(out, name.as_str());
            },
            Instruction::BinaryOp { op, lhs, rhs } => {
                lhs.write_display(out);
                push_str(out, " ");
                push_str(out, op.display());
                push_str(out, " ");
                rhs.write_display(out);
            },
            Instruction::Compare { condition, lhs, rhs } => {
                lhs.write_display(out);
                push_str(out, " ");
                push_str(out, condition.symbol());
                push_str(out, " ");
                rhs.write_display(out);
            },
            Instruction::Store { var_name, value } => {
                push_str(out, "store ");
                value.write_display(out);
                push_str(out, " -> ");
                push_str(out, var_name.as_str());
            },
            Instruction::Branch { condition, then_label, else_label } => {
                push_str(out, "br ");
                condition.write_display(out);
                push_str(out, " -> ");
                push_str(out, then_label.as_str());
                push_str(out, ", ");
                push_str(out, else_label.as_str());
            },
            Instruction::Jump { label } => {
                push_str(out, "jmp ");
                push_str(out, label.as_str());
            },
            Instruction::Return { value } => {
                match value {
                    Some(v) => {
                        push_str(out, "ret ");
                        v.write_display(out);
                    },
                    None => {
                        push_str(out, "ret void");
                    },
                }
            },
            Instruction::Call { function_name, args } => {
                push_str(out, "call ");
                push_str(out, function_name.as_str());
                push_str(out, "(");
                let ghost pre = out@;
                let ghost ms = arg_models(args@);
                proof {
                    lemma_arg_models(args@);
                }
                let mut j: usize = 0;
                while j < args.len()
                    invariant
                        j <= args.len(),
                        out@ == pre + display_list(ms.take(j as int)),
                    decreases args.len() - j,
                {
                    let ghost before = out@;
                    if j > 0 {
                        push_str(out, ", ");
                    }
                    proof {
                        assert(decreases_to!(args@ => args@[j as int]));
                    }
                    args[j].write_display(out);
                    proof {
                        assert(ms.take(j + 1).drop_last() =~= ms.take(j as int));
                        assert(ms.take(j + 1).last() == ms[j as int]);
                        if j == 0 {
                            assert(ms.take(1) =~= seq![ms[0]]);
                        }
                    }
                    j = j + 1;
                }
                proof {
                    assert(ms.take(args.len() as int) =~= ms);
                }
                push_str(out, ")");
            },
            Instruction::AllocaArray { name, count } => {
                push_str(out, "alloca [");
                push_usize(out, *count);
                push_str(out, " x i64] -> ");
                push_str(out, name.as_str());
            },
            Instruction::GetElementPtr { base, index } => {
                push_str(out, "gep ");
                base.write_display(out);
                push_str(out, ", ");
                index.write_display(out);
            },
            Instruction::LoadPtr { ptr } => {
                push_str(out, "load *(");
                ptr.write_display(out);
                push_str(out, ")");
            },
            Instruction::StorePtr { ptr, value } => {
                push_str(out, "store ");
                value.write_display(out);
                push_str(out, " -> *(");
                ptr.write_display(out);
                push_str(out, ")");
            },
        }
        assert(out@ =~= o + display_text(self@));
    }

    /// The readable rendering of this instruction, e.g. `store var x + const 1 -> x`.
    pub fn display(&self) -> (r: String)
        ensures
            r@ == display_text(self@),
    {
        let mut s = String::new();
        self.write_display(&mut s);
        assert(s@ =~= display_text(self@));
        s
    }
}

} // verus!

verus! {

impl Instruction {
    /// Appends the compact rendering of this instruction.
    #[verifier::loop_isolation(false)]
    pub fn write_compact(&self, out: &mut String)
        ensures
            final(out)@ == old(out)@ + compact_text(self@),
        decreases self,
    {
        let ghost o = out@;
        match self {
            Instruction::Constant { value } => {
                push_i64(out, *value);
            },
            Instruction::Variable { name } => {
                push_str(out, "%");
                push_str(out, name.as_str());
            },
            Instruction::BinaryOp { op, lhs, rhs } => {
                push_str(out, "(");
                lhs.write_compact(out);
                push_str(out, " ");
                push_str(out, op.display());
                push_str(out, " ");
                rhs.write_compact(out);
                push_str(out, ")");
            },
            Instruction::Compare { condition, lhs, rhs } => {
                push_str(out, "(");
                lhs.write_compact(out);
                push_str(out, " ");
                push_str(out, condition.symbol());
                push_str(out, " ");
                rhs.write_compact(out);
                push_str(out, ")");
            },
            Instruction::Store { var_name, value } => {
                push_str(out, "store ");
                push_str(out, var_name.as_str());
                push_str(out, " = ");
                value.write_compact(out);
            },
            Instruction::Branch { condition, then_label, else_label } => {
                push_str(out, "br ");
                condition.write_compact(out);
                push_str(out, ", ");
                push_str(out, then_label.as_str());
                push_str(out, ", ");
                push_str(out, else_label.as_str());
            },
            Instruction::Jump { label } => {
                push_str(out, "jmp ");
                push_str(out, label.as_str());
            },
            Instruction::Return { value } => {
                match value {
                    Some(v) => {
                        push_str(out, "return ");
                        v.write_compact(out);
                    },
                    None => {
                        push_str(out, "return void");
                    },
                }
            },
            Instruction::Call { function_name, args } => {
                push_str(out, "call ");
                push_str(out, function_name.as_str());
                push_str(out, "(");
                let ghost pre = out@;
                let ghost ms = arg_models(args@);
                proof {
                    lemma_arg_models(args@);
                }
                let mut j: usize = 0;
                while j < args.len()
                    invariant
                        j <= args.len(),
                        out@ == pre + compact_list(ms.take(j as int)),
                    decreases args.len() - j,
                {
                    if j > 0 {
                        push_str(out, ", ");
                    }
                    proof {
                        assert(decreases_to!(args@ => args@[j as int]));
                    }
                    args[j].write_compact(out);
                    proof {
                        assert(ms.take(j + 1).drop_last() =~= ms.take(j as int));
                        assert(ms.take(j + 1).last() == ms[j as int]);
                        if j == 0 {
                            assert(ms.take(1) =~= seq![ms[0]]);
                        }
                    }
                    j = j + 1;
                }
                proof {
                    assert(ms.take(args.len() as int) =~= ms);
                }
                push_str(out, ")");
            },
            Instruction::AllocaArray { name, count } => {
                push_str(out, "alloca [");
                push_usize(out, *count);
                push_str(out, " x i64] -> ");
                push_str(out, name.as_str());
            },
            Instruction::GetElementPtr { base, index } => {
                push_str(out, "gep ");
                base.write_compact(out);
                push_str(out, ", ");
                index.write_compact(out);
            },
            Instruction::LoadPtr { ptr } => {
                push_str(out, "load *(");
                ptr.write_compact(out);
                push_str(out, ")");
            },
            Instruction::StorePtr { ptr, value } => {
                push_str(out, "store ");
                value.write_compact(out);
                push_str(out, " -> *(");
                ptr.write_compact(out);
                push_str(out, ")");
            },
        }
        assert(out@ =~= o + compact_text(self@));
    }

    /// The compact rendering of this instruction, e.g. `store x = (%x + 1)`.
    pub fn to_string(&self) -> (r: String)
        ensures
            r@ == compact_text(self@),
    {
        let mut s = String::new();
        self.write_compact(&mut s);
        assert(s@ =~= compact_text(self@));
        s
    }

    /// Whether this instruction ends a basic block (branch, jump or return).
    pub fn is_terminator(&self) -> (r: bool)
        ensures
            r == is_terminator_model(self@),
    {
        match self {
            Instruction::Branch { .. } | Instruction::Jump { .. } | Instruction::Return { .. } => true,
            _ => false,
        }
    }

    /// A deep copy of this instruction tree.
    pub fn copy(&self) -> (r: Instruction)
        ensures
            r@ == self@,
        decreases self,
    {
        match self {
            Instruction::Constant { value } => Instruction::Constant { value: *value },
            Instruction::Variable { name } => Instruction::Variable { name: name.clone() },
            Instruction::BinaryOp { op, lhs, rhs } => Instruction::BinaryOp {
                op: *op,
                lhs: Box::new(lhs.copy()),
                rhs: Box::new(rhs.copy()),
            },
            Instruction::Compare { condition, lhs, rhs } => Instruction::Compare {
                condition: *condition,
                lhs: Box::new(lhs.copy()),
                rhs: Box::new(rhs.copy()),
            },
            Instruction::Store { var_name, value } => Instruction::Store {
                var_name: var_name.clone(),
                value: Box::new(value.copy()),
            },
            Instruction::Branch { condition, then_label, else_label } => Instruction::Branch {
                condition: Box::new(condition.copy()),
                then_label: then_label.clone(),
                else_label: else_label.clone(),
            },
            Instruction::Jump { label } => Instruction::Jump { label: label.clone() },
            Instruction::Return { value } => match value {
                Some(v) => Instruction::Return { value: Some(Box::new(v.copy())) },
                None => Instruction::Return { value: None },
            },
            Instruction::Call { function_name, args } => {
                let new_args = copy_args(args);
                Instruction::Call { function_name: function_name.clone(), args: new_args }
            },
            Instruction::AllocaArray { name, count } => Instruction::AllocaArray {
                name: name.clone(),
                count: *count,
            },
            Instruction::GetElementPtr { base, index } => Instruction::GetElementPtr {
                base: Box::new(base.copy()),
                index: Box::new(index.copy()),
            },
            Instruction::LoadPtr { ptr } => Instruction::LoadPtr { ptr: Box::new(ptr.copy()) },
            Instruction::StorePtr { ptr, value } => Instruction::StorePtr {
                ptr: Box::new(ptr.copy()),
                value: Box::new(value.copy()),
            },
        }
    }
}

/// Deep copies of a list of arguments.
pub fn copy_args(args: &Vec<Box<Instruction>>) -> (r: Vec<Box<Instruction>>)
    ensures
        arg_models(r@) == arg_models(args@),
    decreases args, 0nat,
{
    proof {
        lemma_arg_models(args@);
    }
    let mut r: Vec<Box<Instruction>> = Vec::new();
    let mut j: usize = 0;
    while j < args.len()
        invariant
            j <= args.len(),
            r@.len() == j,
            arg_models(args@).len() == args@.len(),
            forall|k: int| 0 <= k < args@.len() ==> #[trigger] arg_models(args@)[k] == args@[k].model(),
            forall|k: int| 0 <= k < j ==> #[trigger] r@[k].model() == args@[k].model(),
        decreases args.len() - j,
    {
        proof {
            assert(decreases_to!(args@ => args@[j as int]));
        }
        let c = args[j].copy();
        r.push(Box::new(c));
        j = j + 1;
    }
    proof {
        lemma_arg_models(r@);
        assert(arg_models(r@) =~= arg_models(args@));
    }
    r
}

impl Clone for Instruction {
    fn clone(&self) -> (r: Instruction)
        ensures
            r@ == self@,
    {
        self.copy()
    }
}

/// Whether an instruction model ends a basic block.
pub open spec fn is_terminator_model(i: Inst) -> bool {
    match i {
        Inst::Branch { .. } | Inst::Jump { .. } | Inst::Return { .. } => true,
        _ => false,
    }
}

} // verus!
