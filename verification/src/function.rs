//! The catalog of built-in operations and the `Function` element payload.

use vstd::prelude::*;

verus! {

/// Identifier of one built-in operation of the fixed catalog.
///
/// Each identifier maps, by exhaustive matching in the evaluator, to a
/// transformation of the operand stack and variable table.
#[derive(Clone, Copy, Debug, PartialEq, Eq, Structural)]
pub enum Op {
    Add,
    Subtract,
    Multiply,
    Divide,
    Modulo,
    Less,
    LessEqual,
    Equal,
    Greater,
    GreaterEqual,
    Pop,
    Clear,
    Rotate,
    Copy,
    Assign,
    If,
    Eval,
    Repeat,
    RepeatEval,
    Append,
    Concatenate,
    MakeArray,
    Read,
}

/// A reference to one entry of the static function catalog: a display name
/// plus the operation identifier. Immutable; carries no captured state.
#[derive(Clone, Copy, Debug, PartialEq, Eq, Structural)]
pub struct Function {
    pub op: Op,
}

/// The display name of each operation: the symbolic alias where one exists,
/// the plain name otherwise.
pub open spec fn op_name(op: Op) -> Seq<char> {
    match op {
        Op::Add => "+"@,
        Op::Subtract => "-"@,
        Op::Multiply => "*"@,
        Op::Divide => "/"@,
        Op::Modulo => "%"@,
        Op::Less => "<"@,
        Op::LessEqual => "<="@,
        Op::Equal => "=="@,
        Op::Greater => ">"@,
        Op::GreaterEqual => ">="@,
        Op::Pop => "pop"@,
        Op::Clear => "clear"@,
        Op::Rotate => "rotate"@,
        Op::Copy => "copy"@,
        Op::Assign => "="@,
        Op::If => "if"@,
        Op::Eval => "."@,
        Op::Repeat => "repeat"@,
        Op::RepeatEval => "repeat."@,
        Op::Append => "append"@,
        Op::Concatenate => "++"@,
        Op::MakeArray => "make_array"@,
        Op::Read => "read"@,
    }
}

/// The operation, if any, that a word token names: either its exact name or
/// one of its symbolic aliases.
pub open spec fn op_of_word(w: Seq<char>) -> Option<Op> {
    if w == "add"@ || w == "+"@ {
        Some(Op::Add)
    } else if w == "subtract"@ || w == "-"@ {
        Some(Op::Subtract)
    } else if w == "multiply"@ || w == "*"@ {
        Some(Op::Multiply)
    } else if w == "divide"@ || w == "/"@ {
        Some(Op::Divide)
    } else if w == "modulo"@ || w == "%"@ {
        Some(Op::Modulo)
    } else if w == "less"@ || w == "<"@ {
        Some(Op::Less)
    } else if w == "less_equal"@ || w == "<="@ {
        Some(Op::LessEqual)
    } else if w == "equal"@ || w == "=="@ {
        Some(Op::Equal)
    } else if w == "greater"@ || w == ">"@ {
        Some(Op::Greater)
    } else if w == "greater_equal"@ || w == ">="@ {
        Some(Op::GreaterEqual)
    } else if w == "pop"@ {
        Some(Op::Pop)
    } else if w == "clear"@ {
        Some(Op::Clear)
    } else if w == "rotate"@ {
        Some(Op::Rotate)
    } else if w == "copy"@ {
        Some(Op::Copy)
    } else if w == "assign"@ || w == "="@ {
        Some(Op::Assign)
    } else if w == "if"@ {
        Some(Op::If)
    } else if w == "eval"@ || w == "."@ {
        Some(Op::Eval)
    } else if w == "repeat"@ {
        Some(Op::Repeat)
    } else if w == "repeat_eval"@ || w == "repeat."@ {
        Some(Op::RepeatEval)
    } else if w == "append"@ {
        Some(Op::Append)
    } else if w == "concatenate"@ || w == "concat"@ || w == "++"@ {
        Some(Op::Concatenate)
    } else if w == "make_array"@ {
        Some(Op::MakeArray)
    } else if w == "read"@ {
        Some(Op::Read)
    } else {
        None
    }
}

impl Function {
    /// The display name of this catalog entry.
    pub fn name(&self) -> (r: &'static str)
        ensures
            r@ == op_name(self.op),
    {
        match self.op {
            Op::Add => "+",
            Op::Subtract => "-",
            Op::Multiply => "*",
            Op::Divide => "/",
            Op::Modulo => "%",
            Op::Less => "<",
            Op::LessEqual => "<=",
            Op::Equal => "==",
            Op::Greater => ">",
            Op::GreaterEqual => ">=",
            Op::Pop => "pop",
            Op::Clear => "clear",
            Op::Rotate => "rotate",
            Op::Copy => "copy",
            Op::Assign => "=",
            Op::If => "if",
            Op::Eval => ".",
            Op::Repeat => "repeat",
            Op::RepeatEval => "repeat.",
            Op::Append => "append",
            Op::Concatenate => "++",
            Op::MakeArray => "make_array",
            Op::Read => "read",
        }
    }
}

} // verus!
