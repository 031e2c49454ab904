use vstd::prelude::*;

use crate::InterpretError;

verus! {

/// The instruction set of the stack machine. Each opcode is one byte in the
/// instruction stream, followed by its inline operand bytes.
#[derive(Debug, Clone, Copy, PartialEq, Eq, Structural)]
#[allow(non_camel_case_types)]
pub enum OpCode {
    CONSTANT,
    NEGATE,
    RETURN,
    ADD,
    SUBTRACT,
    MULTIPLY,
    DIVIDE,
    NIL,
    TRUE,
    FALSE,
    NOT,
    EQUAL,
    GREATER,
    LESS,
    PRINT,
    POP,
    DefineGlobal,
    GetGlobal,
    SetGlobal,
    GetLocal,
    SetLocal,
    JumpIfFalse,
    JUMP,
    LOOP,
}

impl OpCode {
    /// The encoding of this opcode as a byte.
    pub open spec fn spec_byte(self) -> u8 {
        match self {
            OpCode::CONSTANT => 0,
            OpCode::NEGATE => 1,
            OpCode::RETURN => 2,
            OpCode::ADD => 3,
            OpCode::SUBTRACT => 4,
            OpCode::MULTIPLY => 5,
            OpCode::DIVIDE => 6,
            OpCode::NIL => 7,
            OpCode::TRUE => 8,
            OpCode::FALSE => 9,
            OpCode::NOT => 10,
            OpCode::EQUAL => 11,
            OpCode::GREATER => 12,
            OpCode::LESS => 13,
            OpCode::PRINT => 14,
            OpCode::POP => 15,
            OpCode::DefineGlobal => 16,
            OpCode::GetGlobal => 17,
            OpCode::SetGlobal => 18,
            OpCode::GetLocal => 19,
            OpCode::SetLocal => 20,
            OpCode::JumpIfFalse => 21,
            OpCode::JUMP => 22,
            OpCode::LOOP => 23,
        }
    }

    /// The opcode a byte decodes to; a byte past the opcode table decodes
    /// to a compile error.
    pub open spec fn spec_decode(byte: u8) -> Result<OpCode, InterpretError> {
        if byte == 0 {
            Ok(OpCode::CONSTANT)
        } else if byte == 1 {
            Ok(OpCode::NEGATE)
        } else if byte == 2 {
            Ok(OpCode::RETURN)
        } else if byte == 3 {
            Ok(OpCode::ADD)
        } else if byte == 4 {
            Ok(OpCode::SUBTRACT)
        } else if byte == 5 {
            Ok(OpCode::MULTIPLY)
        } else if byte == 6 {
            Ok(OpCode::DIVIDE)
        } else if byte == 7 {
            Ok(OpCode::NIL)
        } else if byte == 8 {
            Ok(OpCode::TRUE)
        } else if byte == 9 {
            Ok(OpCode::FALSE)
        } else if byte == 10 {
            Ok(OpCode::NOT)
        } else if byte == 11 {
            Ok(OpCode::EQUAL)
        } else if byte == 12 {
            Ok(OpCode::GREATER)
        } else if byte == 13 {
            Ok(OpCode::LESS)
        } else if byte == 14 {
            Ok(OpCode::PRINT)
        } else if byte == 15 {
            Ok(OpCode::POP)
        } else if byte == 16 {
            Ok(OpCode::DefineGlobal)
        } else if byte == 17 {
            Ok(OpCode::GetGlobal)
        } else if byte == 18 {
            Ok(OpCode::SetGlobal)
        } else if byte == 19 {
            Ok(OpCode::GetLocal)
        } else if byte == 20 {
            Ok(OpCode::SetLocal)
        } else if byte == 21 {
            Ok(OpCode::JumpIfFalse)
        } else if byte == 22 {
            Ok(OpCode::JUMP)
        } else if byte == 23 {
            Ok(OpCode::LOOP)
        } else {
            Err(InterpretError::CompileError)
        }
    }

    /// How many inline operand bytes follow this opcode.
    pub open spec fn spec_operand_count(self) -> int {
        match self {
            OpCode::CONSTANT => 1,
            OpCode::DefineGlobal => 1,
            OpCode::GetGlobal => 1,
            OpCode::SetGlobal => 1,
            OpCode::GetLocal => 1,
            OpCode::SetLocal => 1,
            OpCode::JumpIfFalse => 2,
            OpCode::JUMP => 2,
            OpCode::LOOP => 2,
            _ => 0,
        }
    }

    /// Whether this opcode's operand indexes the constant pool.
    pub open spec fn spec_uses_constant(self) -> bool {
        self matches OpCode::CONSTANT || self matches OpCode::DefineGlobal
            || self matches OpCode::GetGlobal || self matches OpCode::SetGlobal
    }

    /// The net change an instruction makes to the height of the value stack
    /// when it executes without error (RETURN halts and changes nothing).
    pub open spec fn spec_stack_delta(self) -> int {
        match self {
            OpCode::CONSTANT => 1,
            OpCode::NIL => 1,
            OpCode::TRUE => 1,
            OpCode::FALSE => 1,
            OpCode::GetLocal => 1,
            OpCode::GetGlobal => 1,
            OpCode::NEGATE => 0,
            OpCode::NOT => 0,
            OpCode::SetLocal => 0,
            OpCode::SetGlobal => 0,
            OpCode::JumpIfFalse => 0,
            OpCode::JUMP => 0,
            OpCode::LOOP => 0,
            OpCode::RETURN => 0,
            OpCode::POP => -1,
            OpCode::DefineGlobal => -1,
            OpCode::PRINT => -1,
            OpCode::EQUAL => -1,
            OpCode::GREATER => -1,
            OpCode::LESS => -1,
            OpCode::ADD => -1,
            OpCode::SUBTRACT => -1,
            OpCode::MULTIPLY => -1,
            OpCode::DIVIDE => -1,
        }
    }

    /// The byte encoding of this opcode.
    pub fn as_byte(self) -> (r: u8)
        ensures
            r == self.spec_byte(),
    {
        match self {
            OpCode::CONSTANT => 0,
            OpCode::NEGATE => 1,
            OpCode::RETURN => 2,
            OpCode::ADD => 3,
            OpCode::SUBTRACT => 4,
            OpCode::MULTIPLY => 5,
            OpCode::DIVIDE => 6,
            OpCode::NIL => 7,
            OpCode::TRUE => 8,
            OpCode::FALSE => 9,
            OpCode::NOT => 10,
            OpCode::EQUAL => 11,
            OpCode::GREATER => 12,
            OpCode::LESS => 13,
            OpCode::PRINT => 14,
            OpCode::POP => 15,
            OpCode::DefineGlobal => 16,
            OpCode::GetGlobal => 17,
            OpCode::SetGlobal => 18,
            OpCode::GetLocal => 19,
            OpCode::SetLocal => 20,
            OpCode::JumpIfFalse => 21,
            OpCode::JUMP => 22,
            OpCode::LOOP => 23,
        }
    }

    /// Decode a byte back to its opcode; a byte outside the table is a
    /// decoding failure.
    pub fn from_byte(byte: u8) -> (r: Result<OpCode, InterpretError>)
        ensures
            r == Self::spec_decode(byte),
    {
        match byte {
            0 => Ok(OpCode::CONSTANT),
            1 => Ok(OpCode::NEGATE),
            2 => Ok(OpCode::RETURN),
            3 => Ok(OpCode::ADD),
            4 => Ok(OpCode::SUBTRACT),
            5 => Ok(OpCode::MULTIPLY),
            6 => Ok(OpCode::DIVIDE),
            7 => Ok(OpCode::NIL),
            8 => Ok(OpCode::TRUE),
            9 => Ok(OpCode::FALSE),
            10 => Ok(OpCode::NOT),
            11 => Ok(OpCode::EQUAL),
            12 => Ok(OpCode::GREATER),
            13 => Ok(OpCode::LESS),
            14 => Ok(OpCode::PRINT),
            15 => Ok(OpCode::POP),
            16 => Ok(OpCode::DefineGlobal),
            17 => Ok(OpCode::GetGlobal),
            18 => Ok(OpCode::SetGlobal),
            19 => Ok(OpCode::GetLocal),
            20 => Ok(OpCode::SetLocal),
            21 => Ok(OpCode::JumpIfFalse),
            22 => Ok(OpCode::JUMP),
            23 => Ok(OpCode::LOOP),
            _ => Err(InterpretError::CompileError),
        }
    }
}

/// Encoding then decoding an opcode byte yields the opcode back.
pub proof fn lemma_opcode_round_trip(op: OpCode)
    ensures
        OpCode::spec_decode(op.spec_byte()) == Ok::<OpCode, InterpretError>(op),
{
}

} // verus!
