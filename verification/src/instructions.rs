//! The instruction set: opcode families, sub-operations and their one-byte
//! encodings. An opcode byte is a 4-bit family prefix in the high nibble and a
//! 4-bit postfix in the low nibble whose meaning depends on the family.

use vstd::prelude::*;

verus! {

/// Opcode family, encoded in the high nibble of the opcode byte.
#[derive(Clone, Copy, Debug, PartialEq, Eq, Structural)]
pub enum Prefix {
    POP,
    PUSHB,
    PEEK,
    PUSHI,
    JMP,
    JZ,
    JNZ,
    UNARY,
    BINARY,
    USER,
    SPECIAL,
}

impl Prefix {
    /// The family's nibble, already shifted into the high half of the byte.
    pub open spec fn value(self) -> u8 {
        match self {
            Prefix::POP => 0x00,
            Prefix::PUSHB => 0x10,
            Prefix::PEEK => 0x20,
            Prefix::PUSHI => 0x30,
            Prefix::JMP => 0x40,
            Prefix::JZ => 0x50,
            Prefix::JNZ => 0x60,
            Prefix::UNARY => 0x70,
            Prefix::BINARY => 0x80,
            Prefix::USER => 0xE0,
            Prefix::SPECIAL => 0xF0,
        }
    }

    pub fn code(&self) -> (r: u8)
        ensures
            r == self.value(),
    {
        match self {
            Prefix::POP => 0x00,
            Prefix::PUSHB => 0x10,
            Prefix::PEEK => 0x20,
            Prefix::PUSHI => 0x30,
            Prefix::JMP => 0x40,
            Prefix::JZ => 0x50,
            Prefix::JNZ => 0x60,
            Prefix::UNARY => 0x70,
            Prefix::BINARY => 0x80,
            Prefix::USER => 0xE0,
            Prefix::SPECIAL => 0xF0,
        }
    }

    /// Which family, if any, the high nibble of an opcode byte selects.
    pub open spec fn spec_from(code: u8) -> Option<Prefix> {
        match code & 0xF0 {
            0x00 => Some(Prefix::POP),
            0x10 => Some(Prefix::PUSHB),
            0x20 => Some(Prefix::PEEK),
            0x30 => Some(Prefix::PUSHI),
            0x40 => Some(Prefix::JMP),
            0x50 => Some(Prefix::JZ),
            0x60 => Some(Prefix::JNZ),
            0x70 => Some(Prefix::UNARY),
            0x80 => Some(Prefix::BINARY),
            0xE0 => Some(Prefix::USER),
            0xF0 => Some(Prefix::SPECIAL),
            _ => None,
        }
    }

    pub fn from(code: u8) -> (r: Option<Prefix>)
        ensures
            r == Prefix::spec_from(code),
    {
        match code & 0xF0 {
            0x00 => Some(Prefix::POP),
            0x10 => Some(Prefix::PUSHB),
            0x20 => Some(Prefix::PEEK),
            0x30 => Some(Prefix::PUSHI),
            0x40 => Some(Prefix::JMP),
            0x50 => Some(Prefix::JZ),
            0x60 => Some(Prefix::JNZ),
            0x70 => Some(Prefix::UNARY),
            0x80 => Some(Prefix::BINARY),
            0xE0 => Some(Prefix::USER),
            0xF0 => Some(Prefix::SPECIAL),
            _ => None,
        }
    }
}

/// Sub-operations of the `SPECIAL` family.
#[derive(Clone, Copy, Debug, PartialEq, Eq, Structural)]
pub enum Special {
    SWAP,
    DUMP,
    YIELD,
    TWOBYTE,
}

impl Special {
    pub open spec fn value(self) -> u8 {
        match self {
            Special::SWAP => 12,
            Special::DUMP => 13,
            Special::YIELD => 14,
            Special::TWOBYTE => 15,
        }
    }

    pub fn code(&self) -> (r: u8)
        ensures
            r == self.value(),
    {
        match self {
            Special::SWAP => 12,
            Special::DUMP => 13,
            Special::YIELD => 14,
            Special::TWOBYTE => 15,
        }
    }

    pub open spec fn spec_from(code: u8) -> Option<Special> {
        match code {
            12u8 => Some(Special::SWAP),
            13u8 => Some(Special::DUMP),
            14u8 => Some(Special::YIELD),
            15u8 => Some(Special::TWOBYTE),
            _ => None,
        }
    }

    pub fn from(code: u8) -> (r: Option<Special>)
        ensures
            r == Special::spec_from(code),
    {
        match code {
            12 => Some(Special::SWAP),
            13 => Some(Special::DUMP),
            14 => Some(Special::YIELD),
            15 => Some(Special::TWOBYTE),
            _ => None,
        }
    }
}

/// Sub-operations of the `UNARY` family.
#[derive(Clone, Copy, Debug, PartialEq, Eq, Structural)]
pub enum Unary {
    INC,
    DEC,
    NOT,
    NEG,
    SHL8,
    SHR8,
}

impl Unary {
    pub open spec fn value(self) -> u8 {
        match self {
            Unary::INC => 0,
            Unary::DEC => 1,
            Unary::NOT => 2,
            Unary::NEG => 3,
            Unary::SHL8 => 4,
            Unary::SHR8 => 5,
        }
    }

    pub fn code(&self) -> (r: u8)
        ensures
            r == self.value(),
    {
        match self {
            Unary::INC => 0,
            Unary::DEC => 1,
            Unary::NOT => 2,
            Unary::NEG => 3,
            Unary::SHL8 => 4,
            Unary::SHR8 => 5,
        }
    }

    pub open spec fn spec_from(code: u8) -> Option<Unary> {
        match code {
            0u8 => Some(Unary::INC),
            1u8 => Some(Unary::DEC),
            2u8 => Some(Unary::NOT),
            3u8 => Some(Unary::NEG),
            4u8 => Some(Unary::SHL8),
            5u8 => Some(Unary::SHR8),
            _ => None,
        }
    }

    pub fn from(code: u8) -> (r: Option<Unary>)
        ensures
            r == Unary::spec_from(code),
    {
        match code {
            0 => Some(Unary::INC),
            1 => Some(Unary::DEC),
            2 => Some(Unary::NOT),
            3 => Some(Unary::NEG),
            4 => Some(Unary::SHL8),
            5 => Some(Unary::SHR8),
            _ => None,
        }
    }

    /// Value semantics of the operation: arithmetic wraps around, `NOT` is
    /// bitwise complement, `NEG` two's-complement negation, and the byte
    /// shifts move by eight bits.
    pub open spec fn spec_apply(self, v: u32) -> u32 {
        match self {
            Unary::INC => vstd::wrapping::u32_specs::wrapping_add(v, 1),
            Unary::DEC => vstd::wrapping::u32_specs::wrapping_sub(v, 1),
            Unary::NOT => !v,
            Unary::NEG => vstd::wrapping::u32_specs::wrapping_sub(0, v),
            Unary::SHL8 => v << 8u32,
            Unary::SHR8 => v >> 8u32,
        }
    }

    pub fn apply(&self, v: u32) -> (r: u32)
        ensures
            r == self.spec_apply(v),
    {
        match self {
            Unary::INC => v.wrapping_add(1),
            Unary::DEC => v.wrapping_sub(1),
            Unary::NOT => !v,
            Unary::NEG => 0u32.wrapping_sub(v),
            Unary::SHL8 => {
                let r = v.wrapping_shl(8);
                assert(r == v << 8u32) by (bit_vector)
                    requires
                        r == v << (8u32 % 32),
                ;
                r
            },
            Unary::SHR8 => {
                let r = v.wrapping_shr(8);
                assert(r == v >> 8u32) by (bit_vector)
                    requires
                        r == v >> (8u32 % 32),
                ;
                r
            },
        }
    }
}

/// Sub-operations of the `BINARY` family.
#[derive(Clone, Copy, Debug, PartialEq, Eq, Structural)]
pub enum Binary {
    ADD,
    SUB,
    DIV,
    MUL,
    MOD,
    AND,
    OR,
    XOR,
    GT,
    GTE,
    LT,
    LTE,
    EQ,
    NEQ,
    SHL,
    SHR,
}

impl Binary {
    pub open spec fn value(self) -> u8 {
        match self {
            Binary::ADD => 0,
            Binary::SUB => 1,
            Binary::DIV => 2,
            Binary::MUL => 3,
            Binary::MOD => 4,
            Binary::AND => 5,
            Binary::OR => 6,
            Binary::XOR => 7,
            Binary::GT => 8,
            Binary::GTE => 9,
            Binary::LT => 10,
            Binary::LTE => 11,
            Binary::EQ => 12,
            Binary::NEQ => 13,
            Binary::SHL => 14,
            Binary::SHR => 15,
        }
    }

    pub fn code(&self) -> (r: u8)
        ensures
            r == self.value(),
    {
        match self {
            Binary::ADD => 0,
            Binary::SUB => 1,
            Binary::DIV => 2,
            Binary::MUL => 3,
            Binary::MOD => 4,
            Binary::AND => 5,
            Binary::OR => 6,
            Binary::XOR => 7,
            Binary::GT => 8,
            Binary::GTE => 9,
            Binary::LT => 10,
            Binary::LTE => 11,
            Binary::EQ => 12,
            Binary::NEQ => 13,
            Binary::SHL => 14,
            Binary::SHR => 15,
        }
    }

    pub open spec fn spec_from(code: u8) -> Option<Binary> {
        match code {
            0u8 => Some(Binary::ADD),
            1u8 => Some(Binary::SUB),
            2u8 => Some(Binary::DIV),
            3u8 => Some(Binary::MUL),
            4u8 => Some(Binary::MOD),
            5u8 => Some(Binary::AND),
            6u8 => Some(Binary::OR),
            7u8 => Some(Binary::XOR),
            8u8 => Some(Binary::GT),
            9u8 => Some(Binary::GTE),
            10u8 => Some(Binary::LT),
            11u8 => Some(Binary::LTE),
            12u8 => Some(Binary::EQ),
            13u8 => Some(Binary::NEQ),
            14u8 => Some(Binary::SHL),
            15u8 => Some(Binary::SHR),
            _ => None,
        }
    }

    pub fn from(code: u8) -> (r: Option<Binary>)
        ensures
            r == Binary::spec_from(code),
    {
        match code {
            0 => Some(Binary::ADD),
            1 => Some(Binary::SUB),
            2 => Some(Binary::DIV),
            3 => Some(Binary::MUL),
            4 => Some(Binary::MOD),
            5 => Some(Binary::AND),
            6 => Some(Binary::OR),
            7 => Some(Binary::XOR),
            8 => Some(Binary::GT),
            9 => Some(Binary::GTE),
            10 => Some(Binary::LT),
            11 => Some(Binary::LTE),
            12 => Some(Binary::EQ),
            13 => Some(Binary::NEQ),
            14 => Some(Binary::SHL),
            15 => Some(Binary::SHR),
            _ => None,
        }
    }

    /// Value semantics with the top of stack as the right operand: wrap-around
    /// arithmetic, comparisons yielding 1 or 0, and dynamic shifts whose
    /// amount is taken modulo the word width. Division and remainder are only
    /// meaningful for a non-zero right operand; the machine reports
    /// a division-by-zero error before applying them.
    pub open spec fn spec_apply(self, l: u32, r: u32) -> u32
        recommends
            (self == Binary::DIV || self == Binary::MOD) ==> r != 0,
    {
        match self {
            Binary::ADD => vstd::wrapping::u32_specs::wrapping_add(l, r),
            Binary::SUB => vstd::wrapping::u32_specs::wrapping_sub(l, r),
            Binary::DIV => if r == 0 { 0 } else { l / r },
            Binary::MUL => vstd::wrapping::u32_specs::wrapping_mul(l, r),
            Binary::MOD => if r == 0 { 0 } else { l % r },
            Binary::AND => l & r,
            Binary::OR => l | r,
            Binary::XOR => l ^ r,
            Binary::GT => if l > r { 1 } else { 0 },
            Binary::GTE => if l >= r { 1 } else { 0 },
            Binary::LT => if l < r { 1 } else { 0 },
            Binary::LTE => if l <= r { 1 } else { 0 },
            Binary::EQ => if l == r { 1 } else { 0 },
            Binary::NEQ => if l != r { 1 } else { 0 },
            Binary::SHL => vstd::wrapping::u32_specs::wrapping_shl(l, r),
            Binary::SHR => vstd::wrapping::u32_specs::wrapping_shr(l, r),
        }
    }

    pub fn apply(&self, l: u32, r: u32) -> (result: u32)
        requires
            (*self == Binary::DIV || *self == Binary::MOD) ==> r != 0,
        ensures
            result == self.spec_apply(l, r),
    {
        match self {
            Binary::ADD => l.wrapping_add(r),
            Binary::SUB => l.wrapping_sub(r),
            Binary::DIV => l / r,
            Binary::MUL => l.wrapping_mul(r),
            Binary::MOD => l % r,
            Binary::AND => l & r,
            Binary::OR => l | r,
            Binary::XOR => l ^ r,
            Binary::GT => if l > r { 1 } else { 0 },
            Binary::GTE => if l >= r { 1 } else { 0 },
            Binary::LT => if l < r { 1 } else { 0 },
            Binary::LTE => if l <= r { 1 } else { 0 },
            Binary::EQ => if l == r { 1 } else { 0 },
            Binary::NEQ => if l != r { 1 } else { 0 },
            Binary::SHL => l.wrapping_shl(r),
            Binary::SHR => l.wrapping_shr(r),
        }
    }
}

/// Host calls of the `USER` family.
#[allow(non_camel_case_types)]
#[derive(Clone, Copy, Debug, PartialEq, Eq, Structural)]
pub enum UserCommand {
    GET_LENGTH,
    GET_WALL_TIME,
    GET_PRECISE_TIME,
    SET_PIXEL,
    BLIT,
    RANDOM_INT,
    GET_PIXEL,
}

impl UserCommand {
    pub open spec fn value(self) -> u8 {
        match self {
            UserCommand::GET_LENGTH => 0,
            UserCommand::GET_WALL_TIME => 1,
            UserCommand::GET_PRECISE_TIME => 2,
            UserCommand::SET_PIXEL => 3,
            UserCommand::BLIT => 4,
            UserCommand::RANDOM_INT => 5,
            UserCommand::GET_PIXEL => 6,
        }
    }

    pub fn code(&self) -> (r: u8)
        ensures
            r == self.value(),
    {
        match self {
            UserCommand::GET_LENGTH => 0,
            UserCommand::GET_WALL_TIME => 1,
            UserCommand::GET_PRECISE_TIME => 2,
            UserCommand::SET_PIXEL => 3,
            UserCommand::BLIT => 4,
            UserCommand::RANDOM_INT => 5,
            UserCommand::GET_PIXEL => 6,
        }
    }

    pub open spec fn spec_from(code: u8) -> Option<UserCommand> {
        match code {
            0u8 => Some(UserCommand::GET_LENGTH),
            1u8 => Some(UserCommand::GET_WALL_TIME),
            2u8 => Some(UserCommand::GET_PRECISE_TIME),
            3u8 => Some(UserCommand::SET_PIXEL),
            4u8 => Some(UserCommand::BLIT),
            5u8 => Some(UserCommand::RANDOM_INT),
            6u8 => Some(UserCommand::GET_PIXEL),
            _ => None,
        }
    }

    pub fn from(code: u8) -> (r: Option<UserCommand>)
        ensures
            r == UserCommand::spec_from(code),
    {
        match code {
            0 => Some(UserCommand::GET_LENGTH),
            1 => Some(UserCommand::GET_WALL_TIME),
            2 => Some(UserCommand::GET_PRECISE_TIME),
            3 => Some(UserCommand::SET_PIXEL),
            4 => Some(UserCommand::BLIT),
            5 => Some(UserCommand::RANDOM_INT),
            6 => Some(UserCommand::GET_PIXEL),
            _ => None,
        }
    }

    /// The call's net effect on the stack depth, as the assembler predicts it:
    /// the time and length queries push one value, `SET_PIXEL` consumes the
    /// packed colour it pops, and the rest leave the depth unchanged.
    pub open spec fn stack_effect(self) -> int {
        match self {
            UserCommand::GET_LENGTH => 1,
            UserCommand::GET_WALL_TIME => 1,
            UserCommand::GET_PRECISE_TIME => 1,
            UserCommand::SET_PIXEL => -1,
            UserCommand::BLIT => 0,
            UserCommand::RANDOM_INT => 0,
            UserCommand::GET_PIXEL => 0,
        }
    }
}

} // verus!
