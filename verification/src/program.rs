//! The program buffer: an append-only bytecode writer with a fluent assembler.
//!
//! A `Program` carries the emitted bytes, the origin `offset` at which the
//! fragment will be spliced into its parent (so branch targets can be written
//! as absolute 16-bit addresses without a fix-up pass), and a ghost
//! `stack_size`: the assembler's predicted net effect of the emitted code on
//! the stack depth. Branch and loop combinators demand a fragment whose
//! predicted delta is zero; the compiler discharges that demand statically.

use vstd::prelude::*;
use vstd::string::StringExecFns;

use crate::instructions::{Binary, Prefix, Special, Unary, UserCommand};

verus! {

/// Wrap-around addition on `usize`, used for program-counter arithmetic.
pub open spec fn wadd(a: usize, b: usize) -> usize {
    vstd::wrapping::usize_specs::wrapping_add(a, b)
}

/// The low byte of a 16-bit jump target.
pub open spec fn target_lo(a: usize) -> u8 {
    (a % 256) as u8
}

/// The high byte of a 16-bit jump target.
pub open spec fn target_hi(a: usize) -> u8 {
    (a / 256 % 256) as u8
}

/// The bytes a `push` emits for a value: the canonical zero, a single
/// inline byte for values up to 255, and a four-byte little-endian word
/// otherwise.
pub open spec fn push_encoding(b: u32) -> Seq<u8> {
    if b == 0 {
        seq![0x10u8]
    } else if b <= 0xFF {
        seq![0x11u8, b as u8]
    } else {
        seq![
            0x31u8,
            (b % 256) as u8,
            (b / 256 % 256) as u8,
            (b / 65536 % 256) as u8,
            (b / 16777216 % 256) as u8,
        ]
    }
}

#[derive(Clone)]
pub struct Program {
    /// The emitted bytecode.
    pub code: Vec<u8>,
    /// Predicted net effect of `code` on the stack depth.
    pub stack_size: Ghost<int>,
    /// Absolute address of the first byte of `code`.
    pub offset: usize,
}

impl Program {
    /// The absolute address one past the last emitted byte.
    pub open spec fn spec_pc(self) -> usize {
        wadd(self.offset, self.code@.len() as usize)
    }

    pub fn current_pc(&self) -> (r: usize)
        ensures
            r == self.spec_pc(),
    {
        self.offset.wrapping_add(self.code.len())
    }

    /// Wrap an existing byte string, as received over the wire.
    pub fn from_binary(data: Vec<u8>) -> (r: Program)
        ensures
            r.code@ == data@,
            r.stack_size@ == 0,
            r.offset == 0,
    {
        Program { code: data, stack_size: Ghost(0), offset: 0 }
    }

    /// An empty program starting at address zero.
    pub fn new() -> (r: Program)
        ensures
            r.code@ == Seq::<u8>::empty(),
            r.stack_size@ == 0,
            r.offset == 0,
    {
        Program { code: Vec::new(), stack_size: Ghost(0), offset: 0 }
    }

    /// An empty fragment that will be spliced in at absolute address
    /// `offset`, so that jumps inside it can be emitted absolute.
    pub fn fragment_at(offset: usize) -> (r: Program)
        ensures
            r.code@ == Seq::<u8>::empty(),
            r.stack_size@ == 0,
            r.offset == offset,
    {
        Program { code: Vec::new(), stack_size: Ghost(0), offset }
    }

    /// Append raw bytes without touching the predicted stack delta.
    pub fn write(&mut self, buffer: &[u8])
        ensures
            final(self).code@ == old(self).code@ + buffer@,
            final(self).stack_size@ == old(self).stack_size@,
            final(self).offset == old(self).offset,
    {
        let mut i: usize = 0;
        while i < buffer.len()
            invariant
                i <= buffer.len(),
                self.code@ == old(self).code@ + buffer@.subrange(0, i as int),
                self.stack_size@ == old(self).stack_size@,
                self.offset == old(self).offset,
            decreases buffer.len() - i,
        {
            let b = buffer[i];
            self.code.push(b);
            proof {
                assert(old(self).code@ + buffer@.subrange(0, i + 1) =~= (old(self).code@
                    + buffer@.subrange(0, i as int)).push(buffer@[i as int]));
            }
            i = i + 1;
        }
        proof {
            assert(buffer@.subrange(0, buffer@.len() as int) =~= buffer@);
        }
    }

    fn emit1(&mut self, b: u8, delta: Ghost<int>)
        ensures
            final(self).code@ == old(self).code@ + seq![b],
            final(self).stack_size@ == old(self).stack_size@ + delta@,
            final(self).offset == old(self).offset,
    {
        self.code.push(b);
        proof {
            self.stack_size@ = self.stack_size@ + delta@;
            assert(old(self).code@ + seq![b] =~= old(self).code@.push(b));
        }
    }

    /// `POP 0`, the canonical no-operation.
    pub fn nop(&mut self)
        ensures
            final(self).code@ == old(self).code@ + seq![0x00u8],
            final(self).stack_size@ == old(self).stack_size@,
            final(self).offset == old(self).offset,
    {
        self.emit1(0x00, Ghost(0));
    }

    /// `POP n`: discard the top `n` values.
    pub fn pop(&mut self, n: u8)
        requires
            n <= 15,
        ensures
            final(self).code@ == old(self).code@ + seq![n],
            final(self).stack_size@ == old(self).stack_size@ - n,
            final(self).offset == old(self).offset,
    {
        self.emit1(n, Ghost(-(n as int)));
    }

    /// `PEEK n`: push a copy of the value at depth `n` from the top.
    pub fn peek(&mut self, n: u8)
        requires
            n <= 15,
        ensures
            final(self).code@ == old(self).code@ + seq![(0x20 + n) as u8],
            final(self).stack_size@ == old(self).stack_size@ + 1,
            final(self).offset == old(self).offset,
    {
        self.emit1(0x20 + n, Ghost(1));
    }

    pub fn unary(&mut self, u: Unary)
        ensures
            final(self).code@ == old(self).code@ + seq![(0x70 + u.value()) as u8],
            final(self).stack_size@ == old(self).stack_size@,
            final(self).offset == old(self).offset,
    {
        let c = u.code();
        self.emit1(0x70 + c, Ghost(0));
    }

    pub fn binary(&mut self, u: Binary)
        ensures
            final(self).code@ == old(self).code@ + seq![(0x80 + u.value()) as u8],
            final(self).stack_size@ == old(self).stack_size@ - 1,
            final(self).offset == old(self).offset,
    {
        let c = u.code();
        self.emit1(0x80 + c, Ghost(-1));
    }

    pub fn special(&mut self, u: Special)
        ensures
            final(self).code@ == old(self).code@ + seq![(0xF0 + u.value()) as u8],
            final(self).stack_size@ == old(self).stack_size@,
            final(self).offset == old(self).offset,
    {
        let c = u.code();
        self.emit1(0xF0 + c, Ghost(0));
    }

    pub fn user(&mut self, u: UserCommand)
        ensures
            final(self).code@ == old(self).code@ + seq![(0xE0 + u.value()) as u8],
            final(self).stack_size@ == old(self).stack_size@ + u.stack_effect(),
            final(self).offset == old(self).offset,
    {
        let c = u.code();
        self.emit1(0xE0 + c, Ghost(u.stack_effect()));
    }

    /// Push a literal, choosing the shortest of the three encodings.
    pub fn push(&mut self, b: u32)
        ensures
            final(self).code@ == old(self).code@ + push_encoding(b),
            final(self).stack_size@ == old(self).stack_size@ + 1,
            final(self).offset == old(self).offset,
    {
        if b == 0 {
            self.emit1(0x10, Ghost(1));
        } else if b <= 0xFF {
            self.emit1(0x11, Ghost(0));
            self.emit1(b as u8, Ghost(1));
            proof {
                assert(self.code@ =~= old(self).code@ + push_encoding(b));
            }
        } else {
            self.emit1(0x31, Ghost(0));
            self.emit1((b % 256) as u8, Ghost(0));
            self.emit1((b / 256 % 256) as u8, Ghost(0));
            self.emit1((b / 65536 % 256) as u8, Ghost(0));
            self.emit1((b / 16777216 % 256) as u8, Ghost(1));
            proof {
                assert(self.code@ =~= old(self).code@ + push_encoding(b));
            }
        }
    }

    /// Amend the predicted stack delta without emitting code, for lowerings
    /// whose branches intentionally unbalance the depth in a way the
    /// per-instruction prediction cannot see (the two arms of an open-coded
    /// clamp each discard two values exactly once between them).
    pub fn adjust_stack_prediction(&mut self, d: Ghost<int>)
        ensures
            final(self).code@ == old(self).code@,
            final(self).stack_size@ == old(self).stack_size@ + d@,
            final(self).offset == old(self).offset,
    {
        proof {
            self.stack_size@ = self.stack_size@ + d@;
        }
    }

    /// Emit the two little-endian bytes of a 16-bit jump target.
    fn emit_target(&mut self, address: usize)
        ensures
            final(self).code@ == old(self).code@ + seq![target_lo(address), target_hi(address)],
            final(self).stack_size@ == old(self).stack_size@,
            final(self).offset == old(self).offset,
    {
        self.emit1((address % 256) as u8, Ghost(0));
        self.emit1((address / 256 % 256) as u8, Ghost(0));
        proof {
            assert(self.code@ =~= old(self).code@ + seq![
                target_lo(address),
                target_hi(address),
            ]);
        }
    }

    /// The bytes a conditional skip emits when the branch opcode sits at
    /// absolute address `pc`: the opcode, the absolute address of the first
    /// byte past the body, then the body itself.
    pub open spec fn skip_encoding_at(pc: usize, prefix: Prefix, body: Seq<u8>) -> Seq<u8> {
        seq![
            prefix.value(),
            target_lo(wadd(wadd(pc, 3), body.len() as usize)),
            target_hi(wadd(wadd(pc, 3), body.len() as usize)),
        ] + body
    }

    pub open spec fn skip_encoding(self, prefix: Prefix, body: Seq<u8>) -> Seq<u8> {
        Program::skip_encoding_at(self.spec_pc(), prefix, body)
    }

    /// Emit a branch that jumps over `fragment` when taken. The fragment must
    /// have been assembled at this program's current address plus the three
    /// bytes of the branch, and must leave the stack depth unchanged.
    fn skip(&mut self, prefix: Prefix, fragment: &Program)
        requires
            fragment.stack_size@ == 0,
        ensures
            final(self).code@ == old(self).code@ + old(self).skip_encoding(
                prefix,
                fragment.code@,
            ),
            final(self).stack_size@ == old(self).stack_size@,
            final(self).offset == old(self).offset,
    {
        let address = self.current_pc().wrapping_add(3).wrapping_add(fragment.code.len());
        let p = prefix.code();
        self.emit1(p, Ghost(0));
        self.emit_target(address);
        self.write(fragment.code.as_slice());
        proof {
            assert(self.code@ =~= old(self).code@ + old(self).skip_encoding(
                prefix,
                fragment.code@,
            ));
        }
    }

    /// `JNZ` over the body: the body runs only when the top of stack is zero.
    pub fn if_zero(&mut self, fragment: &Program)
        requires
            fragment.stack_size@ == 0,
        ensures
            final(self).code@ == old(self).code@ + old(self).skip_encoding(
                Prefix::JNZ,
                fragment.code@,
            ),
            final(self).stack_size@ == old(self).stack_size@,
            final(self).offset == old(self).offset,
    {
        self.skip(Prefix::JNZ, fragment);
    }

    /// `JZ` over the body: the body runs only when the top of stack is non-zero.
    pub fn if_not_zero(&mut self, fragment: &Program)
        requires
            fragment.stack_size@ == 0,
        ensures
            final(self).code@ == old(self).code@ + old(self).skip_encoding(
                Prefix::JZ,
                fragment.code@,
            ),
            final(self).stack_size@ == old(self).stack_size@,
            final(self).offset == old(self).offset,
    {
        self.skip(Prefix::JZ, fragment);
    }

    /// The bytes of an endless loop: the body, then `JMP` back to its start.
    pub open spec fn repeat_forever_encoding(self, body: Seq<u8>) -> Seq<u8> {
        body + seq![0x40u8, target_lo(self.spec_pc()), target_hi(self.spec_pc())]
    }

    /// Emit the body, then an unconditional jump back to its first byte.
    /// The fragment must have been assembled at this program's current
    /// address and must leave the stack depth unchanged.
    pub fn repeat_forever(&mut self, fragment: &Program)
        requires
            fragment.stack_size@ == 0,
        ensures
            final(self).code@ == old(self).code@ + old(self).repeat_forever_encoding(
                fragment.code@,
            ),
            final(self).stack_size@ == old(self).stack_size@,
            final(self).offset == old(self).offset,
    {
        let start = self.current_pc();
        self.write(fragment.code.as_slice());
        self.emit1(0x40, Ghost(0));
        self.emit_target(start);
        proof {
            assert(self.code@ =~= old(self).code@ + old(self).repeat_forever_encoding(
                fragment.code@,
            ));
        }
    }

    /// The bytes of a counted loop whose body starts at absolute address
    /// `start`: the body, `UNARY DEC`, then `JNZ` back to the body's start.
    pub open spec fn repeat_encoding_at(start: usize, body: Seq<u8>) -> Seq<u8> {
        body + seq![0x71u8, 0x60u8, target_lo(start), target_hi(start)]
    }

    pub open spec fn repeat_encoding(self, body: Seq<u8>) -> Seq<u8> {
        Program::repeat_encoding_at(self.spec_pc(), body)
    }

    /// Emit a loop over the body driven by the counter on top of the stack:
    /// the body, a decrement, and a `JNZ` back to the body's start. The
    /// counter (zero by then) stays on the stack; the caller pops it.
    pub fn repeat(&mut self, fragment: &Program)
        requires
            fragment.stack_size@ == 0,
        ensures
            final(self).code@ == old(self).code@ + old(self).repeat_encoding(fragment.code@),
            final(self).stack_size@ == old(self).stack_size@,
            final(self).offset == old(self).offset,
    {
        let start = self.current_pc();
        self.write(fragment.code.as_slice());
        self.emit1(0x71, Ghost(0));
        self.emit1(0x60, Ghost(0));
        self.emit_target(start);
        proof {
            assert(self.code@ =~= old(self).code@ + old(self).repeat_encoding(
                fragment.code@,
            ));
        }
    }

    /// Push a counter and loop the body that many times, popping the spent
    /// counter afterwards. The fragment must have been assembled at this
    /// program's current address plus the pushed counter's encoding.
    pub fn repeat_times(&mut self, times: u32, fragment: &Program)
        requires
            fragment.stack_size@ == 0,
        ensures
            final(self).code@ == old(self).code@ + push_encoding(times)
                + Program::repeat_encoding_at(
                wadd(old(self).spec_pc(), push_encoding(times).len() as usize),
                fragment.code@,
            ) + seq![1u8],
            final(self).stack_size@ == old(self).stack_size@,
            final(self).offset == old(self).offset,
    {
        self.push(times);
        let grown = self.code.len();
        proof {
            assert(grown == self.code@.len());
            assert(self.spec_pc() == wadd(
                old(self).spec_pc(),
                push_encoding(times).len() as usize,
            ));
        }
        self.repeat(fragment);
        self.pop(1);
        proof {
            assert(self.code@ =~= old(self).code@ + push_encoding(times)
                + Program::repeat_encoding_at(
                wadd(old(self).spec_pc(), push_encoding(times).len() as usize),
                fragment.code@,
            ) + seq![1u8]);
        }
    }

    pub fn inc(&mut self)
        ensures
            final(self).code@ == old(self).code@ + seq![0x70u8],
            final(self).stack_size@ == old(self).stack_size@,
            final(self).offset == old(self).offset,
    {
        self.unary(Unary::INC);
    }

    pub fn dec(&mut self)
        ensures
            final(self).code@ == old(self).code@ + seq![0x71u8],
            final(self).stack_size@ == old(self).stack_size@,
            final(self).offset == old(self).offset,
    {
        self.unary(Unary::DEC);
    }

    pub fn not(&mut self)
        ensures
            final(self).code@ == old(self).code@ + seq![0x72u8],
            final(self).stack_size@ == old(self).stack_size@,
            final(self).offset == old(self).offset,
    {
        self.unary(Unary::NOT);
    }

    pub fn neg(&mut self)
        ensures
            final(self).code@ == old(self).code@ + seq![0x73u8],
            final(self).stack_size@ == old(self).stack_size@,
            final(self).offset == old(self).offset,
    {
        self.unary(Unary::NEG);
    }

    pub fn add(&mut self)
        ensures
            final(self).code@ == old(self).code@ + seq![0x80u8],
            final(self).stack_size@ == old(self).stack_size@ - 1,
            final(self).offset == old(self).offset,
    {
        self.binary(Binary::ADD);
    }

    pub fn and(&mut self)
        ensures
            final(self).code@ == old(self).code@ + seq![0x85u8],
            final(self).stack_size@ == old(self).stack_size@ - 1,
            final(self).offset == old(self).offset,
    {
        self.binary(Binary::AND);
    }

    pub fn div(&mut self)
        ensures
            final(self).code@ == old(self).code@ + seq![0x82u8],
            final(self).stack_size@ == old(self).stack_size@ - 1,
            final(self).offset == old(self).offset,
    {
        self.binary(Binary::DIV);
    }

    pub fn gt(&mut self)
        ensures
            final(self).code@ == old(self).code@ + seq![0x88u8],
            final(self).stack_size@ == old(self).stack_size@ - 1,
            final(self).offset == old(self).offset,
    {
        self.binary(Binary::GT);
    }

    pub fn gte(&mut self)
        ensures
            final(self).code@ == old(self).code@ + seq![0x89u8],
            final(self).stack_size@ == old(self).stack_size@ - 1,
            final(self).offset == old(self).offset,
    {
        self.binary(Binary::GTE);
    }

    pub fn lt(&mut self)
        ensures
            final(self).code@ == old(self).code@ + seq![0x8Au8],
            final(self).stack_size@ == old(self).stack_size@ - 1,
            final(self).offset == old(self).offset,
    {
        self.binary(Binary::LT);
    }

    pub fn lte(&mut self)
        ensures
            final(self).code@ == old(self).code@ + seq![0x8Bu8],
            final(self).stack_size@ == old(self).stack_size@ - 1,
            final(self).offset == old(self).offset,
    {
        self.binary(Binary::LTE);
    }

    pub fn modulo(&mut self)
        ensures
            final(self).code@ == old(self).code@ + seq![0x84u8],
            final(self).stack_size@ == old(self).stack_size@ - 1,
            final(self).offset == old(self).offset,
    {
        self.binary(Binary::MOD);
    }

    pub fn mul(&mut self)
        ensures
            final(self).code@ == old(self).code@ + seq![0x83u8],
            final(self).stack_size@ == old(self).stack_size@ - 1,
            final(self).offset == old(self).offset,
    {
        self.binary(Binary::MUL);
    }

    pub fn or(&mut self)
        ensures
            final(self).code@ == old(self).code@ + seq![0x86u8],
            final(self).stack_size@ == old(self).stack_size@ - 1,
            final(self).offset == old(self).offset,
    {
        self.binary(Binary::OR);
    }

    pub fn sub(&mut self)
        ensures
            final(self).code@ == old(self).code@ + seq![0x81u8],
            final(self).stack_size@ == old(self).stack_size@ - 1,
            final(self).offset == old(self).offset,
    {
        self.binary(Binary::SUB);
    }

    pub fn xor(&mut self)
        ensures
            final(self).code@ == old(self).code@ + seq![0x87u8],
            final(self).stack_size@ == old(self).stack_size@ - 1,
            final(self).offset == old(self).offset,
    {
        self.binary(Binary::XOR);
    }

    pub fn dump(&mut self)
        ensures
            final(self).code@ == old(self).code@ + seq![0xFDu8],
            final(self).stack_size@ == old(self).stack_size@,
            final(self).offset == old(self).offset,
    {
        self.special(Special::DUMP);
    }

    pub fn dup(&mut self)
        ensures
            final(self).code@ == old(self).code@ + seq![0x20u8],
            final(self).stack_size@ == old(self).stack_size@ + 1,
            final(self).offset == old(self).offset,
    {
        self.peek(0);
    }

    pub fn swap(&mut self)
        ensures
            final(self).code@ == old(self).code@ + seq![0xFCu8],
            final(self).stack_size@ == old(self).stack_size@,
            final(self).offset == old(self).offset,
    {
        self.special(Special::SWAP);
    }

    pub fn yield_op(&mut self)
        ensures
            final(self).code@ == old(self).code@ + seq![0xFEu8],
            final(self).stack_size@ == old(self).stack_size@,
            final(self).offset == old(self).offset,
    {
        self.special(Special::YIELD);
    }

    pub fn set_pixel(&mut self)
        ensures
            final(self).code@ == old(self).code@ + seq![0xE3u8],
            final(self).stack_size@ == old(self).stack_size@ - 1,
            final(self).offset == old(self).offset,
    {
        self.user(UserCommand::SET_PIXEL);
    }

    pub fn blit(&mut self)
        ensures
            final(self).code@ == old(self).code@ + seq![0xE4u8],
            final(self).stack_size@ == old(self).stack_size@,
            final(self).offset == old(self).offset,
    {
        self.user(UserCommand::BLIT);
    }

    pub fn get_length(&mut self)
        ensures
            final(self).code@ == old(self).code@ + seq![0xE0u8],
            final(self).stack_size@ == old(self).stack_size@ + 1,
            final(self).offset == old(self).offset,
    {
        self.user(UserCommand::GET_LENGTH);
    }

    pub fn get_precise_time(&mut self)
        ensures
            final(self).code@ == old(self).code@ + seq![0xE2u8],
            final(self).stack_size@ == old(self).stack_size@ + 1,
            final(self).offset == old(self).offset,
    {
        self.user(UserCommand::GET_PRECISE_TIME);
    }

    pub fn get_wall_time(&mut self)
        ensures
            final(self).code@ == old(self).code@ + seq![0xE1u8],
            final(self).stack_size@ == old(self).stack_size@ + 1,
            final(self).offset == old(self).offset,
    {
        self.user(UserCommand::GET_WALL_TIME);
    }
}


/// Append a number in decimal.
fn append_dec(s: &mut String, v: u64)
{
    let mut digits: Vec<u8> = Vec::new();
    let mut x = v;
    if x == 0 {
        digits.push(0);
    }
    while x > 0
        invariant
            digits@.len() <= 20,
        decreases x,
    {
        if digits.len() < 20 {
            digits.push((x % 10) as u8);
        }
        x = x / 10;
    }
    let mut i = digits.len();
    while i > 0
        invariant
            i <= digits@.len(),
        decreases i,
    {
        i = i - 1;
        append_digit(s, digits[i]);
    }
}

/// Append one decimal digit.
fn append_digit(s: &mut String, d: u8)
{
    match d {
        0 => s.append("0"),
        1 => s.append("1"),
        2 => s.append("2"),
        3 => s.append("3"),
        4 => s.append("4"),
        5 => s.append("5"),
        6 => s.append("6"),
        7 => s.append("7"),
        8 => s.append("8"),
        _ => s.append("9"),
    }
}

/// Append one hexadecimal digit, lower case.
fn append_nibble(s: &mut String, d: u8)
{
    match d {
        0 => s.append("0"),
        1 => s.append("1"),
        2 => s.append("2"),
        3 => s.append("3"),
        4 => s.append("4"),
        5 => s.append("5"),
        6 => s.append("6"),
        7 => s.append("7"),
        8 => s.append("8"),
        9 => s.append("9"),
        10 => s.append("a"),
        11 => s.append("b"),
        12 => s.append("c"),
        13 => s.append("d"),
        14 => s.append("e"),
        _ => s.append("f"),
    }
}

/// Append a byte as two hexadecimal digits.
fn append_hex2(s: &mut String, b: u8)
{
    append_nibble(s, b / 16);
    append_nibble(s, b % 16);
}

/// Append a program counter as four zero-padded decimal digits (wider only
/// when it does not fit four).
fn append_pc(s: &mut String, pc: usize)
{
    if pc < 10000 {
        append_digit(s, ((pc / 1000) % 10) as u8);
        append_digit(s, ((pc / 100) % 10) as u8);
        append_digit(s, ((pc / 10) % 10) as u8);
        append_digit(s, (pc % 10) as u8);
    } else {
        append_dec(s, pc as u64);
    }
}

/// Append a run of bytes in the shape `[0a, 0b]`.
fn append_byte_list(s: &mut String, bytes: &Vec<u8>, from: usize, count: usize)
    requires
        from + count <= bytes@.len(),
{
    s.append("[");
    let blen = bytes.len();
    let mut i: usize = 0;
    while i < count
        invariant
            blen == bytes@.len(),
            from + count <= blen,
            i <= count,
        decreases count - i,
    {
        if i > 0 {
            s.append(", ");
        }
        append_hex2(s, bytes[from + i]);
        i = i + 1;
    }
    s.append("]");
}

impl Program {
    /// A human-readable listing of the program, one instruction per line:
    /// the address, the raw opcode byte, the mnemonic and its argument. The
    /// listing is informational; an unknown opcode or a truncated operand
    /// ends it with a marker line. The listing is empty exactly for the
    /// empty program, and otherwise closes with a line break.
    #[verifier::loop_isolation(false)]
    pub fn disassemble(&self) -> (r: String)
        ensures
            r@.len() == 0 <==> self.code@.len() == 0,
            r@.len() > 0 ==> r@.last() == '\n',
    {
        proof {
            reveal_strlit(".\t");
            reveal_strlit("\t");
            reveal_strlit("\n");
            reveal_strlit("\tUnknown instruction\n");
            reveal_strlit("(truncated)\n");
        }
            let mut s = String::new();
        let mut pc: usize = 0;
        let n = self.code.len();
        while pc < n
            invariant
                n == self.code@.len(),
                pc <= n,
                pc == 0 ==> s@.len() == 0,
                pc > 0 ==> s@.len() > 0 && s@.last() == '\n',
            decreases n - pc,
        {
            let op = self.code[pc];
            let post = op & 0x0F;
            match Prefix::from(op) {
                None => {
                    append_pc(&mut s, pc);
                    s.append(".\t");
                    append_hex2(&mut s, op);
                    s.append("\tUnknown instruction\n");
                    return s;
                },
                Some(prefix) => {
                    append_pc(&mut s, pc);
                    s.append(".\t");
                    append_hex2(&mut s, op);
                    s.append("\t");
                    match prefix {
                        Prefix::POP => {
                            s.append("POP\t");
                            append_dec(&mut s, post as u64);
                        },
                        Prefix::PUSHB => {
                            s.append("PUSHB\t");
                            if post == 0 {
                                s.append("0");
                            } else {
                                let count = post as usize;
                                if count > n - pc - 1 {
                                    s.append("(truncated)\n");
                                    return s;
                                }
                                append_byte_list(&mut s, &self.code, pc + 1, count);
                                pc = pc + count;
                            }
                        },
                        Prefix::PEEK => {
                            s.append("PEEKB\t");
                            append_dec(&mut s, post as u64);
                        },
                        Prefix::PUSHI => {
                            s.append("PUSHI\t");
                            let count = 4 * (post as usize);
                            if count > n - pc - 1 {
                                s.append("(truncated)\n");
                                return s;
                            }
                            append_byte_list(&mut s, &self.code, pc + 1, count);
                            pc = pc + count;
                        },
                        Prefix::JMP | Prefix::JZ | Prefix::JNZ => {
                            match prefix {
                                Prefix::JMP => s.append("JMP\tto "),
                                Prefix::JZ => s.append("JZ\tto "),
                                _ => s.append("JNZ\tto "),
                            }
                            if 2 > n - pc - 1 {
                                s.append("(truncated)\n");
                                return s;
                            }
                            let target = (self.code[pc + 1] as u64) + 256 * (self.code[pc + 2]
                                as u64);
                            append_dec(&mut s, target);
                            pc = pc + 2;
                        },
                        Prefix::UNARY => {
                            s.append("UNARY\t");
                            match Unary::from(post) {
                                Some(Unary::INC) => s.append("INC"),
                                Some(Unary::DEC) => s.append("DEC"),
                                Some(Unary::NOT) => s.append("NOT"),
                                Some(Unary::NEG) => s.append("NEG"),
                                Some(Unary::SHL8) => s.append("SHL8"),
                                Some(Unary::SHR8) => s.append("SHR8"),
                                None => {
                                    s.append("unknown ");
                                    append_dec(&mut s, post as u64);
                                },
                            }
                        },
                        Prefix::BINARY => {
                            s.append("BINARY\t");
                            match Binary::from(post) {
                                Some(Binary::ADD) => s.append("ADD"),
                                Some(Binary::SUB) => s.append("SUB"),
                                Some(Binary::DIV) => s.append("DIV"),
                                Some(Binary::MUL) => s.append("MUL"),
                                Some(Binary::MOD) => s.append("MOD"),
                                Some(Binary::AND) => s.append("AND"),
                                Some(Binary::OR) => s.append("OR"),
                                Some(Binary::XOR) => s.append("XOR"),
                                Some(Binary::GT) => s.append("GT"),
                                Some(Binary::GTE) => s.append("GTE"),
                                Some(Binary::LT) => s.append("LT"),
                                Some(Binary::LTE) => s.append("LTE"),
                                Some(Binary::EQ) => s.append("EQ"),
                                Some(Binary::NEQ) => s.append("NEQ"),
                                Some(Binary::SHL) => s.append("SHL"),
                                Some(Binary::SHR) => s.append("SHR"),
                                None => {
                                    s.append("unknown ");
                                    append_dec(&mut s, post as u64);
                                },
                            }
                        },
                        Prefix::USER => {
                            s.append("USER\t");
                            match UserCommand::from(post) {
                                Some(UserCommand::GET_LENGTH) => s.append("get_length"),
                                Some(UserCommand::GET_WALL_TIME) => s.append("get_wall_time"),
                                Some(UserCommand::GET_PRECISE_TIME) => s.append(
                                    "get_precise_time",
                                ),
                                Some(UserCommand::SET_PIXEL) => s.append("set_pixel"),
                                Some(UserCommand::BLIT) => s.append("blit"),
                                Some(UserCommand::RANDOM_INT) => s.append("random_int"),
                                Some(UserCommand::GET_PIXEL) => s.append("get_pixel"),
                                None => s.append("(unknown user function)"),
                            }
                        },
                        Prefix::SPECIAL => {
                            s.append("SPECIAL\t");
                            match Special::from(post) {
                                Some(Special::SWAP) => s.append("swap"),
                                Some(Special::DUMP) => s.append("dump"),
                                Some(Special::YIELD) => s.append("yield"),
                                Some(Special::TWOBYTE) => s.append("two-byte instruction"),
                                None => s.append("(unknown special function)"),
                            }
                        },
                    }
                    s.append("\n");
                },
            }
            pc = pc + 1;
        }
        s
    }
}

} // verus!
