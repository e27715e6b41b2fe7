//! The stack virtual machine: a fetch/decode/execute loop over the bytecode,
//! driving an abstract strip, with per-call and per-machine instruction
//! quotas, cooperative yielding, and a deterministic mode.
//!
//! The machine's behaviour is specified as a small-step relation `step_rel`
//! over a mathematical machine state; `run` is proved to realise a chain of
//! such steps. In deterministic mode the relation is a function of the state
//! alone, which is proved as `lemma_deterministic_reaches`: replaying a
//! program cannot diverge, so every committed frame is bit-identical between
//! replays.

use rand::Rng;
use rand::SeedableRng;
use vstd::prelude::*;

use crate::ast::{bump_top, expr_encoding, expr_ok, expr_total, jump_free, user_expr_arity, Expression, Frame};
use crate::instructions::{Binary, Prefix, Special, Unary, UserCommand};
use crate::program::{push_encoding, target_hi, target_lo, Program};
use crate::strip::{Color, Strip, StripModel};

verus! {

/// Why the machine refused to continue.
#[derive(Clone, Copy, Debug, PartialEq, Eq, Structural)]
pub enum VMError {
    /// An opcode byte outside the instruction set, a sub-operation outside
    /// its family's range, or an instruction whose inline operands run past
    /// the end of the program.
    UnknownInstruction,
    /// An instruction needed more values than the stack holds.
    StackUnderflow,
    /// A pixel write or read addressed a pixel beyond the strip's length.
    StripIndexOutOfRange,
    /// A division or remainder met a zero right operand.
    DivisionByZero,
}

/// How a call to `run` came back.
#[derive(Clone, Copy, Debug, PartialEq, Eq, Structural)]
pub enum Outcome {
    Ended,
    GlobalInstructionLimitReached,
    LocalInstructionLimitReached,
    Yielded,
    Error(VMError),
}

/// What one instruction did: carried on, yielded a frame, or failed.
#[derive(Clone, Copy, Debug, PartialEq, Eq, Structural)]
pub enum StepOut {
    Continue,
    Yielded,
    Failed(VMError),
}

/// The mathematical state of a running machine.
#[verifier::ext_equal]
pub struct VMState {
    pub pc: int,
    pub stack: Seq<u32>,
    /// Instructions executed by this machine, saturating at the counter's
    /// width.
    pub count: int,
    /// The bounds handed to the deterministic random source so far.
    pub rng_history: Seq<u32>,
    pub strip: StripModel,
    /// The stack snapshots the dump instruction has emitted to the trace
    /// sink.
    pub dumps: Seq<Seq<u32>>,
}

/// One more executed instruction, saturating at the counter's width.
pub open spec fn bump(count: int) -> int {
    if count >= u64::MAX {
        count
    } else {
        count + 1
    }
}

/// A 16-bit little-endian word read out of the code.
pub open spec fn le16_at(code: Seq<u8>, p: int) -> int {
    code[p] + 256 * code[p + 1]
}

/// A 32-bit little-endian word read out of the code.
pub open spec fn le32_at(code: Seq<u8>, p: int) -> u32 {
    (code[p] + code[p + 1] * 0x100 + code[p + 2] * 0x10000 + code[p + 3] * 0x1000000) as u32
}

/// The colour packed in a stack value: low byte red, then green, then blue.
pub open spec fn unpacked_color(v: u32) -> Color {
    Color { r: (v % 256) as u8, g: (v / 256 % 256) as u8, b: (v / 65536 % 256) as u8 }
}

/// The result a deterministic machine's random source hands back: a value
/// below `bound` fully determined by the bounds drawn before it.
pub uninterp spec fn det_rand(history: Seq<u32>, bound: u32) -> u32;

/// A failed step: the instruction is counted, everything else stays.
pub open spec fn failed_state(s: VMState) -> VMState {
    VMState { count: bump(s.count), ..s }
}

/// What executing the instruction at `s.pc` does. `det` selects deterministic
/// mode (fixed time values and the seeded random source); `trace` selects
/// whether the trace sink is attached: a dump instruction hands its stack
/// snapshot to the sink, so with no sink attached the snapshot goes nowhere
/// and the machine state keeps no record of it. Every instruction, including
/// a failing one, counts against the quotas.
#[verifier::opaque]
pub open spec fn step_rel(
    code: Seq<u8>,
    det: bool,
    trace: bool,
    s: VMState,
    s2: VMState,
    out: StepOut,
) -> bool
    recommends
        0 <= s.pc < code.len(),
{
    let op = code[s.pc];
    let post = op & 0x0F;
    let n = s.stack.len() as int;
    let c2 = bump(s.count);
    match Prefix::spec_from(op) {
        None => out == StepOut::Failed(VMError::UnknownInstruction) && s2 == failed_state(s),
        Some(prefix) => match prefix {
            Prefix::POP => if post as int <= n {
                out == StepOut::Continue && s2 == (VMState {
                    pc: s.pc + 1,
                    stack: s.stack.take(n - post),
                    count: c2,
                    ..s
                })
            } else {
                out == StepOut::Failed(VMError::StackUnderflow) && s2 == failed_state(s)
            },
            Prefix::PUSHB => if post == 0 {
                out == StepOut::Continue && s2 == (VMState {
                    pc: s.pc + 1,
                    stack: s.stack.push(0),
                    count: c2,
                    ..s
                })
            } else if s.pc + 1 + post <= code.len() {
                out == StepOut::Continue && s2 == (VMState {
                    pc: s.pc + 1 + post,
                    stack: s.stack + Seq::new(post as nat, |i: int| code[s.pc + 1 + i] as u32),
                    count: c2,
                    ..s
                })
            } else {
                out == StepOut::Failed(VMError::UnknownInstruction) && s2 == failed_state(s)
            },
            Prefix::PEEK => if (post as int) < n {
                out == StepOut::Continue && s2 == (VMState {
                    pc: s.pc + 1,
                    stack: s.stack.push(s.stack[n - 1 - post]),
                    count: c2,
                    ..s
                })
            } else {
                out == StepOut::Failed(VMError::StackUnderflow) && s2 == failed_state(s)
            },
            Prefix::PUSHI => if s.pc + 1 + 4 * post <= code.len() {
                out == StepOut::Continue && s2 == (VMState {
                    pc: s.pc + 1 + 4 * post,
                    stack: s.stack + Seq::new(
                        post as nat,
                        |i: int| le32_at(code, s.pc + 1 + 4 * i),
                    ),
                    count: c2,
                    ..s
                })
            } else {
                out == StepOut::Failed(VMError::UnknownInstruction) && s2 == failed_state(s)
            },
            Prefix::JMP => if s.pc + 3 <= code.len() {
                out == StepOut::Continue && s2 == (VMState {
                    pc: le16_at(code, s.pc + 1),
                    count: c2,
                    ..s
                })
            } else {
                out == StepOut::Failed(VMError::UnknownInstruction) && s2 == failed_state(s)
            },
            Prefix::JZ => if s.pc + 3 <= code.len() {
                if n >= 1 {
                    out == StepOut::Continue && s2 == (VMState {
                        pc: if s.stack.last() == 0 {
                            le16_at(code, s.pc + 1)
                        } else {
                            s.pc + 3
                        },
                        count: c2,
                        ..s
                    })
                } else {
                    out == StepOut::Failed(VMError::StackUnderflow) && s2 == failed_state(s)
                }
            } else {
                out == StepOut::Failed(VMError::UnknownInstruction) && s2 == failed_state(s)
            },
            Prefix::JNZ => if s.pc + 3 <= code.len() {
                if n >= 1 {
                    out == StepOut::Continue && s2 == (VMState {
                        pc: if s.stack.last() != 0 {
                            le16_at(code, s.pc + 1)
                        } else {
                            s.pc + 3
                        },
                        count: c2,
                        ..s
                    })
                } else {
                    out == StepOut::Failed(VMError::StackUnderflow) && s2 == failed_state(s)
                }
            } else {
                out == StepOut::Failed(VMError::UnknownInstruction) && s2 == failed_state(s)
            },
            Prefix::UNARY => match Unary::spec_from(post) {
                None => out == StepOut::Failed(VMError::UnknownInstruction) && s2 == failed_state(
                    s,
                ),
                Some(u) => if n >= 1 {
                    out == StepOut::Continue && s2 == (VMState {
                        pc: s.pc + 1,
                        stack: s.stack.take(n - 1).push(u.spec_apply(s.stack.last())),
                        count: c2,
                        ..s
                    })
                } else {
                    out == StepOut::Failed(VMError::StackUnderflow) && s2 == failed_state(s)
                },
            },
            Prefix::BINARY => match Binary::spec_from(post) {
                None => out == StepOut::Failed(VMError::UnknownInstruction) && s2 == failed_state(
                    s,
                ),
                Some(b) => if n >= 2 {
                    if (b == Binary::DIV || b == Binary::MOD) && s.stack[n - 1] == 0 {
                        out == StepOut::Failed(VMError::DivisionByZero) && s2 == failed_state(s)
                    } else {
                        out == StepOut::Continue && s2 == (VMState {
                            pc: s.pc + 1,
                            stack: s.stack.take(n - 2).push(
                                b.spec_apply(s.stack[n - 2], s.stack[n - 1]),
                            ),
                            count: c2,
                            ..s
                        })
                    }
                } else {
                    out == StepOut::Failed(VMError::StackUnderflow) && s2 == failed_state(s)
                },
            },
            Prefix::USER => match UserCommand::spec_from(post) {
                None => out == StepOut::Failed(VMError::UnknownInstruction) && s2 == failed_state(
                    s,
                ),
                Some(u) => match u {
                    UserCommand::GET_LENGTH => out == StepOut::Continue && s2 == (VMState {
                        pc: s.pc + 1,
                        stack: s.stack.push(s.strip.colors.len() as u32),
                        count: c2,
                        ..s
                    }),
                    UserCommand::GET_WALL_TIME => if det {
                        out == StepOut::Continue && s2 == (VMState {
                            pc: s.pc + 1,
                            stack: s.stack.push(((c2 / 10) % 0x1_0000_0000) as u32),
                            count: c2,
                            ..s
                        })
                    } else {
                        // wall-clock time: some word is pushed
                        out == StepOut::Continue && s2.stack.len() == n + 1 && s2.stack.take(n)
                            == s.stack && s2 == (VMState {
                            pc: s.pc + 1,
                            stack: s2.stack,
                            count: c2,
                            ..s
                        })
                    },
                    UserCommand::GET_PRECISE_TIME => if det {
                        out == StepOut::Continue && s2 == (VMState {
                            pc: s.pc + 1,
                            stack: s.stack.push((c2 % 0x1_0000_0000) as u32),
                            count: c2,
                            ..s
                        })
                    } else {
                        out == StepOut::Continue && s2.stack.len() == n + 1 && s2.stack.take(n)
                            == s.stack && s2 == (VMState {
                            pc: s.pc + 1,
                            stack: s2.stack,
                            count: c2,
                            ..s
                        })
                    },
                    UserCommand::SET_PIXEL => if n >= 2 {
                        let v = s.stack[n - 1];
                        let idx = s.stack[n - 2];
                        if (idx as int) < s.strip.colors.len() {
                            out == StepOut::Continue && s2 == (VMState {
                                pc: s.pc + 1,
                                stack: s.stack.take(n - 1),
                                strip: StripModel {
                                    colors: s.strip.colors.update(
                                        idx as int,
                                        unpacked_color(v),
                                    ),
                                    frames: s.strip.frames,
                                },
                                count: c2,
                                ..s
                            })
                        } else {
                            out == StepOut::Failed(VMError::StripIndexOutOfRange) && s2
                                == failed_state(s)
                        }
                    } else {
                        out == StepOut::Failed(VMError::StackUnderflow) && s2 == failed_state(s)
                    },
                    UserCommand::BLIT => out == StepOut::Continue && s2 == (VMState {
                        pc: s.pc + 1,
                        strip: StripModel {
                            colors: s.strip.colors,
                            frames: s.strip.frames.push(s.strip.colors),
                        },
                        count: c2,
                        ..s
                    }),
                    UserCommand::RANDOM_INT => if n >= 1 {
                        let v = s.stack[n - 1];
                        if v == 0 {
                            // an empty range has no draw; zero is pushed
                            out == StepOut::Continue && s2 == (VMState {
                                pc: s.pc + 1,
                                stack: s.stack.take(n - 1).push(0),
                                count: c2,
                                ..s
                            })
                        } else if det {
                            out == StepOut::Continue && det_rand(s.rng_history, v) < v && s2
                                == (VMState {
                                pc: s.pc + 1,
                                stack: s.stack.take(n - 1).push(det_rand(s.rng_history, v)),
                                count: c2,
                                rng_history: s.rng_history.push(v),
                                ..s
                            })
                        } else {
                            // an operating-system draw: some value below the bound
                            out == StepOut::Continue && s2.stack.len() == n && s2.stack.take(n - 1)
                                == s.stack.take(n - 1) && s2.stack[n - 1] < v && s2 == (VMState {
                                pc: s.pc + 1,
                                stack: s2.stack,
                                count: c2,
                                ..s
                            })
                        }
                    } else {
                        out == StepOut::Failed(VMError::StackUnderflow) && s2 == failed_state(s)
                    },
                    UserCommand::GET_PIXEL => if n >= 1 {
                        let idx = s.stack[n - 1];
                        if (idx as int) < s.strip.colors.len() {
                            let c = s.strip.colors[idx as int];
                            out == StepOut::Continue && s2 == (VMState {
                                pc: s.pc + 1,
                                stack: s.stack.take(n - 1).push(
                                    idx | ((c.r as u32) << 8u32) | ((c.g as u32) << 16u32) | (
                                    (c.b as u32) << 24u32),
                                ),
                                count: c2,
                                ..s
                            })
                        } else {
                            out == StepOut::Failed(VMError::StripIndexOutOfRange) && s2
                                == failed_state(s)
                        }
                    } else {
                        out == StepOut::Failed(VMError::StackUnderflow) && s2 == failed_state(s)
                    },
                },
            },
            Prefix::SPECIAL => match Special::spec_from(post) {
                None => out == StepOut::Failed(VMError::UnknownInstruction) && s2 == failed_state(
                    s,
                ),
                Some(sp) => match sp {
                    Special::SWAP => if n >= 2 {
                        out == StepOut::Continue && s2 == (VMState {
                            pc: s.pc + 1,
                            stack: s.stack.take(n - 2).push(s.stack[n - 1]).push(s.stack[n - 2]),
                            count: c2,
                            ..s
                        })
                    } else {
                        out == StepOut::Failed(VMError::StackUnderflow) && s2 == failed_state(s)
                    },
                    Special::DUMP => out == StepOut::Continue && s2 == (VMState {
                        pc: s.pc + 1,
                        count: c2,
                        dumps: if trace {
                            s.dumps.push(s.stack)
                        } else {
                            s.dumps
                        },
                        ..s
                    }),
                    Special::YIELD => out == StepOut::Yielded && s2 == (VMState {
                        pc: s.pc + 1,
                        count: c2,
                        ..s
                    }),
                    Special::TWOBYTE => out == StepOut::Failed(VMError::UnknownInstruction) && s2
                        == failed_state(s),
                },
            },
        },
    }
}

/// `states` is a valid execution trace: every adjacent pair is one ordinary
/// (non-yielding, non-failing) step taken inside the program.
pub open spec fn is_run(code: Seq<u8>, det: bool, trace: bool, states: Seq<VMState>) -> bool {
    &&& states.len() >= 1
    &&& forall|i: int|
        0 <= i < states.len() - 1 ==> {
            &&& 0 <= (#[trigger] states[i]).pc < code.len()
            &&& step_rel(code, det, trace, states[i], states[i + 1], StepOut::Continue)
        }
}

/// In deterministic mode one instruction has exactly one successor.
pub proof fn lemma_deterministic_step(
    code: Seq<u8>,
    trace: bool,
    s: VMState,
    s2a: VMState,
    s2b: VMState,
    outa: StepOut,
    outb: StepOut,
)
    requires
        0 <= s.pc < code.len(),
        step_rel(code, true, trace, s, s2a, outa),
        step_rel(code, true, trace, s, s2b, outb),
    ensures
        s2a == s2b,
        outa == outb,
{
    reveal(step_rel);
}

proof fn lemma_deterministic_at(code: Seq<u8>, trace: bool, a: Seq<VMState>, b: Seq<VMState>, i: int)
    requires
        is_run(code, true, trace, a),
        is_run(code, true, trace, b),
        a.len() == b.len(),
        a.first() == b.first(),
        0 <= i < a.len(),
    ensures
        a[i] == b[i],
    decreases i,
{
    if i > 0 {
        lemma_deterministic_at(code, trace, a, b, i - 1);
        lemma_deterministic_step(
            code,
            trace,
            a[i - 1],
            a[i],
            b[i],
            StepOut::Continue,
            StepOut::Continue,
        );
    }
}

/// In deterministic mode the machine is a function of its state alone: two
/// executions of the same program from the same state that run for the same
/// number of instructions agree exactly, state by state. In particular every
/// frame committed to the strip, every dumped stack snapshot, and every value
/// drawn from the random source is bit-identical between replays.
pub proof fn lemma_deterministic_run(code: Seq<u8>, trace: bool, a: Seq<VMState>, b: Seq<VMState>)
    requires
        is_run(code, true, trace, a),
        is_run(code, true, trace, b),
        a.len() == b.len(),
        a.first() == b.first(),
    ensures
        a =~= b,
{
    assert forall|i: int| 0 <= i < a.len() implies a[i] == b[i] by {
        lemma_deterministic_at(code, trace, a, b, i);
    }
}


/// A run with a local quota of one, on a program whose instruction at the
/// counter neither yields, nor fails, nor leaves the program, executes
/// exactly that one instruction and reports the filled quota, leaving the
/// counter at the next opcode. The hypotheses are what `run` ensures for a
/// quota of `Some(1)` on a machine without a per-machine quota; programs
/// whose first instruction yields, fails or ends the program are excluded,
/// since for those the quota is never the first thing reached.
pub proof fn lemma_single_opcode_quota(
    code: Seq<u8>,
    det: bool,
    tr: bool,
    v0: VMState,
    v1: VMState,
    r: Outcome,
)
    requires
        0 <= v0.pc < code.len(),
        forall|s2: VMState, out: StepOut|
            #[trigger] step_rel(code, det, tr, v0, s2, out) ==> out == StepOut::Continue && 0
                <= s2.pc < code.len(),
        match r {
            Outcome::Ended => exists|sts: Seq<VMState>|
                {
                    &&& #[trigger] is_run(code, det, tr, sts)
                    &&& sts.first() == v0
                    &&& sts.last() == v1
                    &&& sts.len() - 1 <= 1
                    &&& v1.pc >= code.len()
                },
            Outcome::Yielded => exists|sts: Seq<VMState>|
                {
                    &&& #[trigger] is_run(code, det, tr, sts)
                    &&& sts.first() == v0
                    &&& sts.len() - 1 < 1
                    &&& 0 <= sts.last().pc < code.len()
                    &&& step_rel(code, det, tr, sts.last(), v1, StepOut::Yielded)
                },
            Outcome::Error(e) => exists|sts: Seq<VMState>|
                {
                    &&& #[trigger] is_run(code, det, tr, sts)
                    &&& sts.first() == v0
                    &&& sts.len() - 1 < 1
                    &&& 0 <= sts.last().pc < code.len()
                    &&& step_rel(code, det, tr, sts.last(), v1, StepOut::Failed(e))
                },
            Outcome::LocalInstructionLimitReached => exists|sts: Seq<VMState>|
                {
                    &&& #[trigger] is_run(code, det, tr, sts)
                    &&& sts.first() == v0
                    &&& sts.last() == v1
                    &&& sts.len() - 1 == 1
                    &&& 0 <= v1.pc < code.len()
                },
            Outcome::GlobalInstructionLimitReached => false,
        },
    ensures
        r == Outcome::LocalInstructionLimitReached,
        step_rel(code, det, tr, v0, v1, StepOut::Continue),
        0 <= v1.pc < code.len(),
{
    match r {
        Outcome::Ended => {
            let sts = choose|sts: Seq<VMState>|
                {
                    &&& #[trigger] is_run(code, det, tr, sts)
                    &&& sts.first() == v0
                    &&& sts.last() == v1
                    &&& sts.len() - 1 <= 1
                    &&& v1.pc >= code.len()
                };
            if sts.len() == 1 {
                assert(v1 == v0);
            } else {
                assert(step_rel(code, det, tr, sts[0], sts[1], StepOut::Continue));
                assert(sts[1] == v1);
            }
        },
        Outcome::Yielded => {
            let sts = choose|sts: Seq<VMState>|
                {
                    &&& #[trigger] is_run(code, det, tr, sts)
                    &&& sts.first() == v0
                    &&& sts.len() - 1 < 1
                    &&& 0 <= sts.last().pc < code.len()
                    &&& step_rel(code, det, tr, sts.last(), v1, StepOut::Yielded)
                };
            assert(sts.last() == v0);
        },
        Outcome::Error(e) => {
            let sts = choose|sts: Seq<VMState>|
                {
                    &&& #[trigger] is_run(code, det, tr, sts)
                    &&& sts.first() == v0
                    &&& sts.len() - 1 < 1
                    &&& 0 <= sts.last().pc < code.len()
                    &&& step_rel(code, det, tr, sts.last(), v1, StepOut::Failed(e))
                };
            assert(sts.last() == v0);
        },
        Outcome::LocalInstructionLimitReached => {
            let sts = choose|sts: Seq<VMState>|
                {
                    &&& #[trigger] is_run(code, det, tr, sts)
                    &&& sts.first() == v0
                    &&& sts.last() == v1
                    &&& sts.len() - 1 == 1
                    &&& 0 <= v1.pc < code.len()
                };
            assert(step_rel(code, det, tr, sts[0], sts[1], StepOut::Continue));
            assert(sts[0] == v0 && sts[1] == v1);
        },
        Outcome::GlobalInstructionLimitReached => {},
    }
}


/// Emitted code runs as the assembler predicts, shown here for the encoding
/// of a push: from any state whose counter sits at the first byte of a
/// `push` encoding inside the program, the machine takes an ordinary step
/// over the whole encoding — inline operands included — pushes exactly the
/// pushed value, and touches nothing else. In particular the run-time stack
/// grows by one, which is the delta the assembler charges a push with.
#[verifier::rlimit(100)]
#[verifier::spinoff_prover]
pub proof fn lemma_push_code_runs(
    code: Seq<u8>,
    det: bool,
    tr: bool,
    v: u32,
    s: VMState,
    s2: VMState,
    out: StepOut,
)
    requires
        0 <= s.pc,
        s.pc + push_encoding(v).len() <= code.len(),
        code.subrange(s.pc, s.pc + push_encoding(v).len()) == push_encoding(v),
        step_rel(code, det, tr, s, s2, out),
    ensures
        out == StepOut::Continue,
        s2 == (VMState {
            pc: s.pc + push_encoding(v).len(),
            stack: s.stack.push(v),
            count: bump(s.count),
            ..s
        }),
{
    reveal(step_rel);
    let enc = push_encoding(v);
    assert(forall|k: int|
        0 <= k < enc.len() ==> code[s.pc + k] == #[trigger] enc[k]) by {
        assert(forall|k: int|
            0 <= k < enc.len() ==> #[trigger] enc[k] == code.subrange(
                s.pc,
                s.pc + enc.len(),
            )[k]);
    }
    if v == 0 {
        assert(code[s.pc + 0] == enc[0]);
        assert(code[s.pc] == 0x10);
        assert(0x10u8 & 0xF0u8 == 0x10u8 && 0x10u8 & 0x0Fu8 == 0u8) by (bit_vector);
        assert(s2.stack =~= s.stack.push(v));
    } else if v <= 0xFF {
        assert(code[s.pc + 0] == enc[0] && code[s.pc + 1] == enc[1]);
        assert(code[s.pc] == 0x11 && code[s.pc + 1] == v as u8);
        assert(0x11u8 & 0xF0u8 == 0x10u8 && 0x11u8 & 0x0Fu8 == 1u8) by (bit_vector);
        assert(s2.stack =~= s.stack + Seq::new(1, |i: int| code[s.pc + 1 + i] as u32));
        assert(s2.stack =~= s.stack.push(v));
        assert(s2 =~= (VMState {
            pc: s.pc + enc.len(),
            stack: s.stack.push(v),
            count: bump(s.count),
            ..s
        }));
    } else {
        assert(code[s.pc + 0] == enc[0] && code[s.pc + 1] == enc[1] && code[s.pc + 2] == enc[2]
            && code[s.pc + 3] == enc[3] && code[s.pc + 4] == enc[4]);
        assert(code[s.pc] == 0x31);
        assert(code[s.pc + 1] == (v % 256) as u8);
        assert(code[s.pc + 2] == (v / 256 % 256) as u8);
        assert(code[s.pc + 3] == (v / 65536 % 256) as u8);
        assert(code[s.pc + 4] == (v / 16777216 % 256) as u8);
        assert(0x31u8 & 0xF0u8 == 0x30u8 && 0x31u8 & 0x0Fu8 == 1u8) by (bit_vector);
        assert((v % 256) + (v / 256 % 256) * 0x100 + (v / 65536 % 256) * 0x10000 + (v / 16777216
            % 256) * 0x1000000 == v) by (nonlinear_arith);
        assert(le32_at(code, s.pc + 1) == v);
        assert(s2.stack =~= s.stack + Seq::new(1, |i: int| le32_at(code, s.pc + 1 + 4 * i)));
        assert(s2.stack =~= s.stack.push(v));
        assert(s2 =~= (VMState {
            pc: s.pc + enc.len(),
            stack: s.stack.push(v),
            count: bump(s.count),
            ..s
        }));
    }
}


/// An emitted `POP n` byte runs as predicted: with at least `n` values on
/// the stack it discards exactly the top `n` — the assembler's charged
/// delta of minus `n` — and advances one byte.
pub proof fn lemma_pop_code_runs(
    code: Seq<u8>,
    det: bool,
    tr: bool,
    n: u8,
    s: VMState,
    s2: VMState,
    out: StepOut,
)
    requires
        n <= 15,
        0 <= s.pc < code.len(),
        code[s.pc] == n,
        n <= s.stack.len(),
        step_rel(code, det, tr, s, s2, out),
    ensures
        out == StepOut::Continue,
        s2 == (VMState {
            pc: s.pc + 1,
            stack: s.stack.take(s.stack.len() - n),
            count: bump(s.count),
            ..s
        }),
{
    reveal(step_rel);
    assert(n <= 15 ==> (n & 0xF0 == 0 && n & 0x0F == n)) by (bit_vector);
}

/// An emitted `PEEK n` byte runs as predicted: with more than `n` values on
/// the stack it pushes a copy of the value at depth `n` — the assembler's
/// charged delta of plus one — and advances one byte.
pub proof fn lemma_peek_code_runs(
    code: Seq<u8>,
    det: bool,
    tr: bool,
    n: u8,
    s: VMState,
    s2: VMState,
    out: StepOut,
)
    requires
        n <= 15,
        0 <= s.pc < code.len(),
        code[s.pc] == (0x20 + n) as u8,
        (n as int) < s.stack.len(),
        step_rel(code, det, tr, s, s2, out),
    ensures
        out == StepOut::Continue,
        s2 == (VMState {
            pc: s.pc + 1,
            stack: s.stack.push(s.stack[s.stack.len() - 1 - n]),
            count: bump(s.count),
            ..s
        }),
{
    reveal(step_rel);
    let b = (0x20 + n) as u8;
    assert(n <= 15 ==> (b & 0xF0 == 0x20 && b & 0x0F == n)) by (bit_vector)
        requires
            b == (0x20 + n) as u8,
    ;
}

/// An emitted unary-operator byte runs as predicted: with a value on the
/// stack it replaces the top by the operator's result — the assembler's
/// charged delta of zero — and advances one byte.
pub proof fn lemma_unary_code_runs(
    code: Seq<u8>,
    det: bool,
    tr: bool,
    u: Unary,
    s: VMState,
    s2: VMState,
    out: StepOut,
)
    requires
        0 <= s.pc < code.len(),
        code[s.pc] == (0x70 + u.value()) as u8,
        s.stack.len() >= 1,
        step_rel(code, det, tr, s, s2, out),
    ensures
        out == StepOut::Continue,
        s2 == (VMState {
            pc: s.pc + 1,
            stack: s.stack.take(s.stack.len() - 1).push(u.spec_apply(s.stack.last())),
            count: bump(s.count),
            ..s
        }),
{
    reveal(step_rel);
    let v = u.value();
    let b = (0x70 + v) as u8;
    assert(v <= 15 ==> (b & 0xF0 == 0x70 && b & 0x0F == v)) by (bit_vector)
        requires
            b == (0x70 + v) as u8,
    ;
}

/// An emitted binary-operator byte runs as predicted: with two values on
/// the stack, and a non-zero right operand for division and remainder, it
/// replaces them by the operator's result — the assembler's charged delta
/// of minus one — and advances one byte.
pub proof fn lemma_binary_code_runs(
    code: Seq<u8>,
    det: bool,
    tr: bool,
    b: Binary,
    s: VMState,
    s2: VMState,
    out: StepOut,
)
    requires
        0 <= s.pc < code.len(),
        code[s.pc] == (0x80 + b.value()) as u8,
        s.stack.len() >= 2,
        (b == Binary::DIV || b == Binary::MOD) ==> s.stack.last() != 0,
        step_rel(code, det, tr, s, s2, out),
    ensures
        out == StepOut::Continue,
        s2 == (VMState {
            pc: s.pc + 1,
            stack: s.stack.take(s.stack.len() - 2).push(
                b.spec_apply(s.stack[s.stack.len() - 2], s.stack[s.stack.len() - 1]),
            ),
            count: bump(s.count),
            ..s
        }),
{
    reveal(step_rel);
    let v = b.value();
    let op = (0x80 + v) as u8;
    assert(v <= 15 ==> (op & 0xF0 == 0x80 && op & 0x0F == v)) by (bit_vector)
        requires
            op == (0x80 + v) as u8,
    ;
}


/// Executions compose: a trace that ends where another begins joins with it
/// into one execution. This is what makes a quota return resumable — the
/// instructions of one `run` call and of the next form a single chain of
/// steps of the same machine.
pub proof fn lemma_is_run_concat(
    code: Seq<u8>,
    det: bool,
    tr: bool,
    a: Seq<VMState>,
    b: Seq<VMState>,
)
    requires
        is_run(code, det, tr, a),
        is_run(code, det, tr, b),
        a.last() == b.first(),
    ensures
        is_run(code, det, tr, a + b.drop_first()),
{
    let j = a + b.drop_first();
    assert forall|i: int|
        0 <= i < j.len() - 1 implies 0 <= (#[trigger] j[i]).pc < code.len() && step_rel(
        code,
        det,
        tr,
        j[i],
        j[i + 1],
        StepOut::Continue,
    ) by {
        if i < a.len() - 1 {
            assert(j[i] == a[i]);
            if i + 1 < a.len() {
                assert(j[i + 1] == a[i + 1]);
            } else {
                assert(j[i + 1] == b.drop_first()[0]);
                assert(j[i + 1] == b[1]);
                assert(a[i + 1] == a.last());
            }
        } else if i == a.len() - 1 {
            assert(j[i] == a.last());
            assert(j[i] == b[0]);
            assert(j[i + 1] == b.drop_first()[i + 1 - a.len()]);
            assert(j[i + 1] == b[1]);
        } else {
            assert(j[i] == b.drop_first()[i - a.len()]);
            assert(j[i] == b[i - a.len() + 1]);
            assert(j[i + 1] == b[i - a.len() + 2]);
        }
    }
}


/// An embedded concatenation splits into its embedded parts.
proof fn lemma_embedded_parts(code: Seq<u8>, p: int, a: Seq<u8>, b: Seq<u8>)
    requires
        0 <= p,
        p + a.len() + b.len() <= code.len(),
        code.subrange(p, p + a.len() + b.len()) == a + b,
    ensures
        code.subrange(p, p + a.len()) == a,
        code.subrange(p + a.len(), p + a.len() + b.len()) == b,
{
    let whole = code.subrange(p, p + a.len() + b.len());
    assert forall|k: int| 0 <= k < a.len() implies code[p + k] == a[k] by {
        assert(whole[k] == code[p + k]);
        assert((a + b)[k] == a[k]);
    }
    assert forall|k: int| 0 <= k < b.len() implies code[p + a.len() + k] == b[k] by {
        assert(whole[a.len() + k] == code[p + a.len() + k]);
        assert((a + b)[a.len() + k] == b[k]);
    }
    assert(code.subrange(p, p + a.len()) =~= a);
    assert(code.subrange(p + a.len(), p + a.len() + b.len()) =~= b);
}

/// One ordinary step is an execution of two states.
proof fn lemma_two_state_run(code: Seq<u8>, det: bool, tr: bool, s: VMState, s2: VMState)
    requires
        0 <= s.pc < code.len(),
        step_rel(code, det, tr, s, s2, StepOut::Continue),
    ensures
        is_run(code, det, tr, seq![s, s2]),
        seq![s, s2].first() == s,
        seq![s, s2].last() == s2,
{
    let sts = seq![s, s2];
    assert forall|i: int|
        0 <= i < sts.len() - 1 implies 0 <= (#[trigger] sts[i]).pc < code.len() && step_rel(
        code,
        det,
        tr,
        sts[i],
        sts[i + 1],
        StepOut::Continue,
    ) by {
        assert(sts[0] == s && sts[1] == s2);
    }
}

/// The state one push instruction leads to.
spec fn pushed_state(s: VMState, v: u32, width: int) -> VMState {
    VMState { pc: s.pc + width, stack: s.stack.push(v), count: bump(s.count), ..s }
}

/// An embedded push encoding admits the step it encodes.
#[verifier::rlimit(100)]
proof fn lemma_push_step(code: Seq<u8>, det: bool, tr: bool, v: u32, s: VMState)
    requires
        0 <= s.pc,
        s.pc + push_encoding(v).len() <= code.len(),
        code.subrange(s.pc, s.pc + push_encoding(v).len()) == push_encoding(v),
    ensures
        step_rel(
            code,
            det,
            tr,
            s,
            pushed_state(s, v, push_encoding(v).len() as int),
            StepOut::Continue,
        ),
{
    reveal(step_rel);
    let enc = push_encoding(v);
    assert forall|k: int| 0 <= k < enc.len() implies code[s.pc + k] == enc[k] by {
        assert(code.subrange(s.pc, s.pc + enc.len())[k] == code[s.pc + k]);
    }
    let s2 = pushed_state(s, v, enc.len() as int);
    if v == 0 {
        assert(code[s.pc + 0] == enc[0]);
        assert(code[s.pc] == 0x10);
        assert(0x10u8 & 0xF0u8 == 0x10u8 && 0x10u8 & 0x0Fu8 == 0u8) by (bit_vector);
        assert(s2 =~= (VMState { pc: s.pc + 1, stack: s.stack.push(0), count: bump(s.count), ..s }));
    } else if v <= 0xFF {
        assert(code[s.pc + 0] == enc[0] && code[s.pc + 1] == enc[1]);
        assert(code[s.pc] == 0x11 && code[s.pc + 1] == v as u8);
        assert(0x11u8 & 0xF0u8 == 0x10u8 && 0x11u8 & 0x0Fu8 == 1u8) by (bit_vector);
        assert(s.stack + Seq::new(1, |i: int| code[s.pc + 1 + i] as u32) =~= s.stack.push(v));
        assert(s2 =~= (VMState {
            pc: s.pc + 1 + 1,
            stack: s.stack + Seq::new(1, |i: int| code[s.pc + 1 + i] as u32),
            count: bump(s.count),
            ..s
        }));
    } else {
        assert(code[s.pc + 0] == enc[0] && code[s.pc + 1] == enc[1] && code[s.pc + 2] == enc[2]
            && code[s.pc + 3] == enc[3] && code[s.pc + 4] == enc[4]);
        assert(code[s.pc] == 0x31);
        assert(0x31u8 & 0xF0u8 == 0x30u8 && 0x31u8 & 0x0Fu8 == 1u8) by (bit_vector);
        assert((v % 256) + (v / 256 % 256) * 0x100 + (v / 65536 % 256) * 0x10000 + (v / 16777216
            % 256) * 0x1000000 == v) by (nonlinear_arith);
        assert(le32_at(code, s.pc + 1) == v);
        assert(s.stack + Seq::new(1, |i: int| le32_at(code, s.pc + 1 + 4 * i)) =~= s.stack.push(
            v,
        ));
        assert(s2 =~= (VMState {
            pc: s.pc + 1 + 4,
            stack: s.stack + Seq::new(1, |i: int| le32_at(code, s.pc + 1 + 4 * i)),
            count: bump(s.count),
            ..s
        }));
    }
}

/// The run-time half of expression lowering, for the expressions whose code
/// cannot fault: the code a jump-free, fault-free expression lowers to,
/// embedded anywhere in a program and entered with a stack of depth at least
/// sixteen, executes by ordinary steps to the first byte past the code,
/// pushes exactly one value, and leaves every deeper stack entry, the strip
/// and the trace sink exactly as they were — the assembler's predicted
/// stack delta of plus one, realised by the machine.
#[verifier::rlimit(100)]
#[verifier::spinoff_prover]
pub proof fn lemma_expr_code_runs(
    code: Seq<u8>,
    det: bool,
    tr: bool,
    e: Expression,
    frames: Seq<Frame>,
    s: VMState,
)
    requires
        jump_free(e),
        expr_total(e),
        expr_ok(e, frames),
        s.stack.len() >= 16,
        0 <= s.pc,
        s.pc + expr_encoding(e, frames).len() <= code.len(),
        code.subrange(s.pc, s.pc + expr_encoding(e, frames).len()) == expr_encoding(e, frames),
    ensures
        exists|sts: Seq<VMState>|
            {
                &&& #[trigger] is_run(code, det, tr, sts)
                &&& sts.first() == s
                &&& sts.last().pc == s.pc + expr_encoding(e, frames).len()
                &&& sts.last().stack.len() == s.stack.len() + 1
                &&& sts.last().stack.take(s.stack.len() as int) == s.stack
                &&& sts.last().strip == s.strip
                &&& sts.last().dumps == s.dumps
            },
    decreases e,
{
    let enc = expr_encoding(e, frames);
    assert forall|k: int| 0 <= k < enc.len() implies code[s.pc + k] == enc[k] by {
        assert(code.subrange(s.pc, s.pc + enc.len())[k] == code[s.pc + k]);
    }
    if e.spec_const_value() is Some {
        let v = e.spec_const_value()->0;
        lemma_push_step(code, det, tr, v, s);
        let s2 = pushed_state(s, v, enc.len() as int);
        lemma_two_state_run(code, det, tr, s, s2);
        assert(s2.stack.take(s.stack.len() as int) =~= s.stack);
        assert(is_run(code, det, tr, seq![s, s2]));
    } else {
        match e {
            Expression::Literal(_) => {
                assert(false);
            },
            Expression::User(cmd) => {
                assert(code[s.pc + 0] == enc[0]);
                assert(user_expr_arity(cmd) == Some(0int));
                lemma_user_trio_step(code, det, tr, cmd, s);
                let s2 = choose|s2: VMState|
                    {
                        &&& #[trigger] step_rel(code, det, tr, s, s2, StepOut::Continue)
                        &&& s2.pc == s.pc + 1
                        &&& s2.stack.len() == s.stack.len() + 1
                        &&& s2.stack.take(s.stack.len() as int) == s.stack
                        &&& s2.strip == s.strip
                        &&& s2.dumps == s.dumps
                    };
                lemma_two_state_run(code, det, tr, s, s2);
                assert(is_run(code, det, tr, seq![s, s2]));
            },
            Expression::UserCall(cmd, args) => {
                // only the zero-argument queries are fault-free host calls
                assert(user_expr_arity(cmd) == Some(0int));
                assert(code[s.pc + 0] == enc[0]);
                lemma_user_trio_step(code, det, tr, cmd, s);
                let s2 = choose|s2: VMState|
                    {
                        &&& #[trigger] step_rel(code, det, tr, s, s2, StepOut::Continue)
                        &&& s2.pc == s.pc + 1
                        &&& s2.stack.len() == s.stack.len() + 1
                        &&& s2.stack.take(s.stack.len() as int) == s.stack
                        &&& s2.strip == s.strip
                        &&& s2.dumps == s.dumps
                    };
                lemma_two_state_run(code, det, tr, s, s2);
                assert(is_run(code, det, tr, seq![s, s2]));
            },
            Expression::Load(name) => {
                let j = crate::ast::lookup(frames, name@)->0;
                let nj = j as u8;
                assert(code[s.pc + 0] == enc[0]);
                assert(enc[0] == (0x20 + j) as u8);
                let b8 = code[s.pc];
                assert(b8 == 0x20 + nj);
                assert(b8 & 0xF0 == 0x20 && b8 & 0x0F == nj) by (bit_vector)
                    requires
                        nj <= 15,
                        b8 == (0x20 + nj) as u8,
                ;
                let s2 = VMState {
                    pc: s.pc + 1,
                    stack: s.stack.push(s.stack[s.stack.len() - 1 - j]),
                    count: bump(s.count),
                    ..s
                };
                assert(step_rel(code, det, tr, s, s2, StepOut::Continue)) by {
                    reveal(step_rel);
                }
                lemma_two_state_run(code, det, tr, s, s2);
                assert(s2.stack.take(s.stack.len() as int) =~= s.stack);
                assert(is_run(code, det, tr, seq![s, s2]));
            },
            Expression::Unary(op, rhs) => {
                let enc_r = expr_encoding(*rhs, frames);
                lemma_embedded_parts(code, s.pc, enc_r, seq![(0x70 + op.value()) as u8]);
                lemma_expr_code_runs(code, det, tr, *rhs, frames, s);
                let a = choose|sts: Seq<VMState>|
                    {
                        &&& #[trigger] is_run(code, det, tr, sts)
                        &&& sts.first() == s
                        &&& sts.last().pc == s.pc + expr_encoding(*rhs, frames).len()
                        &&& sts.last().stack.len() == s.stack.len() + 1
                        &&& sts.last().stack.take(s.stack.len() as int) == s.stack
                        &&& sts.last().strip == s.strip
                        &&& sts.last().dumps == s.dumps
                    };
                let sa = a.last();
                let nv = op.value();
                let ob = code[sa.pc];
                assert(code.subrange(s.pc + enc_r.len(), s.pc + enc_r.len() + 1)[0] == code[sa.pc]);
                assert(ob == (0x70 + nv) as u8);
                assert(ob & 0xF0 == 0x70 && ob & 0x0F == nv) by (bit_vector)
                    requires
                        nv <= 15,
                        ob == (0x70 + nv) as u8,
                ;
                assert(Unary::spec_from(nv) == Some(op));
                let w = sa.stack.last();
                let s2 = VMState {
                    pc: sa.pc + 1,
                    stack: sa.stack.take(sa.stack.len() - 1).push(op.spec_apply(w)),
                    count: bump(sa.count),
                    ..sa
                };
                assert(step_rel(code, det, tr, sa, s2, StepOut::Continue)) by {
                    reveal(step_rel);
                }
                lemma_two_state_run(code, det, tr, sa, s2);
                lemma_is_run_concat(code, det, tr, a, seq![sa, s2]);
                let whole = a + seq![sa, s2].drop_first();
                assert(whole.last() == s2);
                assert(whole.first() == s);
                assert(sa.stack.take(sa.stack.len() - 1) =~= s.stack);
                assert(s2.stack.take(s.stack.len() as int) =~= s.stack);
                assert(is_run(code, det, tr, whole));
            },
            Expression::Binary(lhs, op, rhs) => {
                let enc_l = expr_encoding(*lhs, frames);
                let enc_r = expr_encoding(*rhs, bump_top(frames));
                assert(enc =~= enc_l + (enc_r + seq![(0x80 + op.value()) as u8]));
                lemma_embedded_parts(
                    code,
                    s.pc,
                    enc_l,
                    enc_r + seq![(0x80 + op.value()) as u8],
                );
                lemma_embedded_parts(
                    code,
                    s.pc + enc_l.len(),
                    enc_r,
                    seq![(0x80 + op.value()) as u8],
                );
                lemma_expr_code_runs(code, det, tr, *lhs, frames, s);
                let a = choose|sts: Seq<VMState>|
                    {
                        &&& #[trigger] is_run(code, det, tr, sts)
                        &&& sts.first() == s
                        &&& sts.last().pc == s.pc + expr_encoding(*lhs, frames).len()
                        &&& sts.last().stack.len() == s.stack.len() + 1
                        &&& sts.last().stack.take(s.stack.len() as int) == s.stack
                        &&& sts.last().strip == s.strip
                        &&& sts.last().dumps == s.dumps
                    };
                let sa = a.last();
                lemma_expr_code_runs(code, det, tr, *rhs, bump_top(frames), sa);
                let b = choose|sts: Seq<VMState>|
                    {
                        &&& #[trigger] is_run(code, det, tr, sts)
                        &&& sts.first() == sa
                        &&& sts.last().pc == sa.pc + expr_encoding(*rhs, bump_top(frames)).len()
                        &&& sts.last().stack.len() == sa.stack.len() + 1
                        &&& sts.last().stack.take(sa.stack.len() as int) == sa.stack
                        &&& sts.last().strip == sa.strip
                        &&& sts.last().dumps == sa.dumps
                    };
                let sb = b.last();
                let nv = op.value();
                let ob = code[sb.pc];
                assert(code.subrange(
                    s.pc + enc_l.len() + enc_r.len(),
                    s.pc + enc_l.len() + enc_r.len() + 1,
                )[0] == code[sb.pc]);
                assert(ob == (0x80 + nv) as u8);
                assert(ob & 0xF0 == 0x80 && ob & 0x0F == nv) by (bit_vector)
                    requires
                        nv <= 15,
                        ob == (0x80 + nv) as u8,
                ;
                assert(Binary::spec_from(nv) == Some(op));
                let n = sb.stack.len() as int;
                let s2 = VMState {
                    pc: sb.pc + 1,
                    stack: sb.stack.take(n - 2).push(
                        op.spec_apply(sb.stack[n - 2], sb.stack[n - 1]),
                    ),
                    count: bump(sb.count),
                    ..sb
                };
                assert(step_rel(code, det, tr, sb, s2, StepOut::Continue)) by {
                    reveal(step_rel);
                }
                lemma_two_state_run(code, det, tr, sb, s2);
                lemma_is_run_concat(code, det, tr, a, b);
                let ab = a + b.drop_first();
                assert(ab.last() == sb);
                assert(ab.first() == s);
                lemma_is_run_concat(code, det, tr, ab, seq![sb, s2]);
                let whole = ab + seq![sb, s2].drop_first();
                assert(whole.last() == s2);
                assert(whole.first() == s);
                assert(sb.stack.take(n - 2) =~= s.stack);
                assert(s2.stack.take(s.stack.len() as int) =~= s.stack);
                assert(is_run(code, det, tr, whole));
            },
            Expression::Intrinsic(_) => {
                assert(false);
            },
        }
    }
}

/// An embedded length, wall-time or precise-time query admits the step it
/// encodes: one value is pushed, everything else stays.
proof fn lemma_user_trio_step(code: Seq<u8>, det: bool, tr: bool, cmd: UserCommand, s: VMState)
    requires
        cmd == UserCommand::GET_LENGTH || cmd == UserCommand::GET_WALL_TIME || cmd
            == UserCommand::GET_PRECISE_TIME,
        0 <= s.pc < code.len(),
        code[s.pc] == (0xE0 + cmd.value()) as u8,
    ensures
        exists|s2: VMState|
            {
                &&& #[trigger] step_rel(code, det, tr, s, s2, StepOut::Continue)
                &&& s2.pc == s.pc + 1
                &&& s2.stack.len() == s.stack.len() + 1
                &&& s2.stack.take(s.stack.len() as int) == s.stack
                &&& s2.strip == s.strip
                &&& s2.dumps == s.dumps
            },
{
    reveal(step_rel);
    let nv = cmd.value();
    let b8 = code[s.pc];
    assert(b8 & 0xF0 == 0xE0 && b8 & 0x0F == nv) by (bit_vector)
        requires
            nv <= 15,
            b8 == (0xE0 + nv) as u8,
    ;
    assert(UserCommand::spec_from(nv) == Some(cmd));
    let c2 = bump(s.count);
    let w: u32 = if cmd == UserCommand::GET_LENGTH {
        s.strip.colors.len() as u32
    } else if cmd == UserCommand::GET_WALL_TIME {
        if det {
            ((c2 / 10) % 0x1_0000_0000) as u32
        } else {
            0
        }
    } else {
        if det {
            (c2 % 0x1_0000_0000) as u32
        } else {
            0
        }
    };
    let s2 = VMState { pc: s.pc + 1, stack: s.stack.push(w), count: c2, ..s };
    assert(s2.stack.take(s.stack.len() as int) =~= s.stack);
    assert(step_rel(code, det, tr, s, s2, StepOut::Continue));
}


/// The run-time half of statement lowering, shown for expression statements:
/// the code they lower to — the expression's code then one pop — runs by
/// ordinary steps to its end and leaves the stack, the strip and the trace
/// sink exactly as it found them: the assembler's predicted statement delta
/// of zero, realised by the machine.
pub proof fn lemma_expr_statement_code_runs(
    code: Seq<u8>,
    det: bool,
    tr: bool,
    e: Expression,
    frames: Seq<Frame>,
    s: VMState,
)
    requires
        jump_free(e),
        expr_total(e),
        expr_ok(e, frames),
        s.stack.len() >= 16,
        0 <= s.pc,
        s.pc + expr_encoding(e, frames).len() + 1 <= code.len(),
        code.subrange(s.pc, s.pc + expr_encoding(e, frames).len() + 1) == expr_encoding(e, frames)
            + seq![1u8],
    ensures
        exists|sts: Seq<VMState>|
            {
                &&& #[trigger] is_run(code, det, tr, sts)
                &&& sts.first() == s
                &&& sts.last().pc == s.pc + expr_encoding(e, frames).len() + 1
                &&& sts.last().stack == s.stack
                &&& sts.last().strip == s.strip
                &&& sts.last().dumps == s.dumps
            },
{
    let enc = expr_encoding(e, frames);
    lemma_embedded_parts(code, s.pc, enc, seq![1u8]);
    lemma_expr_code_runs(code, det, tr, e, frames, s);
    let a = choose|sts: Seq<VMState>|
        {
            &&& #[trigger] is_run(code, det, tr, sts)
            &&& sts.first() == s
            &&& sts.last().pc == s.pc + expr_encoding(e, frames).len()
            &&& sts.last().stack.len() == s.stack.len() + 1
            &&& sts.last().stack.take(s.stack.len() as int) == s.stack
            &&& sts.last().strip == s.strip
            &&& sts.last().dumps == s.dumps
        };
    let sa = a.last();
    assert(code.subrange(s.pc + enc.len(), s.pc + enc.len() + 1)[0] == code[sa.pc]);
    assert(code[sa.pc] == 1u8);
    assert(1u8 & 0xF0u8 == 0u8 && 1u8 & 0x0Fu8 == 1u8) by (bit_vector);
    let s2 = VMState {
        pc: sa.pc + 1,
        stack: sa.stack.take(sa.stack.len() - 1),
        count: bump(sa.count),
        ..sa
    };
    assert(step_rel(code, det, tr, sa, s2, StepOut::Continue)) by {
        reveal(step_rel);
    }
    lemma_two_state_run(code, det, tr, sa, s2);
    lemma_is_run_concat(code, det, tr, a, seq![sa, s2]);
    let whole = a + seq![sa, s2].drop_first();
    assert(whole.last() == s2);
    assert(whole.first() == s);
    assert(s2.stack =~= s.stack);
    assert(is_run(code, det, tr, whole));
}


/// A sixteen-bit jump target below the address width reads back exactly.
proof fn lemma_target_bytes(code: Seq<u8>, p: int, t: usize)
    requires
        t < 0x10000,
        0 <= p,
        p + 2 <= code.len(),
        code[p] == target_lo(t),
        code[p + 1] == target_hi(t),
    ensures
        le16_at(code, p) == t,
{
    assert((t % 256) + 256 * (t / 256 % 256) == t) by (nonlinear_arith)
        requires
            t < 0x10000,
    ;
}

/// An emitted unconditional jump runs as predicted: the counter moves to the
/// emitted absolute target and nothing else changes — the assembler's
/// charged delta of zero.
pub proof fn lemma_jmp_code_runs(
    code: Seq<u8>,
    det: bool,
    tr: bool,
    t: usize,
    s: VMState,
    s2: VMState,
    out: StepOut,
)
    requires
        t < 0x10000,
        0 <= s.pc,
        s.pc + 3 <= code.len(),
        code[s.pc] == 0x40,
        code[s.pc + 1] == target_lo(t),
        code[s.pc + 2] == target_hi(t),
        step_rel(code, det, tr, s, s2, out),
    ensures
        out == StepOut::Continue,
        s2 == (VMState { pc: t as int, count: bump(s.count), ..s }),
{
    reveal(step_rel);
    assert(0x40u8 & 0xF0u8 == 0x40u8) by (bit_vector);
    lemma_target_bytes(code, s.pc + 1, t);
}

/// An emitted conditional jump runs as predicted: it inspects, without
/// popping, the top of a non-empty stack, moves the counter to the emitted
/// absolute target or past its own three bytes, and changes nothing else —
/// the assembler's charged delta of zero.
pub proof fn lemma_conditional_jump_code_runs(
    code: Seq<u8>,
    det: bool,
    tr: bool,
    jump_if_zero: bool,
    t: usize,
    s: VMState,
    s2: VMState,
    out: StepOut,
)
    requires
        t < 0x10000,
        0 <= s.pc,
        s.pc + 3 <= code.len(),
        code[s.pc] == if jump_if_zero {
            0x50u8
        } else {
            0x60u8
        },
        code[s.pc + 1] == target_lo(t),
        code[s.pc + 2] == target_hi(t),
        s.stack.len() >= 1,
        step_rel(code, det, tr, s, s2, out),
    ensures
        out == StepOut::Continue,
        s2 == (VMState {
            pc: if (s.stack.last() == 0) == jump_if_zero {
                t as int
            } else {
                s.pc + 3
            },
            count: bump(s.count),
            ..s
        }),
{
    reveal(step_rel);
    assert(0x50u8 & 0xF0u8 == 0x50u8 && 0x60u8 & 0xF0u8 == 0x60u8) by (bit_vector);
    lemma_target_bytes(code, s.pc + 1, t);
}

/// The deterministic random source: the zero-seeded stream cipher together
/// with the bounds drawn from it so far, which fully determine its next draw.
/// It is only ever built by `det_rng_new` and advanced by `det_next`, which
/// keep the two in step.
pub struct DetRng {
    inner: rand_chacha::ChaCha20Rng,
    history: Ghost<Seq<u32>>,
}

impl DetRng {
    /// The bounds drawn so far.
    pub closed spec fn history(self) -> Seq<u32> {
        self.history@
    }
}

#[verifier::external_type_specification]
#[verifier::external_body]
pub struct ExChaCha20Rng(rand_chacha::ChaCha20Rng);

/// Relies on rand_chacha's `ChaCha20Rng::from_seed`: the stream seeded with
/// the all-zeros key, whose draws depend on nothing but the sequence of
/// requests made of it.
#[verifier::external_body]
fn chacha_zero_seeded() -> rand_chacha::ChaCha20Rng {
    rand_chacha::ChaCha20Rng::from_seed([0u8; 32])
}

fn det_rng_new() -> (r: DetRng)
    ensures
        r.history() == Seq::<u32>::empty(),
{
    DetRng { inner: chacha_zero_seeded(), history: Ghost(Seq::empty()) }
}

/// Relies on rand's `Rng::gen_range` over the zero-seeded ChaCha20 stream:
/// the draw is below the bound and is a function of the bounds drawn before
/// it alone, the same in every process and on every machine.
#[verifier::external_body]
fn det_next(rng: &mut DetRng, bound: u32) -> (r: u32)
    requires
        bound > 0,
    ensures
        r == det_rand(old(rng).history(), bound),
        r < bound,
        final(rng).history() == old(rng).history().push(bound),
{
    rng.inner.gen_range(0..bound)
}

/// Relies on rand's `thread_rng` and `Rng::gen_range`: a draw below the
/// bound; nothing else holds of it.
#[verifier::external_body]
fn os_random_below(bound: u32) -> (r: u32)
    requires
        bound > 0,
    ensures
        r < bound,
{
    rand::thread_rng().gen_range(0..bound)
}

/// Relies on std's `SystemTime::now`: the wall clock's seconds since the
/// epoch; nothing holds of the value.
#[verifier::external_body]
pub(crate) fn now_unix_seconds() -> u64 {
    match std::time::SystemTime::now().duration_since(std::time::UNIX_EPOCH) {
        Ok(d) => d.as_secs(),
        Err(_) => 0,
    }
}

/// Relies on std's `SystemTime::now`: the wall clock's milliseconds since the
/// epoch, wrapped to the word; nothing holds of the value.
#[verifier::external_body]
fn now_unix_millis() -> u64 {
    match std::time::SystemTime::now().duration_since(std::time::UNIX_EPOCH) {
        Ok(d) => (d.as_millis() % 0x1_0000_0000_0000_0000) as u64,
        Err(_) => 0,
    }
}

/// The machine's configuration: its strip, whether the trace sink is on, and
/// whether time and randomness are deterministic.
pub struct VM<S: Strip> {
    pub trace: bool,
    pub strip: S,
    pub deterministic: bool,
}

impl<S: Strip> VM<S> {
    pub fn new(strip: S) -> (r: VM<S>)
        ensures
            r.strip == strip,
            !r.trace,
            !r.deterministic,
    {
        VM { trace: false, strip, deterministic: false }
    }

    /// The strip this machine drives.
    pub fn strip(&mut self) -> (r: &mut S)
        ensures
            *r == old(self).strip,
            *final(self) == (VM {
                strip: *final(r),
                trace: old(self).trace,
                deterministic: old(self).deterministic,
            }),
    {
        &mut self.strip
    }

    pub fn set_trace(&mut self, trace: bool)
        ensures
            *final(self) == (VM { trace, ..*old(self) }),
    {
        self.trace = trace;
    }

    pub fn set_deterministic(&mut self, d: bool)
        ensures
            *final(self) == (VM { deterministic: d, ..*old(self) }),
    {
        self.deterministic = d;
    }

    /// Load a program: a fresh machine state at its first byte with an empty
    /// stack, a fresh deterministic random source, and the given per-machine
    /// instruction quota.
    pub fn start(self, program: Program, instruction_limit: Option<usize>) -> (r: State<S>)
        ensures
            r.vm == self,
            r.program == program,
            r.instruction_limit == instruction_limit,
            r@ == (VMState {
                pc: 0,
                stack: Seq::<u32>::empty(),
                count: 0,
                rng_history: Seq::<u32>::empty(),
                strip: self.strip.model(),
                dumps: Seq::<Seq<u32>>::empty(),
            }),
    {
        let start_millis = now_unix_millis();
        let r = State {
            vm: self,
            program,
            pc: 0,
            stack: Vec::new(),
            start_millis,
            instruction_count: 0,
            instruction_limit,
            det_rng: det_rng_new(),
            dumps: Vec::new(),
        };
        proof {
            assert(r@.dumps =~= Seq::<Seq<u32>>::empty());
            assert(r@ =~= (VMState {
                pc: 0,
                stack: Seq::<u32>::empty(),
                count: 0,
                rng_history: Seq::<u32>::empty(),
                strip: r.vm.strip.model(),
                dumps: Seq::<Seq<u32>>::empty(),
            }));
        }
        r
    }
}

/// A machine running one program.
pub struct State<S: Strip> {
    pub vm: VM<S>,
    pub program: Program,
    pub pc: usize,
    pub stack: Vec<u32>,
    pub start_millis: u64,
    pub instruction_count: u64,
    pub instruction_limit: Option<usize>,
    pub det_rng: DetRng,
    pub dumps: Vec<Vec<u32>>,
}

impl<S: Strip> State<S> {
    /// The mathematical state of the machine.
    pub open spec fn view(self) -> VMState {
        VMState {
            pc: self.pc as int,
            stack: self.stack@,
            count: self.instruction_count as int,
            rng_history: self.det_rng.history(),
            strip: self.vm.strip.model(),
            dumps: self.dumps@.map_values(|v: Vec<u32>| v@),
        }
    }

    /// The machine is usable: its strip is well-formed.
    pub open spec fn wf(self) -> bool {
        self.vm.strip.wf()
    }

    pub fn pc(&self) -> (r: usize)
        ensures
            r as int == self@.pc,
    {
        self.pc
    }

    /// The machine's value stack, bottom first.
    pub fn stack(&self) -> (r: &Vec<u32>)
        ensures
            r@ == self@.stack,
    {
        &self.stack
    }

    /// The stack snapshots the dump instruction has emitted.
    pub fn dumps(&self) -> (r: &Vec<Vec<u32>>)
        ensures
            r@.map_values(|v: Vec<u32>| v@) == self@.dumps,
    {
        &self.dumps
    }

    /// Give the machine up and take its configuration and strip back.
    pub fn into_vm(self) -> (r: VM<S>)
        ensures
            r == self.vm,
    {
        self.vm
    }
}



/// The first `upto` states of a trace all sit below the machine quota: no
/// instruction is fetched once the quota has filled.
pub open spec fn below_quota(limit: Option<usize>, sts: Seq<VMState>, upto: int) -> bool {
    match limit {
        Some(g) => forall|i: int| 0 <= i < upto ==> (#[trigger] sts[i]).count < g,
        None => true,
    }
}

/// How many instructions one call to `run` may execute: the local quota, or
/// the index type's maximum when none is given.
pub open spec fn run_fuel(local: Option<usize>) -> int {
    match local {
        Some(k) => k as int,
        None => usize::MAX as int,
    }
}

/// `s` is `pre` with the instruction about to execute already counted.
pub open spec fn bumped(pre: VMState, s: VMState) -> bool {
    s == (VMState { count: bump(pre.count), ..pre })
}

impl<S: Strip> State<S> {
    /// The machine's configuration and program are not touched by execution.
    pub open spec fn same_config(self, other: State<S>) -> bool {
        &&& self.vm.trace == other.vm.trace
        &&& self.vm.deterministic == other.vm.deterministic
        &&& self.program == other.program
        &&& self.instruction_limit == other.instruction_limit
        &&& self.start_millis == other.start_millis
    }

    #[verifier::loop_isolation(false)]
    fn family_pop(&mut self, post: u8, Ghost(pre): Ghost<VMState>) -> (r: StepOut)
        requires
            old(self).wf(),
            bumped(pre, old(self)@),
            0 <= pre.pc < old(self).program.code@.len(),
            Prefix::spec_from(old(self).program.code@[pre.pc]) == Some(Prefix::POP),
            post == old(self).program.code@[pre.pc] & 0x0F,
        ensures
            final(self).wf(),
            final(self).same_config(*old(self)),
            step_rel(
                old(self).program.code@,
                old(self).vm.deterministic,
                old(self).vm.trace,
                pre,
                final(self)@,
                r,
            ),
    {
        proof {
            reveal(step_rel);
        }
        let code_len = self.program.code.len();
        let n = post as usize;
        if n > self.stack.len() {
            return StepOut::Failed(VMError::StackUnderflow);
        }
        let newlen = self.stack.len() - n;
        self.stack.truncate(newlen);
        self.pc = self.pc + 1;
        proof {
            assert(self@.stack =~= pre.stack.take(pre.stack.len() - (post as int)));
        }
        StepOut::Continue
    }

    #[verifier::loop_isolation(false)]
    fn family_pushb(&mut self, post: u8, Ghost(pre): Ghost<VMState>) -> (r: StepOut)
        requires
            old(self).wf(),
            bumped(pre, old(self)@),
            0 <= pre.pc < old(self).program.code@.len(),
            Prefix::spec_from(old(self).program.code@[pre.pc]) == Some(Prefix::PUSHB),
            post == old(self).program.code@[pre.pc] & 0x0F,
        ensures
            final(self).wf(),
            final(self).same_config(*old(self)),
            step_rel(
                old(self).program.code@,
                old(self).vm.deterministic,
                old(self).vm.trace,
                pre,
                final(self)@,
                r,
            ),
    {
        proof {
            reveal(step_rel);
        }
        let code_len = self.program.code.len();
        let ghost code = self.program.code@;
        if post == 0 {
            self.stack.push(0);
            self.pc = self.pc + 1;
            return StepOut::Continue;
        }
        let n = post as usize;
        if n > self.program.code.len() - self.pc - 1 {
            return StepOut::Failed(VMError::UnknownInstruction);
        }
        let mut j: usize = 0;
        while j < n
            invariant
                self.vm == old(self).vm,
                self.program == old(self).program,
                self.instruction_count == old(self).instruction_count,
                self.instruction_limit == old(self).instruction_limit,
                self.start_millis == old(self).start_millis,
                self.det_rng == old(self).det_rng,
                self.dumps@ == old(self).dumps@,
                j <= n,
                self.pc == pre.pc,
                self.stack@ == pre.stack + Seq::new(j as nat, |i: int| code[pre.pc + 1 + i] as u32),
            decreases n - j,
        {
            let b = self.program.code[self.pc + 1 + j];
            self.stack.push(b as u32);
            j = j + 1;
            proof {
                assert(self.stack@ =~= pre.stack + Seq::new(
                    j as nat,
                    |i: int| code[pre.pc + 1 + i] as u32,
                ));
            }
        }
        self.pc = self.pc + 1 + n;
        StepOut::Continue
    }

    #[verifier::loop_isolation(false)]
    fn family_peek(&mut self, post: u8, Ghost(pre): Ghost<VMState>) -> (r: StepOut)
        requires
            old(self).wf(),
            bumped(pre, old(self)@),
            0 <= pre.pc < old(self).program.code@.len(),
            Prefix::spec_from(old(self).program.code@[pre.pc]) == Some(Prefix::PEEK),
            post == old(self).program.code@[pre.pc] & 0x0F,
        ensures
            final(self).wf(),
            final(self).same_config(*old(self)),
            step_rel(
                old(self).program.code@,
                old(self).vm.deterministic,
                old(self).vm.trace,
                pre,
                final(self)@,
                r,
            ),
    {
        proof {
            reveal(step_rel);
        }
        let code_len = self.program.code.len();
        let n = post as usize;
        if n >= self.stack.len() {
            return StepOut::Failed(VMError::StackUnderflow);
        }
        let val = self.stack[self.stack.len() - 1 - n];
        self.stack.push(val);
        self.pc = self.pc + 1;
        StepOut::Continue
    }

    #[verifier::loop_isolation(false)]
    fn family_pushi(&mut self, post: u8, Ghost(pre): Ghost<VMState>) -> (r: StepOut)
        requires
            old(self).wf(),
            bumped(pre, old(self)@),
            0 <= pre.pc < old(self).program.code@.len(),
            Prefix::spec_from(old(self).program.code@[pre.pc]) == Some(Prefix::PUSHI),
            post == old(self).program.code@[pre.pc] & 0x0F,
        ensures
            final(self).wf(),
            final(self).same_config(*old(self)),
            step_rel(
                old(self).program.code@,
                old(self).vm.deterministic,
                old(self).vm.trace,
                pre,
                final(self)@,
                r,
            ),
    {
        proof {
            reveal(step_rel);
        }
        let code_len = self.program.code.len();
        let ghost code = self.program.code@;
        let n = post as usize;
        if 4 * n > self.program.code.len() - self.pc - 1 {
            return StepOut::Failed(VMError::UnknownInstruction);
        }
        let mut j: usize = 0;
        while j < n
            invariant
                self.vm == old(self).vm,
                self.program == old(self).program,
                self.instruction_count == old(self).instruction_count,
                self.instruction_limit == old(self).instruction_limit,
                self.start_millis == old(self).start_millis,
                self.det_rng == old(self).det_rng,
                self.dumps@ == old(self).dumps@,
                j <= n,
                self.pc == pre.pc,
                self.stack@ == pre.stack + Seq::new(
                    j as nat,
                    |i: int| le32_at(code, pre.pc + 1 + 4 * i),
                ),
            decreases n - j,
        {
            let b0 = self.program.code[self.pc + 1 + 4 * j];
            let b1 = self.program.code[self.pc + 2 + 4 * j];
            let b2 = self.program.code[self.pc + 3 + 4 * j];
            let b3 = self.program.code[self.pc + 4 + 4 * j];
            let v: u32 = (b0 as u32) + (b1 as u32) * 0x100 + (b2 as u32) * 0x10000 + (b3 as u32)
                * 0x1000000;
            self.stack.push(v);
            j = j + 1;
            proof {
                assert(self.stack@ =~= pre.stack + Seq::new(
                    j as nat,
                    |i: int| le32_at(code, pre.pc + 1 + 4 * i),
                ));
            }
        }
        self.pc = self.pc + 1 + 4 * n;
        StepOut::Continue
    }

    #[verifier::loop_isolation(false)]
    fn family_jump(&mut self, Ghost(pre): Ghost<VMState>) -> (r: StepOut)
        requires
            old(self).wf(),
            bumped(pre, old(self)@),
            0 <= pre.pc < old(self).program.code@.len(),
            Prefix::spec_from(old(self).program.code@[pre.pc]) == Some(Prefix::JMP)
                || Prefix::spec_from(old(self).program.code@[pre.pc]) == Some(Prefix::JZ)
                || Prefix::spec_from(old(self).program.code@[pre.pc]) == Some(Prefix::JNZ),
        ensures
            final(self).wf(),
            final(self).same_config(*old(self)),
            step_rel(
                old(self).program.code@,
                old(self).vm.deterministic,
                old(self).vm.trace,
                pre,
                final(self)@,
                r,
            ),
    {
        proof {
            reveal(step_rel);
        }
        let code_len = self.program.code.len();
        let op = self.program.code[self.pc];
        if 2 > self.program.code.len() - self.pc - 1 {
            return StepOut::Failed(VMError::UnknownInstruction);
        }
        let lo = self.program.code[self.pc + 1];
        let hi = self.program.code[self.pc + 2];
        let target = (lo as usize) + 256 * (hi as usize);
        if op & 0xF0 == 0x40 {
            self.pc = target;
            return StepOut::Continue;
        }
        if self.stack.len() == 0 {
            return StepOut::Failed(VMError::StackUnderflow);
        }
        let top = self.stack[self.stack.len() - 1];
        if op & 0xF0 == 0x50 {
            // jump if zero
            if top == 0 {
                self.pc = target;
            } else {
                self.pc = self.pc + 3;
            }
        } else {
            // jump if not zero
            if top != 0 {
                self.pc = target;
            } else {
                self.pc = self.pc + 3;
            }
        }
        StepOut::Continue
    }

    #[verifier::loop_isolation(false)]
    fn family_unary(&mut self, post: u8, Ghost(pre): Ghost<VMState>) -> (r: StepOut)
        requires
            old(self).wf(),
            bumped(pre, old(self)@),
            0 <= pre.pc < old(self).program.code@.len(),
            Prefix::spec_from(old(self).program.code@[pre.pc]) == Some(Prefix::UNARY),
            post == old(self).program.code@[pre.pc] & 0x0F,
        ensures
            final(self).wf(),
            final(self).same_config(*old(self)),
            step_rel(
                old(self).program.code@,
                old(self).vm.deterministic,
                old(self).vm.trace,
                pre,
                final(self)@,
                r,
            ),
    {
        proof {
            reveal(step_rel);
        }
        let code_len = self.program.code.len();
        match Unary::from(post) {
            None => StepOut::Failed(VMError::UnknownInstruction),
            Some(u) => {
                if self.stack.len() == 0 {
                    return StepOut::Failed(VMError::StackUnderflow);
                }
                let idx = self.stack.len() - 1;
                let v = self.stack[idx];
                let res = u.apply(v);
                self.stack[idx] = res;
                self.pc = self.pc + 1;
                proof {
                    assert(self@.stack =~= pre.stack.take(pre.stack.len() - 1).push(
                        u.spec_apply(pre.stack.last()),
                    ));
                }
                StepOut::Continue
            },
        }
    }

    #[verifier::loop_isolation(false)]
    fn family_binary(&mut self, post: u8, Ghost(pre): Ghost<VMState>) -> (r: StepOut)
        requires
            old(self).wf(),
            bumped(pre, old(self)@),
            0 <= pre.pc < old(self).program.code@.len(),
            Prefix::spec_from(old(self).program.code@[pre.pc]) == Some(Prefix::BINARY),
            post == old(self).program.code@[pre.pc] & 0x0F,
        ensures
            final(self).wf(),
            final(self).same_config(*old(self)),
            step_rel(
                old(self).program.code@,
                old(self).vm.deterministic,
                old(self).vm.trace,
                pre,
                final(self)@,
                r,
            ),
    {
        proof {
            reveal(step_rel);
        }
        let code_len = self.program.code.len();
        match Binary::from(post) {
            None => StepOut::Failed(VMError::UnknownInstruction),
            Some(b) => {
                if self.stack.len() < 2 {
                    return StepOut::Failed(VMError::StackUnderflow);
                }
                let n = self.stack.len();
                let rhs = self.stack[n - 1];
                let lhs = self.stack[n - 2];
                if (b == Binary::DIV || b == Binary::MOD) && rhs == 0 {
                    return StepOut::Failed(VMError::DivisionByZero);
                }
                let res = b.apply(lhs, rhs);
                let _ = self.stack.pop();
                self.stack[n - 2] = res;
                self.pc = self.pc + 1;
                proof {
                    assert(self@.stack =~= pre.stack.take(pre.stack.len() - 2).push(
                        b.spec_apply(pre.stack[pre.stack.len() - 2], pre.stack[pre.stack.len() - 1]),
                    ));
                }
                StepOut::Continue
            },
        }
    }

    #[verifier::loop_isolation(false)]
    fn family_user(&mut self, post: u8, Ghost(pre): Ghost<VMState>) -> (r: StepOut)
        requires
            old(self).wf(),
            bumped(pre, old(self)@),
            0 <= pre.pc < old(self).program.code@.len(),
            Prefix::spec_from(old(self).program.code@[pre.pc]) == Some(Prefix::USER),
            post == old(self).program.code@[pre.pc] & 0x0F,
        ensures
            final(self).wf(),
            final(self).same_config(*old(self)),
            step_rel(
                old(self).program.code@,
                old(self).vm.deterministic,
                old(self).vm.trace,
                pre,
                final(self)@,
                r,
            ),
    {
        proof {
            reveal(step_rel);
        }
        let code_len = self.program.code.len();
        match UserCommand::from(post) {
            None => StepOut::Failed(VMError::UnknownInstruction),
            Some(UserCommand::GET_LENGTH) => {
                let l = self.vm.strip.length();
                self.stack.push(l);
                self.pc = self.pc + 1;
                proof {
                    assert(l == pre.strip.colors.len() as u32);
                }
                StepOut::Continue
            },
            Some(UserCommand::GET_WALL_TIME) => {
                let v: u32 = if self.vm.deterministic {
                    ((self.instruction_count / 10) % 0x1_0000_0000) as u32
                } else {
                    (now_unix_seconds() % 0x1_0000_0000) as u32
                };
                self.stack.push(v);
                self.pc = self.pc + 1;
                proof {
                    assert(self@.stack.take(pre.stack.len() as int) =~= pre.stack);
                }
                StepOut::Continue
            },
            Some(UserCommand::GET_PRECISE_TIME) => {
                let v: u32 = if self.vm.deterministic {
                    (self.instruction_count % 0x1_0000_0000) as u32
                } else {
                    (now_unix_millis().wrapping_sub(self.start_millis) % 0x1_0000_0000) as u32
                };
                self.stack.push(v);
                self.pc = self.pc + 1;
                proof {
                    assert(self@.stack.take(pre.stack.len() as int) =~= pre.stack);
                }
                StepOut::Continue
            },
            Some(UserCommand::SET_PIXEL) => {
                if self.stack.len() < 2 {
                    return StepOut::Failed(VMError::StackUnderflow);
                }
                let n = self.stack.len();
                let v = self.stack[n - 1];
                let idx = self.stack[n - 2];
                let slen = self.vm.strip.length();
                if idx >= slen {
                    return StepOut::Failed(VMError::StripIndexOutOfRange);
                }
                let rr = (v % 256) as u8;
                let gg = (v / 256 % 256) as u8;
                let bb = (v / 65536 % 256) as u8;
                self.vm.strip.set_pixel(idx, rr, gg, bb);
                let _ = self.stack.pop();
                self.pc = self.pc + 1;
                proof {
                    assert(self@.stack =~= pre.stack.take(pre.stack.len() - 1));
                }
                StepOut::Continue
            },
            Some(UserCommand::BLIT) => {
                self.vm.strip.blit();
                self.pc = self.pc + 1;
                StepOut::Continue
            },
            Some(UserCommand::RANDOM_INT) => {
                if self.stack.len() == 0 {
                    return StepOut::Failed(VMError::StackUnderflow);
                }
                let idx = self.stack.len() - 1;
                let v = self.stack[idx];
                if v == 0 {
                    self.stack[idx] = 0;
                } else if self.vm.deterministic {
                    let w = det_next(&mut self.det_rng, v);
                    self.stack[idx] = w;
                } else {
                    let w = os_random_below(v);
                    self.stack[idx] = w;
                }
                self.pc = self.pc + 1;
                proof {
                    assert(self@.stack.take(pre.stack.len() - 1) =~= pre.stack.take(
                        pre.stack.len() - 1,
                    ));
                    if v == 0 {
                        assert(self@.stack =~= pre.stack.take(pre.stack.len() - 1).push(0));
                    } else if old(self).vm.deterministic {
                        assert(self@.stack =~= pre.stack.take(pre.stack.len() - 1).push(
                            det_rand(pre.rng_history, v),
                        ));
                    }
                }
                StepOut::Continue
            },
            Some(UserCommand::GET_PIXEL) => {
                if self.stack.len() == 0 {
                    return StepOut::Failed(VMError::StackUnderflow);
                }
                let idx_stack = self.stack.len() - 1;
                let idx = self.stack[idx_stack];
                let slen = self.vm.strip.length();
                if idx >= slen {
                    return StepOut::Failed(VMError::StripIndexOutOfRange);
                }
                let c = self.vm.strip.get_pixel(idx);
                let packed: u32 = idx | ((c.r as u32) << 8u32) | ((c.g as u32) << 16u32) | ((c.b
                    as u32) << 24u32);
                self.stack[idx_stack] = packed;
                self.pc = self.pc + 1;
                proof {
                    assert(self@.stack =~= pre.stack.take(pre.stack.len() - 1).push(packed));
                }
                StepOut::Continue
            },
        }
    }

    #[verifier::loop_isolation(false)]
    fn family_special(&mut self, post: u8, Ghost(pre): Ghost<VMState>) -> (r: StepOut)
        requires
            old(self).wf(),
            bumped(pre, old(self)@),
            0 <= pre.pc < old(self).program.code@.len(),
            Prefix::spec_from(old(self).program.code@[pre.pc]) == Some(Prefix::SPECIAL),
            post == old(self).program.code@[pre.pc] & 0x0F,
        ensures
            final(self).wf(),
            final(self).same_config(*old(self)),
            step_rel(
                old(self).program.code@,
                old(self).vm.deterministic,
                old(self).vm.trace,
                pre,
                final(self)@,
                r,
            ),
    {
        proof {
            reveal(step_rel);
        }
        let code_len = self.program.code.len();
        match Special::from(post) {
            None => StepOut::Failed(VMError::UnknownInstruction),
            Some(Special::SWAP) => {
                if self.stack.len() < 2 {
                    return StepOut::Failed(VMError::StackUnderflow);
                }
                let n = self.stack.len();
                let a = self.stack[n - 1];
                let b = self.stack[n - 2];
                self.stack[n - 1] = b;
                self.stack[n - 2] = a;
                self.pc = self.pc + 1;
                proof {
                    assert(self@.stack =~= pre.stack.take(pre.stack.len() - 2).push(
                        pre.stack[pre.stack.len() - 1],
                    ).push(pre.stack[pre.stack.len() - 2]));
                }
                StepOut::Continue
            },
            Some(Special::DUMP) => {
                if self.vm.trace {
                    let snap = self.stack.clone();
                    self.dumps.push(snap);
                }
                self.pc = self.pc + 1;
                proof {
                    if old(self).vm.trace {
                        assert(self@.dumps =~= pre.dumps.push(pre.stack));
                    }
                }
                StepOut::Continue
            },
            Some(Special::YIELD) => {
                self.pc = self.pc + 1;
                StepOut::Yielded
            },
            Some(Special::TWOBYTE) => StepOut::Failed(VMError::UnknownInstruction),
        }
    }

    /// Fetch, count and execute the instruction at the program counter.
    #[verifier::loop_isolation(false)]
    fn step_once(&mut self) -> (r: StepOut)
        requires
            old(self).wf(),
            0 <= old(self)@.pc < old(self).program.code@.len(),
        ensures
            final(self).wf(),
            final(self).same_config(*old(self)),
            old(self)@.count <= final(self)@.count <= old(self)@.count + 1,
            step_rel(
                old(self).program.code@,
                old(self).vm.deterministic,
                old(self).vm.trace,
                old(self)@,
                final(self)@,
                r,
            ),
    {
        proof {
            reveal(step_rel);
        }
        let code_len = self.program.code.len();
        let ghost pre = self@;
        let op = self.program.code[self.pc];
        let post = op & 0x0F;
        if self.instruction_count < u64::MAX {
            self.instruction_count = self.instruction_count + 1;
        }
        proof {
            assert(bumped(pre, self@)) by {
                assert(self@ =~= (VMState { count: bump(pre.count), ..pre }));
            }
        }
        match Prefix::from(op) {
            None => {
                proof {
                    assert(self@ =~= failed_state(pre));
                }
                StepOut::Failed(VMError::UnknownInstruction)
            },
            Some(Prefix::POP) => self.family_pop(post, Ghost(pre)),
            Some(Prefix::PUSHB) => self.family_pushb(post, Ghost(pre)),
            Some(Prefix::PEEK) => self.family_peek(post, Ghost(pre)),
            Some(Prefix::PUSHI) => self.family_pushi(post, Ghost(pre)),
            Some(Prefix::JMP) => self.family_jump(Ghost(pre)),
            Some(Prefix::JZ) => self.family_jump(Ghost(pre)),
            Some(Prefix::JNZ) => self.family_jump(Ghost(pre)),
            Some(Prefix::UNARY) => self.family_unary(post, Ghost(pre)),
            Some(Prefix::BINARY) => self.family_binary(post, Ghost(pre)),
            Some(Prefix::USER) => self.family_user(post, Ghost(pre)),
            Some(Prefix::SPECIAL) => self.family_special(post, Ghost(pre)),
        }
    }

    /// Execute instructions until the program ends, an instruction yields or
    /// fails, or a quota fills: at most `k` instructions run in a call with
    /// local limit `Some(k)`, and a call without one still stops with the
    /// quota outcome after the index type's maximum count. No instruction is
    /// fetched from a state at or past the machine quota, so the machine
    /// stops the moment that quota fills. A quota return does not advance
    /// the machine, so resumption is seamless. The chain of executed
    /// instructions realises the machine's step relation.
    #[verifier::loop_isolation(false)]
    #[verifier::rlimit(100)]
    #[verifier::spinoff_prover]
    pub fn run(&mut self, local_instruction_limit: Option<usize>) -> (r: Outcome)
        requires
            old(self).wf(),
        ensures
            final(self).wf(),
            final(self).same_config(*old(self)),
            final(self)@.count <= old(self)@.count + run_fuel(local_instruction_limit),
            ({
                let code = old(self).program.code@;
                let det = old(self).vm.deterministic;
                let tr = old(self).vm.trace;
                let v0 = old(self)@;
                let v1 = final(self)@;
                let fuel = run_fuel(local_instruction_limit);
                match r {
                    Outcome::Ended => exists|sts: Seq<VMState>|
                        {
                            &&& #[trigger] is_run(code, det, tr, sts)
                            &&& sts.first() == v0
                            &&& sts.last() == v1
                            &&& sts.len() - 1 <= fuel
                            &&& v1.pc >= code.len()
                            &&& below_quota(old(self).instruction_limit, sts, sts.len() - 1)
                        },
                    Outcome::Yielded => exists|sts: Seq<VMState>|
                        {
                            &&& #[trigger] is_run(code, det, tr, sts)
                            &&& sts.first() == v0
                            &&& sts.len() - 1 < fuel
                            &&& 0 <= sts.last().pc < code.len()
                            &&& step_rel(code, det, tr, sts.last(), v1, StepOut::Yielded)
                            &&& below_quota(old(self).instruction_limit, sts, sts.len() as int)
                        },
                    Outcome::Error(e) => exists|sts: Seq<VMState>|
                        {
                            &&& #[trigger] is_run(code, det, tr, sts)
                            &&& sts.first() == v0
                            &&& sts.len() - 1 < fuel
                            &&& 0 <= sts.last().pc < code.len()
                            &&& step_rel(code, det, tr, sts.last(), v1, StepOut::Failed(e))
                            &&& below_quota(old(self).instruction_limit, sts, sts.len() as int)
                        },
                    Outcome::LocalInstructionLimitReached => exists|sts: Seq<VMState>|
                        {
                            &&& #[trigger] is_run(code, det, tr, sts)
                            &&& sts.first() == v0
                            &&& sts.last() == v1
                            &&& sts.len() - 1 == fuel
                            &&& 0 <= v1.pc < code.len()
                            &&& below_quota(old(self).instruction_limit, sts, sts.len() - 1)
                        },
                    Outcome::GlobalInstructionLimitReached => exists|sts: Seq<VMState>|
                        {
                            &&& #[trigger] is_run(code, det, tr, sts)
                            &&& sts.first() == v0
                            &&& sts.last() == v1
                            &&& sts.len() - 1 <= fuel
                            &&& 0 <= v1.pc < code.len()
                            &&& old(self).instruction_limit is Some
                            &&& v1.count >= old(self).instruction_limit->0
                            &&& below_quota(old(self).instruction_limit, sts, sts.len() - 1)
                        },
                }
            }),
    {
        let ghost code = self.program.code@;
        let ghost det = self.vm.deterministic;
        let ghost trflag = self.vm.trace;
        let fuel: usize = match local_instruction_limit {
            Some(k) => k,
            None => usize::MAX,
        };
        let mut local_count: usize = 0;
        let ghost mut states: Seq<VMState> = seq![self@];
        while self.pc < self.program.code.len()
            invariant
                self.wf(),
                self.same_config(*old(self)),
                local_count <= fuel,
                states.len() == local_count + 1,
                is_run(code, det, trflag, states),
                states.first() == old(self)@,
                states.last() == self@,
                self@.count <= old(self)@.count + local_count,
                below_quota(old(self).instruction_limit, states, states.len() - 1),
            decreases fuel - local_count,
        {
            if let Some(limit) = self.instruction_limit {
                if self.instruction_count >= limit as u64 {
                    return Outcome::GlobalInstructionLimitReached;
                }
            }
            proof {
                assert(below_quota(old(self).instruction_limit, states, states.len() as int));
            }
            if local_count >= fuel {
                return Outcome::LocalInstructionLimitReached;
            }
            let ghost pre = self@;
            let out = self.step_once();
            match out {
                StepOut::Continue => {
                    proof {
                        states = states.push(self@);
                        assert(is_run(code, det, trflag, states));
                    }
                    local_count = local_count + 1;
                },
                StepOut::Yielded => {
                    return Outcome::Yielded;
                },
                StepOut::Failed(e) => {
                    return Outcome::Error(e);
                },
            }
        }
        Outcome::Ended
    }
}

} // verus!
