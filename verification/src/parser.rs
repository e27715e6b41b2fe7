//! The surface-language parser: recursive descent over ASCII source text,
//! producing the statement tree that the compiler lowers, and `parse`, which
//! takes source text all the way to bytecode.
//!
//! Each parsing function takes the source and a position and, on a match,
//! returns the position just past what it consumed; on a mismatch it returns
//! nothing and the caller backtracks to the position it held.

use vstd::prelude::*;
use vstd::string::StrSliceExecFns;
use vstd::string::StringExecFns;
use vstd::string::StringSliceAdditionalSpecFns;

use crate::ast::{assemble_statements, Expression, Node, Scope};
use crate::instructions;
use crate::program::Program;

verus! {

/// Decimal digit, as a byte of ASCII text.
pub open spec fn is_dec_byte(b: u8) -> bool {
    48 <= b <= 57
}

/// Hexadecimal digit of either case, as a byte of ASCII text.
pub open spec fn is_hex_byte(b: u8) -> bool {
    is_dec_byte(b) || (97 <= b <= 102) || (65 <= b <= 70)
}

/// The numeric value of a hexadecimal digit byte.
pub open spec fn hex_byte_val(b: u8) -> int {
    if is_dec_byte(b) {
        b - 48
    } else if 97 <= b <= 102 {
        b - 87
    } else {
        b - 55
    }
}

/// The value of a decimal digit string, folded left over an accumulator.
pub open spec fn dec_value_from(s: Seq<u8>, acc: int) -> int
    decreases s.len(),
{
    if s.len() == 0 {
        acc
    } else {
        dec_value_from(s.drop_first(), acc * 10 + (s[0] - 48))
    }
}

/// The value of a hexadecimal digit string, folded left over an accumulator.
pub open spec fn hex_value_from(s: Seq<u8>, acc: int) -> int
    decreases s.len(),
{
    if s.len() == 0 {
        acc
    } else {
        hex_value_from(s.drop_first(), acc * 16 + hex_byte_val(s[0]))
    }
}

/// The value of a decimal digit string.
pub open spec fn dec_value(s: Seq<u8>) -> int {
    dec_value_from(s, 0)
}

/// The value of a hexadecimal digit string.
pub open spec fn hex_value(s: Seq<u8>) -> int {
    hex_value_from(s, 0)
}

/// A longer accumulator never shrinks the folded value: digits only append.
proof fn lemma_dec_value_from_monotone(s: Seq<u8>, acc: int)
    ensures
        (acc >= 0 && (forall|i: int| 0 <= i < s.len() ==> is_dec_byte(#[trigger] s[i])))
            ==> dec_value_from(s, acc) >= acc,
    decreases s.len(),
{
    if s.len() > 0 {
        assert(forall|i: int|
            0 <= i < s.drop_first().len() ==> #[trigger] s.drop_first()[i] == s[i + 1]);
        lemma_dec_value_from_monotone(s.drop_first(), acc * 10 + (s[0] - 48));
    }
}

proof fn lemma_hex_value_from_monotone(s: Seq<u8>, acc: int)
    ensures
        (acc >= 0 && (forall|i: int| 0 <= i < s.len() ==> is_hex_byte(#[trigger] s[i])))
            ==> hex_value_from(s, acc) >= acc,
    decreases s.len(),
{
    if s.len() > 0 {
        assert(forall|i: int|
            0 <= i < s.drop_first().len() ==> #[trigger] s.drop_first()[i] == s[i + 1]);
        lemma_hex_value_from_monotone(s.drop_first(), acc * 16 + hex_byte_val(s[0]));
    }
}

/// Whether a character is a decimal digit.
pub fn is_dec_digit(c: char) -> (r: bool)
    ensures
        r == (48 <= c as int && c as int <= 57),
{
    '0' <= c && c <= '9'
}

/// Whether a character is a hexadecimal digit of either case.
pub fn is_hex_digit(c: char) -> (r: bool)
    ensures
        r == ((48 <= c as int && c as int <= 57) || (97 <= c as int && c as int <= 102) || (65
            <= c as int && c as int <= 70)),
{
    ('0' <= c && c <= '9') || ('a' <= c && c <= 'f') || ('A' <= c && c <= 'F')
}

/// Read a whole string of decimal digits as a number. The read succeeds
/// exactly when the string is non-empty, all digits, and the value fits the
/// word width.
pub fn from_dec(input: &str) -> (r: Option<u32>)
    ensures
        r is Some ==> input.is_ascii() && input@.len() >= 1 && (forall|i: int|
            0 <= i < input.spec_bytes().len() ==> is_dec_byte(
                #[trigger] input.spec_bytes()[i],
            )) && r->0 as int == dec_value(input.spec_bytes()),
        (input.is_ascii() && input@.len() >= 1 && (forall|i: int|
            0 <= i < input.spec_bytes().len() ==> is_dec_byte(#[trigger] input.spec_bytes()[i]))
            && dec_value(input.spec_bytes()) <= u32::MAX) ==> r is Some,
{
    broadcast use vstd::string::is_ascii_spec_bytes;

    if !input.is_ascii() {
        return None;
    }
    let n = input.unicode_len();
    proof {
        assert(input.spec_bytes().len() == input@.len());
    }
    if n == 0 {
        return None;
    }
    let ghost digits = input.spec_bytes();
    let mut acc: u32 = 0;
    let mut i: usize = 0;
    proof {
        assert(digits.subrange(0, 0) =~= Seq::<u8>::empty());
        assert(digits.subrange(0, n as int) =~= digits);
    }
    while i < n
        invariant
            input.is_ascii(),
            n == input@.len(),
            digits == input.spec_bytes(),
            digits.len() == n,
            i <= n,
            forall|t: int| 0 <= t < i ==> is_dec_byte(#[trigger] digits[t]),
            acc as int == dec_value_from(digits.subrange(0, i as int), 0),
            dec_value(digits) == dec_value_from(digits.subrange(i as int, n as int), acc as int),
        decreases n - i,
    {
        let b = input.get_ascii(i);
        proof {
            assert(b == digits[i as int]);
        }
        if !(48 <= b && b <= 57) {
            return None;
        }
        let d = (b - 48) as u32;
        let big = (acc as u64) * 10 + (d as u64);
        proof {
            let rest = digits.subrange(i as int, n as int);
            assert(rest[0] == digits[i as int]);
            assert(rest.drop_first() =~= digits.subrange(i + 1, n as int));
        }
        if big > 0xFFFF_FFFFu64 {
            // the value can only grow from here, so it cannot fit
            proof {
                let tail = digits.subrange(i + 1, n as int);
                assert(forall|t: int|
                    0 <= t < tail.len() ==> #[trigger] tail[t] == digits[t + i + 1]);
                lemma_dec_value_from_monotone(tail, big as int);
            }
            return None;
        }
        acc = big as u32;
        i = i + 1;
        proof {
            lemma_fold_step_dec(digits, i as int);
        }
    }
    proof {
        assert(digits.subrange(i as int, n as int) =~= Seq::<u8>::empty());
    }
    Some(acc)
}

/// Unfolding step of the left fold, at position `i` (one past the digit just
/// consumed).
proof fn lemma_fold_step_dec(digits: Seq<u8>, i: int)
    requires
        1 <= i <= digits.len(),
    ensures
        dec_value_from(digits.subrange(0, i), 0) == dec_value_from(
            digits.subrange(0, i - 1),
            0,
        ) * 10 + (digits[i - 1] - 48),
    decreases i,
{
    lemma_fold_shift_dec(digits.subrange(0, i), 0);
    assert(digits.subrange(0, i).drop_last() =~= digits.subrange(0, i - 1));
    assert(digits.subrange(0, i).last() == digits[i - 1]);
}

/// The left fold distributes: folding `s` from `acc` equals folding all but
/// the last digit and then taking one more step.
proof fn lemma_fold_shift_dec(s: Seq<u8>, acc: int)
    requires
        s.len() >= 1,
    ensures
        dec_value_from(s, acc) == dec_value_from(s.drop_last(), acc) * 10 + (s.last() - 48),
    decreases s.len(),
{
    assert(dec_value_from(s, acc) == dec_value_from(s.drop_first(), acc * 10 + (s[0] - 48)));
    if s.len() == 1 {
        assert(s.drop_first() =~= Seq::<u8>::empty());
        assert(s.drop_last() =~= Seq::<u8>::empty());
        assert(s.last() == s[0]);
        assert(dec_value_from(s, acc) == acc * 10 + (s[0] - 48));
        assert(dec_value_from(s.drop_last(), acc) == acc);
    } else {
        lemma_fold_shift_dec(s.drop_first(), acc * 10 + (s[0] - 48));
        assert(s.drop_first().drop_last() =~= s.drop_last().drop_first());
        assert(s.drop_first().last() == s.last());
        assert(s.drop_last()[0] == s[0]);
        assert(dec_value_from(s.drop_last(), acc) == dec_value_from(
            s.drop_last().drop_first(),
            acc * 10 + (s.drop_last()[0] - 48),
        ));
    }
}

proof fn lemma_fold_step_hex(digits: Seq<u8>, i: int)
    requires
        1 <= i <= digits.len(),
    ensures
        hex_value_from(digits.subrange(0, i), 0) == hex_value_from(
            digits.subrange(0, i - 1),
            0,
        ) * 16 + hex_byte_val(digits[i - 1]),
    decreases i,
{
    lemma_fold_shift_hex(digits.subrange(0, i), 0);
    assert(digits.subrange(0, i).drop_last() =~= digits.subrange(0, i - 1));
    assert(digits.subrange(0, i).last() == digits[i - 1]);
}

proof fn lemma_fold_shift_hex(s: Seq<u8>, acc: int)
    requires
        s.len() >= 1,
    ensures
        hex_value_from(s, acc) == hex_value_from(s.drop_last(), acc) * 16 + hex_byte_val(s.last()),
    decreases s.len(),
{
    assert(hex_value_from(s, acc) == hex_value_from(s.drop_first(), acc * 16 + hex_byte_val(s[0])));
    if s.len() == 1 {
        assert(s.drop_first() =~= Seq::<u8>::empty());
        assert(s.drop_last() =~= Seq::<u8>::empty());
        assert(s.last() == s[0]);
        assert(hex_value_from(s, acc) == acc * 16 + hex_byte_val(s[0]));
        assert(hex_value_from(s.drop_last(), acc) == acc);
    } else {
        lemma_fold_shift_hex(s.drop_first(), acc * 16 + hex_byte_val(s[0]));
        assert(s.drop_first().drop_last() =~= s.drop_last().drop_first());
        assert(s.drop_first().last() == s.last());
        assert(s.drop_last()[0] == s[0]);
        assert(hex_value_from(s.drop_last(), acc) == hex_value_from(
            s.drop_last().drop_first(),
            acc * 16 + hex_byte_val(s.drop_last()[0]),
        ));
    }
}

/// Read a whole string of hexadecimal digits as a number. The read succeeds
/// exactly when the string is non-empty, all hexadecimal digits, and the
/// value fits the word width.
pub fn from_hex(input: &str) -> (r: Option<u32>)
    ensures
        r is Some ==> input.is_ascii() && input@.len() >= 1 && (forall|i: int|
            0 <= i < input.spec_bytes().len() ==> is_hex_byte(
                #[trigger] input.spec_bytes()[i],
            )) && r->0 as int == hex_value(input.spec_bytes()),
        (input.is_ascii() && input@.len() >= 1 && (forall|i: int|
            0 <= i < input.spec_bytes().len() ==> is_hex_byte(#[trigger] input.spec_bytes()[i]))
            && hex_value(input.spec_bytes()) <= u32::MAX) ==> r is Some,
{
    broadcast use vstd::string::is_ascii_spec_bytes;

    if !input.is_ascii() {
        return None;
    }
    let n = input.unicode_len();
    proof {
        assert(input.spec_bytes().len() == input@.len());
    }
    if n == 0 {
        return None;
    }
    let ghost digits = input.spec_bytes();
    let mut acc: u32 = 0;
    let mut i: usize = 0;
    proof {
        assert(digits.subrange(0, 0) =~= Seq::<u8>::empty());
        assert(digits.subrange(0, n as int) =~= digits);
    }
    while i < n
        invariant
            input.is_ascii(),
            n == input@.len(),
            digits == input.spec_bytes(),
            digits.len() == n,
            i <= n,
            forall|t: int| 0 <= t < i ==> is_hex_byte(#[trigger] digits[t]),
            acc as int == hex_value_from(digits.subrange(0, i as int), 0),
            hex_value(digits) == hex_value_from(digits.subrange(i as int, n as int), acc as int),
        decreases n - i,
    {
        let b = input.get_ascii(i);
        proof {
            assert(b == digits[i as int]);
        }
        let d: u32 = if 48 <= b && b <= 57 {
            (b - 48) as u32
        } else if 97 <= b && b <= 102 {
            (b - 87) as u32
        } else if 65 <= b && b <= 70 {
            (b - 55) as u32
        } else {
            return None;
        };
        let big = (acc as u64) * 16 + (d as u64);
        proof {
            let rest = digits.subrange(i as int, n as int);
            assert(rest[0] == digits[i as int]);
            assert(rest.drop_first() =~= digits.subrange(i + 1, n as int));
        }
        if big > 0xFFFF_FFFFu64 {
            proof {
                let tail = digits.subrange(i + 1, n as int);
                assert(forall|t: int|
                    0 <= t < tail.len() ==> #[trigger] tail[t] == digits[t + i + 1]);
                lemma_hex_value_from_monotone(tail, big as int);
            }
            return None;
        }
        acc = big as u32;
        i = i + 1;
        proof {
            lemma_fold_step_hex(digits, i as int);
        }
    }
    proof {
        assert(digits.subrange(i as int, n as int) =~= Seq::<u8>::empty());
    }
    Some(acc)
}


/// Match the exact text `t` at `pos`.
fn tag(src: &str, n: usize, pos: usize, t: &str) -> (r: Option<usize>)
    requires
        src.is_ascii(),
        pos <= n,
        n == src@.len(),
    ensures
        r is Some ==> r->0 == pos + t@.len() && r->0 <= n,
{
    broadcast use vstd::string::is_ascii_spec_bytes;

    if !t.is_ascii() {
        return None;
    }
    let tl = t.unicode_len();
    if tl > n - pos {
        return None;
    }
    let mut i: usize = 0;
    while i < tl
        invariant
            src.is_ascii(),
            t.is_ascii(),
            n == src@.len(),
            tl == t@.len(),
            pos + tl <= n,
            i <= tl,
        decreases tl - i,
    {
        if src.get_ascii(pos + i) != t.get_ascii(i) {
            return None;
        }
        i = i + 1;
    }
    Some(pos + tl)
}

/// Skip spaces, tabs, carriage returns and newlines.
fn sp(src: &str, n: usize, pos: usize) -> (r: usize)
    requires
        src.is_ascii(),
        pos <= n,
        n == src@.len(),
    ensures
        pos <= r <= n,
{
    let mut p = pos;
    while p < n
        invariant
            src.is_ascii(),
            n == src@.len(),
            pos <= p <= n,
        decreases n - p,
    {
        let b = src.get_ascii(p);
        if b == 32 || b == 9 || b == 13 || b == 10 {
            p = p + 1;
        } else {
            return p;
        }
    }
    p
}

/// Consume one or more decimal digit bytes.
fn take_while1_dec(src: &str, n: usize, pos: usize) -> (r: Option<usize>)
    requires
        src.is_ascii(),
        pos <= n,
        n == src@.len(),
    ensures
        r is Some ==> pos < r->0 <= n,
{
    let mut p = pos;
    while p < n
        invariant
            src.is_ascii(),
            n == src@.len(),
            pos <= p <= n,
        decreases n - p,
    {
        let b = src.get_ascii(p);
        if 48 <= b && b <= 57 {
            p = p + 1;
        } else {
            break;
        }
    }
    if p == pos {
        None
    } else {
        Some(p)
    }
}

/// Consume one or more hexadecimal digit bytes.
fn take_while1_hex(src: &str, n: usize, pos: usize) -> (r: Option<usize>)
    requires
        src.is_ascii(),
        pos <= n,
        n == src@.len(),
    ensures
        r is Some ==> pos < r->0 <= n,
{
    let mut p = pos;
    while p < n
        invariant
            src.is_ascii(),
            n == src@.len(),
            pos <= p <= n,
        decreases n - p,
    {
        let b = src.get_ascii(p);
        if (48 <= b && b <= 57) || (97 <= b && b <= 102) || (65 <= b && b <= 70) {
            p = p + 1;
        } else {
            break;
        }
    }
    if p == pos {
        None
    } else {
        Some(p)
    }
}

/// Consume one or more ASCII letters: a variable name.
fn variable_name(src: &str, n: usize, pos: usize) -> (r: Option<usize>)
    requires
        src.is_ascii(),
        pos <= n,
        n == src@.len(),
    ensures
        r is Some ==> pos < r->0 <= n,
{
    let mut p = pos;
    while p < n
        invariant
            src.is_ascii(),
            n == src@.len(),
            pos <= p <= n,
        decreases n - p,
    {
        let b = src.get_ascii(p);
        if (97 <= b && b <= 122) || (65 <= b && b <= 90) {
            p = p + 1;
        } else {
            break;
        }
    }
    if p == pos {
        None
    } else {
        Some(p)
    }
}

/// A decimal number.
fn dec_number(src: &str, n: usize, pos: usize) -> (r: Option<(usize, u32)>)
    requires
        src.is_ascii(),
        pos <= n,
        n == src@.len(),
    ensures
        r is Some ==> pos < (r->0).0 <= n,
        pos == n ==> r is None,
{
    let end = match take_while1_dec(src, n, pos) {
        Some(e) => e,
        None => {
            return None;
        },
    };
    let digits = src.substring_ascii(pos, end);
    match from_dec(digits) {
        Some(v) => Some((end, v)),
        None => None,
    }
}

/// A hexadecimal number after its `0x` prefix.
fn hex_literal(src: &str, n: usize, pos: usize) -> (r: Option<(usize, u32)>)
    requires
        src.is_ascii(),
        pos <= n,
        n == src@.len(),
    ensures
        r is Some ==> pos < (r->0).0 <= n,
        pos == n ==> r is None,
{
    let p1 = match tag(src, n, pos, "0x") {
        Some(p) => p,
        None => {
            return None;
        },
    };
    proof {
        reveal_strlit("0x");
    }
    let end = match take_while1_hex(src, n, p1) {
        Some(e) => e,
        None => {
            return None;
        },
    };
    let digits = src.substring_ascii(p1, end);
    match from_hex(digits) {
        Some(v) => Some((end, v)),
        None => None,
    }
}

/// A numeric literal, hexadecimal or decimal.
fn literal(src: &str, n: usize, pos: usize) -> (r: Option<(usize, Expression)>)
    requires
        src.is_ascii(),
        pos <= n,
        n == src@.len(),
    ensures
        r is Some ==> pos <= (r->0).0 <= n,
        pos == n ==> r is None,
{
    if let Some((p, v)) = hex_literal(src, n, pos) {
        return Some((p, Expression::Literal(v)));
    }
    match dec_number(src, n, pos) {
        Some((p, v)) => Some((p, Expression::Literal(v))),
        None => None,
    }
}

/// A variable read.
fn load_expression(src: &str, n: usize, pos: usize) -> (r: Option<(usize, Expression)>)
    requires
        src.is_ascii(),
        pos <= n,
        n == src@.len(),
    ensures
        r is Some ==> pos <= (r->0).0 <= n,
        pos == n ==> r is None,
{
    match variable_name(src, n, pos) {
        Some(end) => {
            let name = src.substring_ascii(pos, end).to_owned();
            Some((end, Expression::Load(name)))
        },
        None => None,
    }
}

/// A host-call expression: a time or length query, a random draw, or a pixel
/// read.
fn user_expression(src: &str, n: usize, pos: usize) -> (r: Option<(usize, Expression)>)
    requires
        src.is_ascii(),
        pos <= n,
        n == src@.len(),
    ensures
        r is Some ==> pos <= (r->0).0 <= n,
        pos == n ==> r is None,
    decreases n - pos, 1int,
{
    if let Some(p1) = tag(src, n, pos, "random(") {
        proof {
            reveal_strlit("random(");
        }
        if let Some((p2, e)) = expression(src, n, p1) {
            if let Some(p3) = tag(src, n, p2, ")") {
                let mut args: Vec<Expression> = Vec::new();
                args.push(e);
                return Some((p3, Expression::UserCall(instructions::UserCommand::RANDOM_INT, args)));
            }
        }
    }
    if let Some(p1) = tag(src, n, pos, "get_pixel(") {
        proof {
            reveal_strlit("get_pixel(");
        }
        if let Some((p2, e)) = expression(src, n, p1) {
            if let Some(p3) = tag(src, n, p2, ")") {
                let mut args: Vec<Expression> = Vec::new();
                args.push(e);
                return Some((p3, Expression::UserCall(instructions::UserCommand::GET_PIXEL, args)));
            }
        }
    }
    proof {
        reveal_strlit("get_length");
        reveal_strlit("get_wall_time");
        reveal_strlit("get_precise_time");
    }
    if let Some(p1) = tag(src, n, pos, "get_length") {
        return Some((p1, Expression::User(instructions::UserCommand::GET_LENGTH)));
    }
    if let Some(p1) = tag(src, n, pos, "get_wall_time") {
        return Some((p1, Expression::User(instructions::UserCommand::GET_WALL_TIME)));
    }
    if let Some(p1) = tag(src, n, pos, "get_precise_time") {
        return Some((p1, Expression::User(instructions::UserCommand::GET_PRECISE_TIME)));
    }
    None
}

/// A parenthesised expression.
fn bracketed_expression(src: &str, n: usize, pos: usize) -> (r: Option<(usize, Expression)>)
    requires
        src.is_ascii(),
        pos <= n,
        n == src@.len(),
    ensures
        r is Some ==> pos <= (r->0).0 <= n,
        pos == n ==> r is None,
    decreases n - pos, 1int,
{
    let p1 = match tag(src, n, pos, "(") {
        Some(p) => p,
        None => {
            return None;
        },
    };
    proof {
        reveal_strlit("(");
    }
    let (p2, e) = match expression(src, n, p1) {
        Some(x) => x,
        None => {
            return None;
        },
    };
    match tag(src, n, p2, ")") {
        Some(p3) => Some((p3, e)),
        None => None,
    }
}

/// An atom: a literal, a host call, a variable, or a parenthesised
/// expression.
fn term(src: &str, n: usize, pos: usize) -> (r: Option<(usize, Expression)>)
    requires
        src.is_ascii(),
        pos <= n,
        n == src@.len(),
    ensures
        r is Some ==> pos <= (r->0).0 <= n,
        pos == n ==> r is None,
    decreases n - pos, 2int,
{
    if let Some(x) = literal(src, n, pos) {
        return Some(x);
    }
    if let Some(x) = user_expression(src, n, pos) {
        return Some(x);
    }
    if let Some(x) = load_expression(src, n, pos) {
        return Some(x);
    }
    bracketed_expression(src, n, pos)
}

/// Products, quotients, remainders, and byte shifts by a literal multiple of
/// eight; the shifts lower to runs of single-byte shifts and any other shift
/// amount is refused.
#[verifier::loop_isolation(false)]
fn multiplication(src: &str, n: usize, pos: usize) -> (r: Option<(usize, Expression)>)
    requires
        src.is_ascii(),
        pos <= n,
        n == src@.len(),
    ensures
        r is Some ==> pos <= (r->0).0 <= n,
        pos == n ==> r is None,
    decreases n - pos, 4int,
{
    let first = match term(src, n, pos) {
        Some(x) => x,
        None => {
            return None;
        },
    };
    let mut p = first.0;
    let mut acc = first.1;
    loop
        invariant
            src.is_ascii(),
            n == src@.len(),
            pos <= p <= n,
        decreases n - p,
    {
        let q = sp(src, n, p);
        let (op_end, op): (usize, u8) = if let Some(x) = tag(src, n, q, "*") {
            proof {
                reveal_strlit("*");
            }
            (x, 0)
        } else if let Some(x) = tag(src, n, q, "/") {
            proof {
                reveal_strlit("/");
            }
            (x, 1)
        } else if let Some(x) = tag(src, n, q, "%") {
            proof {
                reveal_strlit("%");
            }
            (x, 2)
        } else if let Some(x) = tag(src, n, q, "<<") {
            proof {
                reveal_strlit("<<");
            }
            (x, 3)
        } else if let Some(x) = tag(src, n, q, ">>") {
            proof {
                reveal_strlit(">>");
            }
            (x, 4)
        } else {
            return Some((p, acc));
        };
        let q2 = sp(src, n, op_end);
        let (p2, rhs) = match term(src, n, q2) {
            Some(x) => x,
            None => {
                return Some((p, acc));
            },
        };
        if op <= 2 {
            let b = if op == 0 {
                instructions::Binary::MUL
            } else if op == 1 {
                instructions::Binary::DIV
            } else {
                instructions::Binary::MOD
            };
            acc = Expression::Binary(Box::new(acc), b, Box::new(rhs));
        } else {
            // a shift is only accepted by a literal multiple of eight
            let amount = match rhs {
                Expression::Literal(v) => v,
                _ => {
                    return None;
                },
            };
            if amount % 8 != 0 {
                return None;
            }
            let un = if op == 3 {
                instructions::Unary::SHL8
            } else {
                instructions::Unary::SHR8
            };
            let mut k = amount / 8;
            while k > 0
                decreases k,
            {
                acc = Expression::Unary(un, Box::new(acc));
                k = k - 1;
            }
        }
        p = p2;
    }
}

/// Sums and differences.
#[verifier::loop_isolation(false)]
fn addition(src: &str, n: usize, pos: usize) -> (r: Option<(usize, Expression)>)
    requires
        src.is_ascii(),
        pos <= n,
        n == src@.len(),
    ensures
        r is Some ==> pos <= (r->0).0 <= n,
        pos == n ==> r is None,
    decreases n - pos, 6int,
{
    let first = match multiplication(src, n, pos) {
        Some(x) => x,
        None => {
            return None;
        },
    };
    let mut p = first.0;
    let mut acc = first.1;
    loop
        invariant
            src.is_ascii(),
            n == src@.len(),
            pos <= p <= n,
        decreases n - p,
    {
        let (op_end, is_add): (usize, bool) = if let Some(x) = tag(src, n, p, "+") {
            proof {
                reveal_strlit("+");
            }
            (x, true)
        } else if let Some(x) = tag(src, n, p, "-") {
            proof {
                reveal_strlit("-");
            }
            (x, false)
        } else {
            return Some((p, acc));
        };
        let (p2, rhs) = match multiplication(src, n, op_end) {
            Some(x) => x,
            None => {
                return Some((p, acc));
            },
        };
        let b = if is_add {
            instructions::Binary::ADD
        } else {
            instructions::Binary::SUB
        };
        acc = Expression::Binary(Box::new(acc), b, Box::new(rhs));
        p = p2;
    }
}

/// Bitwise conjunction, disjunction and exclusive disjunction.
#[verifier::loop_isolation(false)]
fn binaries(src: &str, n: usize, pos: usize) -> (r: Option<(usize, Expression)>)
    requires
        src.is_ascii(),
        pos <= n,
        n == src@.len(),
    ensures
        r is Some ==> pos <= (r->0).0 <= n,
        pos == n ==> r is None,
    decreases n - pos, 8int,
{
    let first = match addition(src, n, pos) {
        Some(x) => x,
        None => {
            return None;
        },
    };
    let mut p = first.0;
    let mut acc = first.1;
    loop
        invariant
            src.is_ascii(),
            n == src@.len(),
            pos <= p <= n,
        decreases n - p,
    {
        let (op_end, op): (usize, u8) = if let Some(x) = tag(src, n, p, "|") {
            proof {
                reveal_strlit("|");
            }
            (x, 0)
        } else if let Some(x) = tag(src, n, p, "^") {
            proof {
                reveal_strlit("^");
            }
            (x, 1)
        } else if let Some(x) = tag(src, n, p, "&") {
            proof {
                reveal_strlit("&");
            }
            (x, 2)
        } else {
            return Some((p, acc));
        };
        let (p2, rhs) = match addition(src, n, op_end) {
            Some(x) => x,
            None => {
                return Some((p, acc));
            },
        };
        let b = if op == 0 {
            instructions::Binary::OR
        } else if op == 1 {
            instructions::Binary::XOR
        } else {
            instructions::Binary::AND
        };
        acc = Expression::Binary(Box::new(acc), b, Box::new(rhs));
        p = p2;
    }
}

/// Prefix negation and logical not.
fn unaries(src: &str, n: usize, pos: usize) -> (r: Option<(usize, Expression)>)
    requires
        src.is_ascii(),
        pos <= n,
        n == src@.len(),
    ensures
        r is Some ==> pos <= (r->0).0 <= n,
        pos == n ==> r is None,
    decreases n - pos, 10int,
{
    if let Some(p1) = tag(src, n, pos, "-") {
        proof {
            reveal_strlit("-");
        }
        if let Some((p2, e)) = unaries(src, n, p1) {
            return Some((p2, Expression::Unary(instructions::Unary::NEG, Box::new(e))));
        }
    }
    if let Some(p1) = tag(src, n, pos, "!") {
        proof {
            reveal_strlit("!");
        }
        if let Some((p2, e)) = unaries(src, n, p1) {
            return Some((p2, Expression::Unary(instructions::Unary::NOT, Box::new(e))));
        }
    }
    binaries(src, n, pos)
}

/// Comparisons, at the lowest precedence.
#[verifier::loop_isolation(false)]
fn comparison(src: &str, n: usize, pos: usize) -> (r: Option<(usize, Expression)>)
    requires
        src.is_ascii(),
        pos <= n,
        n == src@.len(),
    ensures
        r is Some ==> pos <= (r->0).0 <= n,
        pos == n ==> r is None,
    decreases n - pos, 12int,
{
    let first = match unaries(src, n, pos) {
        Some(x) => x,
        None => {
            return None;
        },
    };
    let mut p = first.0;
    let mut acc = first.1;
    loop
        invariant
            src.is_ascii(),
            n == src@.len(),
            pos <= p <= n,
        decreases n - p,
    {
        let q = sp(src, n, p);
        let (op_end, op): (usize, u8) = if let Some(x) = tag(src, n, q, ">=") {
            proof {
                reveal_strlit(">=");
            }
            (x, 0)
        } else if let Some(x) = tag(src, n, q, "<=") {
            proof {
                reveal_strlit("<=");
            }
            (x, 1)
        } else if let Some(x) = tag(src, n, q, ">") {
            proof {
                reveal_strlit(">");
            }
            (x, 2)
        } else if let Some(x) = tag(src, n, q, "<") {
            proof {
                reveal_strlit("<");
            }
            (x, 3)
        } else if let Some(x) = tag(src, n, q, "==") {
            proof {
                reveal_strlit("==");
            }
            (x, 4)
        } else if let Some(x) = tag(src, n, q, "!=") {
            proof {
                reveal_strlit("!=");
            }
            (x, 5)
        } else {
            return Some((p, acc));
        };
        let q2 = sp(src, n, op_end);
        let (p2, rhs) = match unaries(src, n, q2) {
            Some(x) => x,
            None => {
                return Some((p, acc));
            },
        };
        let b = if op == 0 {
            instructions::Binary::GTE
        } else if op == 1 {
            instructions::Binary::LTE
        } else if op == 2 {
            instructions::Binary::GT
        } else if op == 3 {
            instructions::Binary::LT
        } else if op == 4 {
            instructions::Binary::EQ
        } else {
            instructions::Binary::NEQ
        };
        acc = Expression::Binary(Box::new(acc), b, Box::new(rhs));
        p = p2;
    }
}

/// A whole expression.
fn expression(src: &str, n: usize, pos: usize) -> (r: Option<(usize, Expression)>)
    requires
        src.is_ascii(),
        pos <= n,
        n == src@.len(),
    ensures
        r is Some ==> pos <= (r->0).0 <= n,
        pos == n ==> r is None,
    decreases n - pos, 14int,
{
    comparison(src, n, pos)
}

/// `yield` or `dump`.
fn special_statement(src: &str, n: usize, pos: usize) -> (r: Option<(usize, Node)>)
    requires
        src.is_ascii(),
        pos <= n,
        n == src@.len(),
    ensures
        r is Some ==> pos <= (r->0).0 <= n,
        pos == n ==> r is None,
{
    proof {
        reveal_strlit("yield");
        reveal_strlit("dump");
    }
    if let Some(p1) = tag(src, n, pos, "yield") {
        return Some((p1, Node::Special(instructions::Special::YIELD)));
    }
    if let Some(p1) = tag(src, n, pos, "dump") {
        return Some((p1, Node::Special(instructions::Special::DUMP)));
    }
    None
}

/// `blit`, or a pixel write with one or four arguments.
fn user_statement(src: &str, n: usize, pos: usize) -> (r: Option<(usize, Node)>)
    requires
        src.is_ascii(),
        pos <= n,
        n == src@.len(),
    ensures
        r is Some ==> pos <= (r->0).0 <= n,
        pos == n ==> r is None,
    decreases n - pos, 16int,
{
    proof {
        reveal_strlit("blit");
    }
    if let Some(p1) = tag(src, n, pos, "blit") {
        return Some((p1, Node::User(instructions::UserCommand::BLIT)));
    }
    if let Some(p1) = tag(src, n, pos, "set_pixel(") {
        proof {
            reveal_strlit("set_pixel(");
        }
        // one argument
        if let Some((p2, e)) = expression(src, n, p1) {
            if let Some(p3) = tag(src, n, p2, ")") {
                let mut args: Vec<Expression> = Vec::new();
                args.push(e);
                return Some((p3, Node::UserCall(instructions::UserCommand::SET_PIXEL, args)));
            }
        }
        // four arguments
        let q1 = sp(src, n, p1);
        if let Some((p2, e1)) = expression(src, n, q1) {
            let q2 = sp(src, n, p2);
            if let Some(c1) = tag(src, n, q2, ",") {
                proof {
                    reveal_strlit(",");
                }
                let q3 = sp(src, n, c1);
                if let Some((p3, e2)) = expression(src, n, q3) {
                    let q4 = sp(src, n, p3);
                    if let Some(c2) = tag(src, n, q4, ",") {
                        let q5 = sp(src, n, c2);
                        if let Some((p4, e3)) = expression(src, n, q5) {
                            let q6 = sp(src, n, p4);
                            if let Some(c3) = tag(src, n, q6, ",") {
                                let q7 = sp(src, n, c3);
                                if let Some((p5, e4)) = expression(src, n, q7) {
                                    let q8 = sp(src, n, p5);
                                    if let Some(p6) = tag(src, n, q8, ")") {
                                        let mut args: Vec<Expression> = Vec::new();
                                        args.push(e1);
                                        args.push(e2);
                                        args.push(e3);
                                        args.push(e4);
                                        return Some((
                                            p6,
                                            Node::UserCall(
                                                instructions::UserCommand::SET_PIXEL,
                                                args,
                                            ),
                                        ));
                                    }
                                }
                            }
                        }
                    }
                }
            }
        }
    }
    None
}

/// `name = expression`.
fn assignment_statement(src: &str, n: usize, pos: usize) -> (r: Option<(usize, Node)>)
    requires
        src.is_ascii(),
        pos <= n,
        n == src@.len(),
    ensures
        r is Some ==> pos <= (r->0).0 <= n,
        pos == n ==> r is None,
    decreases n - pos, 16int,
{
    let end = match variable_name(src, n, pos) {
        Some(e) => e,
        None => {
            return None;
        },
    };
    let q1 = sp(src, n, end);
    let p1 = match tag(src, n, q1, "=") {
        Some(p) => p,
        None => {
            return None;
        },
    };
    let q2 = sp(src, n, p1);
    match expression(src, n, q2) {
        Some((p2, e)) => {
            let name = src.substring_ascii(pos, end).to_owned();
            Some((p2, Node::Assignment(name, e)))
        },
        None => None,
    }
}

/// `if( expression ) { program }` with an optional `else { program }`.
fn if_statement(src: &str, n: usize, pos: usize) -> (r: Option<(usize, Node)>)
    requires
        src.is_ascii(),
        pos <= n,
        n == src@.len(),
    ensures
        r is Some ==> pos <= (r->0).0 <= n,
        pos == n ==> r is None,
    decreases n - pos, 16int,
{
    let p1 = match tag(src, n, pos, "if(") {
        Some(p) => p,
        None => {
            return None;
        },
    };
    proof {
        reveal_strlit("if(");
    }
    let q1 = sp(src, n, p1);
    let (p2, cond) = match expression(src, n, q1) {
        Some(x) => x,
        None => {
            return None;
        },
    };
    let q2 = sp(src, n, p2);
    let p3 = match tag(src, n, q2, ")") {
        Some(p) => p,
        None => {
            return None;
        },
    };
    let q3 = sp(src, n, p3);
    let p4 = match tag(src, n, q3, "{") {
        Some(p) => p,
        None => {
            return None;
        },
    };
    proof {
        reveal_strlit("{");
    }
    let (p5, body) = program(src, n, p4);
    let q4 = sp(src, n, p5);
    let p6 = match tag(src, n, q4, "}") {
        Some(p) => p,
        None => {
            return None;
        },
    };
    let q5 = sp(src, n, p6);
    // optional else branch
    if let Some(p7) = tag(src, n, q5, "else {") {
        proof {
            reveal_strlit("else {");
        }
        let q6 = sp(src, n, p7);
        let (p8, else_body) = program(src, n, q6);
        let q7 = sp(src, n, p8);
        if let Some(p9) = tag(src, n, q7, "}") {
            let q8 = sp(src, n, p9);
            return Some((q8, Node::IfElse(cond, body, else_body)));
        }
    }
    Some((q5, Node::If(cond, body)))
}

/// `for( name = expression ) { program }`.
fn for_statement(src: &str, n: usize, pos: usize) -> (r: Option<(usize, Node)>)
    requires
        src.is_ascii(),
        pos <= n,
        n == src@.len(),
    ensures
        r is Some ==> pos <= (r->0).0 <= n,
        pos == n ==> r is None,
    decreases n - pos, 16int,
{
    let p1 = match tag(src, n, pos, "for(") {
        Some(p) => p,
        None => {
            return None;
        },
    };
    proof {
        reveal_strlit("for(");
    }
    let q1 = sp(src, n, p1);
    let name_end = match variable_name(src, n, q1) {
        Some(e) => e,
        None => {
            return None;
        },
    };
    let ghost name_start = q1;
    let q2 = sp(src, n, name_end);
    let p2 = match tag(src, n, q2, "=") {
        Some(p) => p,
        None => {
            return None;
        },
    };
    let q3 = sp(src, n, p2);
    let (p3, counter) = match expression(src, n, q3) {
        Some(x) => x,
        None => {
            return None;
        },
    };
    let q4 = sp(src, n, p3);
    let p4 = match tag(src, n, q4, ")") {
        Some(p) => p,
        None => {
            return None;
        },
    };
    let q5 = sp(src, n, p4);
    let p5 = match tag(src, n, q5, "{") {
        Some(p) => p,
        None => {
            return None;
        },
    };
    proof {
        reveal_strlit("{");
    }
    let (p6, body) = program(src, n, p5);
    let q6 = sp(src, n, p6);
    match tag(src, n, q6, "}") {
        Some(p7) => {
            let name = src.substring_ascii(q1, name_end).to_owned();
            Some((p7, Node::For(name, counter, body)))
        },
        None => None,
    }
}

/// `loop { program }`.
fn loop_statement(src: &str, n: usize, pos: usize) -> (r: Option<(usize, Node)>)
    requires
        src.is_ascii(),
        pos <= n,
        n == src@.len(),
    ensures
        r is Some ==> pos <= (r->0).0 <= n,
        pos == n ==> r is None,
    decreases n - pos, 16int,
{
    let p1 = match tag(src, n, pos, "loop") {
        Some(p) => p,
        None => {
            return None;
        },
    };
    let q1 = sp(src, n, p1);
    let p2 = match tag(src, n, q1, "{") {
        Some(p) => p,
        None => {
            return None;
        },
    };
    proof {
        reveal_strlit("{");
    }
    let (p3, body) = program(src, n, p2);
    match tag(src, n, p3, "}") {
        Some(p4) => Some((p4, Node::Loop(body))),
        None => None,
    }
}

/// One statement, trying each form in a fixed order.
fn statement(src: &str, n: usize, pos: usize) -> (r: Option<(usize, Node)>)
    requires
        src.is_ascii(),
        pos <= n,
        n == src@.len(),
    ensures
        r is Some ==> pos <= (r->0).0 <= n,
        pos == n ==> r is None,
    decreases n - pos, 18int,
{
    if let Some(x) = user_statement(src, n, pos) {
        return Some(x);
    }
    if let Some(x) = special_statement(src, n, pos) {
        return Some(x);
    }
    if let Some(x) = assignment_statement(src, n, pos) {
        return Some(x);
    }
    if let Some(x) = if_statement(src, n, pos) {
        return Some(x);
    }
    if let Some(x) = for_statement(src, n, pos) {
        return Some(x);
    }
    if let Some(x) = loop_statement(src, n, pos) {
        return Some(x);
    }
    match expression(src, n, pos) {
        Some((p, e)) => Some((p, Node::Expression(e))),
        None => None,
    }
}

/// A program: statements separated by semicolons, with an optional trailing
/// semicolon, surrounded by insignificant whitespace. Always succeeds,
/// consuming as much as it can.
fn program(src: &str, n: usize, pos: usize) -> (r: (usize, Vec<Node>))
    requires
        src.is_ascii(),
        pos <= n,
        n == src@.len(),
    ensures
        pos <= r.0 <= n,
        pos == n ==> r.0 == pos && r.1@.len() == 0,
    decreases n - pos, 20int,
{
    let mut stmts: Vec<Node> = Vec::new();
    let mut p = pos;
    let q = sp(src, n, pos);
    match statement(src, n, q) {
        Some((p1, node)) => {
            stmts.push(node);
            p = p1;
            loop
                invariant
                    src.is_ascii(),
                    n == src@.len(),
                    pos <= p <= n,
                decreases n - p,
            {
                let q1 = sp(src, n, p);
                let q2 = match tag(src, n, q1, ";") {
                    Some(x) => x,
                    None => {
                        break;
                    },
                };
                proof {
                    reveal_strlit(";");
                }
                let q3 = sp(src, n, q2);
                match statement(src, n, q3) {
                    Some((p2, node2)) => {
                        stmts.push(node2);
                        p = p2;
                    },
                    None => {
                        break;
                    },
                }
            }
        },
        None => {},
    }
    let p3 = sp(src, n, p);
    let p4 = match tag(src, n, p3, ";") {
        Some(x) => x,
        None => p3,
    };
    let p5 = sp(src, n, p4);
    (p5, stmts)
}

/// Parse a whole expression from the start of the text; the position returned
/// is where parsing stopped, with the rest of the text left unconsumed.
pub fn parse_expression(source: &str) -> (r: Option<(usize, Expression)>)
    ensures
        r is Some ==> (r->0).0 <= source@.len(),
        source@.len() == 0 ==> r is None,
{
    if !source.is_ascii() {
        return None;
    }
    let n = source.unicode_len();
    expression(source, n, 0)
}

/// Parse a whole statement list from the start of the text; the position
/// returned is where parsing stopped.
pub fn parse_statements(source: &str) -> (r: Option<(usize, Vec<Node>)>)
    ensures
        r is Some ==> (r->0).0 <= source@.len(),
        source.is_ascii() && source@.len() == 0 ==> r is Some && (r->0).0 == 0 && (
        r->0).1@.len() == 0,
{
    if !source.is_ascii() {
        return None;
    }
    let n = source.unicode_len();
    let (p, stmts) = program(source, n, 0);
    Some((p, stmts))
}

/// Parse source text and lower it to bytecode. Succeeds exactly when the
/// whole text is consumed by the grammar and the tree compiles; the program
/// handed back starts at address zero and has a predicted stack delta of
/// zero: it leaves the machine's stack exactly as it found it.
pub fn parse(source: &str) -> (r: Result<Program, String>)
    ensures
        r is Ok ==> r->Ok_0.stack_size@ == 0 && r->Ok_0.offset == 0,
        !source.is_ascii() ==> r is Err,
        source@.len() == 0 ==> r is Ok && r->Ok_0.code@ == Seq::<u8>::empty(),
{
    if !source.is_ascii() {
        return Err("source text is not ASCII".to_owned());
    }
    let n = source.unicode_len();
    let (p, stmts) = program(source, n, 0);
    if p != n {
        let mut msg = "could not parse, remainder: ".to_owned();
        msg.append(source.substring_ascii(p, n));
        return Err(msg);
    }
    let mut prog = Program::new();
    let mut scope = Scope::new();
    match assemble_statements(&stmts, &mut prog, &mut scope) {
        Ok(()) => {},
        Err(e) => {
            let mut msg = "compile error: ".to_owned();
            msg.append(e.message().as_str());
            return Err(msg);
        },
    }
    match scope.assemble_teardown(&mut prog) {
        Ok(()) => Ok(prog),
        Err(e) => {
            let mut msg = "compile error: ".to_owned();
            msg.append(e.message().as_str());
            Err(msg)
        },
    }
}


/// Whether an expression has a surface form the grammar can read back: no
/// intrinsic, no dynamic shift, no increment or decrement operator, and only
/// the host calls the grammar spells.
pub open spec fn expr_formattable(e: Expression) -> bool
    decreases e,
{
    match e {
        Expression::Literal(_) => true,
        Expression::Load(_) => true,
        Expression::User(s) => s == instructions::UserCommand::GET_LENGTH || s
            == instructions::UserCommand::GET_WALL_TIME || s
            == instructions::UserCommand::GET_PRECISE_TIME,
        Expression::UserCall(s, args) => (s == instructions::UserCommand::RANDOM_INT || s
            == instructions::UserCommand::GET_PIXEL) && args@.len() == 1 && expr_formattable(
            args@[0],
        ),
        Expression::Unary(op, rhs) => (op == instructions::Unary::NEG || op
            == instructions::Unary::NOT || op == instructions::Unary::SHL8 || op
            == instructions::Unary::SHR8) && expr_formattable(*rhs),
        Expression::Binary(lhs, op, rhs) => op != instructions::Binary::SHL && op
            != instructions::Binary::SHR && expr_formattable(*lhs) && expr_formattable(*rhs),
        Expression::Intrinsic(_) => false,
    }
}

/// Whether a statement has a surface form the grammar can read back.
pub open spec fn node_formattable(n: Node) -> bool
    decreases n,
{
    match n {
        Node::Expression(e) => expr_formattable(e),
        Node::Special(s) => s == instructions::Special::YIELD || s
            == instructions::Special::DUMP,
        Node::User(u) => u == instructions::UserCommand::BLIT,
        Node::UserCall(u, args) => u == instructions::UserCommand::SET_PIXEL && args@.len() == 4
            && expr_formattable(args@[0]) && expr_formattable(args@[1]) && expr_formattable(
            args@[2],
        ) && expr_formattable(args@[3]),
        Node::Statements(ss) => stmts_formattable(ss@),
        Node::Loop(ss) => stmts_formattable(ss@),
        Node::If(e, ss) => expr_formattable(e) && stmts_formattable(ss@),
        Node::IfElse(e, a, b) => expr_formattable(e) && stmts_formattable(a@)
            && stmts_formattable(b@),
        Node::Assignment(_, e) => expr_formattable(e),
        Node::For(_, e, ss) => expr_formattable(e) && stmts_formattable(ss@),
    }
}

/// Whether every statement of a sequence has a surface form.
pub open spec fn stmts_formattable(ss: Seq<Node>) -> bool
    decreases ss,
{
    ss.len() == 0 || (node_formattable(ss[0]) && stmts_formattable(ss.drop_first()))
}

/// Append the operator token of a binary operation, or nothing for the
/// dynamic shifts, which have no surface form.
fn binary_token(op: &instructions::Binary) -> (r: Option<&'static str>)
    ensures
        r is Some <==> (*op != instructions::Binary::SHL && *op != instructions::Binary::SHR),
{
    match op {
        instructions::Binary::ADD => Some("+"),
        instructions::Binary::SUB => Some("-"),
        instructions::Binary::DIV => Some("/"),
        instructions::Binary::MUL => Some("*"),
        instructions::Binary::MOD => Some("%"),
        instructions::Binary::AND => Some("&"),
        instructions::Binary::OR => Some("|"),
        instructions::Binary::XOR => Some("^"),
        instructions::Binary::GT => Some(">"),
        instructions::Binary::GTE => Some(">="),
        instructions::Binary::LT => Some("<"),
        instructions::Binary::LTE => Some("<="),
        instructions::Binary::EQ => Some("=="),
        instructions::Binary::NEQ => Some("!="),
        instructions::Binary::SHL => None,
        instructions::Binary::SHR => None,
    }
}

/// Append a number in decimal.
fn append_u32(s: &mut String, v: u32)
{
    let mut digits: Vec<u8> = Vec::new();
    let mut x = v;
    if x == 0 {
        digits.push(0);
    }
    while x > 0
        invariant
            digits@.len() <= 10,
        decreases x,
    {
        if digits.len() < 10 {
            digits.push((x % 10) as u8);
        }
        x = x / 10;
    }
    let mut i = digits.len();
    while i > 0
        invariant
            i <= digits@.len(),
        decreases i,
    {
        i = i - 1;
        match digits[i] {
            0 => s.append("0"),
            1 => s.append("1"),
            2 => s.append("2"),
            3 => s.append("3"),
            4 => s.append("4"),
            5 => s.append("5"),
            6 => s.append("6"),
            7 => s.append("7"),
            8 => s.append("8"),
            _ => s.append("9"),
        }
    }
}

/// Write an expression back as source text, parenthesised so that reading it
/// back gives the same tree. Succeeds exactly when the expression has a
/// surface form; otherwise nothing comes back and the text is unfinished.
pub fn format_expression(e: &Expression, out: &mut String) -> (r: Option<()>)
    ensures
        r is Some <==> expr_formattable(*e),
    decreases *e,
{
    match e {
        Expression::Literal(v) => {
            append_u32(out, *v);
            Some(())
        },
        Expression::Load(name) => {
            out.append(name.as_str());
            Some(())
        },
        Expression::User(u) => {
            match u {
                instructions::UserCommand::GET_LENGTH => out.append("get_length"),
                instructions::UserCommand::GET_WALL_TIME => out.append("get_wall_time"),
                instructions::UserCommand::GET_PRECISE_TIME => out.append("get_precise_time"),
                _ => {
                    return None;
                },
            }
            Some(())
        },
        Expression::UserCall(u, args) => {
            if args.len() != 1 {
                return None;
            }
            match u {
                instructions::UserCommand::RANDOM_INT => out.append("random("),
                instructions::UserCommand::GET_PIXEL => out.append("get_pixel("),
                _ => {
                    return None;
                },
            }
            format_expression(&args[0], out)?;
            out.append(")");
            Some(())
        },
        Expression::Unary(op, rhs) => {
            match op {
                instructions::Unary::NEG => {
                    out.append("-(");
                    format_expression(rhs, out)?;
                    out.append(")");
                },
                instructions::Unary::NOT => {
                    out.append("!(");
                    format_expression(rhs, out)?;
                    out.append(")");
                },
                instructions::Unary::SHL8 => {
                    out.append("(");
                    format_expression(rhs, out)?;
                    out.append(") << 8");
                },
                instructions::Unary::SHR8 => {
                    out.append("(");
                    format_expression(rhs, out)?;
                    out.append(") >> 8");
                },
                _ => {
                    return None;
                },
            }
            Some(())
        },
        Expression::Binary(lhs, op, rhs) => {
            let token = match binary_token(op) {
                Some(t) => t,
                None => {
                    return None;
                },
            };
            out.append("(");
            format_expression(lhs, out)?;
            out.append(")");
            out.append(token);
            out.append("(");
            format_expression(rhs, out)?;
            out.append(")");
            Some(())
        },
        Expression::Intrinsic(_) => None,
    }
}

/// Write one statement back as source text. Succeeds exactly when the
/// statement has a surface form.
pub fn format_node(node: &Node, out: &mut String) -> (r: Option<()>)
    ensures
        r is Some <==> node_formattable(*node),
    decreases *node,
{
    match node {
        Node::Expression(e) => format_expression(e, out),
        Node::Special(s) => {
            match s {
                instructions::Special::YIELD => out.append("yield"),
                instructions::Special::DUMP => out.append("dump"),
                _ => {
                    return None;
                },
            }
            Some(())
        },
        Node::User(u) => {
            match u {
                instructions::UserCommand::BLIT => out.append("blit"),
                _ => {
                    return None;
                },
            }
            Some(())
        },
        Node::UserCall(u, args) => {
            match u {
                instructions::UserCommand::SET_PIXEL => {},
                _ => {
                    return None;
                },
            }
            if args.len() != 4 {
                return None;
            }
            out.append("set_pixel(");
            format_expression(&args[0], out)?;
            out.append(", ");
            format_expression(&args[1], out)?;
            out.append(", ");
            format_expression(&args[2], out)?;
            out.append(", ");
            format_expression(&args[3], out)?;
            out.append(")");
            Some(())
        },
        Node::Statements(stmts) => format_statements_into(stmts, out),
        Node::Loop(stmts) => {
            out.append("loop { ");
            format_statements_into(stmts, out)?;
            out.append(" }");
            Some(())
        },
        Node::If(e, body) => {
            out.append("if(");
            format_expression(e, out)?;
            out.append(") { ");
            format_statements_into(body, out)?;
            out.append(" }");
            Some(())
        },
        Node::IfElse(e, then_body, else_body) => {
            out.append("if(");
            format_expression(e, out)?;
            out.append(") { ");
            format_statements_into(then_body, out)?;
            out.append(" } else { ");
            format_statements_into(else_body, out)?;
            out.append(" }");
            Some(())
        },
        Node::Assignment(name, e) => {
            out.append(name.as_str());
            out.append(" = ");
            format_expression(e, out)?;
            Some(())
        },
        Node::For(name, e, body) => {
            out.append("for(");
            out.append(name.as_str());
            out.append(" = ");
            format_expression(e, out)?;
            out.append(") { ");
            format_statements_into(body, out)?;
            out.append(" }");
            Some(())
        },
    }
}

#[verifier::loop_isolation(false)]
fn format_statements_into(stmts: &Vec<Node>, out: &mut String) -> (r: Option<()>)
    ensures
        r is Some <==> stmts_formattable(stmts@),
    decreases *stmts,
{
    broadcast use vstd::std_specs::vec::axiom_vec_index_decreases;

    let mut i: usize = 0;
    proof {
        assert(stmts@.skip(0) =~= stmts@);
    }
    while i < stmts.len()
        invariant
            i <= stmts@.len(),
            stmts_formattable(stmts@) == stmts_formattable(stmts@.skip(i as int)),
        decreases stmts@.len() - i,
    {
        proof {
            assert(decreases_to!(*stmts => stmts[i as int]));
            assert(stmts@.skip(i as int)[0] == stmts@[i as int]);
            assert(stmts@.skip(i as int).drop_first() =~= stmts@.skip(i + 1));
        }
        if i > 0 {
            out.append("; ");
        }
        let stmt = &stmts[i];
        format_node(stmt, out)?;
        i = i + 1;
    }
    proof {
        assert(stmts@.skip(stmts@.len() as int) =~= Seq::<Node>::empty());
    }
    Some(())
}

/// Write a statement list back as source text that reads back to the same
/// tree. Succeeds exactly when every statement has a surface form.
pub fn format_statements(stmts: &Vec<Node>) -> (r: Option<String>)
    ensures
        r is Some <==> stmts_formattable(stmts@),
{
    let mut out = String::new();
    match format_statements_into(stmts, &mut out) {
        Some(()) => Some(out),
        None => None,
    }
}

} // verus!
