//! The surface language's tree of statements and expressions, the
//! compile-time scope chain, and the lowering of both to bytecode.
//!
//! Lowering tracks two predictions that are proved consistent rather than
//! checked at run time: every expression pushes exactly one value, and every
//! statement leaves the expression stack where it found it. From those two
//! facts the compiler discharges, statically, the assembler's demand that
//! every branch or loop fragment have a predicted stack delta of zero.

use vstd::prelude::*;

use crate::instructions;
use crate::program::Program;

verus! {

/// A statement of the surface language.
#[derive(Debug)]
pub enum Node {
    Expression(Expression),
    Special(instructions::Special),
    UserCall(instructions::UserCommand, Vec<Expression>),
    User(instructions::UserCommand),
    Statements(Vec<Node>),
    Loop(Vec<Node>),
    If(Expression, Vec<Node>),
    IfElse(Expression, Vec<Node>, Vec<Node>),
    Assignment(String, Expression),
    For(String, Expression, Vec<Node>),
}

/// Compiler-provided operations that lower to open-coded stack manipulation.
#[derive(Debug)]
pub enum Intrinsic {
    Clamp(Box<Expression>, Box<Expression>, Box<Expression>),
}

/// An expression of the surface language.
#[derive(Debug)]
pub enum Expression {
    Literal(u32),
    Unary(instructions::Unary, Box<Expression>),
    Binary(Box<Expression>, instructions::Binary, Box<Expression>),
    User(instructions::UserCommand),
    UserCall(instructions::UserCommand, Vec<Expression>),
    Load(String),
    Intrinsic(Intrinsic),
}

/// Why lowering a tree to bytecode was refused.
#[derive(Clone, Debug, PartialEq)]
pub enum CompileError {
    /// A loaded variable is not bound in any enclosing scope.
    UnknownVariable(String),
    /// An assignment re-binds a name already bound in the same frame.
    DuplicateVariable(String),
    /// A variable lives deeper than the peek instruction can reach.
    VariableOutOfReach(String),
    /// A frame ends with more locals than one pop instruction can discard.
    TooManyLocals,
    /// A bookkeeping counter would overflow.
    TooDeep,
    /// A host call is used with an arity or in a position that has no
    /// lowering.
    InvalidCall,
}

impl CompileError {
    /// A human-readable description of the refusal.
    pub fn message(&self) -> String {
        let mut s = String::new();
        match self {
            CompileError::UnknownVariable(name) => {
                s.append("variable not found: ");
                s.append(name.as_str());
            },
            CompileError::DuplicateVariable(name) => {
                s.append("variable already defined: ");
                s.append(name.as_str());
            },
            CompileError::VariableOutOfReach(name) => {
                s.append("variable is out of reach: ");
                s.append(name.as_str());
            },
            CompileError::TooManyLocals => {
                s.append("too many locals in one scope");
            },
            CompileError::TooDeep => {
                s.append("program is nested too deeply");
            },
            CompileError::InvalidCall => {
                s.append("host call used with an arity or in a position that has no lowering");
            },
        }
        s
    }
}

/// One frame of the compile-time scope chain: the names bound in this frame,
/// oldest first, and `level`, the number of values the frame has pushed onto
/// the expression stack (its named slots plus any temporaries).
pub struct Frame {
    pub variables: Vec<String>,
    pub level: u32,
}

impl Frame {
    /// Bound names are distinct within a frame, and every named slot is
    /// counted by `level`.
    pub open spec fn wf(self) -> bool {
        &&& self.level >= self.variables@.len()
        &&& forall|i: int, j: int|
            0 <= i < j < self.variables@.len() ==> self.variables@[i]@ != self.variables@[j]@
    }

    /// How many unnamed temporaries the frame currently holds.
    pub open spec fn temps(self) -> int {
        self.level - self.variables@.len()
    }

    pub open spec fn has(self, name: Seq<char>) -> bool {
        exists|i: int| 0 <= i < self.variables@.len() && self.variables@[i]@ == name
    }

    /// The position of a bound name; meaningful only when `has` holds and the
    /// frame is well-formed, in which case it is unique.
    pub open spec fn pos(self, name: Seq<char>) -> int {
        choose|i: int| 0 <= i < self.variables@.len() && self.variables@[i]@ == name
    }
}

/// The compile-time scope chain, innermost frame last.
pub struct Scope {
    pub frames: Vec<Frame>,
}

/// The frame chain after one more value is counted on the innermost frame:
/// what lowering an expression does to the chain.
pub open spec fn bump_top(frames: Seq<Frame>) -> Seq<Frame> {
    frames.update(
        frames.len() - 1,
        (Frame { level: (frames.last().level + 1) as u32, ..frames.last() }),
    )
}

/// Counting a value is invertible while the counter has head-room.
pub proof fn lemma_bump_top_injective(a: Seq<Frame>, b: Seq<Frame>)
    requires
        a.len() == b.len(),
        a.len() >= 1,
        a.last().level < u32::MAX,
        b.last().level < u32::MAX,
        bump_top(a) == bump_top(b),
    ensures
        a == b,
{
    assert forall|i: int| 0 <= i < a.len() implies a[i] == b[i] by {
        if i < a.len() - 1 {
            assert(bump_top(a)[i] == a[i]);
            assert(bump_top(b)[i] == b[i]);
        } else {
            assert(bump_top(a).last() == (Frame {
                level: (a.last().level + 1) as u32,
                ..a.last()
            }));
            assert(bump_top(b).last() == (Frame {
                level: (b.last().level + 1) as u32,
                ..b.last()
            }));
            assert(a.last() == (Frame { level: a.last().level, variables: a.last().variables }));
            assert(b.last() == (Frame { level: b.last().level, variables: b.last().variables }));
        }
    }
    assert(a =~= b);
}

/// The relative stack offset, from the top of the live stack, of the nearest
/// binding of `name`: within the innermost frame holding it, the offset is
/// counted from that frame's level; every more deeply nested frame adds the
/// values it has pushed on top.
pub open spec fn lookup(frames: Seq<Frame>, name: Seq<char>) -> Option<int>
    decreases frames.len(),
{
    if frames.len() == 0 {
        None
    } else {
        let top = frames.last();
        if top.has(name) {
            Some(top.level - 1 - top.pos(name))
        } else {
            match lookup(frames.drop_last(), name) {
                Some(p) => Some(p + top.level),
                None => None,
            }
        }
    }
}

/// In a well-formed chain every lookup offset is non-negative.
pub proof fn lemma_lookup_nonneg(frames: Seq<Frame>, name: Seq<char>)
    requires
        forall|i: int| 0 <= i < frames.len() ==> (#[trigger] frames[i]).wf(),
        lookup(frames, name) is Some,
    ensures
        lookup(frames, name)->0 >= 0,
    decreases frames.len(),
{
    if frames.len() > 0 {
        let top = frames.last();
        if top.has(name) {
            let i = top.pos(name);
            assert(0 <= i < top.variables@.len());
        } else {
            assert(forall|i: int|
                0 <= i < frames.drop_last().len() ==> (#[trigger] frames.drop_last()[i]).wf());
            lemma_lookup_nonneg(frames.drop_last(), name);
        }
    }
}

impl Scope {
    /// At least one frame, and every frame well-formed.
    pub open spec fn wf(self) -> bool {
        &&& self.frames@.len() >= 1
        &&& forall|i: int| 0 <= i < self.frames@.len() ==> (#[trigger] self.frames@[i]).wf()
    }

    /// The innermost frame.
    pub open spec fn top(self) -> Frame {
        self.frames@.last()
    }

    /// Every frame but the innermost.
    pub open spec fn parents(self) -> Seq<Frame> {
        self.frames@.drop_last()
    }

    /// A scope with a single, empty root frame.
    pub fn new() -> (r: Scope)
        ensures
            r.wf(),
            r.frames@.len() == 1,
            r.top().variables@ == Seq::<String>::empty(),
            r.top().level == 0,
    {
        let mut frames: Vec<Frame> = Vec::new();
        frames.push(Frame { variables: Vec::new(), level: 0 });
        Scope { frames }
    }

    /// Enter a nested block: push an empty frame.
    pub fn nest(&mut self)
        ensures
            final(self).frames@.len() == old(self).frames@.len() + 1,
            final(self).parents() == old(self).frames@,
            final(self).top().variables@ == Seq::<String>::empty(),
            final(self).top().level == 0,
            old(self).wf() ==> final(self).wf(),
    {
        self.frames.push(Frame { variables: Vec::new(), level: 0 });
        proof {
            assert(self.parents() =~= old(self).frames@);
        }
    }

    /// The bytes that tear a frame down: one pop of all its named slots, or
    /// nothing when it bound no variable.
    pub open spec fn teardown_encoding(n: int) -> Seq<u8> {
        if n == 0 {
            Seq::<u8>::empty()
        } else {
            seq![n as u8]
        }
    }

    /// Emit the pop that discards the innermost frame's named slots.
    pub fn assemble_teardown(&self, program: &mut Program) -> (r: Result<(), CompileError>)
        requires
            self.wf(),
        ensures
            r is Ok <==> self.top().variables@.len() <= 15,
            r is Ok ==> final(program).code@ == old(program).code@ + Scope::teardown_encoding(
                self.top().variables@.len() as int,
            ),
            r is Ok ==> final(program).stack_size@ == old(program).stack_size@
                - self.top().variables@.len(),
            r is Ok ==> final(program).offset == old(program).offset,
            r is Err ==> *final(program) == *old(program),
    {
        let n = self.frames[self.frames.len() - 1].variables.len();
        if n == 0 {
            proof {
                assert(old(program).code@ + Scope::teardown_encoding(0) =~= old(program).code@);
            }
            Ok(())
        } else if n <= 15 {
            program.pop(n as u8);
            Ok(())
        } else {
            Err(CompileError::TooManyLocals)
        }
    }

    /// Leave a nested block: tear its locals down and drop its frame.
    pub fn unnest(&mut self, program: &mut Program) -> (r: Result<(), CompileError>)
        requires
            old(self).wf(),
            old(self).frames@.len() >= 2,
        ensures
            r is Ok <==> old(self).top().variables@.len() <= 15,
            r is Ok ==> final(self).frames@ == old(self).parents(),
            r is Ok ==> final(self).wf(),
            r is Ok ==> final(program).code@ == old(program).code@ + Scope::teardown_encoding(
                old(self).top().variables@.len() as int,
            ),
            r is Ok ==> final(program).stack_size@ == old(program).stack_size@
                - old(self).top().variables@.len(),
            r is Ok ==> final(program).offset == old(program).offset,
    {
        self.assemble_teardown(program)?;
        let _ = self.frames.pop();
        Ok(())
    }

    /// Look a name up through the chain. `Some(i)` means the nearest binding
    /// lives at stack depth `i` from the top; `None` that no frame binds the
    /// name, or that the depth does not fit the index type.
    #[verifier::loop_isolation(false)]
    pub fn index_of(&self, variable_name: &str) -> (r: Option<u32>)
        requires
            self.wf(),
        ensures
            r is Some ==> lookup(self.frames@, variable_name@) == Some(r->0 as int),
            r is None ==> (lookup(self.frames@, variable_name@) is None || lookup(
                self.frames@,
                variable_name@,
            )->0 > u32::MAX),
    {
        let name: String = variable_name.to_owned();
        let ghost whole: Seq<Frame> = self.frames@;
        let mut k: usize = self.frames.len();
        let mut extra: u64 = 0;
        proof {
            assert(whole.subrange(0, whole.len() as int) =~= whole);
        }
        while k > 0
            invariant
                self.wf(),
                k <= self.frames@.len(),
                extra <= u32::MAX,
                name@ == variable_name@,
                whole == self.frames@,
                lookup(whole, name@) == match lookup(whole.subrange(0, k as int), name@) {
                    Some(p) => Some(p + extra),
                    None => None::<int>,
                },
            decreases k,
        {
            let ghost prefix = whole.subrange(0, k as int);
            let frame = &self.frames[k - 1];
            proof {
                assert(whole[k - 1].wf());
                assert(prefix.last() == whole[k - 1]);
                assert(prefix.drop_last() =~= whole.subrange(0, k - 1));
            }
            // scan this frame for the name
            let mut j: usize = 0;
            let vars_len = frame.variables.len();
            while j < vars_len
                invariant
                    self.wf(),
                    whole == self.frames@,
                    k >= 1,
                    k <= self.frames@.len(),
                    vars_len == frame.variables@.len(),
                    frame == &whole[k - 1],
                    j <= vars_len,
                    name@ == variable_name@,
                    forall|t: int| 0 <= t < j ==> frame.variables@[t]@ != name@,
                decreases vars_len - j,
            {
                if frame.variables[j].eq(&name) {
                    proof {
                        assert(whole[k - 1].has(name@));
                        assert(whole[k - 1].pos(name@) == j) by {
                            let p = whole[k - 1].pos(name@);
                            assert(0 <= p < whole[k - 1].variables@.len());
                            assert(whole[k - 1].wf());
                        }
                        assert(lookup(prefix, name@) == Some(whole[k - 1].level - 1 - j));
                    }
                    let depth: u32 = frame.level - 1 - (j as u32);
                    let total: u64 = (depth as u64) + extra;
                    if total > 0xFFFF_FFFF {
                        return None;
                    } else {
                        return Some(total as u32);
                    }
                }
                j = j + 1;
            }
            proof {
                assert(!whole[k - 1].has(name@));
            }
            let level = frame.level;
            let next_extra: u64 = extra + (level as u64);
            if next_extra > 0xFFFF_FFFF {
                proof {
                    if lookup(whole, name@) is Some {
                        lemma_lookup_nonneg(whole.subrange(0, k - 1), name@);
                    }
                }
                return None;
            }
            extra = next_extra;
            k = k - 1;
        }
        proof {
            assert(whole.subrange(0, 0) =~= Seq::<Frame>::empty());
        }
        None
    }

    /// Bind a name to the value just pushed. The slot itself was counted by
    /// `level` when the value was pushed; binding only names it.
    #[verifier::loop_isolation(false)]
    pub fn define_variable(&mut self, variable_name: &str) -> (r: Result<(), CompileError>)
        requires
            old(self).wf(),
            old(self).top().temps() >= 1,
        ensures
            r is Ok <==> !old(self).top().has(variable_name@),
            r is Ok ==> final(self).frames@.len() == old(self).frames@.len(),
            r is Ok ==> final(self).parents() == old(self).parents(),
            r is Ok ==> final(self).top().variables@ == old(self).top().variables@.push(
                final(self).top().variables@.last(),
            ),
            r is Ok ==> final(self).top().variables@.last()@ == variable_name@,
            r is Ok ==> final(self).top().level == old(self).top().level,
            r is Ok ==> final(self).wf(),
            r is Err ==> *final(self) == *old(self),
    {
        let name: String = variable_name.to_owned();
        let top_index = self.frames.len() - 1;
        proof {
            assert(self.frames@[top_index as int].wf());
            assert(self.top() == self.frames@[top_index as int]);
        }
        let frame = &self.frames[top_index];
        let mut j: usize = 0;
        let vars_len = frame.variables.len();
        while j < vars_len
            invariant
                0 <= j <= vars_len,
                self == old(self),
                top_index == self.frames@.len() - 1,
                vars_len == self.frames@[top_index as int].variables@.len(),
                frame == &self.frames@[top_index as int],
                name@ == variable_name@,
                forall|t: int|
                    0 <= t < j ==> self.frames@[top_index as int].variables@[t]@ != name@,
            decreases vars_len - j,
        {
            if frame.variables[j].eq(&name) {
                return Err(CompileError::DuplicateVariable(name));
            }
            j = j + 1;
        }
        let frame_mut = &mut self.frames[top_index];
        frame_mut.variables.push(name);
        proof {
            assert(self.parents() =~= old(self).parents());
            assert(self.top() == self.frames@[top_index as int]);
        }
        Ok(())
    }

    /// Unbind a name from the innermost frame, leaving its slot an unnamed
    /// temporary.
    #[verifier::loop_isolation(false)]
    pub fn undefine_variable(&mut self, variable_name: &str) -> (r: Result<(), CompileError>)
        requires
            old(self).wf(),
        ensures
            r is Ok <==> old(self).top().has(variable_name@),
            r is Ok ==> final(self).frames@.len() == old(self).frames@.len(),
            r is Ok ==> final(self).parents() == old(self).parents(),
            r is Ok ==> final(self).top().variables@ == old(self).top().variables@.remove(
                old(self).top().pos(variable_name@),
            ),
            r is Ok ==> final(self).top().level == old(self).top().level,
            r is Ok ==> final(self).wf(),
            r is Err ==> *final(self) == *old(self),
    {
        let name: String = variable_name.to_owned();
        let top_index = self.frames.len() - 1;
        proof {
            assert(self.frames@[top_index as int].wf());
            assert(self.top() == self.frames@[top_index as int]);
        }
        let frame = &self.frames[top_index];
        let mut j: usize = 0;
        let vars_len = frame.variables.len();
        while j < vars_len
            invariant
                0 <= j <= vars_len,
                self == old(self),
                top_index == self.frames@.len() - 1,
                vars_len == self.frames@[top_index as int].variables@.len(),
                frame == &self.frames@[top_index as int],
                name@ == variable_name@,
                forall|t: int|
                    0 <= t < j ==> self.frames@[top_index as int].variables@[t]@ != name@,
            decreases vars_len - j,
        {
            if frame.variables[j].eq(&name) {
                proof {
                    assert(old(self).top().has(name@));
                    assert(old(self).top().pos(name@) == j) by {
                        let p = old(self).top().pos(name@);
                        assert(0 <= p < old(self).top().variables@.len());
                        assert(old(self).top().wf());
                    }
                }
                let frame_mut = &mut self.frames[top_index];
                frame_mut.variables.remove(j);
                proof {
                    assert(self.parents() =~= old(self).parents());
                    let vs = self.top().variables@;
                    assert forall|a: int, b: int| 0 <= a < b < vs.len() implies vs[a]@
                        != vs[b]@ by {
                        let ovs = old(self).top().variables@;
                        if a < j {
                            assert(vs[a] == ovs[a]);
                        } else {
                            assert(vs[a] == ovs[a + 1]);
                        }
                        if b < j {
                            assert(vs[b] == ovs[b]);
                        } else {
                            assert(vs[b] == ovs[b + 1]);
                        }
                    }
                }
                return Ok(());
            }
            j = j + 1;
        }
        Err(CompileError::UnknownVariable(name))
    }

    /// Count one more value pushed by the innermost frame.
    pub fn inc_level(&mut self) -> (r: Result<(), CompileError>)
        requires
            old(self).wf(),
        ensures
            r is Ok <==> old(self).top().level < u32::MAX,
            r is Ok ==> final(self).frames@.len() == old(self).frames@.len(),
            r is Ok ==> final(self).parents() == old(self).parents(),
            r is Ok ==> final(self).top().variables@ == old(self).top().variables@,
            r is Ok ==> final(self).top().level == old(self).top().level + 1,
            r is Ok ==> final(self).frames@ == bump_top(old(self).frames@),
            r is Ok ==> final(self).wf(),
            r is Err ==> *final(self) == *old(self),
    {
        let top_index = self.frames.len() - 1;
        if self.frames[top_index].level == u32::MAX {
            return Err(CompileError::TooDeep);
        }
        let frame_mut = &mut self.frames[top_index];
        frame_mut.level = frame_mut.level + 1;
        proof {
            assert(self.parents() =~= old(self).parents());
            assert(self.frames@ =~= bump_top(old(self).frames@));
        }
        Ok(())
    }

    /// Count one value popped back off by the innermost frame.
    #[verifier::loop_isolation(false)]
    pub fn dec_level(&mut self)
        requires
            old(self).wf(),
            old(self).top().temps() >= 1,
        ensures
            final(self).frames@.len() == old(self).frames@.len(),
            final(self).parents() == old(self).parents(),
            final(self).top().variables@ == old(self).top().variables@,
            final(self).top().level == old(self).top().level - 1,
            bump_top(final(self).frames@) == old(self).frames@,
            final(self).wf(),
    {
        let top_index = self.frames.len() - 1;
        let frame_mut = &mut self.frames[top_index];
        frame_mut.level = frame_mut.level - 1;
        proof {
            assert(self.parents() =~= old(self).parents());
            assert(bump_top(self.frames@) =~= old(self).frames@);
        }
    }
}


/// How many arguments a host call takes as an expression, or nothing when
/// the grammar gives it no expression form.
pub open spec fn user_expr_arity(u: instructions::UserCommand) -> Option<int> {
    match u {
        instructions::UserCommand::GET_LENGTH => Some(0),
        instructions::UserCommand::GET_WALL_TIME => Some(0),
        instructions::UserCommand::GET_PRECISE_TIME => Some(0),
        instructions::UserCommand::RANDOM_INT => Some(1),
        instructions::UserCommand::GET_PIXEL => Some(1),
        _ => None,
    }
}

/// Exactly when lowering an expression against the given frame chain
/// succeeds: every counted level has head-room, every host call has its
/// expression form and arity, and every read variable is bound within the
/// peek instruction's reach. A constant-valued expression is folded to a
/// single push, so only the head-room is asked of it.
pub open spec fn expr_ok(e: Expression, frames: Seq<Frame>) -> bool
    decreases e,
{
    if e.spec_const_value() is Some {
        frames.last().level < u32::MAX
    } else {
        match e {
            Expression::Literal(_) => frames.last().level < u32::MAX,
            Expression::User(s) => user_expr_arity(s) == Some(0int) && frames.last().level
                < u32::MAX,
            Expression::UserCall(s, args) => {
                &&& user_expr_arity(s) is Some
                &&& args@.len() == user_expr_arity(s)->0
                &&& (user_expr_arity(s) == Some(1int) ==> expr_ok(args@[0], frames))
                &&& (user_expr_arity(s) == Some(0int) ==> frames.last().level < u32::MAX)
            },
            Expression::Unary(_, rhs) => expr_ok(*rhs, frames),
            Expression::Binary(lhs, _, rhs) => expr_ok(*lhs, frames) && expr_ok(
                *rhs,
                bump_top(frames),
            ),
            Expression::Load(name) => {
                &&& lookup(frames, name@) is Some
                &&& 0 <= lookup(frames, name@)->0 <= 15
                &&& frames.last().level < u32::MAX
            },
            Expression::Intrinsic(intrinsic) => match intrinsic {
                Intrinsic::Clamp(v, lo, hi) => expr_ok(*v, frames) && expr_ok(
                    *lo,
                    bump_top(frames),
                ) && expr_ok(*hi, bump_top(bump_top(frames))),
            },
        }
    }
}

/// Exactly when one byte lane of a packed colour lowers: a constant lane is
/// a bare push, any other lane is an expression.
pub open spec fn color_part_ok(e: Expression, frames: Seq<Frame>) -> bool {
    e.spec_const_value() is Some || expr_ok(e, frames)
}

/// Whether an expression's lowered code is sure to run to completion from
/// any stack: a non-constant division or remainder may meet a zero right
/// operand, a pixel read may meet an index beyond the strip, and a random
/// draw's progress rests on the random source, which the machine model
/// leaves abstract. Code free of all three — after constant folding — takes
/// ordinary steps to its end whatever the stack holds.
pub open spec fn expr_total(e: Expression) -> bool
    decreases e,
{
    if e.spec_const_value() is Some {
        true
    } else {
        match e {
            Expression::Literal(_) => true,
            Expression::Load(_) => true,
            Expression::User(_) => true,
            Expression::UserCall(s, args) => {
                &&& s != instructions::UserCommand::GET_PIXEL
                &&& s != instructions::UserCommand::RANDOM_INT
                &&& (user_expr_arity(s) == Some(1int) && args@.len() >= 1 ==> expr_total(
                    args@[0],
                ))
            },
            Expression::Unary(_, rhs) => expr_total(*rhs),
            Expression::Binary(lhs, op, rhs) => op != instructions::Binary::DIV && op
                != instructions::Binary::MOD && expr_total(*lhs) && expr_total(*rhs),
            Expression::Intrinsic(_) => true,
        }
    }
}

/// Whether an expression lowers to straight-line code. Everything does but
/// the clamp intrinsic, whose open-coded branches embed absolute addresses
/// and so depend on where in the program they land.
pub open spec fn jump_free(e: Expression) -> bool
    decreases e,
{
    match e {
        Expression::Literal(_) => true,
        Expression::Load(_) => true,
        Expression::User(_) => true,
        Expression::UserCall(_, args) => args@.len() >= 1 ==> jump_free(args@[0]),
        Expression::Unary(_, rhs) => jump_free(*rhs),
        Expression::Binary(lhs, _, rhs) => jump_free(*lhs) && jump_free(*rhs),
        Expression::Intrinsic(_) => false,
    }
}

/// The exact bytes a jump-free expression lowers to against a frame chain:
/// a constant folds to one push; otherwise the operands' code followed by
/// the operator's byte, a peek at the variable's looked-up offset, or the
/// host call's byte after its argument.
pub open spec fn expr_encoding(e: Expression, frames: Seq<Frame>) -> Seq<u8>
    decreases e,
{
    if e.spec_const_value() is Some {
        crate::program::push_encoding(e.spec_const_value()->0)
    } else {
        match e {
            Expression::Literal(u) => crate::program::push_encoding(u),
            Expression::User(s) => seq![(0xE0 + s.value()) as u8],
            Expression::UserCall(s, args) => if user_expr_arity(s) == Some(1int) && args@.len()
                >= 1 {
                expr_encoding(args@[0], frames) + seq![(0xE0 + s.value()) as u8]
            } else {
                seq![(0xE0 + s.value()) as u8]
            },
            Expression::Unary(op, rhs) => expr_encoding(*rhs, frames) + seq![
                (0x70 + op.value()) as u8,
            ],
            Expression::Binary(lhs, op, rhs) => expr_encoding(*lhs, frames) + expr_encoding(
                *rhs,
                bump_top(frames),
            ) + seq![(0x80 + op.value()) as u8],
            Expression::Load(name) => seq![(0x20 + lookup(frames, name@)->0) as u8],
            Expression::Intrinsic(_) => Seq::<u8>::empty(),
        }
    }
}

/// What one expression lowering does: it emits code that pushes exactly one
/// value, so the predicted stack delta and the innermost frame's level both
/// grow by one, while the scope's shape and bindings stay as they were.
pub open spec fn expr_effect(p0: Program, p1: Program, s0: Scope, s1: Scope) -> bool {
    &&& s1.frames@.len() == s0.frames@.len()
    &&& s1.parents() == s0.parents()
    &&& s1.wf()
    &&& s1.top().variables@ == s0.top().variables@
    &&& s1.top().level == s0.top().level + 1
    &&& p1.stack_size@ == p0.stack_size@ + 1
    &&& p1.offset == p0.offset
}

/// What one statement lowering does: the predicted stack delta moves exactly
/// with the innermost frame's level (an assignment leaves its bound value,
/// everything else restores the depth), the frame keeps the same number of
/// unnamed temporaries, and enclosing frames are untouched.
pub open spec fn stmt_effect(p0: Program, p1: Program, s0: Scope, s1: Scope) -> bool {
    &&& s1.frames@.len() == s0.frames@.len()
    &&& s1.parents() == s0.parents()
    &&& s1.wf()
    &&& s1.top().temps() == s0.top().temps()
    &&& p1.stack_size@ - p0.stack_size@ == s1.top().level - s0.top().level
    &&& p1.offset == p0.offset
}

/// Compile-time folding of a unary operator. Negation is left to run time;
/// everything else folds to exactly what the machine would compute.
pub open spec fn spec_fold_unary(op: instructions::Unary, c: u32) -> Option<u32> {
    if op == instructions::Unary::NEG {
        None
    } else {
        Some(op.spec_apply(c))
    }
}

/// Compile-time folding of a binary operator: exactly what the machine would
/// compute, except that a division or remainder by zero is left to run time,
/// where it raises the machine's division-by-zero error.
pub open spec fn spec_fold_binary(op: instructions::Binary, a: u32, b: u32) -> Option<u32> {
    if (op == instructions::Binary::DIV || op == instructions::Binary::MOD) && b == 0 {
        None
    } else {
        Some(op.spec_apply(a, b))
    }
}

/// Clamping of a value between two bounds, applied in sequence: raise to the
/// lower bound first, then cap at the upper one.
pub open spec fn spec_clamp(v: u32, lo: u32, hi: u32) -> u32 {
    let raised = if v < lo { lo } else { v };
    if raised > hi {
        hi
    } else {
        raised
    }
}

impl Expression {
    /// The compile-time value of an expression all of whose leaves are
    /// literals, under the machine's own operator semantics.
    pub open spec fn spec_const_value(self) -> Option<u32>
        decreases self,
    {
        match self {
            Expression::Literal(u) => Some(u),
            Expression::User(_) => None,
            Expression::UserCall(_, _) => None,
            Expression::Load(_) => None,
            Expression::Unary(op, rhs) => match rhs.spec_const_value() {
                Some(c) => spec_fold_unary(op, c),
                None => None,
            },
            Expression::Binary(lhs, op, rhs) => match (
                lhs.spec_const_value(),
                rhs.spec_const_value(),
            ) {
                (Some(a), Some(b)) => spec_fold_binary(op, a, b),
                _ => None,
            },
            Expression::Intrinsic(Intrinsic::Clamp(v, lo, hi)) => match (
                v.spec_const_value(),
                lo.spec_const_value(),
                hi.spec_const_value(),
            ) {
                (Some(a), Some(b), Some(c)) => Some(spec_clamp(a, b, c)),
                _ => None,
            },
        }
    }

    /// Fold the expression to a constant when every leaf is a literal.
    pub fn const_value(&self) -> (r: Option<u32>)
        ensures
            r == self.spec_const_value(),
        decreases *self,
    {
        match self {
            Expression::Literal(u) => Some(*u),
            Expression::User(_) => None,
            Expression::UserCall(_, _) => None,
            Expression::Load(_) => None,
            Expression::Unary(op, rhs) => match rhs.const_value() {
                Some(c) => {
                    if *op == instructions::Unary::NEG {
                        None
                    } else {
                        Some(op.apply(c))
                    }
                },
                None => None,
            },
            Expression::Binary(lhs, op, rhs) => {
                let a = lhs.const_value();
                let b = rhs.const_value();
                match (a, b) {
                    (Some(a), Some(b)) => {
                        if (*op == instructions::Binary::DIV || *op == instructions::Binary::MOD)
                            && b == 0 {
                            None
                        } else {
                            Some(op.apply(a, b))
                        }
                    },
                    _ => None,
                }
            },
            Expression::Intrinsic(intrinsic) => match intrinsic {
                Intrinsic::Clamp(v, lo, hi) => {
                    let a = v.const_value();
                    let b = lo.const_value();
                    let c = hi.const_value();
                    match (a, b, c) {
                        (Some(a), Some(b), Some(c)) => {
                            let mut result = a;
                            if result < b {
                                result = b;
                            }
                            if result > c {
                                result = c;
                            }
                            Some(result)
                        },
                        _ => None,
                    }
                },
            },
        }
    }

    /// Lower the expression: emit code that computes it onto the stack. A
    /// constant-valued expression is folded and emitted as a single push.
    /// Lowering succeeds exactly when `expr_ok` holds of the expression and
    /// the scope's frame chain, and then counts exactly one more value on
    /// the innermost frame; a jump-free expression's emitted bytes are
    /// exactly `expr_encoding`. That such code, run by the machine, pushes
    /// exactly one value and touches nothing deeper is proved for the
    /// fault-free class as `lemma_expr_code_runs` in the machine's module.
    #[verifier::loop_isolation(false)]
    pub fn assemble(&self, program: &mut Program, scope: &mut Scope) -> (r: Result<
        (),
        CompileError,
    >)
        requires
            old(scope).wf(),
        ensures
            r is Ok ==> expr_effect(*old(program), *final(program), *old(scope), *final(scope)),
            r is Ok <==> expr_ok(*self, old(scope).frames@),
            r is Ok ==> final(scope).frames@ == bump_top(old(scope).frames@),
            r is Ok && self.spec_const_value() is Some ==> final(program).code@ == old(
                program,
            ).code@ + crate::program::push_encoding(self.spec_const_value()->0),
            (r is Ok && jump_free(*self)) ==> final(program).code@ == old(program).code@
                + expr_encoding(*self, old(scope).frames@),
        decreases *self,
    {
        broadcast use vstd::std_specs::vec::axiom_vec_index_decreases;

        if let Some(c) = self.const_value() {
            scope.inc_level()?;
            program.push(c);
            return Ok(());
        }
        match self {
            Expression::Literal(u) => {
                scope.inc_level()?;
                program.push(*u);
                Ok(())
            },
            Expression::User(s) => {
                match s {
                    instructions::UserCommand::GET_LENGTH
                    | instructions::UserCommand::GET_WALL_TIME
                    | instructions::UserCommand::GET_PRECISE_TIME => {
                        scope.inc_level()?;
                        program.user(*s);
                        Ok(())
                    },
                    _ => Err(CompileError::InvalidCall),
                }
            },
            Expression::UserCall(s, args) => {
                let expected: usize = match s {
                    instructions::UserCommand::GET_LENGTH
                    | instructions::UserCommand::GET_WALL_TIME
                    | instructions::UserCommand::GET_PRECISE_TIME => 0,
                    instructions::UserCommand::RANDOM_INT
                    | instructions::UserCommand::GET_PIXEL => 1,
                    _ => {
                        return Err(CompileError::InvalidCall);
                    },
                };
                if args.len() != expected {
                    return Err(CompileError::InvalidCall);
                }
                if expected == 1 {
                    let arg = &args[0];
                    arg.assemble(program, scope)?;
                    program.user(*s);
                    Ok(())
                } else {
                    program.user(*s);
                    scope.inc_level()?;
                    Ok(())
                }
            },
            Expression::Unary(op, rhs) => {
                rhs.assemble(program, scope)?;
                program.unary(*op);
                Ok(())
            },
            Expression::Binary(lhs, op, rhs) => {
                lhs.assemble(program, scope)?;
                let ghost after_lhs = scope.frames@;
                rhs.assemble(program, scope)?;
                program.binary(*op);
                scope.dec_level();
                proof {
                    lemma_bump_top_injective(scope.frames@, after_lhs);
                }
                Ok(())
            },
            Expression::Load(name) => {
                match scope.index_of(name.as_str()) {
                    Some(rel) => {
                        if rel <= 15 {
                            scope.inc_level()?;
                            program.peek(rel as u8);
                            Ok(())
                        } else {
                            Err(CompileError::VariableOutOfReach(name.clone()))
                        }
                    },
                    None => Err(CompileError::UnknownVariable(name.clone())),
                }
            },
            Expression::Intrinsic(intrinsic) => {
                match intrinsic {
                    Intrinsic::Clamp(value, lo, hi) => {
                        value.assemble(program, scope)?;
                        lo.assemble(program, scope)?;
                        program.peek(1);
                        program.peek(1);
                        program.binary(instructions::Binary::LT);
                        let mut below = Program::fragment_at(
                            program.current_pc().wrapping_add(3),
                        );
                        below.pop(1);
                        below.swap();
                        below.pop(1);
                        below.adjust_stack_prediction(Ghost(2));
                        program.if_not_zero(&below);
                        let mut at_least = Program::fragment_at(
                            program.current_pc().wrapping_add(3),
                        );
                        at_least.pop(2);
                        at_least.adjust_stack_prediction(Ghost(2));
                        program.if_zero(&at_least);
                        program.adjust_stack_prediction(Ghost(-2));
                        hi.assemble(program, scope)?;
                        program.peek(1);
                        program.peek(1);
                        program.binary(instructions::Binary::GT);
                        let mut above = Program::fragment_at(
                            program.current_pc().wrapping_add(3),
                        );
                        above.pop(1);
                        above.swap();
                        above.pop(1);
                        above.adjust_stack_prediction(Ghost(2));
                        program.if_not_zero(&above);
                        let mut at_most = Program::fragment_at(
                            program.current_pc().wrapping_add(3),
                        );
                        at_most.pop(2);
                        at_most.adjust_stack_prediction(Ghost(2));
                        program.if_zero(&at_most);
                        program.adjust_stack_prediction(Ghost(-2));
                        scope.dec_level();
                        proof {
                            lemma_bump_top_injective(
                                scope.frames@,
                                bump_top(bump_top(old(scope).frames@)),
                            );
                        }
                        scope.dec_level();
                        proof {
                            lemma_bump_top_injective(scope.frames@, bump_top(old(scope).frames@));
                        }
                        Ok(())
                    },
                }
            },
        }
    }
}

/// Emit one byte lane of a packed colour: the expression masked to its low
/// byte and shifted into place, folded to a single push when it is constant.
/// Succeeds exactly when the lane lowers, and leaves the frame chain as it
/// found it.
#[verifier::loop_isolation(false)]
fn emit_color_part(
    program: &mut Program,
    scope: &mut Scope,
    e: &Expression,
    shifts: u8,
) -> (r: Result<(), CompileError>)
    requires
        old(scope).wf(),
        shifts <= 2,
    ensures
        r is Ok <==> color_part_ok(*e, old(scope).frames@),
        r is Ok ==> final(scope).frames@ == old(scope).frames@,
        r is Ok ==> ({
            &&& final(scope).frames@.len() == old(scope).frames@.len()
            &&& final(scope).parents() == old(scope).parents()
            &&& final(scope).wf()
            &&& final(scope).top().variables@ == old(scope).top().variables@
            &&& final(scope).top().level == old(scope).top().level
            &&& final(program).stack_size@ == old(program).stack_size@ + 1
            &&& final(program).offset == old(program).offset
        }),
{
    if let Some(c) = e.const_value() {
        let masked = c & 0xFF;
        let shifted = if shifts == 0 {
            masked
        } else if shifts == 1 {
            masked << 8u32
        } else {
            masked << 16u32
        };
        program.push(shifted);
        return Ok(());
    }
    e.assemble(program, scope)?;
    scope.dec_level();
    proof {
        lemma_bump_top_injective(scope.frames@, old(scope).frames@);
    }
    program.push(0xFF);
    program.binary(instructions::Binary::AND);
    let mut k: u8 = 0;
    while k < shifts
        invariant
            program.stack_size@ == old(program).stack_size@ + 1,
            program.offset == old(program).offset,
        decreases shifts - k,
    {
        program.unary(instructions::Unary::SHL8);
        k = k + 1;
    }
    Ok(())
}

/// Lower a sequence of statements in order; an empty sequence always lowers
/// and emits nothing.
#[verifier::loop_isolation(false)]
pub fn assemble_statements(stmts: &Vec<Node>, program: &mut Program, scope: &mut Scope) -> (r:
    Result<(), CompileError>)
    requires
        old(scope).wf(),
    ensures
        r is Ok ==> stmt_effect(*old(program), *final(program), *old(scope), *final(scope)),
        stmts@.len() == 0 ==> r is Ok && *final(program) == *old(program) && *final(scope)
            == *old(scope),
    decreases *stmts,
{
    broadcast use vstd::std_specs::vec::axiom_vec_index_decreases;

    if stmts.len() == 0 {
        return Ok(());
    }
    let mut i: usize = 0;
    while i < stmts.len()
        invariant
            i <= stmts@.len(),
            scope.wf(),
            stmt_effect(*old(program), *program, *old(scope), *scope),
        decreases stmts@.len() - i,
    {
        proof {
            assert(decreases_to!(*stmts => stmts[i as int]));
        }
        let stmt = &stmts[i];
        stmt.assemble(program, scope)?;
        i = i + 1;
    }
    Ok(())
}

impl Node {
    /// Lower the statement: emit code that performs it and restores the
    /// expression stack, leaving only the values of any bindings it creates.
    /// For the statement forms that bind no block — an expression, a special,
    /// a bare host call, an assignment — the contract says exactly when
    /// lowering succeeds; a block form succeeds when its header expression
    /// and every statement of its body do and each block leaves at most
    /// fifteen locals.
    #[verifier::loop_isolation(false)]
    pub fn assemble(&self, program: &mut Program, scope: &mut Scope) -> (r: Result<
        (),
        CompileError,
    >)
        requires
            old(scope).wf(),
        ensures
            r is Ok ==> stmt_effect(*old(program), *final(program), *old(scope), *final(scope)),
            (*self matches Node::Expression(e) ==> (r is Ok <==> expr_ok(
                e,
                old(scope).frames@,
            ))),
            (*self matches Node::Expression(e) ==> ((r is Ok && jump_free(e))
                ==> final(program).code@ == old(program).code@ + expr_encoding(
                e,
                old(scope).frames@,
            ) + seq![1u8])),
            (*self matches Node::Special(s) ==> r is Ok && final(program).code@ == old(
                program,
            ).code@ + seq![(0xF0 + s.value()) as u8]),
            (*self matches Node::User(u) ==> (r is Ok <==> (u == instructions::UserCommand::BLIT
                || u == instructions::UserCommand::RANDOM_INT || u
                == instructions::UserCommand::GET_PIXEL))),
            (*self matches Node::User(u) ==> (r is Ok ==> final(program).code@ == old(
                program,
            ).code@ + seq![(0xE0 + u.value()) as u8])),
            (*self matches Node::Assignment(name, e) ==> (r is Ok <==> expr_ok(
                e,
                old(scope).frames@,
            ) && !bump_top(old(scope).frames@).last().has(name@))),
            (*self matches Node::Assignment(name, e) ==> ((r is Ok && jump_free(e))
                ==> final(program).code@ == old(program).code@ + expr_encoding(
                e,
                old(scope).frames@,
            ))),
        decreases *self,
    {
        broadcast use vstd::std_specs::vec::axiom_vec_index_decreases;

        match self {
            Node::Expression(e) => {
                e.assemble(program, scope)?;
                program.pop(1);
                scope.dec_level();
                proof {
                    if jump_free(*e) {
                        assert(program.code@ =~= old(program).code@ + expr_encoding(
                            *e,
                            old(scope).frames@,
                        ) + seq![1u8]);
                    }
                }
                Ok(())
            },
            Node::Special(s) => {
                program.special(*s);
                Ok(())
            },
            Node::User(s) => {
                match s {
                    instructions::UserCommand::BLIT
                    | instructions::UserCommand::RANDOM_INT
                    | instructions::UserCommand::GET_PIXEL => {
                        program.user(*s);
                        Ok(())
                    },
                    _ => Err(CompileError::InvalidCall),
                }
            },
            Node::UserCall(s, args) => {
                if *s == instructions::UserCommand::SET_PIXEL {
                    if args.len() != 4 {
                        return Err(CompileError::InvalidCall);
                    }
                    let c1 = args[1].const_value();
                    let c2 = args[2].const_value();
                    let c3 = args[3].const_value();
                    args[0].assemble(program, scope)?;
                    match (c1, c2, c3) {
                        (Some(a), Some(b), Some(c)) => {
                            let packed = (a & 0xFF) | ((b & 0xFF) << 8u32) | ((c & 0xFF)
                                << 16u32);
                            program.push(packed);
                        },
                        _ => {
                            emit_color_part(program, scope, &args[1], 0)?;
                            emit_color_part(program, scope, &args[2], 1)?;
                            program.binary(instructions::Binary::OR);
                            emit_color_part(program, scope, &args[3], 2)?;
                            program.binary(instructions::Binary::OR);
                        },
                    }
                    program.user(instructions::UserCommand::SET_PIXEL);
                    program.pop(1);
                    scope.dec_level();
                    Ok(())
                } else {
                    let expected: usize = match s {
                        instructions::UserCommand::GET_LENGTH
                        | instructions::UserCommand::GET_WALL_TIME
                        | instructions::UserCommand::GET_PRECISE_TIME => 0,
                        instructions::UserCommand::RANDOM_INT
                        | instructions::UserCommand::GET_PIXEL => 1,
                        _ => {
                            return Err(CompileError::InvalidCall);
                        },
                    };
                    if args.len() != expected {
                        return Err(CompileError::InvalidCall);
                    }
                    let mut i: usize = 0;
                    while i < args.len()
                        invariant
                            i <= args@.len(),
                            scope.wf(),
                            scope.frames@.len() == old(scope).frames@.len(),
                            scope.parents() == old(scope).parents(),
                            scope.top().variables@ == old(scope).top().variables@,
                            scope.top().level == old(scope).top().level + i,
                            program.stack_size@ == old(program).stack_size@ + i,
                            program.offset == old(program).offset,
                        decreases args@.len() - i,
                    {
                        let arg = &args[i];
                        arg.assemble(program, scope)?;
                        i = i + 1;
                    }
                    program.user(*s);
                    program.pop(1);
                    if expected == 1 {
                        scope.dec_level();
                    }
                    Ok(())
                }
            },
            Node::Statements(stmts) => {
                proof {
                    assert(decreases_to!(*self => *stmts));
                }
                assemble_statements(stmts, program, scope)
            },
            Node::Loop(stmts) => {
                let mut fragment = Program::fragment_at(program.current_pc());
                scope.nest();
                proof {
                    assert(decreases_to!(*self => *stmts));
                }
                assemble_statements(stmts, &mut fragment, scope)?;
                scope.unnest(&mut fragment)?;
                program.repeat_forever(&fragment);
                Ok(())
            },
            Node::For(variable_name, expression, stmts) => {
                expression.assemble(program, scope)?;
                scope.define_variable(variable_name.as_str())?;
                let mut fragment = Program::fragment_at(program.current_pc());
                scope.nest();
                proof {
                    assert(decreases_to!(*self => *stmts));
                }
                assemble_statements(stmts, &mut fragment, scope)?;
                scope.unnest(&mut fragment)?;
                program.repeat(&fragment);
                let undef = scope.undefine_variable(variable_name.as_str());
                proof {
                    assert(undef is Ok);
                }
                scope.dec_level();
                program.pop(1);
                Ok(())
            },
            Node::If(e, ss) => {
                e.assemble(program, scope)?;
                let mut fragment = Program::fragment_at(program.current_pc().wrapping_add(3));
                scope.nest();
                proof {
                    assert(decreases_to!(*self => *ss));
                }
                assemble_statements(ss, &mut fragment, scope)?;
                scope.unnest(&mut fragment)?;
                program.if_not_zero(&fragment);
                program.pop(1);
                scope.dec_level();
                Ok(())
            },
            Node::IfElse(e, if_statements, else_statements) => {
                e.assemble(program, scope)?;
                let mut then_fragment = Program::fragment_at(
                    program.current_pc().wrapping_add(3),
                );
                scope.nest();
                proof {
                    assert(decreases_to!(*self => *if_statements));
                }
                assemble_statements(if_statements, &mut then_fragment, scope)?;
                scope.unnest(&mut then_fragment)?;
                program.if_not_zero(&then_fragment);
                let mut else_fragment = Program::fragment_at(
                    program.current_pc().wrapping_add(3),
                );
                scope.nest();
                proof {
                    assert(decreases_to!(*self => *else_statements));
                }
                assemble_statements(else_statements, &mut else_fragment, scope)?;
                scope.unnest(&mut else_fragment)?;
                program.if_zero(&else_fragment);
                program.pop(1);
                scope.dec_level();
                Ok(())
            },
            Node::Assignment(variable_name, expression) => {
                expression.assemble(program, scope)?;
                scope.define_variable(variable_name.as_str())?;
                Ok(())
            },
        }
    }
}

} // verus!
