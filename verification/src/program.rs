//! Programs: a named, validated instruction sequence together with the jump
//! table that links each bracket instruction to its partner.
//!
//! Validation is the bracket resolver: a single walk over the instruction
//! sequence with an explicit index stack. It either proves the brackets well
//! nested and records both jump-table entries of every pair, or reports the
//! offending bracket.

use vstd::prelude::*;

use crate::instructions::Instruction;
use crate::instructions::LocalisedInstruction;
use crate::lexer::kinds_of;
use crate::lexer::lex;
use crate::lexer::lex_text;

verus! {

/// The contribution of one instruction to the bracket nesting depth.
pub open spec fn weight(k: Instruction) -> int {
    match k {
        Instruction::ConditionalJumpForward => 1,
        Instruction::ConditionalJumpBackward => -1,
        _ => 0,
    }
}

/// Whether an instruction is one of the two bracket instructions.
pub open spec fn is_bracket(k: Instruction) -> bool {
    weight(k) != 0
}

/// The number of forward-jump instructions minus the number of
/// backward-jump instructions in `s`.
pub open spec fn net(s: Seq<Instruction>) -> int
    decreases s.len(),
{
    if s.len() == 0 {
        0
    } else {
        net(s.drop_last()) + weight(s.last())
    }
}

/// The bracket nesting depth in front of index `k`: the net bracket count of
/// the first `k` instructions.
pub open spec fn depth(s: Seq<Instruction>, k: int) -> int {
    net(s.take(k))
}

/// A sequence is balanced when its brackets pair up with well-formed
/// nesting: no prefix closes more brackets than it opens, and the whole
/// sequence opens as many as it closes.
pub open spec fn balanced(s: Seq<Instruction>) -> bool {
    net(s) == 0 && forall|k: int| 0 <= k <= s.len() ==> depth(s, k) >= 0
}

/// The forward jump at index `i` and the backward jump at index `j` are
/// partners: the instructions strictly between them are balanced.
pub open spec fn is_match(s: Seq<Instruction>, i: int, j: int) -> bool {
    &&& 0 <= i < j < s.len()
    &&& s[i] == Instruction::ConditionalJumpForward
    &&& s[j] == Instruction::ConditionalJumpBackward
    &&& balanced(s.subrange(i + 1, j))
}

/// Index `k` holds the first backward jump with no forward jump left open
/// before it: the bracket the resolver's scan fails on.
pub open spec fn close_fails_at(s: Seq<Instruction>, k: int) -> bool {
    &&& 0 <= k < s.len()
    &&& s[k] == Instruction::ConditionalJumpBackward
    &&& depth(s, k) == 0
    &&& forall|m: int|
        0 <= m < k ==> !(s[m] == Instruction::ConditionalJumpBackward && depth(s, m) == 0)
}

/// Some backward jump of `s` has no forward jump left open before it.
pub open spec fn has_excess_close(s: Seq<Instruction>) -> bool {
    exists|k: int|
        0 <= k < s.len() && s[k] == Instruction::ConditionalJumpBackward && depth(s, k) == 0
}

/// The forward jump at index `i` never gets closed: the depth never returns
/// to its level before the end of the sequence.
pub open spec fn unmatched_open_at(s: Seq<Instruction>, i: int) -> bool {
    &&& 0 <= i < s.len()
    &&& s[i] == Instruction::ConditionalJumpForward
    &&& forall|k: int| i < k <= s.len() ==> depth(s, k) > depth(s, i)
}

/// Index `i` holds the outermost unmatched forward jump: the first one.
pub open spec fn first_unmatched_open(s: Seq<Instruction>, i: int) -> bool {
    &&& unmatched_open_at(s, i)
    &&& forall|m: int| 0 <= m < i ==> !unmatched_open_at(s, m)
}

/// Stepping the depth over one instruction.
pub proof fn lemma_depth_step(s: Seq<Instruction>, k: int)
    requires
        0 <= k < s.len(),
    ensures
        depth(s, k + 1) == depth(s, k) + weight(s[k]),
{
    assert(s.take(k + 1).drop_last() =~= s.take(k));
    assert(s.take(k + 1).last() == s[k]);
}

/// The net bracket count adds over concatenation.
pub proof fn lemma_net_concat(s: Seq<Instruction>, t: Seq<Instruction>)
    ensures
        net(s + t) == net(s) + net(t),
    decreases t.len(),
{
    if t.len() == 0 {
        assert(s + t =~= s);
    } else {
        assert((s + t).drop_last() =~= s + t.drop_last());
        assert((s + t).last() == t.last());
        lemma_net_concat(s, t.drop_last());
    }
}

/// The depth inside a subrange of `s`, read against the depth of `s` itself.
pub proof fn lemma_subrange_depth(s: Seq<Instruction>, a: int, b: int, p: int)
    requires
        0 <= a <= b <= s.len(),
        0 <= p <= b - a,
    ensures
        depth(s.subrange(a, b), p) == depth(s, a + p) - depth(s, a),
{
    assert(s.subrange(a, b).take(p) =~= s.subrange(a, a + p));
    assert(s.take(a + p) =~= s.take(a) + s.subrange(a, a + p));
    lemma_net_concat(s.take(a), s.subrange(a, a + p));
}

/// The net bracket count of a subrange is the difference of the depths at
/// its ends.
pub proof fn lemma_subrange_net(s: Seq<Instruction>, a: int, b: int)
    requires
        0 <= a <= b <= s.len(),
    ensures
        net(s.subrange(a, b)) == depth(s, b) - depth(s, a),
{
    lemma_subrange_depth(s, a, b, b - a);
    assert(s.subrange(a, b).take(b - a) =~= s.subrange(a, b));
}

/// A partner pair seen through the depth: between the partners the depth
/// stays above the depth in front of the forward jump, and right after the
/// backward jump it has come back to it.
pub proof fn lemma_match_depth(s: Seq<Instruction>, i: int, j: int)
    requires
        is_match(s, i, j),
    ensures
        depth(s, j + 1) == depth(s, i),
        forall|m: int| i < m <= j ==> depth(s, m) > depth(s, i),
{
    lemma_depth_step(s, i);
    lemma_depth_step(s, j);
    lemma_subrange_net(s, i + 1, j);
    assert forall|m: int| i < m <= j implies depth(s, m) > depth(s, i) by {
        if m == i + 1 {
            assert(depth(s, m) == depth(s, i) + 1);
        } else {
            lemma_subrange_depth(s, i + 1, j, m - i - 1);
            assert(depth(s.subrange(i + 1, j), m - i - 1) >= 0);
        }
    }
}

/// A forward jump has at most one partner.
pub proof fn lemma_match_unique_close(s: Seq<Instruction>, i: int, j1: int, j2: int)
    requires
        is_match(s, i, j1),
        is_match(s, i, j2),
    ensures
        j1 == j2,
{
    if j1 < j2 {
        lemma_match_depth(s, i, j1);
        lemma_match_depth(s, i, j2);
        lemma_depth_step(s, j1);
        assert(depth(s, j1 + 1) > depth(s, i));
    } else if j2 < j1 {
        lemma_match_depth(s, i, j1);
        lemma_match_depth(s, i, j2);
        lemma_depth_step(s, j2);
        assert(depth(s, j2 + 1) > depth(s, i));
    }
}

/// A backward jump has at most one partner.
pub proof fn lemma_match_unique_open(s: Seq<Instruction>, i1: int, i2: int, j: int)
    requires
        is_match(s, i1, j),
        is_match(s, i2, j),
    ensures
        i1 == i2,
{
    if i1 < i2 {
        lemma_match_depth(s, i1, j);
        lemma_match_depth(s, i2, j);
        lemma_depth_step(s, i1);
        lemma_depth_step(s, i2);
        assert(depth(s, i2) > depth(s, i1));
        assert(depth(s, j + 1) == depth(s, i1));
        assert(depth(s, j + 1) == depth(s, i2));
    } else if i2 < i1 {
        lemma_match_depth(s, i1, j);
        lemma_match_depth(s, i2, j);
        assert(depth(s, i1) > depth(s, i2));
        assert(depth(s, j + 1) == depth(s, i1));
        assert(depth(s, j + 1) == depth(s, i2));
    }
}

/// An unbalanced sequence always produces a witness for exactly one of the
/// two analysis errors: either the scan fails on a backward jump, or some
/// forward jump stays open to the end.
pub proof fn lemma_unbalanced_has_witness(s: Seq<Instruction>)
    requires
        !balanced(s),
    ensures
        has_excess_close(s) || (exists|i: int| first_unmatched_open(s, i)),
{
    if !has_excess_close(s) {
        assert forall|k: int| 0 <= k <= s.len() implies depth(s, k) >= 0 by {
            lemma_no_excess_close_nonneg(s, k);
        }
        assert(s.take(s.len() as int) =~= s);
        assert(net(s) == depth(s, s.len() as int));
        assert(net(s) != 0);
        lemma_positive_net_has_unmatched(s);
        let i = choose|i: int|
            unmatched_open_at(s, i) && forall|m: int| 0 <= m < i ==> !unmatched_open_at(s, m);
        assert(first_unmatched_open(s, i));
    }
}

/// Without an excess backward jump, the depth never goes negative.
proof fn lemma_no_excess_close_nonneg(s: Seq<Instruction>, k: int)
    requires
        !has_excess_close(s),
        0 <= k <= s.len(),
    ensures
        depth(s, k) >= 0,
    decreases k,
{
    if k > 0 {
        lemma_no_excess_close_nonneg(s, k - 1);
        lemma_depth_step(s, k - 1);
        if s[k - 1] == Instruction::ConditionalJumpBackward {
            assert(depth(s, k - 1) != 0);
        }
    }
}

/// With a positive net bracket count and no negative depth, a first
/// unmatched forward jump exists.
proof fn lemma_positive_net_has_unmatched(s: Seq<Instruction>)
    requires
        !has_excess_close(s),
        net(s) > 0,
    ensures
        exists|i: int|
            unmatched_open_at(s, i) && forall|m: int| 0 <= m < i ==> !unmatched_open_at(s, m),
{
    let i0 = lemma_some_unmatched(s);
    let i = lemma_least_unmatched(s, i0);
    assert(unmatched_open_at(s, i) && forall|m: int| 0 <= m < i ==> !unmatched_open_at(s, m));
}

/// With a positive net bracket count, some forward jump stays open: the one
/// standing at the last index whose depth is zero.
proof fn lemma_some_unmatched(s: Seq<Instruction>) -> (i: int)
    requires
        !has_excess_close(s),
        net(s) > 0,
    ensures
        unmatched_open_at(s, i),
{
    assert(s.take(0) =~= Seq::<Instruction>::empty());
    lemma_last_zero(s, 0)
}

/// From any index whose depth is zero, walk to the last such index: the
/// depth never returns to zero after it, so the forward jump standing there
/// stays open.
proof fn lemma_last_zero(s: Seq<Instruction>, i: int) -> (r: int)
    requires
        !has_excess_close(s),
        net(s) > 0,
        0 <= i <= s.len(),
        depth(s, i) == 0,
    ensures
        unmatched_open_at(s, r),
    decreases s.len() - i,
{
    assert(s.take(s.len() as int) =~= s);
    assert(i < s.len()) by {
        assert(depth(s, s.len() as int) == net(s));
    }
    if exists|k: int| i < k <= s.len() && depth(s, k) == 0 {
        let k = choose|k: int| i < k <= s.len() && depth(s, k) == 0;
        assert(k < s.len()) by {
            assert(depth(s, s.len() as int) == net(s));
        }
        lemma_last_zero(s, k)
    } else {
        assert forall|k: int| i < k <= s.len() implies #[trigger] depth(s, k) > depth(s, i) by {
            lemma_no_excess_close_nonneg(s, k);
        }
        lemma_depth_step(s, i);
        assert(depth(s, i + 1) > 0);
        assert(weight(s[i]) == 1);
        assert(s[i] == Instruction::ConditionalJumpForward);
        i
    }
}

/// The least unmatched forward jump at or below a known one.
proof fn lemma_least_unmatched(s: Seq<Instruction>, i0: int) -> (i: int)
    requires
        unmatched_open_at(s, i0),
    ensures
        unmatched_open_at(s, i),
        forall|m: int| 0 <= m < i ==> !unmatched_open_at(s, m),
    decreases i0,
{
    if exists|m: int| 0 <= m < i0 && unmatched_open_at(s, m) {
        let m = choose|m: int| 0 <= m < i0 && unmatched_open_at(s, m);
        lemma_least_unmatched(s, m)
    } else {
        i0
    }
}

/// An excess backward jump pins the scan's failure point: the first
/// backward jump standing at depth zero exists.
pub proof fn lemma_excess_close_witness(s: Seq<Instruction>)
    requires
        has_excess_close(s),
    ensures
        exists|k: int| close_fails_at(s, k),
{
    let k0 = choose|k: int|
        0 <= k < s.len() && s[k] == Instruction::ConditionalJumpBackward && depth(s, k) == 0;
    let k = lemma_least_excess(s, k0);
    assert(close_fails_at(s, k));
}

/// The least backward jump at depth zero at or below a known one.
proof fn lemma_least_excess(s: Seq<Instruction>, k0: int) -> (k: int)
    requires
        0 <= k0 < s.len(),
        s[k0] == Instruction::ConditionalJumpBackward,
        depth(s, k0) == 0,
    ensures
        close_fails_at(s, k),
    decreases k0,
{
    if exists|m: int|
        0 <= m < k0 && s[m] == Instruction::ConditionalJumpBackward && depth(s, m) == 0 {
        let m = choose|m: int|
            0 <= m < k0 && s[m] == Instruction::ConditionalJumpBackward && depth(s, m) == 0;
        lemma_least_excess(s, m)
    } else {
        k0
    }
}

/// Round trip: the instruction kinds of a program whose instructions came
/// from lexing a text are exactly the non-comment characters of that text,
/// in order. `BfProgram::new` guarantees the premise of every program it
/// returns.
pub proof fn lemma_program_round_trip(text: Seq<char>, p: BfProgram)
    requires
        p.instructions@ == lex(text),
    ensures
        p.code() == crate::lexer::commands_of(text),
{
    crate::lexer::lemma_lex_round_trip(text);
}

/// A construction-time error, fatal to building a program. Each variant
/// carries the located bracket it reports.
#[derive(Debug, PartialEq, Eq, Clone, Copy, Structural)]
pub enum AnalysisError {
    /// A forward jump that no backward jump ever closes.
    UnmatchedOpeningBracket(LocalisedInstruction),
    /// A backward jump with no forward jump left open before it.
    UnmatchedClosingBracket(LocalisedInstruction),
}

/// The decimal digit character for a value below ten.
pub open spec fn digit_char(d: nat) -> char {
    if d == 0 {
        '0'
    } else if d == 1 {
        '1'
    } else if d == 2 {
        '2'
    } else if d == 3 {
        '3'
    } else if d == 4 {
        '4'
    } else if d == 5 {
        '5'
    } else if d == 6 {
        '6'
    } else if d == 7 {
        '7'
    } else if d == 8 {
        '8'
    } else {
        '9'
    }
}

/// The decimal digit characters of `n`, most significant first.
pub open spec fn decimal(n: nat) -> Seq<char>
    decreases n,
{
    if n < 10 {
        seq![digit_char(n)]
    } else {
        decimal(n / 10).push(digit_char(n % 10))
    }
}

/// The text of an unmatched-bracket diagnostic for the named program.
pub open spec fn message_text(name: Seq<char>, line: nat, col: nat) -> Seq<char> {
    name + ": Unmatched bracket on line "@ + decimal(line) + ", col "@ + decimal(col)
}

/// Relies on std's `format!` with the `Display` impls of `str` and `usize`:
/// the pieces are concatenated in order, and the numbers are written in
/// decimal with no sign, padding or separators.
#[verifier::external_body]
fn unmatched_message(name: &str, line: usize, col: usize) -> (r: String)
    ensures
        r@ == message_text(name@, line as nat, col as nat),
{
    format!("{}: Unmatched bracket on line {}, col {}", name, line, col)
}

impl AnalysisError {
    /// The located bracket this error reports.
    pub open spec fn location(&self) -> LocalisedInstruction {
        match self {
            AnalysisError::UnmatchedOpeningBracket(li) => *li,
            AnalysisError::UnmatchedClosingBracket(li) => *li,
        }
    }

    /// The diagnostic line for this error: the program's name, then the
    /// offending bracket's line and column.
    pub fn message(&self, program_name: &str) -> (r: String)
        ensures
            r@ == message_text(
                program_name@,
                self.location().line_num as nat,
                self.location().column_num as nat,
            ),
    {
        let li = match self {
            AnalysisError::UnmatchedOpeningBracket(li) => li,
            AnalysisError::UnmatchedClosingBracket(li) => li,
        };
        unmatched_message(program_name, li.line_num, li.column_num)
    }
}

/// What the resolver guarantees of every program it accepts: the jump table
/// runs along the instructions, covers exactly the brackets, stays within
/// the sequence (one past the end included), and sends each bracket of a
/// partner pair one past its partner.
pub open spec fn resolved(code: Seq<Instruction>, jumps: Seq<Option<usize>>) -> bool {
    &&& jumps.len() == code.len()
    &&& forall|i: int|
        0 <= i < code.len() && !is_bracket(code[i]) ==> (#[trigger] jumps[i]) is None
    &&& forall|i: int|
        0 <= i < code.len() && is_bracket(code[i]) ==> (#[trigger] jumps[i]) is Some && jumps[i]->0
            <= code.len()
    &&& forall|i: int, j: int|
        #[trigger] is_match(code, i, j) ==> jumps[i] == Some((j + 1) as usize) && jumps[j] == Some(
            (i + 1) as usize,
        )
}

/// The validated, immutable form of a program: a display name, the located
/// instructions in source order, and the jump table pairing the brackets.
#[derive(Debug, PartialEq, Eq, Clone)]
pub struct BfProgram {
    /// The name used in diagnostics.
    pub name: String,
    /// The located instructions, in source order.
    pub instructions: Vec<LocalisedInstruction>,
    /// For each instruction index, the index execution continues at when the
    /// jump there is taken; `None` at every non-bracket instruction.
    pub jump_map: Vec<Option<usize>>,
}

impl BfProgram {
    /// The instruction kinds of this program, in order.
    pub open spec fn code(&self) -> Seq<Instruction> {
        kinds_of(self.instructions@)
    }

    /// Every program built by [`BfProgram::new`] carries a fully resolved
    /// jump table.
    pub open spec fn wf(&self) -> bool {
        resolved(self.code(), self.jump_map@)
    }

    /// Validate the instruction sequence and record where the jumps land.
    ///
    /// One walk with a stack of the forward jumps still open: a backward
    /// jump pairs with the top of the stack, and both jump-table entries of
    /// the pair are recorded; a backward jump on an empty stack, or a
    /// forward jump still on the stack at the end, is the reported error.
    fn analyse_program(&mut self) -> (r: Result<(), AnalysisError>)
        requires
            old(self).jump_map@.len() == 0,
        ensures
            final(self).name == old(self).name,
            final(self).instructions == old(self).instructions,
            r is Ok <==> balanced(old(self).code()),
            r is Ok ==> final(self).wf(),
            forall|k: int|
                close_fails_at(old(self).code(), k) ==> r == Err::<(), AnalysisError>(
                    AnalysisError::UnmatchedClosingBracket(old(self).instructions@[k]),
                ),
            forall|i: int|
                !has_excess_close(old(self).code()) && first_unmatched_open(old(self).code(), i)
                    ==> r == Err::<(), AnalysisError>(
                        AnalysisError::UnmatchedOpeningBracket(old(self).instructions@[i]),
                    ),
    {
        let ghost s = self.code();
        let n = self.instructions.len();
        let mut stack: Vec<usize> = Vec::new();
        let mut idx: usize = 0;
        proof {
            assert(s.take(0) =~= Seq::<Instruction>::empty());
        }
        while idx < n
            invariant
                self.name == old(self).name,
                self.instructions == old(self).instructions,
                s == self.code(),
                n == self.instructions@.len(),
                idx <= n,
                self.jump_map@.len() == idx,
                forall|m: int| 0 <= m < idx ==> #[trigger] depth(s, m) >= 0,
                forall|m: int|
                    0 <= m < idx && s[m] == Instruction::ConditionalJumpBackward ==> #[trigger] depth(
                        s,
                        m,
                    ) >= 1,
                stack@.len() == depth(s, idx as int),
                forall|l: int|
                    0 <= l < stack@.len() ==> 0 <= #[trigger] stack@[l] < idx && s[stack@[l] as int]
                        == Instruction::ConditionalJumpForward && depth(s, stack@[l] as int) == l,
                forall|l: int, m: int|
                    #![trigger stack@[l], depth(s, m)]
                    0 <= l < stack@.len() && stack@[l] < m <= idx ==> depth(s, m) > l,
                forall|i: int|
                    0 <= i < idx && !is_bracket(s[i]) ==> (#[trigger] self.jump_map@[i]) is None,
                forall|l: int|
                    0 <= l < stack@.len() ==> self.jump_map@[#[trigger] stack@[l] as int] is None,
                forall|i: int, j: int|
                    #[trigger] is_match(s, i, j) && j < idx ==> self.jump_map@[i] == Some(
                        (j + 1) as usize,
                    ) && self.jump_map@[j] == Some((i + 1) as usize),
                forall|i: int|
                    0 <= i < idx && #[trigger] s[i] == Instruction::ConditionalJumpForward
                        && !stack@.contains(i as usize) ==> exists|j: int|
                        is_match(s, i, j) && j < idx,
                forall|j: int|
                    0 <= j < idx && #[trigger] s[j] == Instruction::ConditionalJumpBackward
                        ==> exists|i: int| is_match(s, i, j),
            decreases n - idx,
        {
            let li = self.instructions[idx];
            let kind = li.instruction;
            proof {
                assert(s[idx as int] == kind);
                lemma_depth_step(s, idx as int);
            }
            let ghost old_stack = stack@;
            let ghost old_jm = self.jump_map@;
            if kind == Instruction::ConditionalJumpForward {
                stack.push(idx);
                self.jump_map.push(None);
                proof {
                    assert forall|x: usize| old_stack.contains(x) implies stack@.contains(x) by {
                        let l = choose|l: int| 0 <= l < old_stack.len() && old_stack[l] == x;
                        assert(stack@[l] == x);
                    }
                    assert(stack@[stack@.len() - 1] == idx);
                    assert(stack@.contains(idx));
                }
            } else if kind == Instruction::ConditionalJumpBackward {
                match stack.pop() {
                    Some(top) => {
                        proof {
                            let ghost d = depth(s, idx as int);
                            assert(old_stack[d - 1] == top);
                            lemma_depth_step(s, top as int);
                            lemma_subrange_net(s, top + 1, idx as int);
                            assert forall|p: int|
                                0 <= p <= idx - top - 1 implies #[trigger] depth(
                                s.subrange(top + 1, idx as int),
                                p,
                            ) >= 0 by {
                                lemma_subrange_depth(s, top + 1, idx as int, p);
                                if p > 0 {
                                    assert(depth(s, top + 1 + p) > d - 1);
                                }
                            }
                            assert(balanced(s.subrange(top + 1, idx as int)));
                            assert(is_match(s, top as int, idx as int));
                        }
                        self.jump_map.push(Some(top + 1));
                        self.jump_map.set(top, Some(idx + 1));
                        proof {
                            let ghost d = depth(s, idx as int);
                            // No other forward jump matches this backward
                            // jump, and the popped forward jump matched
                            // nothing earlier.
                            assert forall|i2: int|
                                #[trigger] is_match(s, i2, idx as int) implies i2 == top by {
                                lemma_match_unique_open(s, i2, top as int, idx as int);
                            }
                            assert forall|j2: int|
                                #[trigger] is_match(s, top as int, j2) && j2 < idx implies false by {
                                lemma_match_depth(s, top as int, j2);
                                assert(depth(s, j2 + 1) > d - 1);
                            }
                            // The remaining stack entries are other
                            // positions: their depths differ.
                            assert forall|l: int| 0 <= l < stack@.len() implies stack@[l]
                                != top by {
                                assert(old_stack[l] == stack@[l]);
                                assert(depth(s, old_stack[l] as int) == l);
                            }
                            assert forall|x: usize|
                                old_stack.contains(x) && x != top implies stack@.contains(x) by {
                                let l = choose|l: int| 0 <= l < old_stack.len() && old_stack[l]
                                    == x;
                                assert(l < d - 1);
                                assert(stack@[l] == x);
                            }
                            assert forall|x: usize| stack@.contains(x) implies old_stack.contains(
                                x,
                            ) by {
                                let l = choose|l: int| 0 <= l < stack@.len() && stack@[l] == x;
                                assert(old_stack[l] == x);
                            }
                        }
                    },
                    None => {
                        proof {
                            assert(close_fails_at(s, idx as int));
                            assert(has_excess_close(s));
                            assert forall|k: int| close_fails_at(s, k) implies k == idx by {
                                if k < idx {
                                    assert(depth(s, k) >= 1);
                                } else if k > idx {
                                    assert(!(s[idx as int]
                                        == Instruction::ConditionalJumpBackward && depth(
                                        s,
                                        idx as int,
                                    ) == 0));
                                }
                            }
                            assert(depth(s, idx + 1) == -1);
                            assert(!balanced(s));
                        }
                        return Err(AnalysisError::UnmatchedClosingBracket(li));
                    },
                }
            } else {
                self.jump_map.push(None);
                proof {
                    assert forall|x: usize| old_stack.contains(x) implies stack@.contains(x) by {
                        let l = choose|l: int| 0 <= l < old_stack.len() && old_stack[l] == x;
                        assert(stack@[l] == x);
                    }
                }
            }
            idx = idx + 1;
        }
        proof {
            assert(s.take(n as int) =~= s);
            assert(depth(s, n as int) == net(s));
        }
        if stack.len() > 0 {
            let first = stack[0];
            proof {
                assert(unmatched_open_at(s, first as int));
                assert forall|m: int| 0 <= m < first implies !unmatched_open_at(s, m) by {
                    if unmatched_open_at(s, m) {
                        assert(depth(s, first as int) > depth(s, m));
                    }
                }
                assert(first_unmatched_open(s, first as int));
                assert forall|i: int| first_unmatched_open(s, i) implies i == first by {
                    if i < first {
                        assert(!unmatched_open_at(s, i));
                    } else if i > first {
                        assert(!unmatched_open_at(s, first as int));
                    }
                }
                assert forall|k: int| !close_fails_at(s, k) by {
                    if 0 <= k < s.len() && s[k] == Instruction::ConditionalJumpBackward {
                        assert(depth(s, k) >= 1);
                    }
                }
                assert(!has_excess_close(s)) by {
                    if has_excess_close(s) {
                        let k = choose|k: int|
                            0 <= k < s.len() && s[k] == Instruction::ConditionalJumpBackward
                                && depth(s, k) == 0;
                        assert(depth(s, k) >= 1);
                    }
                }
                assert(net(s) == stack@.len());
                assert(!balanced(s));
            }
            let bad = self.instructions[first];
            return Err(AnalysisError::UnmatchedOpeningBracket(bad));
        }
        proof {
            // The brackets are balanced and the table is fully resolved.
            assert(net(s) == 0);
            assert forall|k: int| 0 <= k <= s.len() implies depth(s, k) >= 0 by {}
            assert(balanced(s));
            assert forall|i: int|
                0 <= i < s.len() && is_bracket(s[i]) implies (#[trigger] self.jump_map@[i]) is Some
                && self.jump_map@[i]->0 <= s.len() by {
                if s[i] == Instruction::ConditionalJumpForward {
                    assert(!stack@.contains(i as usize));
                    let j = choose|j: int| is_match(s, i, j) && j < n;
                    assert(self.jump_map@[i] == Some((j + 1) as usize));
                } else {
                    assert(s[i] == Instruction::ConditionalJumpBackward);
                    let i0 = choose|i0: int| is_match(s, i0, i);
                    assert(self.jump_map@[i] == Some((i0 + 1) as usize));
                }
            }
            assert(resolved(self.code(), self.jump_map@));
            // Neither error witness exists in a balanced sequence.
            assert forall|k: int| !close_fails_at(s, k) by {
                if 0 <= k < s.len() && s[k] == Instruction::ConditionalJumpBackward {
                    assert(depth(s, k) >= 1);
                }
            }
            assert forall|i: int| !first_unmatched_open(s, i) by {
                if unmatched_open_at(s, i) {
                    assert(depth(s, s.len() as int) > depth(s, i));
                }
            }
        }
        Ok(())
    }

    /// Build a program from its display name and its source text: scan the
    /// text into located instructions, then resolve the brackets.
    /// Validation happens exactly once, here; a program that fails it never
    /// exists.
    pub fn new(name: &str, text: &str) -> (r: Result<BfProgram, AnalysisError>)
        ensures
            r is Ok <==> balanced(kinds_of(lex(text@))),
            r matches Ok(p) ==> p.name@ == name@ && p.instructions@ == lex(text@) && p.wf(),
            forall|k: int|
                close_fails_at(kinds_of(lex(text@)), k) ==> r == Err::<BfProgram, AnalysisError>(
                    AnalysisError::UnmatchedClosingBracket(lex(text@)[k]),
                ),
            forall|i: int|
                !has_excess_close(kinds_of(lex(text@))) && first_unmatched_open(
                    kinds_of(lex(text@)),
                    i,
                ) ==> r == Err::<BfProgram, AnalysisError>(
                    AnalysisError::UnmatchedOpeningBracket(lex(text@)[i]),
                ),
    {
        let instructions = lex_text(text);
        let mut program = BfProgram {
            name: name.to_owned(),
            instructions,
            jump_map: Vec::new(),
        };
        match program.analyse_program() {
            Ok(()) => Ok(program),
            Err(e) => Err(e),
        }
    }

    /// The name of the program.
    pub fn name(&self) -> (r: &str)
        ensures
            r@ == self.name@,
    {
        self.name.as_str()
    }

    /// The located instructions that make up this program.
    pub fn localised_instructions(&self) -> (r: &Vec<LocalisedInstruction>)
        ensures
            r@ == self.instructions@,
    {
        &self.instructions
    }

    /// Given the index of an instruction, the index of the counterpart
    /// jump: the recorded jump-table entry, or zero where none is recorded.
    pub fn jump_target(&self, program_index: usize) -> (r: usize)
        requires
            program_index < self.jump_map@.len(),
        ensures
            r == match self.jump_map@[program_index as int] {
                Some(t) => t,
                None => 0usize,
            },
    {
        match self.jump_map[program_index] {
            Some(target) => target,
            None => 0,
        }
    }
}

} // verus!
