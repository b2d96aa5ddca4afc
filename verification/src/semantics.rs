//! The mathematical semantics of execution: a machine state, the one-step
//! transition of each instruction, and iterated runs. The execution engine's
//! contracts speak in these terms.

use vstd::prelude::*;

use crate::instructions::Instruction;

verus! {

/// A machine state as the specification sees it: the tape as bytes, the
/// head, the program counter, the growth flag, the input not yet read, and
/// the output written so far.
#[verifier::ext_equal]
pub struct MState {
    /// The tape cells, as byte values.
    pub cells: Seq<u8>,
    /// The index of the cell under the head.
    pub head: int,
    /// The index of the next instruction.
    pub pc: int,
    /// Whether the tape may grow at its end.
    pub grow: bool,
    /// The input bytes not yet read.
    pub input: Seq<u8>,
    /// The output bytes written so far.
    pub output: Seq<u8>,
}

/// Wrapping successor of a byte.
pub open spec fn wrap_inc(v: u8) -> u8 {
    if v == 255 {
        0
    } else {
        (v + 1) as u8
    }
}

/// Wrapping predecessor of a byte.
pub open spec fn wrap_dec(v: u8) -> u8 {
    if v == 0 {
        255
    } else {
        (v - 1) as u8
    }
}

/// The destination of a taken jump: the recorded jump-table entry, or zero
/// where none is recorded. A program built by `BfProgram::new` records an
/// entry for every bracket, so the zero case is unreachable through it.
pub open spec fn jump_dest(jumps: Seq<Option<usize>>, pc: int) -> int {
    match jumps[pc] {
        Some(t) => t as int,
        None => 0,
    }
}

/// Whether the machine can take one successful step from `s`: the program
/// has an instruction left and that instruction does not fail. Stream
/// failures are not modelled here; they may cut a run short at any input or
/// output instruction.
pub open spec fn can_step(code: Seq<Instruction>, jumps: Seq<Option<usize>>, s: MState) -> bool {
    &&& 0 <= s.pc < code.len()
    &&& match code[s.pc] {
        Instruction::MoveLeft => s.head > 0,
        Instruction::MoveRight => s.head + 1 < s.cells.len() || s.grow,
        Instruction::Input => s.input.len() > 0,
        _ => true,
    }
}

/// The state one successful step after `s`: every instruction advances the
/// program counter by one, except a taken jump, which sends it one past the
/// partner bracket. The tape grows by exactly one zero cell when a right
/// move crosses its end.
pub open spec fn step1(code: Seq<Instruction>, jumps: Seq<Option<usize>>, s: MState) -> MState {
    match code[s.pc] {
        Instruction::MoveLeft => MState { head: s.head - 1, pc: s.pc + 1, ..s },
        Instruction::MoveRight => if s.head + 1 == s.cells.len() {
            MState { cells: s.cells.push(0), head: s.head + 1, pc: s.pc + 1, ..s }
        } else {
            MState { head: s.head + 1, pc: s.pc + 1, ..s }
        },
        Instruction::Increment => MState {
            cells: s.cells.update(s.head, wrap_inc(s.cells[s.head])),
            pc: s.pc + 1,
            ..s
        },
        Instruction::Decrement => MState {
            cells: s.cells.update(s.head, wrap_dec(s.cells[s.head])),
            pc: s.pc + 1,
            ..s
        },
        Instruction::Input => MState {
            cells: s.cells.update(s.head, s.input[0]),
            input: s.input.drop_first(),
            pc: s.pc + 1,
            ..s
        },
        Instruction::Output => MState { output: s.output.push(s.cells[s.head]), pc: s.pc + 1, ..s },
        Instruction::ConditionalJumpForward => if s.cells[s.head] == 0 {
            MState { pc: jump_dest(jumps, s.pc), ..s }
        } else {
            MState { pc: s.pc + 1, ..s }
        },
        Instruction::ConditionalJumpBackward => if s.cells[s.head] != 0 {
            MState { pc: jump_dest(jumps, s.pc), ..s }
        } else {
            MState { pc: s.pc + 1, ..s }
        },
    }
}

/// Whether `n` successful steps in a row can be taken from `s`.
pub open spec fn can_run(code: Seq<Instruction>, jumps: Seq<Option<usize>>, s: MState, n: nat) -> bool
    decreases n,
{
    n > 0 ==> can_step(code, jumps, s) && can_run(
        code,
        jumps,
        step1(code, jumps, s),
        (n - 1) as nat,
    )
}

/// The state `n` successful steps after `s`.
pub open spec fn run_n(code: Seq<Instruction>, jumps: Seq<Option<usize>>, s: MState, n: nat) -> MState
    decreases n,
{
    if n == 0 {
        s
    } else {
        run_n(code, jumps, step1(code, jumps, s), (n - 1) as nat)
    }
}

/// A run extends by one step at its end.
pub proof fn lemma_run_snoc(code: Seq<Instruction>, jumps: Seq<Option<usize>>, s: MState, n: nat)
    requires
        can_run(code, jumps, s, n),
        can_step(code, jumps, run_n(code, jumps, s, n)),
    ensures
        can_run(code, jumps, s, n + 1),
        run_n(code, jumps, s, n + 1) == step1(code, jumps, run_n(code, jumps, s, n)),
    decreases n,
{
    let t = step1(code, jumps, s);
    assert(can_run(code, jumps, s, n + 1) == (can_step(code, jumps, s) && can_run(
        code,
        jumps,
        t,
        n,
    )));
    assert(run_n(code, jumps, s, n + 1) == run_n(code, jumps, t, n));
    if n == 0 {
        assert(run_n(code, jumps, s, 0) == s);
        assert(run_n(code, jumps, t, 0) == t);
        assert(can_run(code, jumps, t, 0));
    } else {
        assert(can_run(code, jumps, s, n) == (can_step(code, jumps, s) && can_run(
            code,
            jumps,
            t,
            (n - 1) as nat,
        )));
        assert(run_n(code, jumps, s, n) == run_n(code, jumps, t, (n - 1) as nat));
        lemma_run_snoc(code, jumps, t, (n - 1) as nat);
    }
}

/// A longer run contains each shorter one, and continues from where the
/// shorter one ends.
pub proof fn lemma_run_prefix(
    code: Seq<Instruction>,
    jumps: Seq<Option<usize>>,
    s: MState,
    m: nat,
    n: nat,
)
    requires
        can_run(code, jumps, s, n),
        m <= n,
    ensures
        can_run(code, jumps, s, m),
        can_run(code, jumps, run_n(code, jumps, s, m), (n - m) as nat),
        run_n(code, jumps, s, n) == run_n(code, jumps, run_n(code, jumps, s, m), (n - m) as nat),
    decreases m,
{
    if m > 0 {
        lemma_run_prefix(code, jumps, step1(code, jumps, s), (m - 1) as nat, (n - 1) as nat);
    }
}

/// A machine halts only once: two step counts that both leave the program
/// counter at the instruction count are the same count, so the halted
/// state of a run is unique.
pub proof fn lemma_halt_unique(
    code: Seq<Instruction>,
    jumps: Seq<Option<usize>>,
    s: MState,
    n1: nat,
    n2: nat,
)
    requires
        can_run(code, jumps, s, n1),
        can_run(code, jumps, s, n2),
        run_n(code, jumps, s, n1).pc == code.len(),
        run_n(code, jumps, s, n2).pc == code.len(),
    ensures
        n1 == n2,
{
    if n1 < n2 {
        lemma_run_prefix(code, jumps, s, n1, n2);
        assert(can_step(code, jumps, run_n(code, jumps, s, n1)));
    } else if n2 < n1 {
        lemma_run_prefix(code, jumps, s, n2, n1);
        assert(can_step(code, jumps, run_n(code, jumps, s, n2)));
    }
}

/// Increment and decrement invert one another on every cell value, across
/// the wrap boundary included.
pub proof fn lemma_increment_decrement_inverse(v: u8)
    ensures
        wrap_dec(wrap_inc(v)) == v,
        wrap_inc(wrap_dec(v)) == v,
{
}

/// On a tape that may not grow, a straight run of right moves from the
/// first cell succeeds exactly `cells.len() - 1` times: the `k`-th move
/// parks the head on cell `k` and changes nothing else, and once the head
/// rests on the last cell no further right move can step.
pub proof fn lemma_fixed_tape_right_moves(
    code: Seq<Instruction>,
    jumps: Seq<Option<usize>>,
    s: MState,
    k: nat,
)
    requires
        forall|m: int| 0 <= m < code.len() ==> code[m] == Instruction::MoveRight,
        s.head == 0,
        s.pc == 0,
        !s.grow,
        s.cells.len() >= 1,
        k <= s.cells.len() - 1,
        k <= code.len(),
    ensures
        can_run(code, jumps, s, k),
        run_n(code, jumps, s, k) == (MState { head: k as int, pc: k as int, ..s }),
        k == s.cells.len() - 1 && k < code.len() ==> !can_step(
            code,
            jumps,
            run_n(code, jumps, s, k),
        ),
    decreases k,
{
    if k == 0 {
        assert(run_n(code, jumps, s, 0) =~= MState { head: 0, pc: 0, ..s });
    } else {
        lemma_fixed_tape_right_moves(code, jumps, s, (k - 1) as nat);
        let t = run_n(code, jumps, s, (k - 1) as nat);
        assert(can_step(code, jumps, t));
        assert(step1(code, jumps, t) =~= MState { head: k as int, pc: k as int, ..s });
        lemma_run_snoc(code, jumps, s, (k - 1) as nat);
    }
}

/// On a growable tape, a straight run of right moves never fails: the
/// `k`-th move parks the head on cell `k`, and the tape grows by exactly
/// one cell each time the head crosses its end — its length after `k`
/// moves is the larger of the original length and `k + 1`.
pub proof fn lemma_growable_tape_right_moves(
    code: Seq<Instruction>,
    jumps: Seq<Option<usize>>,
    s: MState,
    k: nat,
)
    requires
        forall|m: int| 0 <= m < code.len() ==> code[m] == Instruction::MoveRight,
        s.head == 0,
        s.pc == 0,
        s.grow,
        s.cells.len() >= 1,
        k <= code.len(),
    ensures
        can_run(code, jumps, s, k),
        run_n(code, jumps, s, k).head == k,
        run_n(code, jumps, s, k).pc == k,
        run_n(code, jumps, s, k).grow == s.grow,
        run_n(code, jumps, s, k).cells.len() == if k + 1 > s.cells.len() {
            k + 1
        } else {
            s.cells.len()
        },
    decreases k,
{
    if k > 0 {
        lemma_growable_tape_right_moves(code, jumps, s, (k - 1) as nat);
        let t = run_n(code, jumps, s, (k - 1) as nat);
        assert(can_step(code, jumps, t));
        lemma_run_snoc(code, jumps, s, (k - 1) as nat);
    }
}

/// The echo program: read a byte, write it, read a second byte, write it.
/// On any tape of at least one cell, whatever the tape holds, a run with
/// two bytes of input halts after exactly four steps having written
/// exactly those two bytes, in order; no shorter run halts and no longer
/// run exists.
pub proof fn lemma_echo_two_bytes(
    code: Seq<Instruction>,
    jumps: Seq<Option<usize>>,
    s: MState,
    a: u8,
    b: u8,
)
    requires
        code == seq![
            Instruction::Input,
            Instruction::Output,
            Instruction::Input,
            Instruction::Output,
        ],
        s.head == 0,
        s.pc == 0,
        s.cells.len() >= 1,
        s.input == seq![a, b],
    ensures
        can_run(code, jumps, s, 4),
        run_n(code, jumps, s, 4).output == s.output.push(a).push(b),
        run_n(code, jumps, s, 4).pc == 4,
        forall|m: nat| m < 4 ==> (#[trigger] run_n(code, jumps, s, m)).pc < 4,
        forall|n: nat| #[trigger] can_run(code, jumps, s, n) ==> n <= 4,
{
    let s1 = step1(code, jumps, s);
    let s2 = step1(code, jumps, s1);
    let s3 = step1(code, jumps, s2);
    let s4 = step1(code, jumps, s3);
    assert(s.input[0] == a && s.input[1] == b);
    assert(s1.cells[0] == a && s1.pc == 1 && s1.head == 0);
    assert(s1.input =~= seq![b]);
    assert(s2.output == s.output.push(a) && s2.pc == 2 && s2.cells == s1.cells);
    assert(s3.cells[0] == b && s3.pc == 3 && s3.input =~= Seq::<u8>::empty());
    assert(s4.output == s.output.push(a).push(b) && s4.pc == 4);
    assert(run_n(code, jumps, s, 1) == run_n(code, jumps, s1, 0));
    assert(run_n(code, jumps, s, 2) == run_n(code, jumps, s1, 1));
    assert(run_n(code, jumps, s, 3) == run_n(code, jumps, s1, 2));
    assert(run_n(code, jumps, s, 4) == run_n(code, jumps, s1, 3));
    assert(run_n(code, jumps, s1, 1) == run_n(code, jumps, s2, 0));
    assert(run_n(code, jumps, s1, 2) == run_n(code, jumps, s2, 1));
    assert(run_n(code, jumps, s1, 3) == run_n(code, jumps, s2, 2));
    assert(run_n(code, jumps, s2, 1) == run_n(code, jumps, s3, 0));
    assert(run_n(code, jumps, s2, 2) == run_n(code, jumps, s3, 1));
    assert(run_n(code, jumps, s3, 1) == run_n(code, jumps, s4, 0));
    assert(can_step(code, jumps, s) && can_step(code, jumps, s1) && can_step(code, jumps, s2)
        && can_step(code, jumps, s3));
    assert(can_run(code, jumps, s4, 0));
    assert(can_run(code, jumps, s3, 1));
    assert(can_run(code, jumps, s2, 2));
    assert(can_run(code, jumps, s1, 3));
    assert(can_run(code, jumps, s, 4));
    assert(run_n(code, jumps, s, 4).pc == 4);
    assert forall|m: nat| m < 4 implies (#[trigger] run_n(code, jumps, s, m)).pc < 4 by {
        if m == 0 {
            assert(run_n(code, jumps, s, 0) == s);
        } else if m == 1 {
        } else if m == 2 {
        } else {
            assert(m == 3);
        }
    }
    assert forall|n: nat| #[trigger] can_run(code, jumps, s, n) implies n <= 4 by {
        if n > 4 {
            lemma_run_prefix(code, jumps, s, 4, n);
            assert(can_step(code, jumps, s4));
        }
    }
}

} // verus!
