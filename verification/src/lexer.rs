//! The lexer/locator: scans source text character by character, keeps the
//! characters that name instructions together with their 1-indexed line and
//! column, and discards everything else as comments.

use vstd::prelude::*;

use crate::instructions::Instruction;
use crate::instructions::LocalisedInstruction;
use crate::instructions::instruction_of_char;

verus! {

/// The located instructions of the text `s`, whose first character stands at
/// line `line`, column `col`. A newline ends the current line; every other
/// character occupies one column, whether or not it names an instruction.
pub open spec fn lex_from(s: Seq<char>, line: nat, col: nat) -> Seq<LocalisedInstruction>
    decreases s.len(),
{
    if s.len() == 0 {
        Seq::empty()
    } else if s[0] == '\n' {
        lex_from(s.drop_first(), line + 1, 1)
    } else {
        match instruction_of_char(s[0]) {
            Some(k) => seq![
                LocalisedInstruction {
                    instruction: k,
                    line_num: line as usize,
                    column_num: col as usize,
                },
            ] + lex_from(s.drop_first(), line, col + 1),
            None => lex_from(s.drop_first(), line, col + 1),
        }
    }
}

/// The located instructions of a whole source text, which starts at line 1,
/// column 1.
pub open spec fn lex(s: Seq<char>) -> Seq<LocalisedInstruction> {
    lex_from(s, 1, 1)
}

/// The instruction kinds of a located-instruction sequence, positions
/// forgotten.
pub open spec fn kinds_of(lis: Seq<LocalisedInstruction>) -> Seq<Instruction> {
    lis.map_values(|li: LocalisedInstruction| li.instruction)
}

/// The instruction kinds named by the characters of `s`, in order; comment
/// characters contribute nothing.
pub open spec fn commands_of(s: Seq<char>) -> Seq<Instruction>
    decreases s.len(),
{
    if s.len() == 0 {
        Seq::empty()
    } else {
        match instruction_of_char(s[0]) {
            Some(k) => seq![k] + commands_of(s.drop_first()),
            None => commands_of(s.drop_first()),
        }
    }
}

/// Lexing only locates: the instruction kinds the lexer keeps are exactly the
/// command characters of the text, in order, whatever line and column the
/// text starts at.
pub proof fn lemma_lex_from_kinds(s: Seq<char>, line: nat, col: nat)
    ensures
        kinds_of(lex_from(s, line, col)) == commands_of(s),
    decreases s.len(),
{
    if s.len() == 0 {
        assert(kinds_of(lex_from(s, line, col)) =~= commands_of(s));
    } else if s[0] == '\n' {
        lemma_lex_from_kinds(s.drop_first(), line + 1, 1);
        assert(instruction_of_char(s[0]) is None);
        assert(kinds_of(lex_from(s, line, col)) =~= commands_of(s));
    } else {
        match instruction_of_char(s[0]) {
            Some(k) => {
                lemma_lex_from_kinds(s.drop_first(), line, col + 1);
                assert(kinds_of(lex_from(s, line, col)) =~= commands_of(s));
            },
            None => {
                lemma_lex_from_kinds(s.drop_first(), line, col + 1);
            },
        }
    }
}

/// Round trip: the instruction kinds of a lexed text are exactly the
/// non-comment characters of that text, in order.
pub proof fn lemma_lex_round_trip(s: Seq<char>)
    ensures
        kinds_of(lex(s)) == commands_of(s),
{
    lemma_lex_from_kinds(s, 1, 1);
}

/// The characters of a text, as a vector.
fn chars_of(text: &str) -> (r: Vec<char>)
    ensures
        r@ == text@,
{
    let mut out: Vec<char> = Vec::new();
    for c in it: text.chars()
        invariant
            out@.len() == it.index(),
            forall|i: int| 0 <= i < out@.len() ==> out@[i] == it.seq()[i],
    {
        out.push(c);
    }
    assert(out@ =~= text@);
    out
}

/// Scan a source text into located instructions.
pub fn lex_text(text: &str) -> (r: Vec<LocalisedInstruction>)
    ensures
        r@ == lex(text@),
{
    let chars = chars_of(text);
    let n = chars.len();
    let mut out: Vec<LocalisedInstruction> = Vec::new();
    // Counting newlines and columns from zero keeps both counters at most
    // the index of the character at hand, so the 1-indexed positions below
    // cannot overflow.
    let mut nl_count: usize = 0;
    let mut col0: usize = 0;
    let mut i: usize = 0;
    proof {
        assert(chars@.skip(0) =~= chars@);
        assert(out@ + lex_from(chars@.skip(0), 1, 1) =~= lex(text@));
    }
    while i < n
        invariant
            chars@ == text@,
            n == chars@.len(),
            i <= n,
            nl_count <= i,
            col0 <= i,
            out@ + lex_from(chars@.skip(i as int), (nl_count + 1) as nat, (col0 + 1) as nat)
                == lex(text@),
        decreases n - i,
    {
        let c = chars[i];
        proof {
            assert(chars@.skip(i as int)[0] == chars@[i as int]);
            assert(chars@.skip(i as int).drop_first() =~= chars@.skip(i + 1));
        }
        let ghost prev_out = out@;
        if c == '\n' {
            nl_count = nl_count + 1;
            col0 = 0;
        } else {
            match Instruction::from_char(c) {
                Some(k) => {
                    let li = LocalisedInstruction::new(k, nl_count + 1, col0 + 1);
                    out.push(li);
                    proof {
                        assert(out@ + lex_from(
                            chars@.skip(i + 1),
                            (nl_count + 1) as nat,
                            (col0 + 2) as nat,
                        ) =~= prev_out + lex_from(
                            chars@.skip(i as int),
                            (nl_count + 1) as nat,
                            (col0 + 1) as nat,
                        ));
                    }
                },
                None => {},
            }
            col0 = col0 + 1;
        }
        i = i + 1;
    }
    proof {
        assert(chars@.skip(n as int) =~= Seq::<char>::empty());
        assert(out@ =~= lex(text@));
    }
    out
}

} // verus!
