//! What one step of scanning does, as mathematics over the pending input.
use crate::lang::lexeme::{is_mark, lexeme_of_char, LexemeView};
use crate::lang::lexer::{ScanError, TokenView};
use crate::lang::position::Position;
use crate::lang::utf8::{first_char, lemma_first_char_width};
use vstd::prelude::*;
use vstd::utf8::*;

verus! {

/// A run of ordinary text at the head of some input.
pub ghost struct Run {
    /// The characters of the run.
    pub text: Seq<char>,
    /// The number of bytes that encode them.
    pub len: nat,
    /// Whether the run stops in front of bytes that encode no character.
    pub broken: bool,
}

impl Run {
    /// The run without a character, which stops at once.
    pub open spec fn stop(broken: bool) -> Run {
        Run { text: Seq::empty(), len: 0, broken }
    }

    /// This run with `text` in front of it, which `len` bytes encode.
    pub open spec fn behind(self, text: Seq<char>, len: nat) -> Run {
        Run { text: text + self.text, len: len + self.len, broken: self.broken }
    }
}

/// The longest run of ordinary characters that `bytes` begins with. It ends
/// in front of the first mark, at the end of the input, or in front of the
/// first bytes that encode no character.
pub open spec fn text_run(bytes: Seq<u8>) -> Run
    decreases bytes.len(),
{
    if bytes.len() == 0 {
        Run::stop(false)
    } else if !valid_first_scalar(bytes) {
        Run::stop(true)
    } else if is_mark(first_char(bytes)) {
        Run::stop(false)
    } else {
        text_run(pop_first_scalar(bytes)).behind(
            seq![first_char(bytes)],
            length_of_first_scalar(bytes) as nat,
        )
    }
}

/// The mathematical value of a [`Lexer`]: the input that it has still to
/// read, and the position that it has reached.
pub ghost struct LexerView {
    pub pending: Seq<u8>,
    pub position: Position,
}

/// One step of scanning: what comes out, and the scanner's value afterwards.
pub ghost struct Step {
    pub outcome: Result<Option<TokenView>, ScanError>,
    pub next: LexerView,
}

impl LexerView {
    /// A scanner at the start of `input`.
    pub open spec fn fresh(input: Seq<u8>) -> LexerView {
        LexerView { pending: input, position: Position { line: 0, column: 0, offset: 0 } }
    }

    /// The position counts characters that were read, and counting the
    /// pending ones as well stays within the range of the counters.
    pub open spec fn well_formed(self) -> bool {
        &&& self.position.line + self.position.column <= self.position.offset
        &&& self.position.offset + self.pending.len() <= usize::MAX
    }

    /// The scanner that has read `bytes` more bytes and stands at `position`.
    pub open spec fn moved(self, bytes: nat, position: Position) -> LexerView {
        LexerView { pending: self.pending.skip(bytes as int), position }
    }

    /// What the next call produces, and what it leaves.
    ///
    /// - At the end of the input there is no token, and nothing changes.
    /// - Where the pending bytes begin with no well-formed character, the call
    ///   fails, and one byte is dropped.
    /// - A mark gives a token of one character; the line terminator moves
    ///   the position to the start of the next line.
    /// - Any other character starts a text run, which is taken whole. Where
    ///   the run is broken, the call fails behind the run.
    pub open spec fn step(self) -> Step {
        let at = self.position;
        if self.pending.len() == 0 {
            Step { outcome: Ok(None), next: self }
        } else if !valid_first_scalar(self.pending) {
            Step { outcome: Err(ScanError::Decode { position: at }), next: self.moved(1, at) }
        } else if is_mark(first_char(self.pending)) {
            let mark = first_char(self.pending);
            let end = if mark == '\n' {
                at.next_line()
            } else {
                at.advanced(1)
            };
            Step {
                outcome: Ok(
                    Some(TokenView { lexeme: lexeme_of_char(mark), positions: Some((at, end)) }),
                ),
                next: self.moved(1, end),
            }
        } else {
            let run = text_run(self.pending);
            let end = at.advanced(run.text.len());
            Step {
                outcome: if run.broken {
                    Err(ScanError::Decode { position: end })
                } else {
                    Ok(
                        Some(
                            TokenView {
                                lexeme: LexemeView::String(run.text),
                                positions: Some((at, end)),
                            },
                        ),
                    )
                },
                next: self.moved(run.len, end),
            }
        }
    }
}

/// A text run lies within the input, and none of its characters takes less
/// than a byte. A run that starts with an ordinary character is not empty.
pub proof fn lemma_text_run_bounds(bytes: Seq<u8>)
    ensures
        text_run(bytes).text.len() <= text_run(bytes).len <= bytes.len(),
        bytes.len() > 0 && valid_first_scalar(bytes) && !is_mark(first_char(bytes)) ==> 1
            <= text_run(bytes).text.len(),
    decreases bytes.len(),
{
    if bytes.len() > 0 && valid_first_scalar(bytes) && !is_mark(first_char(bytes)) {
        lemma_first_char_width(bytes);
        lemma_text_run_bounds(pop_first_scalar(bytes));
    }
}

/// A call on input that is not empty reads at least one byte, whatever it
/// returns, and no call reads more than there is.
pub proof fn lemma_step_progress(scanner: LexerView)
    ensures
        scanner.step().next.pending.len() <= scanner.pending.len(),
        scanner.pending.len() > 0 ==> scanner.step().next.pending.len() < scanner.pending.len(),
{
    if scanner.pending.len() > 0 {
        lemma_text_run_bounds(scanner.pending);
        if valid_first_scalar(scanner.pending) {
            lemma_first_char_width(scanner.pending);
        }
    }
}

/// The token of a step reaches from the position before the step to the
/// position after it. A line terminator leads to the start of the next line;
/// any other token leads as many columns on as it has characters.
pub proof fn lemma_step_positions(scanner: LexerView)
    requires
        scanner.well_formed(),
    ensures
        scanner.step().next.well_formed(),
        scanner.position.precedes(scanner.step().next.position),
        scanner.step().outcome matches Ok(Some(token)) ==> token.spans(
            scanner.position,
            scanner.step().next.position,
        ),
{
    lemma_step_progress(scanner);
    if scanner.pending.len() > 0 {
        lemma_text_run_bounds(scanner.pending);
        if valid_first_scalar(scanner.pending) {
            lemma_first_char_width(scanner.pending);
        }
    }
}

} // verus!
