//! The scanner: from UTF-8 encoded input to tokens, one token per call.
use crate::lang::lexeme::{Lexeme, LexemeView};
use crate::lang::position::Position;
use crate::lang::scan::{lemma_step_positions, text_run, LexerView, Run};
use crate::lang::utf8::{lemma_first_char_width, read_unit};
use vstd::prelude::*;
use vstd::string::*;
use vstd::utf8::*;

verus! {

/// A lexeme together with the positions between which it was read.
///
/// Every token that a [`Lexer`] produces carries its positions: the one
/// before its first character and the one behind its last.
#[derive(Debug, Clone)]
pub struct Token {
    pub lexeme: Lexeme,
    pub positions: Option<(Position, Position)>,
}

/// The mathematical value of a [`Token`].
pub ghost struct TokenView {
    pub lexeme: LexemeView,
    pub positions: Option<(Position, Position)>,
}

impl View for Token {
    type V = TokenView;

    open spec fn view(&self) -> TokenView {
        TokenView { lexeme: self.lexeme@, positions: self.positions }
    }
}

impl TokenView {
    /// The position before the first character of this token.
    pub open spec fn start(self) -> Position
        recommends
            self.positions is Some,
    {
        self.positions.unwrap().0
    }

    /// The position behind the last character of this token.
    pub open spec fn end(self) -> Position
        recommends
            self.positions is Some,
    {
        self.positions.unwrap().1
    }

    /// Whether this token was read between `start` and `end`: it is made of
    /// at least one character, and `end` lies as many characters behind
    /// `start` as it is made of. A line terminator ends at the start of the
    /// next line, every other token further on in the same line.
    pub open spec fn spans(self, start: Position, end: Position) -> bool {
        let width = self.lexeme.text().len();
        &&& self.positions == Some((start, end))
        &&& width >= 1
        &&& end.offset == start.offset + width
        &&& if self.lexeme == LexemeView::Newline {
            end.line == start.line + 1 && end.column == 0
        } else {
            end.line == start.line && end.column == start.column + width
        }
    }
}

/// Why a call could not produce a token.
#[derive(Debug, Clone, Copy, PartialEq, Eq, Structural)]
pub enum ScanError {
    /// The input at `position` does not continue with a well-formed UTF-8
    /// encoded character.
    Decode { position: Position },
}

/// What a call of [`Lexer::next_token`] returns, as a mathematical value.
pub open spec fn outcome_of(result: Result<Option<Token>, ScanError>) -> Result<
    Option<TokenView>,
    ScanError,
> {
    match result {
        Ok(Some(token)) => Ok(Some(token@)),
        Ok(None) => Ok(None),
        Err(error) => Err(error),
    }
}

/// A scanner over UTF-8 encoded input held in memory.
pub struct Lexer {
    position: Position,
    input: Vec<u8>,
    consumed: usize,
}

impl View for Lexer {
    type V = LexerView;

    closed spec fn view(&self) -> LexerView {
        LexerView { pending: self.input@.skip(self.consumed as int), position: self.position }
    }
}

impl Lexer {
    #[verifier::type_invariant]
    spec fn well_formed(&self) -> bool {
        &&& self.consumed <= self.input@.len()
        &&& self.position.line + self.position.column <= self.position.offset
        &&& self.position.offset <= self.consumed
    }

    /// A scanner at the start of `input`.
    pub fn from(input: Vec<u8>) -> (lexer: Lexer)
        ensures
            lexer@ == LexerView::fresh(input@),
            lexer@.well_formed(),
    {
        assert(input@.skip(0) =~= input@);
        assert(input.len() == input@.len());
        Lexer { position: Position::default(), input, consumed: 0 }
    }

    /// Reads the next token and moves behind it.
    ///
    /// A mark is a token by itself. Any other character starts a text run,
    /// which goes on up to the next mark or to the end of the input. At the
    /// end of the input the result is `Ok(None)`, on this call and on every
    /// later one.
    ///
    /// The call fails where the pending input does not begin with a
    /// well-formed character: one byte is then dropped and the position
    /// stays. It also fails where a text run leads up to such bytes: the
    /// text is then dropped, and the scanner stands behind it.
    ///
    /// [`LexerView::step`] says all of this exactly.
    pub fn next_token(&mut self) -> (result: Result<Option<Token>, ScanError>)
        ensures
            outcome_of(result) == old(self)@.step().outcome,
            final(self)@ == old(self)@.step().next,
            final(self)@.well_formed(),
            old(self)@.position.precedes(final(self)@.position),
            result matches Ok(Some(token)) ==> token@.spans(
                old(self)@.position,
                final(self)@.position,
            ),
    {
        proof {
            use_type_invariant(&*self);
        }
        let ghost pending = self@.pending;
        let len = self.input.len();
        proof {
            lemma_step_positions(self@);
        }
        let begin = self.consumed;
        if begin >= len {
            return Ok(None);
        }
        let start = self.position;
        let unit = match read_unit(self.input.as_slice(), begin) {
            Some(unit) => unit,
            None => {
                self.consumed = begin + 1;
                assert(self@.pending =~= pending.skip(1));
                return Err(ScanError::Decode { position: start });
            },
        };
        let ghost rest = pop_first_scalar(pending);
        let width = unit.len();
        proof {
            lemma_first_char_width(pending);
        }
        assert(width == length_of_first_scalar(pending));
        assert(rest =~= self.input@.skip(begin + width));
        match Lexeme::from(unit) {
            Lexeme::String(text) => {
                let mut text = text;
                let mut consumed = begin + width;
                let mut position = start;
                position.increment();
                assert(text_run(pending) =~= text_run(rest).behind(text@, width as nat));
                loop
                    invariant
                        *self == *old(self),
                        self.consumed == begin,
                        self.position == start,
                        self.input@.len() == len,
                        self.input@.skip(begin as int) == pending,
                        begin < consumed <= len,
                        start.line + start.column <= start.offset <= begin,
                        1 <= text@.len() <= consumed - begin,
                        position.line == start.line,
                        position.column == start.column + text@.len(),
                        position.offset == start.offset + text@.len(),
                        text_run(pending) == text_run(self.input@.skip(consumed as int)).behind(
                            text@,
                            (consumed - begin) as nat,
                        ),
                    ensures
                        begin < consumed <= len,
                        1 <= text@.len() <= consumed - begin,
                        position.line == start.line,
                        position.column == start.column + text@.len(),
                        position.offset == start.offset + text@.len(),
                        text_run(pending) == Run::stop(false).behind(
                            text@,
                            (consumed - begin) as nat,
                        ),
                    decreases len - consumed,
                {
                    if consumed >= len {
                        break ;
                    }
                    let ghost ahead = self.input@.skip(consumed as int);
                    match read_unit(self.input.as_slice(), consumed) {
                        None => {
                            self.consumed = consumed;
                            self.position = position;
                            assert(self@.pending =~= pending.skip(consumed - begin));
                            assert(text@ + Seq::<char>::empty() =~= text@);
                            return Err(ScanError::Decode { position });
                        },
                        Some(next) => {
                            match Lexeme::from(next) {
                                Lexeme::String(_) => {
                                    let ghost run = text_run(pop_first_scalar(ahead));
                                    let ghost before = text@;
                                    let step = next.len();
                                    text.append(next);
                                    assert(pop_first_scalar(ahead) =~= self.input@.skip(
                                        consumed + step,
                                    ));
                                    assert(before + (next@ + run.text) =~= text@ + run.text);
                                    consumed += step;
                                    position.increment();
                                },
                                _ => {
                                    break ;
                                },
                            }
                        },
                    }
                }
                self.consumed = consumed;
                self.position = position;
                assert(self@.pending =~= pending.skip(consumed - begin));
                assert(text@ + Seq::<char>::empty() =~= text@);
                Ok(Some(Token { lexeme: Lexeme::String(text), positions: Some((start, position)) }))
            },
            Lexeme::Newline => {
                let mut position = start;
                position.newline();
                self.consumed = begin + width;
                self.position = position;
                assert(self@.pending =~= pending.skip(1));
                Ok(Some(Token { lexeme: Lexeme::Newline, positions: Some((start, position)) }))
            },
            lexeme => {
                let mut position = start;
                position.increment();
                self.consumed = begin + width;
                self.position = position;
                assert(self@.pending =~= pending.skip(1));
                Ok(Some(Token { lexeme, positions: Some((start, position)) }))
            },
        }
    }
}

} // verus!
