//! The whole sequence of tokens that a scanner produces, and what holds of it.
use crate::lang::lexeme::{is_mark, LexemeView};
use crate::lang::lexer::{Lexer, TokenView};
use crate::lang::scan::{
    lemma_step_positions, lemma_step_progress, lemma_text_run_bounds, text_run, LexerView,
};
use crate::lang::utf8::{first_char, lemma_first_char_width};
use vstd::prelude::*;
use vstd::utf8::*;

verus! {

impl LexerView {
    /// The tokens that call after call produces, up to the end of the input
    /// or to the first call that fails.
    pub open spec fn stream(self) -> Seq<TokenView>
        decreases self.pending.len(),
    {
        match self.step().outcome {
            Ok(Some(token)) => {
                proof {
                    lemma_step_progress(self);
                }
                seq![token] + self.step().next.stream()
            },
            _ => Seq::empty(),
        }
    }

    /// Whether calling on and on reaches the end of the input, with no call
    /// that fails on the way.
    pub open spec fn finishes(self) -> bool
        decreases self.pending.len(),
    {
        match self.step().outcome {
            Ok(Some(_)) => {
                proof {
                    lemma_step_progress(self);
                }
                self.step().next.finishes()
            },
            Ok(None) => true,
            Err(_) => false,
        }
    }
}

/// The source text of a sequence of tokens: the text of each, in order.
pub open spec fn source_text(tokens: Seq<TokenView>) -> Seq<char>
    decreases tokens.len(),
{
    if tokens.len() == 0 {
        Seq::empty()
    } else {
        tokens[0].lexeme.text() + source_text(tokens.drop_first())
    }
}

/// The number of characters between the two positions of a token.
pub open spec fn span_width(token: TokenView) -> int
    recommends
        token.positions is Some,
{
    token.end().offset - token.start().offset
}

/// The number of characters that the tokens of a sequence span, all together.
pub open spec fn total_width(tokens: Seq<TokenView>) -> int
    decreases tokens.len(),
{
    if tokens.len() == 0 {
        0
    } else {
        span_width(tokens[0]) + total_width(tokens.drop_first())
    }
}

/// Input is well-formed exactly if the text run at its head is not broken
/// and what follows the run is well-formed. The text of the run is then what
/// the bytes of the run decode to.
pub proof fn lemma_text_run_validity(bytes: Seq<u8>)
    ensures
        text_run(bytes).len <= bytes.len(),
        valid_utf8(bytes) <==> !text_run(bytes).broken && valid_utf8(
            bytes.skip(text_run(bytes).len as int),
        ),
        valid_utf8(bytes) ==> decode_utf8(bytes) == text_run(bytes).text + decode_utf8(
            bytes.skip(text_run(bytes).len as int),
        ),
    decreases bytes.len(),
{
    let run = text_run(bytes);
    if bytes.len() > 0 && valid_first_scalar(bytes) && !is_mark(first_char(bytes)) {
        let rest = pop_first_scalar(bytes);
        lemma_first_char_width(bytes);
        lemma_text_run_validity(rest);
        assert(bytes.skip(run.len as int) =~= rest.skip(text_run(rest).len as int));
        if valid_utf8(bytes) {
            assert(decode_utf8(bytes) =~= run.text + decode_utf8(bytes.skip(run.len as int)));
        }
    } else {
        assert(bytes.skip(0) =~= bytes);
        if valid_utf8(bytes) {
            assert(decode_utf8(bytes) =~= run.text + decode_utf8(bytes));
        }
    }
}

/// Scanning reaches the end of the input exactly if the input is well-formed
/// all through: some call fails on any other input, and on no well-formed one.
pub proof fn lemma_finishes_iff_input_is_valid(scanner: LexerView)
    ensures
        scanner.finishes() <==> valid_utf8(scanner.pending),
    decreases scanner.pending.len(),
{
    if scanner.pending.len() > 0 && valid_first_scalar(scanner.pending) {
        let next = scanner.step().next;
        lemma_step_progress(scanner);
        lemma_first_char_width(scanner.pending);
        lemma_text_run_validity(scanner.pending);
        if is_mark(first_char(scanner.pending)) {
            assert(next.pending =~= pop_first_scalar(scanner.pending));
        }
        lemma_finishes_iff_input_is_valid(next);
    }
}

/// Scanning well-formed input reaches its end, and the texts of the tokens
/// on the way, put together in order, are the characters of the input.
pub proof fn lemma_stream_restores_valid_input(scanner: LexerView)
    requires
        valid_utf8(scanner.pending),
    ensures
        scanner.finishes(),
        source_text(scanner.stream()) == decode_utf8(scanner.pending),
    decreases scanner.pending.len(),
{
    let step = scanner.step();
    if scanner.pending.len() > 0 {
        let token = step.outcome->Ok_0->Some_0;
        lemma_step_progress(scanner);
        lemma_first_char_width(scanner.pending);
        lemma_text_run_validity(scanner.pending);
        assert(valid_utf8(step.next.pending) && decode_utf8(scanner.pending)
            == token.lexeme.text() + decode_utf8(step.next.pending)) by {
            if is_mark(first_char(scanner.pending)) {
                assert(step.next.pending =~= pop_first_scalar(scanner.pending));
            }
        }
        lemma_stream_restores_valid_input(step.next);
        assert(scanner.stream().drop_first() =~= step.next.stream());
    }
}

/// Whatever the input, the spans of the tokens add up to the number of
/// characters in their texts.
pub proof fn lemma_spans_count_the_text(scanner: LexerView)
    requires
        scanner.well_formed(),
    ensures
        total_width(scanner.stream()) == source_text(scanner.stream()).len(),
    decreases scanner.pending.len(),
{
    if scanner.step().outcome is Ok && scanner.step().outcome->Ok_0 is Some {
        lemma_step_progress(scanner);
        lemma_step_positions(scanner);
        lemma_spans_count_the_text(scanner.step().next);
        assert(scanner.stream().drop_first() =~= scanner.step().next.stream());
    }
}

/// Nothing is lost: on well-formed input a fresh scanner reaches the end,
/// and the texts of its tokens, put together in order, are the input again,
/// as characters and, once encoded, as bytes.
pub proof fn lemma_tokens_restore_input(input: Seq<u8>)
    requires
        valid_utf8(input),
    ensures
        LexerView::fresh(input).finishes(),
        source_text(LexerView::fresh(input).stream()) == decode_utf8(input),
        encode_utf8(source_text(LexerView::fresh(input).stream())) == input,
{
    lemma_stream_restores_valid_input(LexerView::fresh(input));
    decode_utf8_encode_utf8(input);
}

/// Nothing is skipped and nothing is counted twice: on well-formed input
/// the spans of a fresh scanner's tokens add up to the number of characters
/// in the input.
pub proof fn lemma_tokens_count_every_character(input: Seq<u8>)
    requires
        valid_utf8(input),
        input.len() <= usize::MAX,
    ensures
        LexerView::fresh(input).finishes(),
        total_width(LexerView::fresh(input).stream()) == decode_utf8(input).len(),
{
    lemma_stream_restores_valid_input(LexerView::fresh(input));
    lemma_spans_count_the_text(LexerView::fresh(input));
}

/// The tokens lie end to end: the first starts where the scanner stands, and
/// each of the others starts where the one before it ends.
pub proof fn lemma_stream_is_contiguous(scanner: LexerView, i: int)
    requires
        0 <= i < scanner.stream().len(),
    ensures
        scanner.stream()[i].positions is Some,
        i == 0 ==> scanner.stream()[i].start() == scanner.position,
        i > 0 ==> scanner.stream()[i].start() == scanner.stream()[i - 1].end(),
    decreases i,
{
    let next = scanner.step().next;
    if i > 0 {
        assert(scanner.stream()[i] == next.stream()[i - 1]);
        assert(scanner.stream()[i - 1] == if i == 1 {
            scanner.stream()[0]
        } else {
            next.stream()[i - 2]
        });
        lemma_stream_is_contiguous(next, i - 1);
    }
}

/// Every token of the stream is read between its two positions: a line
/// terminator ends at the start of the next line, and any other token as many
/// columns on as it has characters.
pub proof fn lemma_stream_tokens_span(scanner: LexerView, i: int)
    requires
        scanner.well_formed(),
        0 <= i < scanner.stream().len(),
    ensures
        scanner.stream()[i].spans(scanner.stream()[i].start(), scanner.stream()[i].end()),
    decreases i,
{
    lemma_step_positions(scanner);
    if i > 0 {
        assert(scanner.stream()[i] == scanner.step().next.stream()[i - 1]);
        lemma_stream_tokens_span(scanner.step().next, i - 1);
    }
}

/// Where a text run that is not broken ends, the input ends or a mark
/// follows, and no character of the run is a mark.
pub proof fn lemma_text_run_is_maximal(bytes: Seq<u8>)
    ensures
        forall|i: int| 0 <= i < text_run(bytes).text.len() ==> !is_mark(text_run(bytes).text[i]),
        !text_run(bytes).broken ==> {
            let rest = bytes.skip(text_run(bytes).len as int);
            rest.len() == 0 || (valid_first_scalar(rest) && is_mark(first_char(rest)))
        },
    decreases bytes.len(),
{
    let run = text_run(bytes);
    if bytes.len() > 0 && valid_first_scalar(bytes) && !is_mark(first_char(bytes)) {
        let rest = pop_first_scalar(bytes);
        lemma_first_char_width(bytes);
        lemma_text_run_bounds(rest);
        lemma_text_run_is_maximal(rest);
        assert(bytes.skip(run.len as int) =~= rest.skip(text_run(rest).len as int));
        assert forall|i: int| 0 <= i < run.text.len() implies !is_mark(run.text[i]) by {
            if i > 0 {
                assert(run.text[i] == text_run(rest).text[i - 1]);
            }
        }
    } else {
        assert(bytes.skip(0) =~= bytes);
    }
}

/// Text runs are taken whole: a text token is never followed by another
/// text token, it is not empty, and none of its characters is a mark.
pub proof fn lemma_text_tokens_are_maximal(scanner: LexerView, i: int)
    requires
        0 <= i < scanner.stream().len(),
    ensures
        scanner.stream()[i].lexeme matches LexemeView::String(text) ==> {
            &&& text.len() >= 1
            &&& forall|k: int| 0 <= k < text.len() ==> !is_mark(text[k])
            &&& i + 1 < scanner.stream().len() ==> !(scanner.stream()[i + 1].lexeme is String)
        },
    decreases i,
{
    let next = scanner.step().next;
    if i > 0 {
        assert(scanner.stream()[i] == next.stream()[i - 1]);
        if i + 1 < scanner.stream().len() {
            assert(scanner.stream()[i + 1] == next.stream()[i]);
        }
        lemma_text_tokens_are_maximal(next, i - 1);
    } else {
        lemma_text_run_bounds(scanner.pending);
        lemma_text_run_is_maximal(scanner.pending);
        if 1 < scanner.stream().len() {
            assert(scanner.stream()[1] == next.stream()[0]);
        }
    }
}

/// Scanning is a function of the input: two scanners that start on the same
/// input produce the same tokens, call after call, and fail or finish alike.
pub proof fn lemma_rescanning_gives_the_same_tokens(first: Lexer, second: Lexer, input: Seq<u8>)
    requires
        first@ == LexerView::fresh(input),
        second@ == LexerView::fresh(input),
    ensures
        first@.step() == second@.step(),
        first@.stream() == second@.stream(),
        first@.finishes() == second@.finishes(),
{
}

} // verus!
