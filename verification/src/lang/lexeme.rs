//! The kinds of token and the characters that give rise to them.
use vstd::prelude::*;
use vstd::string::*;

verus! {

/// What a token is: one of seven single marks, or a run of ordinary text.
#[derive(Debug, Clone)]
pub enum Lexeme {
    GroupBegin,
    GroupEnd,
    FunctionBegin,
    FunctionEnd,
    Variable,
    String(String),
    Indent,
    Newline,
}

/// The mathematical value of a [`Lexeme`]: text is a sequence of characters.
pub ghost enum LexemeView {
    GroupBegin,
    GroupEnd,
    FunctionBegin,
    FunctionEnd,
    Variable,
    String(Seq<char>),
    Indent,
    Newline,
}

impl View for Lexeme {
    type V = LexemeView;

    open spec fn view(&self) -> LexemeView {
        match self {
            Lexeme::GroupBegin => LexemeView::GroupBegin,
            Lexeme::GroupEnd => LexemeView::GroupEnd,
            Lexeme::FunctionBegin => LexemeView::FunctionBegin,
            Lexeme::FunctionEnd => LexemeView::FunctionEnd,
            Lexeme::Variable => LexemeView::Variable,
            Lexeme::String(text) => LexemeView::String(text@),
            Lexeme::Indent => LexemeView::Indent,
            Lexeme::Newline => LexemeView::Newline,
        }
    }
}

/// Whether `c` is one of the seven characters that form a token by themselves.
pub open spec fn is_mark(c: char) -> bool {
    c == '{' || c == '}' || c == '[' || c == ']' || c == '%' || c == '\n' || c == '\t'
}

/// The lexeme that a single character stands for.
pub open spec fn lexeme_of_char(c: char) -> LexemeView {
    if c == '{' {
        LexemeView::GroupBegin
    } else if c == '}' {
        LexemeView::GroupEnd
    } else if c == '[' {
        LexemeView::FunctionBegin
    } else if c == ']' {
        LexemeView::FunctionEnd
    } else if c == '\n' {
        LexemeView::Newline
    } else if c == '\t' {
        LexemeView::Indent
    } else if c == '%' {
        LexemeView::Variable
    } else {
        LexemeView::String(seq![c])
    }
}

/// The lexeme that a piece of source text stands for: a mark where the text
/// is exactly one of the seven special characters, and text otherwise.
pub open spec fn lexeme_of(text: Seq<char>) -> LexemeView {
    if text.len() == 1 && is_mark(text[0]) {
        lexeme_of_char(text[0])
    } else {
        LexemeView::String(text)
    }
}

impl LexemeView {
    /// The source text that this lexeme was read from.
    pub open spec fn text(self) -> Seq<char> {
        match self {
            LexemeView::GroupBegin => seq!['{'],
            LexemeView::GroupEnd => seq!['}'],
            LexemeView::FunctionBegin => seq!['['],
            LexemeView::FunctionEnd => seq![']'],
            LexemeView::Variable => seq!['%'],
            LexemeView::String(text) => text,
            LexemeView::Indent => seq!['\t'],
            LexemeView::Newline => seq!['\n'],
        }
    }

    /// The lexeme that closes what this one opens, if it opens anything.
    pub open spec fn compliments(self) -> Option<LexemeView> {
        match self {
            LexemeView::GroupBegin => Some(LexemeView::GroupEnd),
            LexemeView::FunctionBegin => Some(LexemeView::FunctionEnd),
            LexemeView::Variable => Some(LexemeView::Variable),
            _ => None,
        }
    }
}

/// A lexeme keeps the text that it was made from.
pub proof fn lemma_lexeme_keeps_its_text(text: Seq<char>)
    ensures
        lexeme_of(text).text() == text,
{
    assert(lexeme_of(text).text() =~= text);
}

/// The value of an optional lexeme.
pub open spec fn view_of(lexeme: Option<Lexeme>) -> Option<LexemeView> {
    match lexeme {
        Some(l) => Some(l@),
        None => None,
    }
}

impl Lexeme {
    /// Classifies a piece of source text.
    pub fn from(token: &str) -> (lexeme: Lexeme)
        ensures
            lexeme@ == lexeme_of(token@),
    {
        if token.unicode_len() == 1 {
            let c = token.get_char(0);
            assert(token@ =~= seq![c]);
            match c {
                '{' => Lexeme::GroupBegin,
                '}' => Lexeme::GroupEnd,
                '[' => Lexeme::FunctionBegin,
                ']' => Lexeme::FunctionEnd,
                '\n' => Lexeme::Newline,
                '\t' => Lexeme::Indent,
                '%' => Lexeme::Variable,
                _ => Lexeme::String(String::from_str(token)),
            }
        } else {
            Lexeme::String(String::from_str(token))
        }
    }

    /// The lexeme that closes what this one opens: a group or a function
    /// closes with its end, and a variable with another variable mark.
    pub fn compliments(&self) -> (closing: Option<Lexeme>)
        ensures
            view_of(closing) == self@.compliments(),
    {
        match self {
            Lexeme::GroupBegin => Some(Lexeme::GroupEnd),
            Lexeme::FunctionBegin => Some(Lexeme::FunctionEnd),
            Lexeme::Variable => Some(Lexeme::Variable),
            _ => None,
        }
    }
}

impl PartialEq for Lexeme {
    fn eq(&self, other: &Lexeme) -> (same: bool) {
        match self {
            Lexeme::GroupBegin => matches!(other, Lexeme::GroupBegin),
            Lexeme::GroupEnd => matches!(other, Lexeme::GroupEnd),
            Lexeme::FunctionBegin => matches!(other, Lexeme::FunctionBegin),
            Lexeme::FunctionEnd => matches!(other, Lexeme::FunctionEnd),
            Lexeme::Variable => matches!(other, Lexeme::Variable),
            Lexeme::String(text) => match other {
                Lexeme::String(other_text) => *text == *other_text,
                _ => false,
            },
            Lexeme::Indent => matches!(other, Lexeme::Indent),
            Lexeme::Newline => matches!(other, Lexeme::Newline),
        }
    }
}

impl vstd::std_specs::cmp::PartialEqSpecImpl for Lexeme {
    open spec fn obeys_eq_spec() -> bool {
        true
    }

    open spec fn eq_spec(&self, other: &Lexeme) -> bool {
        self@ == other@
    }
}

} // verus!
