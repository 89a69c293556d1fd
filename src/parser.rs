//! The lexer: characters to a flat sequence of primitive tokens.
use vstd::prelude::*;
use crate::text::{chars_of, parse_integer, parse_integer_word, string_of};

verus! {

/// One lexical unit of source text.
#[derive(Debug)]
pub enum PrimitiveToken {
    LeftParen,
    RightParen,
    Word(String),
    StringLiteral(String),
    NumericLiteral(i64),
    Quote,
}

/// What a token is, with its text as characters.
pub enum TokenModel {
    LeftParen,
    RightParen,
    Word(Seq<char>),
    StringLiteral(Seq<char>),
    NumericLiteral(i64),
    Quote,
}

impl View for PrimitiveToken {
    type V = TokenModel;

    open spec fn view(&self) -> TokenModel {
        match self {
            PrimitiveToken::LeftParen => TokenModel::LeftParen,
            PrimitiveToken::RightParen => TokenModel::RightParen,
            PrimitiveToken::Word(s) => TokenModel::Word(s@),
            PrimitiveToken::StringLiteral(s) => TokenModel::StringLiteral(s@),
            PrimitiveToken::NumericLiteral(n) => TokenModel::NumericLiteral(*n),
            PrimitiveToken::Quote => TokenModel::Quote,
        }
    }
}

pub open spec fn tokens_view(v: Seq<PrimitiveToken>) -> Seq<TokenModel> {
    v.map_values(|t: PrimitiveToken| t@)
}

/// The three modes of the lexer.
pub enum LexMode {
    Normal,
    Comment,
    InString,
}

/// The lexer's state after a prefix of the input: the tokens so far, the
/// pending word (or string contents) and the mode.
pub struct LexState {
    pub tokens: Seq<TokenModel>,
    pub word: Seq<char>,
    pub mode: LexMode,
}

/// The token a finished word stands for: an integer literal when it reads as
/// one, else a word.
pub open spec fn word_token(w: Seq<char>) -> TokenModel {
    match parse_integer(w) {
        Some(n) => TokenModel::NumericLiteral(n),
        None => TokenModel::Word(w),
    }
}

/// Ends the pending word; an empty one yields nothing.
pub open spec fn flush(tokens: Seq<TokenModel>, w: Seq<char>) -> Seq<TokenModel> {
    if w.len() == 0 {
        tokens
    } else {
        tokens.push(word_token(w))
    }
}

pub open spec fn is_space(c: char) -> bool {
    c == ' ' || c == '\n' || c == '\t' || c == '\r'
}

pub open spec fn ends_word(tokens: Seq<TokenModel>, w: Seq<char>, mode: LexMode) -> LexState {
    LexState { tokens: flush(tokens, w), word: Seq::empty(), mode }
}

/// One character of input.
pub open spec fn lex_step(st: LexState, c: char) -> LexState {
    match st.mode {
        LexMode::Comment => {
            if c == '\n' {
                LexState { mode: LexMode::Normal, ..st }
            } else {
                st
            }
        },
        LexMode::InString => {
            if c == '"' {
                LexState {
                    tokens: st.tokens.push(TokenModel::StringLiteral(st.word)),
                    word: Seq::empty(),
                    mode: LexMode::Normal,
                }
            } else {
                LexState { word: st.word.push(c), ..st }
            }
        },
        LexMode::Normal => {
            if c == '(' || c == '[' {
                LexState {
                    tokens: flush(st.tokens, st.word).push(TokenModel::LeftParen),
                    word: Seq::empty(),
                    mode: LexMode::Normal,
                }
            } else if c == ')' || c == ']' {
                LexState {
                    tokens: flush(st.tokens, st.word).push(TokenModel::RightParen),
                    word: Seq::empty(),
                    mode: LexMode::Normal,
                }
            } else if is_space(c) {
                ends_word(st.tokens, st.word, LexMode::Normal)
            } else if c == ';' {
                ends_word(st.tokens, st.word, LexMode::Comment)
            } else if c == '"' {
                ends_word(st.tokens, st.word, LexMode::InString)
            } else if c == '\'' {
                LexState {
                    tokens: flush(st.tokens, st.word).push(TokenModel::Quote),
                    word: Seq::empty(),
                    mode: LexMode::Normal,
                }
            } else {
                LexState { word: st.word.push(c), ..st }
            }
        },
    }
}

/// The state after the first `n` characters.
pub open spec fn lex_prefix(cs: Seq<char>, n: int) -> LexState
    decreases n,
{
    if n <= 0 {
        LexState { tokens: Seq::empty(), word: Seq::empty(), mode: LexMode::Normal }
    } else {
        lex_step(lex_prefix(cs, n - 1), cs[n - 1])
    }
}

/// The tokens of a whole text. A word that runs to the end is kept; an
/// unterminated string is dropped.
pub open spec fn lex(cs: Seq<char>) -> Seq<TokenModel> {
    let st = lex_prefix(cs, cs.len() as int);
    match st.mode {
        LexMode::Normal => flush(st.tokens, st.word),
        _ => st.tokens,
    }
}

fn split_word(accum: &mut Vec<char>, tokens: &mut Vec<PrimitiveToken>)
    ensures
        final(accum)@ == Seq::<char>::empty(),
        tokens_view(final(tokens)@) == flush(tokens_view(old(tokens)@), old(accum)@),
{
    if accum.len() > 0 {
        match parse_integer_word(accum) {
            Some(v) => tokens.push(PrimitiveToken::NumericLiteral(v)),
            None => tokens.push(PrimitiveToken::Word(string_of(accum))),
        }
        *accum = Vec::new();
    }
    assert(tokens_view(final(tokens)@) =~= flush(tokens_view(old(tokens)@), old(accum)@));
}

/// Splits source text into tokens. Never fails: malformed input gives tokens
/// that later stages reject.
pub fn parse_primitives(code: &String) -> (tokens: Vec<PrimitiveToken>)
    ensures
        tokens_view(tokens@) == lex(code@),
{
    let cs = chars_of(code);
    let mut tokens: Vec<PrimitiveToken> = Vec::new();
    let mut word_accumulator: Vec<char> = Vec::new();
    let mut in_comment = false;
    let mut in_string = false;
    let mut i: usize = 0;
    assert(tokens_view(tokens@) =~= Seq::<TokenModel>::empty());
    while i < cs.len()
        invariant
            i <= cs.len(),
            cs@ == code@,
            !(in_comment && in_string),
            ({
                let st = lex_prefix(cs@, i as int);
                &&& tokens_view(tokens@) == st.tokens
                &&& word_accumulator@ == st.word
                &&& in_comment == (st.mode is Comment)
                &&& in_string == (st.mode is InString)
            }),
        decreases cs.len() - i,
    {
        let c = cs[i];
        if in_comment {
            if c == '\n' {
                in_comment = false;
            }
        } else if in_string {
            if c == '"' {
                in_string = false;
                let s = string_of(&word_accumulator);
                tokens.push(PrimitiveToken::StringLiteral(s));
                word_accumulator = Vec::new();
            } else {
                word_accumulator.push(c);
            }
        } else {
            if c == '(' || c == '[' {
                split_word(&mut word_accumulator, &mut tokens);
                tokens.push(PrimitiveToken::LeftParen);
            } else if c == ')' || c == ']' {
                split_word(&mut word_accumulator, &mut tokens);
                tokens.push(PrimitiveToken::RightParen);
            } else if c == ' ' || c == '\n' || c == '\t' || c == '\r' {
                split_word(&mut word_accumulator, &mut tokens);
            } else if c == ';' {
                split_word(&mut word_accumulator, &mut tokens);
                in_comment = true;
            } else if c == '"' {
                split_word(&mut word_accumulator, &mut tokens);
                in_string = true;
            } else if c == '\'' {
                split_word(&mut word_accumulator, &mut tokens);
                tokens.push(PrimitiveToken::Quote);
            } else {
                word_accumulator.push(c);
            }
        }
        i = i + 1;
        assert(tokens_view(tokens@) =~= lex_prefix(cs@, i as int).tokens);
    }
    if !in_comment && !in_string {
        split_word(&mut word_accumulator, &mut tokens);
    }
    tokens
}

} // verus!
