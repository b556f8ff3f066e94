//! The lexer: splits the text of a schema into tokens.
//!
//! A word is a run of letters, digits and `_` that starts with a letter or
//! `_`; the words that the grammar uses are keywords. A number is a run of
//! digits. A string stands between double quotes on one line. The
//! punctuation marks are `{`, `}`, `.` and `,`. A comment that starts with
//! `#` documents what follows it and is kept as a token; a comment that
//! starts with `//` is dropped. Every line that holds a token other than
//! a comment ends with an end-of-line token.

use vstd::prelude::*;

use super::bytes::{copy_range, is_lit, lit};

verus! {

/// The kinds of token.
#[derive(Clone, Copy, Debug, PartialEq, Eq, Structural)]
pub enum TokenKind {
    Keyword,
    Identifier,
    Number,
    Str,
    Punct,
    Doc,
    Eol,
}

/// A token: its kind, the line it stands on, counted from 1, and the
/// place of its text in the source, from `start` up to `end`. The text of
/// a string is what stands between the quotes, that of a comment what
/// follows the `#` and one blank.
#[derive(Clone, Copy, Debug, PartialEq, Eq, Structural)]
pub struct Token {
    pub kind: TokenKind,
    pub line: usize,
    pub start: usize,
    pub end: usize,
}

/// A byte that no token can start with, or a string without its closing
/// quote: the line, and the text from there on, up to 16 bytes of it.
#[derive(Debug)]
pub struct LexError {
    pub line: usize,
    pub excerpt: Vec<u8>,
}

/// The view of a [`LexError`].
pub struct LexErrorView {
    pub line: usize,
    pub excerpt: Seq<u8>,
}

impl DeepView for LexError {
    type V = LexErrorView;

    open spec fn deep_view(&self) -> LexErrorView {
        LexErrorView { line: self.line, excerpt: self.excerpt@ }
    }
}

/// The classes of bytes that make up runs.
#[derive(Clone, Copy, Debug, PartialEq, Eq, Structural)]
pub enum Class {
    /// Letters, digits and `_`.
    Word,
    /// Digits.
    Digit,
    /// Everything but the end of the line.
    Line,
    /// Everything but a double quote and the end of the line.
    Quoted,
}

/// Whether a byte belongs to a class.
pub open spec fn in_class(c: Class, b: u8) -> bool {
    match c {
        Class::Word => (0x30 <= b <= 0x39) || (0x41 <= b <= 0x5a) || (0x61 <= b <= 0x7a) || b
            == 0x5f,
        Class::Digit => 0x30 <= b <= 0x39,
        Class::Line => b != 0x0a,
        Class::Quoted => b != 0x0a && b != 0x22,
    }
}

/// How many bytes of the class follow one another from `from` on.
pub open spec fn run(text: Seq<u8>, from: int, c: Class) -> nat
    decreases text.len() - from,
{
    if 0 <= from < text.len() && in_class(c, text[from]) {
        1 + run(text, from + 1, c)
    } else {
        0
    }
}

/// A run ends within the text.
pub proof fn lemma_run(text: Seq<u8>, from: int, c: Class)
    requires
        0 <= from <= text.len(),
    ensures
        from + run(text, from, c) <= text.len(),
    decreases text.len() - from,
{
    if from < text.len() && in_class(c, text[from]) {
        lemma_run(text, from + 1, c);
    }
}

/// Whether a word is a keyword of the grammar.
pub open spec fn is_keyword(word: Seq<u8>) -> bool {
    word == lit("version") || word == lit("domain") || word == lit("dependencies") || word == lit(
        "type",
    ) || word == lit("extends") || word == lit("enum") || word == lit("object") || word == lit(
        "array",
    ) || word == lit("of") || word == lit("command") || word == lit("event") || word == lit(
        "parameters",
    ) || word == lit("returns") || word == lit("redirect") || word == lit("experimental") || word
        == lit("deprecated") || word == lit("optional") || word == lit("integer") || word == lit(
        "number",
    ) || word == lit("string") || word == lit("boolean") || word == lit("any") || word == lit(
        "binary",
    )
}

/// Whether a byte can start a word: a letter or `_`.
pub open spec fn is_word_start(b: u8) -> bool {
    (0x41 <= b <= 0x5a) || (0x61 <= b <= 0x7a) || b == 0x5f
}

/// Whether a byte is blank: a space, a tab or a carriage return.
pub open spec fn is_blank(b: u8) -> bool {
    b == 0x20 || b == 0x09 || b == 0x0d
}

/// Whether a byte is a punctuation mark.
pub open spec fn is_punct(b: u8) -> bool {
    b == 0x7b || b == 0x7d || b == 0x2e || b == 0x2c
}

/// A count of lines as a machine number: it stops at the largest.
pub open spec fn clip(line: nat) -> usize {
    if line <= usize::MAX {
        line as usize
    } else {
        usize::MAX
    }
}

/// The tokens with the end of a line after them, if the line held one.
pub open spec fn close_line(acc: Seq<Token>, busy: bool, line: nat, pos: int) -> Seq<Token> {
    if busy {
        acc.push(
            Token { kind: TokenKind::Eol, line: clip(line), start: pos as usize, end: pos as usize },
        )
    } else {
        acc
    }
}

/// The error for the byte at `pos`.
pub open spec fn lex_error(text: Seq<u8>, pos: int, line: nat) -> LexErrorView {
    let len = run(text, pos, Class::Line);
    LexErrorView {
        line: clip(line),
        excerpt: text.subrange(pos, pos + if len <= 16 {
            len as int
        } else {
            16
        }),
    }
}

/// `acc` followed by the tokens of the text from `pos` on, where `line` is
/// the line of `pos` and `busy` says whether that line holds a token
/// already.
pub open spec fn lex_from(text: Seq<u8>, pos: int, line: nat, busy: bool, acc: Seq<Token>) -> Result<
    Seq<Token>,
    LexErrorView,
>
    decreases text.len() - pos,
{
    if pos < 0 || pos >= text.len() {
        Ok(close_line(acc, busy, line, text.len() as int))
    } else {
        proof {
            lemma_run(text, pos + 1, Class::Line);
            lemma_run(text, pos + 1, Class::Word);
            lemma_run(text, pos + 1, Class::Digit);
            lemma_run(text, pos + 1, Class::Quoted);
            if pos + 2 <= text.len() {
                lemma_run(text, pos + 2, Class::Line);
            }
        }
        let b = text[pos];
        if b == 0x0a {
            lex_from(text, pos + 1, line + 1, false, close_line(acc, busy, line, pos))
        } else if is_blank(b) {
            lex_from(text, pos + 1, line, busy, acc)
        } else if b == 0x23 {
            let start = if pos + 1 < text.len() && text[pos + 1] == 0x20 {
                pos + 2
            } else {
                pos + 1
            };
            let end = start + run(text, start, Class::Line);
            lex_from(
                text,
                end,
                line,
                busy,
                acc.push(
                    Token {
                        kind: TokenKind::Doc,
                        line: clip(line),
                        start: start as usize,
                        end: end as usize,
                    },
                ),
            )
        } else if b == 0x2f && pos + 1 < text.len() && text[pos + 1] == 0x2f {
            lex_from(text, pos + 2 + run(text, pos + 2, Class::Line), line, busy, acc)
        } else if is_word_start(b) {
            let end = pos + 1 + run(text, pos + 1, Class::Word);
            let kind = if is_keyword(text.subrange(pos, end)) {
                TokenKind::Keyword
            } else {
                TokenKind::Identifier
            };
            lex_from(
                text,
                end,
                line,
                true,
                acc.push(Token { kind, line: clip(line), start: pos as usize, end: end as usize }),
            )
        } else if in_class(Class::Digit, b) {
            let end = pos + 1 + run(text, pos + 1, Class::Digit);
            lex_from(
                text,
                end,
                line,
                true,
                acc.push(
                    Token {
                        kind: TokenKind::Number,
                        line: clip(line),
                        start: pos as usize,
                        end: end as usize,
                    },
                ),
            )
        } else if b == 0x22 {
            let close = pos + 1 + run(text, pos + 1, Class::Quoted);
            if close < text.len() && text[close] == 0x22 {
                lex_from(
                    text,
                    close + 1,
                    line,
                    true,
                    acc.push(
                        Token {
                            kind: TokenKind::Str,
                            line: clip(line),
                            start: (pos + 1) as usize,
                            end: close as usize,
                        },
                    ),
                )
            } else {
                Err(lex_error(text, pos, line))
            }
        } else if is_punct(b) {
            lex_from(
                text,
                pos + 1,
                line,
                true,
                acc.push(
                    Token {
                        kind: TokenKind::Punct,
                        line: clip(line),
                        start: pos as usize,
                        end: (pos + 1) as usize,
                    },
                ),
            )
        } else {
            Err(lex_error(text, pos, line))
        }
    }
}

/// The tokens of a text, or the first place where there is none.
pub open spec fn tokens_of(text: Seq<u8>) -> Result<Seq<Token>, LexErrorView> {
    lex_from(text, 0, 1, false, Seq::empty())
}

/// Whether every token lies within a text of `len` bytes, and every
/// punctuation mark is one byte of it.
pub open spec fn tokens_fit(tokens: Seq<Token>, len: int) -> bool {
    forall|i: int|
        0 <= i < tokens.len() ==> {
            let t = #[trigger] tokens[i];
            t.start <= t.end <= len && (t.kind == TokenKind::Punct ==> t.start < t.end)
        }
}

/// Whether a byte belongs to a class.
pub fn class_has(c: Class, b: u8) -> (r: bool)
    ensures
        r == in_class(c, b),
{
    match c {
        Class::Word => (0x30 <= b && b <= 0x39) || (0x41 <= b && b <= 0x5a) || (0x61 <= b && b
            <= 0x7a) || b == 0x5f,
        Class::Digit => 0x30 <= b && b <= 0x39,
        Class::Line => b != 0x0a,
        Class::Quoted => b != 0x0a && b != 0x22,
    }
}

/// Finds the end of the run of a class that starts at `from`.
pub fn skip_run(text: &[u8], from: usize, c: Class) -> (r: usize)
    requires
        from <= text@.len(),
    ensures
        r == from + run(text@, from as int, c),
        from <= r <= text@.len(),
{
    let mut i: usize = from;
    while i < text.len() && class_has(c, text[i])
        invariant
            from <= i <= text@.len(),
            from + run(text@, from as int, c) == i + run(text@, i as int, c),
        decreases text@.len() - i,
    {
        i += 1;
    }
    i
}

/// Whether a word is a keyword of the grammar.
pub fn keyword(word: &[u8]) -> (r: bool)
    ensures
        r == is_keyword(word@),
{
    is_lit(word, "version") || is_lit(word, "domain") || is_lit(word, "dependencies") || is_lit(
        word,
        "type",
    ) || is_lit(word, "extends") || is_lit(word, "enum") || is_lit(word, "object") || is_lit(
        word,
        "array",
    ) || is_lit(word, "of") || is_lit(word, "command") || is_lit(word, "event") || is_lit(
        word,
        "parameters",
    ) || is_lit(word, "returns") || is_lit(word, "redirect") || is_lit(word, "experimental")
        || is_lit(word, "deprecated") || is_lit(word, "optional") || is_lit(word, "integer")
        || is_lit(word, "number") || is_lit(word, "string") || is_lit(word, "boolean") || is_lit(
        word,
        "any",
    ) || is_lit(word, "binary")
}

/// The error for the byte at `pos`.
fn error_at(text: &[u8], pos: usize, line: usize, Ghost(count): Ghost<nat>) -> (r: LexError)
    requires
        pos <= text@.len(),
        line == clip(count),
    ensures
        r.deep_view() == lex_error(text@, pos as int, count),
{
    let end = skip_run(text, pos, Class::Line);
    let stop = if end - pos <= 16 {
        end
    } else {
        pos + 16
    };
    LexError { line, excerpt: copy_range(text, pos, stop) }
}

/// Splits the text of a schema into tokens. The first byte that no token
/// can start with, or the first string that its line does not close, is
/// an error.
#[verifier::rlimit(40)]
pub fn lex(text: &[u8]) -> (r: Result<Vec<Token>, LexError>)
    ensures
        match tokens_of(text@) {
            Ok(tokens) => r matches Ok(v) && v@ == tokens && tokens_fit(tokens, text@.len() as int),
            Err(e) => r matches Err(x) && x.deep_view() == e,
        },
{
    let ghost tv = text@;
    let n = text.len();
    let mut tokens: Vec<Token> = Vec::new();
    let mut pos: usize = 0;
    let mut line: usize = 1;
    let ghost mut count: nat = 1;
    let mut busy = false;
    while pos < n
        invariant
            pos <= n,
            n == text@.len(),
            tv == text@,
            line == clip(count),
            tokens_fit(tokens@, n as int),
            tokens_of(tv) == lex_from(tv, pos as int, count, busy, tokens@),
        decreases n - pos,
    {
        let b = text[pos];
        if b == 0x0a {
            if busy {
                tokens.push(Token { kind: TokenKind::Eol, line, start: pos, end: pos });
            }
            busy = false;
            if line < usize::MAX {
                line += 1;
            }
            proof {
                count = count + 1;
            }
            pos += 1;
        } else if b == 0x20 || b == 0x09 || b == 0x0d {
            pos += 1;
        } else if b == 0x23 {
            let start = if pos + 1 < n && text[pos + 1] == 0x20 {
                pos + 2
            } else {
                pos + 1
            };
            let end = skip_run(text, start, Class::Line);
            tokens.push(Token { kind: TokenKind::Doc, line, start, end });
            pos = end;
        } else if b == 0x2f && pos + 1 < n && text[pos + 1] == 0x2f {
            pos = skip_run(text, pos + 2, Class::Line);
        } else if (0x41 <= b && b <= 0x5a) || (0x61 <= b && b <= 0x7a) || b == 0x5f {
            let end = skip_run(text, pos + 1, Class::Word);
            let word = copy_range(text, pos, end);
            let kind = if keyword(word.as_slice()) {
                TokenKind::Keyword
            } else {
                TokenKind::Identifier
            };
            tokens.push(Token { kind, line, start: pos, end });
            busy = true;
            pos = end;
        } else if 0x30 <= b && b <= 0x39 {
            let end = skip_run(text, pos + 1, Class::Digit);
            tokens.push(Token { kind: TokenKind::Number, line, start: pos, end });
            busy = true;
            pos = end;
        } else if b == 0x22 {
            let close = skip_run(text, pos + 1, Class::Quoted);
            if close < n && text[close] == 0x22 {
                tokens.push(Token { kind: TokenKind::Str, line, start: pos + 1, end: close });
                busy = true;
                pos = close + 1;
            } else {
                return Err(error_at(text, pos, line, Ghost(count)));
            }
        } else if b == 0x7b || b == 0x7d || b == 0x2e || b == 0x2c {
            tokens.push(Token { kind: TokenKind::Punct, line, start: pos, end: pos + 1 });
            busy = true;
            pos += 1;
        } else {
            return Err(error_at(text, pos, line, Ghost(count)));
        }
    }
    if busy {
        tokens.push(Token { kind: TokenKind::Eol, line, start: n, end: n });
    }
    Ok(tokens)
}

} // verus!
