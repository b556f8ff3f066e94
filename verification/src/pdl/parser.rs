//! The parser: builds the domains of one schema file from its tokens.
//!
//! The grammar, line by line, where `Eol` is the end of a line, a name is
//! any word, and `[..]` may be missing and `{..}` repeated:
//!
//! ```text
//! file     := 'version' Number '.' Number Eol { domain }
//! domain   := docs tier 'domain' name [ 'dependencies' name { ',' name } ] '{' Eol
//!                 { member } '}' Eol
//! member   := docs tier ( type | command | event )
//! type     := 'type' name 'redirect' name '.' name Eol
//!           | 'type' name 'extends' shape Eol
//! shape    := 'enum' '{' Eol { docs String Eol } '}'
//!           | 'object' block
//!           | 'array' 'of' ref
//!           | ref
//! command  := 'command' name [ 'redirect' name '.' name ] [ 'parameters' block ]
//!                 [ 'returns' block ] Eol
//! event    := 'event' name [ 'parameters' block ] Eol
//! block    := '{' Eol { property } '}'
//! property := docs { 'experimental' | 'deprecated' | 'optional' } ref name Eol
//! ref      := [ 'array' 'of' ] ( scalar | name [ '.' name ] )
//! docs     := { Doc }
//! tier     := { 'experimental' | 'deprecated' }
//! ```
//!
//! The parser checks the shape of the file alone: it resolves no name.

use vstd::prelude::*;

use super::bytes::{copy_range, is_lit, lit, push_bytes};
use super::lexer::{tokens_fit, Token, TokenKind};
use super::model::{
    lemma_push_deep_view, Command, CommandView, Domain, DomainView, Event, EventView, Member,
    MemberView, Primitive, Property, PropertyView, QualifiedName, QualifiedNameView, RefTarget,
    RefTargetView, Stability, TypeDef, TypeDefView, TypeKind, TypeKindView, TypeRef, TypeRefView,
};

verus! {

/// What the parser looked for where it found something else.
#[derive(Clone, Copy, Debug, PartialEq, Eq, Structural)]
pub enum Expected {
    /// The word `version` that a file begins with.
    Version,
    Number,
    Dot,
    EndOfLine,
    /// The word `domain`.
    Domain,
    Name,
    OpenBrace,
    /// The brace that closes a block, where the file ends before it.
    CloseBrace,
    /// One of the words `type`, `command` and `event`.
    Definition,
    /// One of the words `extends` and `redirect`.
    Extends,
    /// The word `of`.
    Of,
    /// The string of a variant.
    Variant,
}

/// A place where the file does not follow the grammar: the line, what the
/// grammar asks for there, and the text of the token that stands there. At
/// the end of the file the text is empty and the line is that of the last
/// token.
#[derive(Debug)]
pub struct ParseError {
    pub line: usize,
    pub expected: Expected,
    pub found: Vec<u8>,
}

/// The view of a [`ParseError`].
pub struct ParseErrorView {
    pub line: usize,
    pub expected: Expected,
    pub found: Seq<u8>,
}

impl DeepView for ParseError {
    type V = ParseErrorView;

    open spec fn deep_view(&self) -> ParseErrorView {
        ParseErrorView { line: self.line, expected: self.expected, found: self.found@ }
    }
}

/// The markers that may stand in front of a definition or a property.
#[derive(Clone, Copy, Debug, PartialEq, Eq, Structural)]
pub struct Flags {
    pub experimental: bool,
    pub deprecated: bool,
    pub optional: bool,
}

/// What a schema file holds.
#[derive(Debug)]
pub struct SchemaFile {
    /// The version of the protocol: the two numbers of the header with a
    /// dot between.
    pub version: Vec<u8>,
    pub domains: Vec<Domain>,
}

/// The view of a [`SchemaFile`].
pub struct SchemaFileView {
    pub version: Seq<u8>,
    pub domains: Seq<DomainView>,
}

impl DeepView for SchemaFile {
    type V = SchemaFileView;

    open spec fn deep_view(&self) -> SchemaFileView {
        SchemaFileView { version: self.version@, domains: self.domains.deep_view() }
    }
}

/// The text of the token at `pos`, or nothing beyond the last token.
pub open spec fn text_of(text: Seq<u8>, toks: Seq<Token>, pos: int) -> Seq<u8> {
    if 0 <= pos < toks.len() {
        text.subrange(toks[pos].start as int, toks[pos].end as int)
    } else {
        Seq::empty()
    }
}

/// Whether the token at `pos` is of a kind.
pub open spec fn is_kind_at(toks: Seq<Token>, pos: int, kind: TokenKind) -> bool {
    0 <= pos < toks.len() && toks[pos].kind == kind
}

/// Whether the token at `pos` is a word.
pub open spec fn is_word_at(toks: Seq<Token>, pos: int) -> bool {
    is_kind_at(toks, pos, TokenKind::Keyword) || is_kind_at(toks, pos, TokenKind::Identifier)
}

/// Whether the token at `pos` is the word `word`.
pub open spec fn is_kw_at(text: Seq<u8>, toks: Seq<Token>, pos: int, word: &str) -> bool {
    is_word_at(toks, pos) && text_of(text, toks, pos) == lit(word)
}

/// Whether the token at `pos` is the punctuation mark `mark`.
pub open spec fn is_punct_at(text: Seq<u8>, toks: Seq<Token>, pos: int, mark: u8) -> bool {
    is_kind_at(toks, pos, TokenKind::Punct) && text[toks[pos].start as int] == mark
}

/// The error for the token at `pos`.
pub open spec fn fail(text: Seq<u8>, toks: Seq<Token>, pos: int, expected: Expected) -> ParseErrorView {
    ParseErrorView {
        line: if 0 <= pos < toks.len() {
            toks[pos].line
        } else if toks.len() > 0 {
            toks[toks.len() - 1].line
        } else {
            0
        },
        expected,
        found: text_of(text, toks, pos),
    }
}

/// `acc` followed by the comments from `pos` on, one per line, and the
/// place of the first token that is none.
pub open spec fn docs_from(text: Seq<u8>, toks: Seq<Token>, pos: int, acc: Seq<u8>, any: bool) -> (
    Seq<u8>,
    int,
)
    decreases toks.len() - pos,
{
    if is_kind_at(toks, pos, TokenKind::Doc) {
        let sep = if any {
            acc + seq![0x0au8]
        } else {
            acc
        };
        docs_from(text, toks, pos + 1, sep + text_of(text, toks, pos), true)
    } else {
        (acc, pos)
    }
}

/// The comments from `pos` on, and the place behind them.
pub open spec fn docs(text: Seq<u8>, toks: Seq<Token>, pos: int) -> (Seq<u8>, int) {
    docs_from(text, toks, pos, Seq::empty(), false)
}

/// The comments end at or behind where they start, within the tokens.
pub proof fn lemma_docs_from(text: Seq<u8>, toks: Seq<Token>, pos: int, acc: Seq<u8>, any: bool)
    requires
        0 <= pos <= toks.len(),
    ensures
        pos <= docs_from(text, toks, pos, acc, any).1 <= toks.len(),
    decreases toks.len() - pos,
{
    if is_kind_at(toks, pos, TokenKind::Doc) {
        let sep = if any {
            acc + seq![0x0au8]
        } else {
            acc
        };
        lemma_docs_from(text, toks, pos + 1, sep + text_of(text, toks, pos), true);
    }
}

/// `acc` with the markers from `pos` on, and the place behind them. The
/// marker `optional` counts only where `with_optional` says so.
pub open spec fn flags_from(
    text: Seq<u8>,
    toks: Seq<Token>,
    pos: int,
    with_optional: bool,
    acc: Flags,
) -> (Flags, int)
    decreases toks.len() - pos,
{
    if is_kw_at(text, toks, pos, "experimental") {
        flags_from(
            text,
            toks,
            pos + 1,
            with_optional,
            Flags { experimental: true, deprecated: acc.deprecated, optional: acc.optional },
        )
    } else if is_kw_at(text, toks, pos, "deprecated") {
        flags_from(
            text,
            toks,
            pos + 1,
            with_optional,
            Flags { experimental: acc.experimental, deprecated: true, optional: acc.optional },
        )
    } else if with_optional && is_kw_at(text, toks, pos, "optional") {
        flags_from(
            text,
            toks,
            pos + 1,
            with_optional,
            Flags { experimental: acc.experimental, deprecated: acc.deprecated, optional: true },
        )
    } else {
        (acc, pos)
    }
}

/// The markers from `pos` on, and the place behind them.
pub open spec fn flags(text: Seq<u8>, toks: Seq<Token>, pos: int, with_optional: bool) -> (
    Flags,
    int,
) {
    flags_from(
        text,
        toks,
        pos,
        with_optional,
        Flags { experimental: false, deprecated: false, optional: false },
    )
}

/// The scalar that a word names.
pub open spec fn scalar_named(word: Seq<u8>) -> Option<Primitive> {
    if word == lit("integer") {
        Some(Primitive::Integer)
    } else if word == lit("number") {
        Some(Primitive::Number)
    } else if word == lit("string") {
        Some(Primitive::String)
    } else if word == lit("boolean") {
        Some(Primitive::Boolean)
    } else if word == lit("any") {
        Some(Primitive::Any)
    } else if word == lit("binary") {
        Some(Primitive::Binary)
    } else {
        None
    }
}

/// What a reference at `pos` names: a scalar, or a type by its name, with
/// the name of its domain and a dot in front or without.
pub open spec fn target_at(text: Seq<u8>, toks: Seq<Token>, pos: int) -> Result<
    (RefTargetView, int),
    ParseErrorView,
> {
    if !is_word_at(toks, pos) {
        Err(fail(text, toks, pos, Expected::Name))
    } else {
        match scalar_named(text_of(text, toks, pos)) {
            Some(p) => Ok((RefTargetView::Primitive(p), pos + 1)),
            None => if is_punct_at(text, toks, pos + 1, 0x2e) {
                if is_word_at(toks, pos + 2) {
                    Ok(
                        (
                            RefTargetView::Named {
                                domain: Some(text_of(text, toks, pos)),
                                name: text_of(text, toks, pos + 2),
                            },
                            pos + 3,
                        ),
                    )
                } else {
                    Err(fail(text, toks, pos + 2, Expected::Name))
                }
            } else {
                Ok((RefTargetView::Named { domain: None, name: text_of(text, toks, pos) }, pos + 1))
            },
        }
    }
}

/// The reference at `pos`.
pub open spec fn ref_at(text: Seq<u8>, toks: Seq<Token>, pos: int) -> Result<
    (TypeRefView, int),
    ParseErrorView,
> {
    if is_kw_at(text, toks, pos, "array") {
        if is_kw_at(text, toks, pos + 1, "of") {
            match target_at(text, toks, pos + 2) {
                Ok((target, next)) => Ok((TypeRefView { array: true, target }, next)),
                Err(e) => Err(e),
            }
        } else {
            Err(fail(text, toks, pos + 1, Expected::Of))
        }
    } else {
        match target_at(text, toks, pos) {
            Ok((target, next)) => Ok((TypeRefView { array: false, target }, next)),
            Err(e) => Err(e),
        }
    }
}

/// The property at `pos`, with the comments that stand before it.
pub open spec fn property_at(text: Seq<u8>, toks: Seq<Token>, pos: int, description: Seq<u8>) -> Result<
    (PropertyView, int),
    ParseErrorView,
> {
    let (marks, pos1) = flags(text, toks, pos, true);
    match ref_at(text, toks, pos1) {
        Err(e) => Err(e),
        Ok((ty, pos2)) => if !is_word_at(toks, pos2) {
            Err(fail(text, toks, pos2, Expected::Name))
        } else if !is_kind_at(toks, pos2 + 1, TokenKind::Eol) {
            Err(fail(text, toks, pos2 + 1, Expected::EndOfLine))
        } else {
            Ok(
                (
                    PropertyView {
                        name: text_of(text, toks, pos2),
                        ty,
                        optional: marks.optional,
                        description,
                        stability: Stability {
                            experimental: marks.experimental,
                            deprecated: marks.deprecated,
                        },
                    },
                    pos2 + 2,
                ),
            )
        },
    }
}

/// `acc` followed by the properties from `pos` up to the closing brace,
/// and the place behind the brace.
pub open spec fn props_from(text: Seq<u8>, toks: Seq<Token>, pos: int, acc: Seq<PropertyView>) -> Result<
    (Seq<PropertyView>, int),
    ParseErrorView,
>
    decreases toks.len() - pos,
{
    let (description, pos1) = docs(text, toks, pos);
    if is_punct_at(text, toks, pos1, 0x7d) {
        Ok((acc, pos1 + 1))
    } else if pos1 >= toks.len() {
        Err(fail(text, toks, pos1, Expected::CloseBrace))
    } else {
        match property_at(text, toks, pos1, description) {
            Err(e) => Err(e),
            Ok((p, next)) => if pos < next <= toks.len() {
                props_from(text, toks, next, acc.push(p))
            } else {
                Err(fail(text, toks, pos, Expected::CloseBrace))
            },
        }
    }
}

/// The block of properties at `pos`, and the place behind its closing
/// brace.
pub open spec fn block_at(text: Seq<u8>, toks: Seq<Token>, pos: int) -> Result<
    (Seq<PropertyView>, int),
    ParseErrorView,
> {
    if !is_punct_at(text, toks, pos, 0x7b) {
        Err(fail(text, toks, pos, Expected::OpenBrace))
    } else if !is_kind_at(toks, pos + 1, TokenKind::Eol) {
        Err(fail(text, toks, pos + 1, Expected::EndOfLine))
    } else {
        props_from(text, toks, pos + 2, Seq::empty())
    }
}

/// `acc` followed by the variants from `pos` up to the closing brace, and
/// the place behind the brace.
pub open spec fn variants_from(text: Seq<u8>, toks: Seq<Token>, pos: int, acc: Seq<Seq<u8>>) -> Result<
    (Seq<Seq<u8>>, int),
    ParseErrorView,
>
    decreases toks.len() - pos,
{
    if pos < 0 || pos > toks.len() {
        Err(fail(text, toks, pos, Expected::CloseBrace))
    } else {
        proof {
            lemma_docs_from(text, toks, pos, Seq::empty(), false);
        }
        let pos1 = docs(text, toks, pos).1;
        if is_punct_at(text, toks, pos1, 0x7d) {
            Ok((acc, pos1 + 1))
        } else if pos1 >= toks.len() {
            Err(fail(text, toks, pos1, Expected::CloseBrace))
        } else if !is_kind_at(toks, pos1, TokenKind::Str) {
            Err(fail(text, toks, pos1, Expected::Variant))
        } else if !is_kind_at(toks, pos1 + 1, TokenKind::Eol) {
            Err(fail(text, toks, pos1 + 1, Expected::EndOfLine))
        } else {
            variants_from(text, toks, pos1 + 2, acc.push(text_of(text, toks, pos1)))
        }
    }
}

/// The shape of a type at `pos`, behind the word `extends`.
pub open spec fn shape_at(text: Seq<u8>, toks: Seq<Token>, pos: int) -> Result<
    (TypeKindView, int),
    ParseErrorView,
> {
    if is_kw_at(text, toks, pos, "enum") {
        if !is_punct_at(text, toks, pos + 1, 0x7b) {
            Err(fail(text, toks, pos + 1, Expected::OpenBrace))
        } else if !is_kind_at(toks, pos + 2, TokenKind::Eol) {
            Err(fail(text, toks, pos + 2, Expected::EndOfLine))
        } else {
            match variants_from(text, toks, pos + 3, Seq::empty()) {
                Ok((variants, next)) => Ok((TypeKindView::Enum(variants), next)),
                Err(e) => Err(e),
            }
        }
    } else if is_kw_at(text, toks, pos, "object") {
        match block_at(text, toks, pos + 1) {
            Ok((props, next)) => Ok((TypeKindView::Object(props), next)),
            Err(e) => Err(e),
        }
    } else if is_kw_at(text, toks, pos, "array") {
        if !is_kw_at(text, toks, pos + 1, "of") {
            Err(fail(text, toks, pos + 1, Expected::Of))
        } else {
            match ref_at(text, toks, pos + 2) {
                Ok((element, next)) => Ok((TypeKindView::Array(element), next)),
                Err(e) => Err(e),
            }
        }
    } else {
        match target_at(text, toks, pos) {
            Ok((RefTargetView::Primitive(p), next)) => Ok((TypeKindView::Primitive(p), next)),
            Ok((target, next)) => Ok(
                (TypeKindView::Reference(TypeRefView { array: false, target }), next),
            ),
            Err(e) => Err(e),
        }
    }
}

/// The type definition at `pos`, behind the word `type`.
pub open spec fn type_at(
    text: Seq<u8>,
    toks: Seq<Token>,
    pos: int,
    description: Seq<u8>,
    stability: Stability,
) -> Result<(TypeDefView, int), ParseErrorView> {
    if !is_word_at(toks, pos) {
        Err(fail(text, toks, pos, Expected::Name))
    } else if is_kw_at(text, toks, pos + 1, "redirect") {
        if !is_word_at(toks, pos + 2) {
            Err(fail(text, toks, pos + 2, Expected::Name))
        } else if !is_punct_at(text, toks, pos + 3, 0x2e) {
            Err(fail(text, toks, pos + 3, Expected::Dot))
        } else if !is_word_at(toks, pos + 4) {
            Err(fail(text, toks, pos + 4, Expected::Name))
        } else if !is_kind_at(toks, pos + 5, TokenKind::Eol) {
            Err(fail(text, toks, pos + 5, Expected::EndOfLine))
        } else {
            Ok(
                (
                    TypeDefView {
                        id: text_of(text, toks, pos),
                        description,
                        stability,
                        kind: TypeKindView::Redirect {
                            domain: text_of(text, toks, pos + 2),
                            name: text_of(text, toks, pos + 4),
                        },
                    },
                    pos + 6,
                ),
            )
        }
    } else if is_kw_at(text, toks, pos + 1, "extends") {
        match shape_at(text, toks, pos + 2) {
            Err(e) => Err(e),
            Ok((kind, next)) => if is_kind_at(toks, next, TokenKind::Eol) {
                Ok((TypeDefView { id: text_of(text, toks, pos), description, stability, kind }, next + 1))
            } else {
                Err(fail(text, toks, next, Expected::EndOfLine))
            },
        }
    } else {
        Err(fail(text, toks, pos + 1, Expected::Extends))
    }
}

/// The block that may follow the word `word` at `pos`: without the word
/// there are no properties.
pub open spec fn optional_block(text: Seq<u8>, toks: Seq<Token>, pos: int, word: &str) -> Result<
    (Seq<PropertyView>, int),
    ParseErrorView,
> {
    if is_kw_at(text, toks, pos, word) {
        block_at(text, toks, pos + 1)
    } else {
        Ok((Seq::empty(), pos))
    }
}

/// The command at `pos`, behind the word `command`.
pub open spec fn command_at(
    text: Seq<u8>,
    toks: Seq<Token>,
    pos: int,
    description: Seq<u8>,
    stability: Stability,
) -> Result<(CommandView, int), ParseErrorView> {
    if !is_word_at(toks, pos) {
        Err(fail(text, toks, pos, Expected::Name))
    } else if is_kw_at(text, toks, pos + 1, "redirect") && !is_word_at(toks, pos + 2) {
        Err(fail(text, toks, pos + 2, Expected::Name))
    } else if is_kw_at(text, toks, pos + 1, "redirect") && !is_punct_at(text, toks, pos + 3, 0x2e) {
        Err(fail(text, toks, pos + 3, Expected::Dot))
    } else if is_kw_at(text, toks, pos + 1, "redirect") && !is_word_at(toks, pos + 4) {
        Err(fail(text, toks, pos + 4, Expected::Name))
    } else {
        let redirect = if is_kw_at(text, toks, pos + 1, "redirect") {
            Some(
                QualifiedNameView {
                    domain: text_of(text, toks, pos + 2),
                    name: text_of(text, toks, pos + 4),
                },
            )
        } else {
            None
        };
        let pos1 = if is_kw_at(text, toks, pos + 1, "redirect") {
            pos + 5
        } else {
            pos + 1
        };
        match optional_block(text, toks, pos1, "parameters") {
            Err(e) => Err(e),
            Ok((parameters, pos2)) => match optional_block(text, toks, pos2, "returns") {
                Err(e) => Err(e),
                Ok((results, pos3)) => if is_kind_at(toks, pos3, TokenKind::Eol) {
                    Ok(
                        (
                            CommandView {
                                name: text_of(text, toks, pos),
                                description,
                                stability,
                                parameters,
                                returns: results,
                                redirect,
                            },
                            pos3 + 1,
                        ),
                    )
                } else {
                    Err(fail(text, toks, pos3, Expected::EndOfLine))
                },
            },
        }
    }
}

/// The event at `pos`, behind the word `event`.
pub open spec fn event_at(
    text: Seq<u8>,
    toks: Seq<Token>,
    pos: int,
    description: Seq<u8>,
    stability: Stability,
) -> Result<(EventView, int), ParseErrorView> {
    if !is_word_at(toks, pos) {
        Err(fail(text, toks, pos, Expected::Name))
    } else {
        match optional_block(text, toks, pos + 1, "parameters") {
            Err(e) => Err(e),
            Ok((parameters, pos2)) => if is_kind_at(toks, pos2, TokenKind::Eol) {
                Ok(
                    (
                        EventView { name: text_of(text, toks, pos), description, stability, parameters },
                        pos2 + 1,
                    ),
                )
            } else {
                Err(fail(text, toks, pos2, Expected::EndOfLine))
            },
        }
    }
}

/// The member at `pos`, with the comments that stand before it.
pub open spec fn member_at(text: Seq<u8>, toks: Seq<Token>, pos: int, description: Seq<u8>) -> Result<
    (MemberView, int),
    ParseErrorView,
> {
    let (marks, pos1) = flags(text, toks, pos, false);
    let stability = Stability { experimental: marks.experimental, deprecated: marks.deprecated };
    if is_kw_at(text, toks, pos1, "type") {
        match type_at(text, toks, pos1 + 1, description, stability) {
            Ok((t, next)) => Ok((MemberView::Type(t), next)),
            Err(e) => Err(e),
        }
    } else if is_kw_at(text, toks, pos1, "command") {
        match command_at(text, toks, pos1 + 1, description, stability) {
            Ok((c, next)) => Ok((MemberView::Command(c), next)),
            Err(e) => Err(e),
        }
    } else if is_kw_at(text, toks, pos1, "event") {
        match event_at(text, toks, pos1 + 1, description, stability) {
            Ok((e, next)) => Ok((MemberView::Event(e), next)),
            Err(e) => Err(e),
        }
    } else {
        Err(fail(text, toks, pos1, Expected::Definition))
    }
}

/// `acc` followed by the members from `pos` up to the closing brace, and
/// the place behind the brace.
pub open spec fn members_from(text: Seq<u8>, toks: Seq<Token>, pos: int, acc: Seq<MemberView>) -> Result<
    (Seq<MemberView>, int),
    ParseErrorView,
>
    decreases toks.len() - pos,
{
    let (description, pos1) = docs(text, toks, pos);
    if is_punct_at(text, toks, pos1, 0x7d) {
        Ok((acc, pos1 + 1))
    } else if pos1 >= toks.len() {
        Err(fail(text, toks, pos1, Expected::CloseBrace))
    } else {
        match member_at(text, toks, pos1, description) {
            Err(e) => Err(e),
            Ok((m, next)) => if pos < next <= toks.len() {
                members_from(text, toks, next, acc.push(m))
            } else {
                Err(fail(text, toks, pos, Expected::CloseBrace))
            },
        }
    }
}

/// `acc` followed by the names from `pos` on, with commas between, and
/// the place behind the last of them.
pub open spec fn names_from(text: Seq<u8>, toks: Seq<Token>, pos: int, acc: Seq<Seq<u8>>) -> Result<
    (Seq<Seq<u8>>, int),
    ParseErrorView,
>
    decreases toks.len() - pos,
{
    if !is_word_at(toks, pos) {
        Err(fail(text, toks, pos, Expected::Name))
    } else if is_punct_at(text, toks, pos + 1, 0x2c) {
        names_from(text, toks, pos + 2, acc.push(text_of(text, toks, pos)))
    } else {
        Ok((acc.push(text_of(text, toks, pos)), pos + 1))
    }
}

/// The domain at `pos`, with the comments that stand before it.
pub open spec fn domain_at(text: Seq<u8>, toks: Seq<Token>, pos: int, description: Seq<u8>) -> Result<
    (DomainView, int),
    ParseErrorView,
> {
    let (marks, pos1) = flags(text, toks, pos, false);
    let stability = Stability { experimental: marks.experimental, deprecated: marks.deprecated };
    if !is_kw_at(text, toks, pos1, "domain") {
        Err(fail(text, toks, pos1, Expected::Domain))
    } else if !is_word_at(toks, pos1 + 1) {
        Err(fail(text, toks, pos1 + 1, Expected::Name))
    } else {
        let listed = if is_kw_at(text, toks, pos1 + 2, "dependencies") {
            names_from(text, toks, pos1 + 3, Seq::empty())
        } else {
            Ok((Seq::empty(), pos1 + 2))
        };
        match listed {
            Err(e) => Err(e),
            Ok((dependencies, pos2)) => if !is_punct_at(text, toks, pos2, 0x7b) {
                Err(fail(text, toks, pos2, Expected::OpenBrace))
            } else if !is_kind_at(toks, pos2 + 1, TokenKind::Eol) {
                Err(fail(text, toks, pos2 + 1, Expected::EndOfLine))
            } else {
                match members_from(text, toks, pos2 + 2, Seq::empty()) {
                    Err(e) => Err(e),
                    Ok((members, pos3)) => if is_kind_at(toks, pos3, TokenKind::Eol) {
                        Ok(
                            (
                                DomainView {
                                    name: text_of(text, toks, pos1 + 1),
                                    description,
                                    stability,
                                    dependencies,
                                    members,
                                },
                                pos3 + 1,
                            ),
                        )
                    } else {
                        Err(fail(text, toks, pos3, Expected::EndOfLine))
                    },
                }
            },
        }
    }
}

/// `acc` followed by the domains from `pos` up to the end of the file.
pub open spec fn domains_from(text: Seq<u8>, toks: Seq<Token>, pos: int, acc: Seq<DomainView>) -> Result<
    Seq<DomainView>,
    ParseErrorView,
>
    decreases toks.len() - pos,
{
    let (description, pos1) = docs(text, toks, pos);
    if pos1 >= toks.len() {
        Ok(acc)
    } else {
        match domain_at(text, toks, pos1, description) {
            Err(e) => Err(e),
            Ok((d, next)) => if pos < next <= toks.len() {
                domains_from(text, toks, next, acc.push(d))
            } else {
                Err(fail(text, toks, pos, Expected::Domain))
            },
        }
    }
}

/// What the tokens of a file hold: the version of its header and its
/// domains, or the first place where the file does not follow the grammar.
pub open spec fn parsed(text: Seq<u8>, toks: Seq<Token>) -> Result<SchemaFileView, ParseErrorView> {
    if !is_kw_at(text, toks, 0, "version") {
        Err(fail(text, toks, 0, Expected::Version))
    } else if !is_kind_at(toks, 1, TokenKind::Number) {
        Err(fail(text, toks, 1, Expected::Number))
    } else if !is_punct_at(text, toks, 2, 0x2e) {
        Err(fail(text, toks, 2, Expected::Dot))
    } else if !is_kind_at(toks, 3, TokenKind::Number) {
        Err(fail(text, toks, 3, Expected::Number))
    } else if !is_kind_at(toks, 4, TokenKind::Eol) {
        Err(fail(text, toks, 4, Expected::EndOfLine))
    } else {
        match domains_from(text, toks, 5, Seq::empty()) {
            Ok(domains) => Ok(
                SchemaFileView {
                    version: text_of(text, toks, 1) + lit(".") + text_of(text, toks, 3),
                    domains,
                },
            ),
            Err(e) => Err(e),
        }
    }
}

/// Whether what the parser gives is what the grammar says, and lies
/// behind `pos` within the tokens.
pub open spec fn agree<T: DeepView>(
    r: Result<(T, usize), ParseError>,
    s: Result<(T::V, int), ParseErrorView>,
    pos: int,
    len: int,
) -> bool {
    match s {
        Ok((v, next)) => r matches Ok((x, n)) && x.deep_view() == v && n == next && pos < next
            <= len,
        Err(e) => r matches Err(x) && x.deep_view() == e,
    }
}

/// Whether the token `off` places behind `pos` is of a kind.
fn kind_is(toks: &[Token], pos: usize, off: usize, kind: TokenKind) -> (r: bool)
    requires
        pos <= toks.len(),
    ensures
        r == is_kind_at(toks@, pos + off, kind),
{
    if off < toks.len() - pos {
        toks[pos + off].kind == kind
    } else {
        false
    }
}

/// Whether the token `off` places behind `pos` is a word.
fn word_is(toks: &[Token], pos: usize, off: usize) -> (r: bool)
    requires
        pos <= toks.len(),
    ensures
        r == is_word_at(toks@, pos + off),
        r ==> pos + off < toks.len(),
{
    kind_is(toks, pos, off, TokenKind::Keyword) || kind_is(toks, pos, off, TokenKind::Identifier)
}

/// The text of the token `off` places behind `pos`.
fn token_text(text: &[u8], toks: &[Token], pos: usize, off: usize) -> (r: Vec<u8>)
    requires
        pos <= toks.len(),
        tokens_fit(toks@, text@.len() as int),
    ensures
        r@ == text_of(text@, toks@, pos + off),
{
    if off < toks.len() - pos {
        let t = toks[pos + off];
        copy_range(text, t.start, t.end)
    } else {
        let r: Vec<u8> = Vec::new();
        assert(r@ =~= Seq::<u8>::empty());
        r
    }
}

/// Whether the token `off` places behind `pos` is the word `word`.
fn kw_is(text: &[u8], toks: &[Token], pos: usize, off: usize, word: &str) -> (r: bool)
    requires
        pos <= toks.len(),
        tokens_fit(toks@, text@.len() as int),
    ensures
        r == is_kw_at(text@, toks@, pos + off, word),
        r ==> pos + off < toks.len(),
{
    if word_is(toks, pos, off) {
        let found = token_text(text, toks, pos, off);
        is_lit(found.as_slice(), word)
    } else {
        false
    }
}

/// Whether the token `off` places behind `pos` is the mark `mark`.
fn punct_is(text: &[u8], toks: &[Token], pos: usize, off: usize, mark: u8) -> (r: bool)
    requires
        pos <= toks.len(),
        tokens_fit(toks@, text@.len() as int),
    ensures
        r == is_punct_at(text@, toks@, pos + off, mark),
        r ==> pos + off < toks.len(),
{
    if kind_is(toks, pos, off, TokenKind::Punct) {
        let t = toks[pos + off];
        text[t.start] == mark
    } else {
        false
    }
}

/// The error for the token `off` places behind `pos`.
fn failure(text: &[u8], toks: &[Token], pos: usize, off: usize, expected: Expected) -> (r:
    ParseError)
    requires
        pos <= toks.len(),
        tokens_fit(toks@, text@.len() as int),
    ensures
        r.deep_view() == fail(text@, toks@, pos + off, expected),
{
    let line = if off < toks.len() - pos {
        toks[pos + off].line
    } else if toks.len() > 0 {
        toks[toks.len() - 1].line
    } else {
        0
    };
    ParseError { line, expected, found: token_text(text, toks, pos, off) }
}

/// Reads the comments from `pos` on.
fn read_docs(text: &[u8], toks: &[Token], pos: usize) -> (r: (Vec<u8>, usize))
    requires
        pos <= toks.len(),
        tokens_fit(toks@, text@.len() as int),
    ensures
        (r.0@, r.1 as int) == docs(text@, toks@, pos as int),
        pos <= r.1 <= toks.len(),
{
    let mut acc: Vec<u8> = Vec::new();
    assert(acc@ =~= Seq::<u8>::empty());
    let mut at: usize = pos;
    let mut any = false;
    while kind_is(toks, at, 0, TokenKind::Doc)
        invariant
            pos <= at <= toks.len(),
            tokens_fit(toks@, text@.len() as int),
            docs(text@, toks@, pos as int) == docs_from(text@, toks@, at as int, acc@, any),
        decreases toks.len() - at,
    {
        let ghost before = acc@;
        if any {
            acc.push(0x0a);
        }
        assert(acc@ =~= if any {
            before + seq![0x0au8]
        } else {
            before
        });
        let line = token_text(text, toks, at, 0);
        push_bytes(&mut acc, line.as_slice());
        any = true;
        at += 1;
    }
    (acc, at)
}

/// Reads the markers from `pos` on.
fn read_flags(text: &[u8], toks: &[Token], pos: usize, with_optional: bool) -> (r: (Flags, usize))
    requires
        pos <= toks.len(),
        tokens_fit(toks@, text@.len() as int),
    ensures
        (r.0, r.1 as int) == flags(text@, toks@, pos as int, with_optional),
        pos <= r.1 <= toks.len(),
{
    let mut acc = Flags { experimental: false, deprecated: false, optional: false };
    let mut at: usize = pos;
    loop
        invariant
            pos <= at <= toks.len(),
            tokens_fit(toks@, text@.len() as int),
            flags(text@, toks@, pos as int, with_optional) == flags_from(
                text@,
                toks@,
                at as int,
                with_optional,
                acc,
            ),
        ensures
            pos <= at <= toks.len(),
            (acc, at as int) == flags(text@, toks@, pos as int, with_optional),
        decreases toks.len() - at,
    {
        if kw_is(text, toks, at, 0, "experimental") {
            acc = Flags { experimental: true, deprecated: acc.deprecated, optional: acc.optional };
        } else if kw_is(text, toks, at, 0, "deprecated") {
            acc = Flags { experimental: acc.experimental, deprecated: true, optional: acc.optional };
        } else if with_optional && kw_is(text, toks, at, 0, "optional") {
            acc = Flags { experimental: acc.experimental, deprecated: acc.deprecated, optional: true };
        } else {
            break;
        }
        at += 1;
    }
    (acc, at)
}

/// The scalar that a word names.
fn scalar_of(word: &[u8]) -> (r: Option<Primitive>)
    ensures
        r == scalar_named(word@),
{
    if is_lit(word, "integer") {
        Some(Primitive::Integer)
    } else if is_lit(word, "number") {
        Some(Primitive::Number)
    } else if is_lit(word, "string") {
        Some(Primitive::String)
    } else if is_lit(word, "boolean") {
        Some(Primitive::Boolean)
    } else if is_lit(word, "any") {
        Some(Primitive::Any)
    } else if is_lit(word, "binary") {
        Some(Primitive::Binary)
    } else {
        None
    }
}

/// Parses what a reference names.
fn parse_target(text: &[u8], toks: &[Token], pos: usize) -> (r: Result<(RefTarget, usize), ParseError>)
    requires
        pos <= toks.len(),
        tokens_fit(toks@, text@.len() as int),
    ensures
        agree(r, target_at(text@, toks@, pos as int), pos as int, toks.len() as int),
{
    if !word_is(toks, pos, 0) {
        return Err(failure(text, toks, pos, 0, Expected::Name));
    }
    let word = token_text(text, toks, pos, 0);
    match scalar_of(word.as_slice()) {
        Some(p) => Ok((RefTarget::Primitive(p), pos + 1)),
        None => {
            if punct_is(text, toks, pos, 1, 0x2e) {
                if word_is(toks, pos, 2) {
                    let name = token_text(text, toks, pos, 2);
                    Ok((RefTarget::Named { domain: Some(word), name }, pos + 3))
                } else {
                    Err(failure(text, toks, pos, 2, Expected::Name))
                }
            } else {
                Ok((RefTarget::Named { domain: None, name: word }, pos + 1))
            }
        },
    }
}

/// Parses a reference.
fn parse_ref(text: &[u8], toks: &[Token], pos: usize) -> (r: Result<(TypeRef, usize), ParseError>)
    requires
        pos <= toks.len(),
        tokens_fit(toks@, text@.len() as int),
    ensures
        agree(r, ref_at(text@, toks@, pos as int), pos as int, toks.len() as int),
{
    if kw_is(text, toks, pos, 0, "array") {
        if kw_is(text, toks, pos, 1, "of") {
            match parse_target(text, toks, pos + 2) {
                Ok((target, next)) => Ok((TypeRef { array: true, target }, next)),
                Err(e) => Err(e),
            }
        } else {
            Err(failure(text, toks, pos, 1, Expected::Of))
        }
    } else {
        match parse_target(text, toks, pos) {
            Ok((target, next)) => Ok((TypeRef { array: false, target }, next)),
            Err(e) => Err(e),
        }
    }
}

/// Parses a property.
#[verifier::rlimit(40)]
fn parse_property(text: &[u8], toks: &[Token], pos: usize, description: Vec<u8>) -> (r: Result<
    (Property, usize),
    ParseError,
>)
    requires
        pos <= toks.len(),
        tokens_fit(toks@, text@.len() as int),
    ensures
        agree(r, property_at(text@, toks@, pos as int, description@), pos as int, toks.len() as int),
{
    let (marks, pos1) = read_flags(text, toks, pos, true);
    match parse_ref(text, toks, pos1) {
        Err(e) => Err(e),
        Ok((ty, pos2)) => {
            if !word_is(toks, pos2, 0) {
                Err(failure(text, toks, pos2, 0, Expected::Name))
            } else if !kind_is(toks, pos2, 1, TokenKind::Eol) {
                Err(failure(text, toks, pos2, 1, Expected::EndOfLine))
            } else {
                Ok(
                    (
                        Property {
                            name: token_text(text, toks, pos2, 0),
                            ty,
                            optional: marks.optional,
                            description,
                            stability: Stability {
                                experimental: marks.experimental,
                                deprecated: marks.deprecated,
                            },
                        },
                        pos2 + 2,
                    ),
                )
            }
        },
    }
}

/// Parses the properties of a block, behind its opening line.
fn parse_props(text: &[u8], toks: &[Token], start: usize) -> (r: Result<
    (Vec<Property>, usize),
    ParseError,
>)
    requires
        start <= toks.len(),
        tokens_fit(toks@, text@.len() as int),
    ensures
        agree(
            r,
            props_from(text@, toks@, start as int, Seq::empty()),
            start as int,
            toks.len() as int,
        ),
{
    let mut acc: Vec<Property> = Vec::new();
    assert(acc.deep_view() =~= Seq::<PropertyView>::empty());
    let mut pos: usize = start;
    loop
        invariant
            start <= pos <= toks.len(),
            tokens_fit(toks@, text@.len() as int),
            props_from(text@, toks@, start as int, Seq::empty()) == props_from(
                text@,
                toks@,
                pos as int,
                acc.deep_view(),
            ),
        decreases toks.len() - pos,
    {
        let (description, pos1) = read_docs(text, toks, pos);
        if punct_is(text, toks, pos1, 0, 0x7d) {
            return Ok((acc, pos1 + 1));
        }
        if pos1 >= toks.len() {
            return Err(failure(text, toks, pos1, 0, Expected::CloseBrace));
        }
        match parse_property(text, toks, pos1, description) {
            Err(e) => {
                return Err(e);
            },
            Ok((p, next)) => {
                let ghost before = acc;
                acc.push(p);
                proof {
                    lemma_push_deep_view(before, acc, p);
                }
                pos = next;
            },
        }
    }
}

/// Parses a block of properties.
fn parse_block(text: &[u8], toks: &[Token], pos: usize) -> (r: Result<
    (Vec<Property>, usize),
    ParseError,
>)
    requires
        pos <= toks.len(),
        tokens_fit(toks@, text@.len() as int),
    ensures
        agree(r, block_at(text@, toks@, pos as int), pos as int, toks.len() as int),
{
    if !punct_is(text, toks, pos, 0, 0x7b) {
        Err(failure(text, toks, pos, 0, Expected::OpenBrace))
    } else if !kind_is(toks, pos, 1, TokenKind::Eol) {
        Err(failure(text, toks, pos, 1, Expected::EndOfLine))
    } else {
        parse_props(text, toks, pos + 2)
    }
}

/// Parses the block that may follow the word `word`.
fn parse_optional_block(text: &[u8], toks: &[Token], pos: usize, word: &str) -> (r: Result<
    (Vec<Property>, usize),
    ParseError,
>)
    requires
        pos <= toks.len(),
        tokens_fit(toks@, text@.len() as int),
    ensures
        match optional_block(text@, toks@, pos as int, word) {
            Ok((v, next)) => r matches Ok((x, n)) && x.deep_view() == v && n == next && pos <= next
                <= toks.len(),
            Err(e) => r matches Err(x) && x.deep_view() == e,
        },
{
    if kw_is(text, toks, pos, 0, word) {
        parse_block(text, toks, pos + 1)
    } else {
        let none: Vec<Property> = Vec::new();
        assert(none.deep_view() =~= Seq::<PropertyView>::empty());
        Ok((none, pos))
    }
}

/// Parses the variants of an enumeration, behind its opening line.
fn parse_variants(text: &[u8], toks: &[Token], start: usize) -> (r: Result<
    (Vec<Vec<u8>>, usize),
    ParseError,
>)
    requires
        start <= toks.len(),
        tokens_fit(toks@, text@.len() as int),
    ensures
        agree(
            r,
            variants_from(text@, toks@, start as int, Seq::empty()),
            start as int,
            toks.len() as int,
        ),
{
    let mut acc: Vec<Vec<u8>> = Vec::new();
    assert(acc.deep_view() =~= Seq::<Seq<u8>>::empty());
    let mut pos: usize = start;
    loop
        invariant
            start <= pos <= toks.len(),
            tokens_fit(toks@, text@.len() as int),
            variants_from(text@, toks@, start as int, Seq::empty()) == variants_from(
                text@,
                toks@,
                pos as int,
                acc.deep_view(),
            ),
        decreases toks.len() - pos,
    {
        let (_, pos1) = read_docs(text, toks, pos);
        if punct_is(text, toks, pos1, 0, 0x7d) {
            return Ok((acc, pos1 + 1));
        }
        if pos1 >= toks.len() {
            return Err(failure(text, toks, pos1, 0, Expected::CloseBrace));
        }
        if !kind_is(toks, pos1, 0, TokenKind::Str) {
            return Err(failure(text, toks, pos1, 0, Expected::Variant));
        }
        if !kind_is(toks, pos1, 1, TokenKind::Eol) {
            return Err(failure(text, toks, pos1, 1, Expected::EndOfLine));
        }
        let v = token_text(text, toks, pos1, 0);
        let ghost before = acc;
        acc.push(v);
        proof {
            lemma_push_deep_view(before, acc, v);
            super::model::lemma_bytes_view(v);
        }
        pos = pos1 + 2;
    }
}

/// Parses the shape of a type.
#[verifier::rlimit(40)]
fn parse_shape(text: &[u8], toks: &[Token], pos: usize) -> (r: Result<(TypeKind, usize), ParseError>)
    requires
        pos <= toks.len(),
        tokens_fit(toks@, text@.len() as int),
    ensures
        agree(r, shape_at(text@, toks@, pos as int), pos as int, toks.len() as int),
{
    if kw_is(text, toks, pos, 0, "enum") {
        if !punct_is(text, toks, pos, 1, 0x7b) {
            Err(failure(text, toks, pos, 1, Expected::OpenBrace))
        } else if !kind_is(toks, pos, 2, TokenKind::Eol) {
            Err(failure(text, toks, pos, 2, Expected::EndOfLine))
        } else {
            match parse_variants(text, toks, pos + 3) {
                Ok((variants, next)) => Ok((TypeKind::Enum(variants), next)),
                Err(e) => Err(e),
            }
        }
    } else if kw_is(text, toks, pos, 0, "object") {
        match parse_block(text, toks, pos + 1) {
            Ok((props, next)) => Ok((TypeKind::Object(props), next)),
            Err(e) => Err(e),
        }
    } else if kw_is(text, toks, pos, 0, "array") {
        if !kw_is(text, toks, pos, 1, "of") {
            Err(failure(text, toks, pos, 1, Expected::Of))
        } else {
            match parse_ref(text, toks, pos + 2) {
                Ok((element, next)) => Ok((TypeKind::Array(element), next)),
                Err(e) => Err(e),
            }
        }
    } else {
        match parse_target(text, toks, pos) {
            Ok((RefTarget::Primitive(p), next)) => Ok((TypeKind::Primitive(p), next)),
            Ok((target, next)) => Ok((TypeKind::Reference(TypeRef { array: false, target }), next)),
            Err(e) => Err(e),
        }
    }
}

/// Parses a type definition, behind the word `type`.
#[verifier::rlimit(40)]
fn parse_type(
    text: &[u8],
    toks: &[Token],
    pos: usize,
    description: Vec<u8>,
    stability: Stability,
) -> (r: Result<(TypeDef, usize), ParseError>)
    requires
        pos <= toks.len(),
        tokens_fit(toks@, text@.len() as int),
    ensures
        agree(
            r,
            type_at(text@, toks@, pos as int, description@, stability),
            pos as int,
            toks.len() as int,
        ),
{
    if !word_is(toks, pos, 0) {
        return Err(failure(text, toks, pos, 0, Expected::Name));
    }
    if kw_is(text, toks, pos, 1, "redirect") {
        if !word_is(toks, pos, 2) {
            Err(failure(text, toks, pos, 2, Expected::Name))
        } else if !punct_is(text, toks, pos, 3, 0x2e) {
            Err(failure(text, toks, pos, 3, Expected::Dot))
        } else if !word_is(toks, pos, 4) {
            Err(failure(text, toks, pos, 4, Expected::Name))
        } else if !kind_is(toks, pos, 5, TokenKind::Eol) {
            Err(failure(text, toks, pos, 5, Expected::EndOfLine))
        } else {
            Ok(
                (
                    TypeDef {
                        id: token_text(text, toks, pos, 0),
                        description,
                        stability,
                        kind: TypeKind::Redirect {
                            domain: token_text(text, toks, pos, 2),
                            name: token_text(text, toks, pos, 4),
                        },
                    },
                    pos + 6,
                ),
            )
        }
    } else if kw_is(text, toks, pos, 1, "extends") {
        match parse_shape(text, toks, pos + 2) {
            Err(e) => Err(e),
            Ok((kind, next)) => {
                if kind_is(toks, next, 0, TokenKind::Eol) {
                    Ok(
                        (
                            TypeDef { id: token_text(text, toks, pos, 0), description, stability, kind },
                            next + 1,
                        ),
                    )
                } else {
                    Err(failure(text, toks, next, 0, Expected::EndOfLine))
                }
            },
        }
    } else {
        Err(failure(text, toks, pos, 1, Expected::Extends))
    }
}

/// Parses a command, behind the word `command`.
#[verifier::rlimit(40)]
fn parse_command(
    text: &[u8],
    toks: &[Token],
    pos: usize,
    description: Vec<u8>,
    stability: Stability,
) -> (r: Result<(Command, usize), ParseError>)
    requires
        pos <= toks.len(),
        tokens_fit(toks@, text@.len() as int),
    ensures
        agree(
            r,
            command_at(text@, toks@, pos as int, description@, stability),
            pos as int,
            toks.len() as int,
        ),
{
    if !word_is(toks, pos, 0) {
        return Err(failure(text, toks, pos, 0, Expected::Name));
    }
    let redirected = kw_is(text, toks, pos, 1, "redirect");
    if redirected && !word_is(toks, pos, 2) {
        return Err(failure(text, toks, pos, 2, Expected::Name));
    }
    if redirected && !punct_is(text, toks, pos, 3, 0x2e) {
        return Err(failure(text, toks, pos, 3, Expected::Dot));
    }
    if redirected && !word_is(toks, pos, 4) {
        return Err(failure(text, toks, pos, 4, Expected::Name));
    }
    let redirect = if redirected {
        Some(
            QualifiedName {
                domain: token_text(text, toks, pos, 2),
                name: token_text(text, toks, pos, 4),
            },
        )
    } else {
        None
    };
    let pos1 = if redirected {
        pos + 5
    } else {
        pos + 1
    };
    match parse_optional_block(text, toks, pos1, "parameters") {
        Err(e) => Err(e),
        Ok((parameters, pos2)) => match parse_optional_block(text, toks, pos2, "returns") {
            Err(e) => Err(e),
            Ok((results, pos3)) => {
                if kind_is(toks, pos3, 0, TokenKind::Eol) {
                    Ok(
                        (
                            Command {
                                name: token_text(text, toks, pos, 0),
                                description,
                                stability,
                                parameters,
                                returns: results,
                                redirect,
                            },
                            pos3 + 1,
                        ),
                    )
                } else {
                    Err(failure(text, toks, pos3, 0, Expected::EndOfLine))
                }
            },
        },
    }
}

/// Parses an event, behind the word `event`.
fn parse_event(
    text: &[u8],
    toks: &[Token],
    pos: usize,
    description: Vec<u8>,
    stability: Stability,
) -> (r: Result<(Event, usize), ParseError>)
    requires
        pos <= toks.len(),
        tokens_fit(toks@, text@.len() as int),
    ensures
        agree(
            r,
            event_at(text@, toks@, pos as int, description@, stability),
            pos as int,
            toks.len() as int,
        ),
{
    if !word_is(toks, pos, 0) {
        return Err(failure(text, toks, pos, 0, Expected::Name));
    }
    match parse_optional_block(text, toks, pos + 1, "parameters") {
        Err(e) => Err(e),
        Ok((parameters, pos2)) => {
            if kind_is(toks, pos2, 0, TokenKind::Eol) {
                Ok(
                    (
                        Event { name: token_text(text, toks, pos, 0), description, stability, parameters },
                        pos2 + 1,
                    ),
                )
            } else {
                Err(failure(text, toks, pos2, 0, Expected::EndOfLine))
            }
        },
    }
}

/// Parses a member of a domain.
#[verifier::rlimit(40)]
fn parse_member(text: &[u8], toks: &[Token], pos: usize, description: Vec<u8>) -> (r: Result<
    (Member, usize),
    ParseError,
>)
    requires
        pos <= toks.len(),
        tokens_fit(toks@, text@.len() as int),
    ensures
        agree(r, member_at(text@, toks@, pos as int, description@), pos as int, toks.len() as int),
{
    let (marks, pos1) = read_flags(text, toks, pos, false);
    let stability = Stability { experimental: marks.experimental, deprecated: marks.deprecated };
    if kw_is(text, toks, pos1, 0, "type") {
        match parse_type(text, toks, pos1 + 1, description, stability) {
            Ok((t, next)) => Ok((Member::Type(t), next)),
            Err(e) => Err(e),
        }
    } else if kw_is(text, toks, pos1, 0, "command") {
        match parse_command(text, toks, pos1 + 1, description, stability) {
            Ok((c, next)) => Ok((Member::Command(c), next)),
            Err(e) => Err(e),
        }
    } else if kw_is(text, toks, pos1, 0, "event") {
        match parse_event(text, toks, pos1 + 1, description, stability) {
            Ok((e, next)) => Ok((Member::Event(e), next)),
            Err(e) => Err(e),
        }
    } else {
        Err(failure(text, toks, pos1, 0, Expected::Definition))
    }
}

/// Parses the members of a domain, behind its opening line.
fn parse_members(text: &[u8], toks: &[Token], start: usize) -> (r: Result<
    (Vec<Member>, usize),
    ParseError,
>)
    requires
        start <= toks.len(),
        tokens_fit(toks@, text@.len() as int),
    ensures
        agree(
            r,
            members_from(text@, toks@, start as int, Seq::empty()),
            start as int,
            toks.len() as int,
        ),
{
    let mut acc: Vec<Member> = Vec::new();
    assert(acc.deep_view() =~= Seq::<MemberView>::empty());
    let mut pos: usize = start;
    loop
        invariant
            start <= pos <= toks.len(),
            tokens_fit(toks@, text@.len() as int),
            members_from(text@, toks@, start as int, Seq::empty()) == members_from(
                text@,
                toks@,
                pos as int,
                acc.deep_view(),
            ),
        decreases toks.len() - pos,
    {
        let (description, pos1) = read_docs(text, toks, pos);
        if punct_is(text, toks, pos1, 0, 0x7d) {
            return Ok((acc, pos1 + 1));
        }
        if pos1 >= toks.len() {
            return Err(failure(text, toks, pos1, 0, Expected::CloseBrace));
        }
        match parse_member(text, toks, pos1, description) {
            Err(e) => {
                return Err(e);
            },
            Ok((m, next)) => {
                let ghost before = acc;
                acc.push(m);
                proof {
                    lemma_push_deep_view(before, acc, m);
                }
                pos = next;
            },
        }
    }
}

/// Parses a list of names with commas between.
fn parse_names(text: &[u8], toks: &[Token], start: usize) -> (r: Result<
    (Vec<Vec<u8>>, usize),
    ParseError,
>)
    requires
        start <= toks.len(),
        tokens_fit(toks@, text@.len() as int),
    ensures
        agree(
            r,
            names_from(text@, toks@, start as int, Seq::empty()),
            start as int,
            toks.len() as int,
        ),
{
    let mut acc: Vec<Vec<u8>> = Vec::new();
    assert(acc.deep_view() =~= Seq::<Seq<u8>>::empty());
    let mut pos: usize = start;
    loop
        invariant
            start <= pos <= toks.len(),
            tokens_fit(toks@, text@.len() as int),
            names_from(text@, toks@, start as int, Seq::empty()) == names_from(
                text@,
                toks@,
                pos as int,
                acc.deep_view(),
            ),
        decreases toks.len() - pos,
    {
        if !word_is(toks, pos, 0) {
            return Err(failure(text, toks, pos, 0, Expected::Name));
        }
        let name = token_text(text, toks, pos, 0);
        let ghost before = acc;
        acc.push(name);
        proof {
            lemma_push_deep_view(before, acc, name);
            super::model::lemma_bytes_view(name);
        }
        if punct_is(text, toks, pos, 1, 0x2c) {
            pos = pos + 2;
        } else {
            return Ok((acc, pos + 1));
        }
    }
}

/// Parses a domain.
#[verifier::rlimit(40)]
fn parse_domain(text: &[u8], toks: &[Token], pos: usize, description: Vec<u8>) -> (r: Result<
    (Domain, usize),
    ParseError,
>)
    requires
        pos <= toks.len(),
        tokens_fit(toks@, text@.len() as int),
    ensures
        agree(r, domain_at(text@, toks@, pos as int, description@), pos as int, toks.len() as int),
{
    let (marks, pos1) = read_flags(text, toks, pos, false);
    let stability = Stability { experimental: marks.experimental, deprecated: marks.deprecated };
    if !kw_is(text, toks, pos1, 0, "domain") {
        return Err(failure(text, toks, pos1, 0, Expected::Domain));
    }
    if !word_is(toks, pos1, 1) {
        return Err(failure(text, toks, pos1, 1, Expected::Name));
    }
    let (dependencies, pos2) = if kw_is(text, toks, pos1, 2, "dependencies") {
        match parse_names(text, toks, pos1 + 3) {
            Ok(found) => found,
            Err(e) => {
                return Err(e);
            },
        }
    } else {
        let none: Vec<Vec<u8>> = Vec::new();
        assert(none.deep_view() =~= Seq::<Seq<u8>>::empty());
        (none, pos1 + 2)
    };
    if !punct_is(text, toks, pos2, 0, 0x7b) {
        return Err(failure(text, toks, pos2, 0, Expected::OpenBrace));
    }
    if !kind_is(toks, pos2, 1, TokenKind::Eol) {
        return Err(failure(text, toks, pos2, 1, Expected::EndOfLine));
    }
    match parse_members(text, toks, pos2 + 2) {
        Err(e) => Err(e),
        Ok((members, pos3)) => {
            if kind_is(toks, pos3, 0, TokenKind::Eol) {
                Ok(
                    (
                        Domain {
                            name: token_text(text, toks, pos1, 1),
                            description,
                            stability,
                            dependencies,
                            members,
                        },
                        pos3 + 1,
                    ),
                )
            } else {
                Err(failure(text, toks, pos3, 0, Expected::EndOfLine))
            }
        },
    }
}

/// Parses the tokens of one schema file into its version and its domains.
/// The tokens are those of `text`, as the lexer gives them. The first
/// place where the file does not follow the grammar is the error.
#[verifier::rlimit(40)]
pub fn parse(text: &[u8], toks: &[Token]) -> (r: Result<SchemaFile, ParseError>)
    requires
        tokens_fit(toks@, text@.len() as int),
    ensures
        match parsed(text@, toks@) {
            Ok(file) => r matches Ok(x) && x.deep_view() == file,
            Err(e) => r matches Err(x) && x.deep_view() == e,
        },
{
    if !kw_is(text, toks, 0, 0, "version") {
        return Err(failure(text, toks, 0, 0, Expected::Version));
    }
    if !kind_is(toks, 0, 1, TokenKind::Number) {
        return Err(failure(text, toks, 0, 1, Expected::Number));
    }
    if !punct_is(text, toks, 0, 2, 0x2e) {
        return Err(failure(text, toks, 0, 2, Expected::Dot));
    }
    if !kind_is(toks, 0, 3, TokenKind::Number) {
        return Err(failure(text, toks, 0, 3, Expected::Number));
    }
    if !kind_is(toks, 0, 4, TokenKind::Eol) {
        return Err(failure(text, toks, 0, 4, Expected::EndOfLine));
    }
    let mut version = token_text(text, toks, 0, 1);
    super::bytes::push_lit(&mut version, ".");
    let minor = token_text(text, toks, 0, 3);
    push_bytes(&mut version, minor.as_slice());
    let mut acc: Vec<Domain> = Vec::new();
    assert(acc.deep_view() =~= Seq::<DomainView>::empty());
    let mut pos: usize = 5;
    loop
        invariant
            5 <= pos <= toks.len(),
            tokens_fit(toks@, text@.len() as int),
            domains_from(text@, toks@, 5, Seq::empty()) == domains_from(
                text@,
                toks@,
                pos as int,
                acc.deep_view(),
            ),
            version@ == text_of(text@, toks@, 1) + lit(".") + text_of(text@, toks@, 3),
            is_kw_at(text@, toks@, 0, "version"),
            is_kind_at(toks@, 1, TokenKind::Number),
            is_punct_at(text@, toks@, 2, 0x2e),
            is_kind_at(toks@, 3, TokenKind::Number),
            is_kind_at(toks@, 4, TokenKind::Eol),
        decreases toks.len() - pos,
    {
        let (description, pos1) = read_docs(text, toks, pos);
        if pos1 >= toks.len() {
            return Ok(SchemaFile { version, domains: acc });
        }
        match parse_domain(text, toks, pos1, description) {
            Err(e) => {
                return Err(e);
            },
            Ok((d, next)) => {
                let ghost before = acc;
                acc.push(d);
                proof {
                    lemma_push_deep_view(before, acc, d);
                }
                pos = next;
            },
        }
    }
}

} // verus!
