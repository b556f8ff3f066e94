//! The identifiers of the generated bindings: how the names of a schema
//! are made to fit the rules of the target language, and how they are
//! written inside its strings.

use vstd::prelude::*;

use super::bytes::{is_lit, lit, lower, push_bytes, push_lit, to_upper_byte, upper_byte};

verus! {

/// Whether a byte may stand in an identifier: a letter, a digit or `_`.
pub open spec fn is_word_byte(b: u8) -> bool {
    (0x30 <= b <= 0x39) || (0x41 <= b <= 0x5a) || (0x61 <= b <= 0x7a) || b == 0x5f
}

/// Whether a byte is a decimal digit.
pub open spec fn is_digit_byte(b: u8) -> bool {
    0x30 <= b <= 0x39
}

/// The byte itself where it may stand in an identifier, else `_`.
pub open spec fn word_byte(b: u8) -> u8 {
    if is_word_byte(b) {
        b
    } else {
        0x5f
    }
}

/// A name with every byte that may not stand in an identifier replaced by
/// `_`.
pub open spec fn sanitize(name: Seq<u8>) -> Seq<u8> {
    name.map_values(|b: u8| word_byte(b))
}

/// A name as a plain identifier: sanitized, and with `_` in front where it
/// would be empty or start with a digit.
pub open spec fn plain(name: Seq<u8>) -> Seq<u8> {
    if name.len() == 0 || is_digit_byte(name[0]) {
        lit("_") + sanitize(name)
    } else {
        sanitize(name)
    }
}

/// Whether a plain identifier cannot be written as a raw identifier.
pub open spec fn is_reserved(word: Seq<u8>) -> bool {
    word == lit("self") || word == lit("Self") || word == lit("super") || word == lit("crate")
        || word == lit("_")
}

/// The identifier for a name of the schema: the plain identifier as a raw
/// identifier, so that no keyword gets in its way; the few words that
/// cannot be raw get `_` behind them instead.
pub open spec fn ident(name: Seq<u8>) -> Seq<u8> {
    if is_reserved(plain(name)) {
        plain(name) + lit("_")
    } else {
        lit("r#") + plain(name)
    }
}

/// A name with its first letter in upper case.
pub open spec fn upper_first(name: Seq<u8>) -> Seq<u8> {
    if name.len() == 0 {
        name
    } else {
        seq![upper_byte(name[0])] + name.skip(1)
    }
}

/// The stem of the names of the types that belong to a command or an
/// event: its name with the first letter in upper case, sanitized.
pub open spec fn stem(name: Seq<u8>) -> Seq<u8> {
    plain(upper_first(name))
}

/// The name of the module of a domain.
pub open spec fn module_name(domain: Seq<u8>) -> Seq<u8> {
    ident(lower(domain))
}

/// A byte as it is written inside a string: a quote and a backslash get a
/// backslash in front.
pub open spec fn escaped_byte(b: u8) -> Seq<u8> {
    if b == 0x22 || b == 0x5c {
        seq![0x5cu8, b]
    } else {
        seq![b]
    }
}

/// The bytes of `name` from `from` on as they are written inside a string.
pub open spec fn escaped_from(name: Seq<u8>, from: int) -> Seq<u8>
    decreases name.len() - from,
{
    if from >= name.len() {
        Seq::empty()
    } else {
        escaped_byte(name[from]) + escaped_from(name, from + 1)
    }
}

/// A name as it is written inside a string.
pub open spec fn escaped(name: Seq<u8>) -> Seq<u8> {
    escaped_from(name, 0)
}

/// Appends the sanitized form of a name.
fn push_sanitized(out: &mut Vec<u8>, name: &[u8])
    ensures
        final(out)@ == old(out)@ + sanitize(name@),
{
    let mut i: usize = 0;
    while i < name.len()
        invariant
            i <= name.len(),
            out@ == old(out)@ + sanitize(name@.take(i as int)),
        decreases name.len() - i,
    {
        let b = name[i];
        let w = if (0x30 <= b && b <= 0x39) || (0x41 <= b && b <= 0x5a) || (0x61 <= b && b
            <= 0x7a) || b == 0x5f {
            b
        } else {
            0x5f
        };
        out.push(w);
        assert(old(out)@ + sanitize(name@.take(i + 1)) =~= (old(out)@ + sanitize(
            name@.take(i as int),
        )).push(word_byte(name@[i as int])));
        i += 1;
    }
    assert(name@.take(name.len() as int) =~= name@);
}

/// The plain identifier for a name.
pub fn plain_of(name: &[u8]) -> (r: Vec<u8>)
    ensures
        r@ == plain(name@),
{
    let mut p: Vec<u8> = Vec::new();
    if name.len() == 0 || (0x30 <= name[0] && name[0] <= 0x39) {
        push_lit(&mut p, "_");
    }
    push_sanitized(&mut p, name);
    assert(p@ =~= plain(name@));
    p
}

/// Appends the identifier for a name of the schema.
pub fn push_ident(out: &mut Vec<u8>, name: &[u8])
    ensures
        final(out)@ == old(out)@ + ident(name@),
{
    let p = plain_of(name);
    let w = p.as_slice();
    if is_lit(w, "self") || is_lit(w, "Self") || is_lit(w, "super") || is_lit(w, "crate") || is_lit(
        w,
        "_",
    ) {
        push_bytes(out, w);
        push_lit(out, "_");
    } else {
        push_lit(out, "r#");
        push_bytes(out, w);
    }
    assert(out@ =~= old(out)@ + ident(name@));
}

/// Appends the stem of the type names of a command or an event.
pub fn push_stem(out: &mut Vec<u8>, name: &[u8])
    ensures
        final(out)@ == old(out)@ + stem(name@),
{
    let mut upper: Vec<u8> = Vec::new();
    if name.len() > 0 {
        upper.push(to_upper_byte(name[0]));
        let mut i: usize = 1;
        while i < name.len()
            invariant
                1 <= i <= name.len(),
                upper@ == seq![upper_byte(name@[0])] + name@.subrange(1, i as int),
            decreases name.len() - i,
        {
            upper.push(name[i]);
            assert(seq![upper_byte(name@[0])] + name@.subrange(1, i + 1) =~= (seq![
                upper_byte(name@[0]),
            ] + name@.subrange(1, i as int)).push(name@[i as int]));
            i += 1;
        }
        assert(name@.subrange(1, name.len() as int) =~= name@.skip(1));
    }
    assert(upper@ =~= upper_first(name@));
    let p = plain_of(upper.as_slice());
    push_bytes(out, p.as_slice());
}

/// Appends the name of the module of a domain.
pub fn push_module(out: &mut Vec<u8>, domain: &[u8])
    ensures
        final(out)@ == old(out)@ + module_name(domain@),
{
    let mut lowered: Vec<u8> = Vec::new();
    super::bytes::push_lower(&mut lowered, domain);
    assert(lowered@ =~= lower(domain@));
    push_ident(out, lowered.as_slice());
}

/// Appends a name as it is written inside a string.
pub fn push_escaped(out: &mut Vec<u8>, name: &[u8])
    ensures
        final(out)@ == old(out)@ + escaped(name@),
{
    let mut i: usize = 0;
    assert(out@ + escaped_from(name@, 0) =~= old(out)@ + escaped(name@));
    while i < name.len()
        invariant
            i <= name.len(),
            out@ + escaped_from(name@, i as int) == old(out)@ + escaped(name@),
        decreases name.len() - i,
    {
        let b = name[i];
        let ghost before = out@;
        if b == 0x22 || b == 0x5c {
            out.push(0x5c);
        }
        out.push(b);
        assert(out@ =~= before + escaped_byte(b));
        assert(out@ + escaped_from(name@, i + 1) =~= before + escaped_from(name@, i as int));
        i += 1;
    }
    assert(out@ + escaped_from(name@, name.len() as int) =~= out@);
}

} // verus!
