use vstd::prelude::*;
use crate::escape::{decode_json_string, quote_json, quoted, string_literal};
use crate::parser::{parse, parse_json, ParseError};
use crate::serialize::{compact, pretty, serialize_compact, serialize_pretty};
use crate::text::{chars_of, string_of};

verus! {

/// The rewrites that a user can apply to the buffer.
#[derive(Debug, Clone, Copy, PartialEq, Eq)]
pub enum TransformKind {
    Prettify,
    Minify,
    Escape,
    Unescape,
    StripDoubleNewlines,
}

/// Why a rewrite was refused.
#[derive(Debug, PartialEq, Eq)]
pub enum TransformError {
    /// The buffer is not JSON.
    InvalidJson(ParseError),
    /// The buffer is not an escaped JSON string, with or without its quotes.
    NotEscapedJson(ParseError),
}

/// `s` with every `\n\n` removed in one left-to-right pass, as a
/// replace-all of that pair does: newlines that meet only after a removal
/// stay.
pub open spec fn strip_double_newlines_of(s: Seq<char>) -> Seq<char>
    decreases s.len(),
{
    if s.len() == 0 {
        s
    } else if s.len() >= 2 && s[0] == '\n' && s[1] == '\n' {
        strip_double_newlines_of(s.subrange(2, s.len() as int))
    } else {
        seq![s[0]] + strip_double_newlines_of(s.drop_first())
    }
}

/// What unescaping `t` gives: `t` decoded as a JSON string literal, or else
/// `t` wrapped in quotes and decoded; on failure the second decoder message.
pub open spec fn unescaped(t: Seq<char>) -> Result<Seq<char>, Seq<char>> {
    match string_literal(t) {
        Ok(v) => Ok(v),
        Err(_) => string_literal(seq!['"'] + t + seq!['"']),
    }
}

/// Rewrites a JSON text one element or member per line, indented by two
/// spaces per level.
pub fn prettify(text: &str) -> (r: Result<String, TransformError>)
    ensures
        r is Ok <==> parse_json(text@) is Some,
        r matches Ok(o) ==> o@ == pretty(parse_json(text@)->0, 0),
        r matches Err(e) ==> e is InvalidJson,
{
    match parse(text) {
        Ok(v) => Ok(serialize_pretty(&v)),
        Err(e) => Err(TransformError::InvalidJson(e)),
    }
}

/// Rewrites a JSON text with no whitespace between tokens.
pub fn minify(text: &str) -> (r: Result<String, TransformError>)
    ensures
        r is Ok <==> parse_json(text@) is Some,
        r matches Ok(o) ==> o@ == compact(parse_json(text@)->0),
        r matches Err(e) ==> e is InvalidJson,
{
    match parse(text) {
        Ok(v) => Ok(serialize_compact(&v)),
        Err(e) => Err(TransformError::InvalidJson(e)),
    }
}

/// The JSON string literal whose content is the whole text.
pub fn escape(text: &str) -> (r: String)
    ensures
        r@ == quoted(text@),
{
    quote_json(text)
}

/// Decodes a text that holds a JSON string literal, with or without its
/// surrounding quotes. Whatever `escape` wrote comes back unchanged.
pub fn unescape(text: &str) -> (r: Result<String, TransformError>)
    ensures
        r matches Ok(o) ==> unescaped(text@) == Ok::<Seq<char>, Seq<char>>(o@),
        r matches Err(e) ==> e is NotEscapedJson && unescaped(text@) == Err::<Seq<char>, Seq<char>>(
            e->NotEscapedJson_0.message@,
        ),
        forall|x: Seq<char>| text@ == #[trigger] quoted(x) ==> (r matches Ok(o) && o@ == x),
{
    match decode_json_string(text) {
        Ok(v) => Ok(v),
        Err(_) => {
            let mut w: Vec<char> = Vec::new();
            w.push('"');
            let cs = chars_of(text);
            crate::text::push_all(&mut w, &cs);
            w.push('"');
            let wrapped = string_of(&w);
            assert(wrapped@ =~= seq!['"'] + text@ + seq!['"']);
            match decode_json_string(wrapped.as_str()) {
                Ok(v) => Ok(v),
                Err(m) => Err(TransformError::NotEscapedJson(ParseError { message: m })),
            }
        },
    }
}

/// Removes every `\n\n` in one left-to-right pass.
pub fn strip_double_newlines(text: &str) -> (r: String)
    ensures
        r@ == strip_double_newlines_of(text@),
{
    let s = chars_of(text);
    let mut out: Vec<char> = Vec::new();
    let mut i: usize = 0;
    assert(s@.subrange(0, s.len() as int) =~= s@);
    assert(out@ + strip_double_newlines_of(s@) =~= strip_double_newlines_of(s@));
    while i < s.len()
        invariant
            i <= s.len(),
            s@ == text@,
            strip_double_newlines_of(s@) == out@ + strip_double_newlines_of(s@.subrange(i as int, s.len() as int)),
        decreases s.len() - i,
    {
        let ghost rest = s@.subrange(i as int, s.len() as int);
        if i + 1 < s.len() && s[i] == '\n' && s[i + 1] == '\n' {
            assert(rest.subrange(2, rest.len() as int) =~= s@.subrange(i + 2, s.len() as int));
            i = i + 2;
        } else {
            assert(rest.drop_first() =~= s@.subrange(i + 1, s.len() as int));
            assert(out@ + (seq![s@[i as int]] + strip_double_newlines_of(rest.drop_first())) =~= out@.push(s@[i as int]) + strip_double_newlines_of(rest.drop_first()));
            out.push(s[i]);
            i = i + 1;
        }
    }
    assert(s@.subrange(i as int, s.len() as int) =~= Seq::<char>::empty());
    assert(out@ + Seq::<char>::empty() =~= out@);
    string_of(&out)
}

/// Applies one rewrite to the whole buffer; the caller writes the result back.
pub fn apply_transform(kind: TransformKind, text: &str) -> (r: Result<String, TransformError>)
    ensures
        kind is Prettify ==> (r is Ok <==> parse_json(text@) is Some),
        kind is Prettify ==> (r matches Ok(o) ==> o@ == pretty(parse_json(text@)->0, 0)),
        kind is Minify ==> (r is Ok <==> parse_json(text@) is Some),
        kind is Minify ==> (r matches Ok(o) ==> o@ == compact(parse_json(text@)->0)),
        (kind is Prettify || kind is Minify) ==> (r matches Err(e) ==> e is InvalidJson),
        kind is Escape ==> (r matches Ok(o) && o@ == quoted(text@)),
        kind is Unescape ==> (r matches Ok(o) ==> unescaped(text@) == Ok::<Seq<char>, Seq<char>>(o@)),
        kind is Unescape ==> (r matches Err(e) ==> e is NotEscapedJson && unescaped(text@) == Err::<
            Seq<char>,
            Seq<char>,
        >(e->NotEscapedJson_0.message@)),
        kind is StripDoubleNewlines ==> (r matches Ok(o) && o@ == strip_double_newlines_of(text@)),
{
    match kind {
        TransformKind::Prettify => prettify(text),
        TransformKind::Minify => minify(text),
        TransformKind::Escape => Ok(escape(text)),
        TransformKind::Unescape => unescape(text),
        TransformKind::StripDoubleNewlines => Ok(strip_double_newlines(text)),
    }
}

} // verus!
