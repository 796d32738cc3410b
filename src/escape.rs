use vstd::prelude::*;

verus! {

/// The lower-case hexadecimal digit of `n`, for `0 <= n < 16`.
pub open spec fn hex_digit(n: int) -> char {
    seq!['0', '1', '2', '3', '4', '5', '6', '7', '8', '9', 'a', 'b', 'c', 'd', 'e', 'f'][n]
}

/// How one character stands inside a JSON string literal.
pub open spec fn escape_char(c: char) -> Seq<char> {
    if c == '"' {
        seq!['\\', '"']
    } else if c == '\\' {
        seq!['\\', '\\']
    } else if c == '\u{8}' {
        seq!['\\', 'b']
    } else if c == '\t' {
        seq!['\\', 't']
    } else if c == '\n' {
        seq!['\\', 'n']
    } else if c == '\u{c}' {
        seq!['\\', 'f']
    } else if c == '\r' {
        seq!['\\', 'r']
    } else if (c as int) < 0x20 {
        seq!['\\', 'u', '0', '0', hex_digit((c as int) / 16), hex_digit((c as int) % 16)]
    } else {
        seq![c]
    }
}

/// The escaped body of a JSON string literal.
pub open spec fn escape_chars(s: Seq<char>) -> Seq<char>
    decreases s.len(),
{
    if s.len() == 0 {
        Seq::empty()
    } else {
        escape_char(s[0]) + escape_chars(s.drop_first())
    }
}

/// The JSON string literal whose content is `s`.
pub open spec fn quoted(s: Seq<char>) -> Seq<char> {
    seq!['"'] + escape_chars(s) + seq!['"']
}

/// What decoding `s` as one JSON string literal gives: the content, or the
/// decoder's message.
pub uninterp spec fn string_literal(s: Seq<char>) -> Result<Seq<char>, Seq<char>>;

/// A successful decoding.
pub open spec fn literal_ok(v: Seq<char>) -> Result<Seq<char>, Seq<char>> {
    Ok(v)
}

/// A failed decoding.
pub open spec fn literal_err(m: Seq<char>) -> Result<Seq<char>, Seq<char>> {
    Err(m)
}

/// Relies on serde_json::to_string on a str: it writes the string as a JSON
/// string literal, escaping the quote, the backslash and every character
/// below U+0020 (the short forms where JSON has them, else `\u00` and two
/// lower-case hex digits), and copying every other character. On a str it
/// cannot fail: the writer is an in-memory buffer.
#[verifier::external_body]
pub(crate) fn quote_json(s: &str) -> (r: String)
    ensures
        r@ == quoted(s@),
{
    serde_json::to_string(s).unwrap()
}

/// Relies on serde_json::from_str::<String>: it decodes one JSON string
/// literal, surrounded by nothing but whitespace; a literal written as
/// serde_json::to_string writes it decodes back to the content it was written from.
#[verifier::external_body]
pub(crate) fn decode_json_string(s: &str) -> (r: Result<String, String>)
    ensures
        r matches Ok(v) ==> string_literal(s@) == literal_ok(v@),
        r matches Err(m) ==> string_literal(s@) == literal_err(m@),
        r is Ok || forall|x: Seq<char>| s@ != #[trigger] quoted(x),
        r matches Ok(v) ==> forall|x: Seq<char>| s@ == #[trigger] quoted(x) ==> v@ == x,
{
    match serde_json::from_str::<String>(s) {
        Ok(v) => Ok(v),
        Err(e) => Err(e.to_string()),
    }
}

} // verus!
