//! Formatter: render a (name, value) pair as one line of styled tokens.
//!
//! The name, the `=` sign and the value each carry their own style so that a
//! sink can color them differently; the value token is emitted only when the
//! value is non-empty, and the line ends with an unstyled newline token. All
//! byte content is passed through verbatim, whether or not it is valid UTF-8.

use vstd::prelude::*;
use vstd::slice::slice_to_vec;

verus! {

/// The visual role of one token of an output line.
#[derive(Clone, Copy, PartialEq, Eq, Structural, Debug)]
pub enum TokenStyle {
    /// The name of a field.
    Name,
    /// The `=` between name and value.
    Equals,
    /// The value of a field.
    Value,
    /// Unstyled text, such as the newline that ends a line.
    Plain,
}

/// One styled span of output bytes.
#[derive(Clone, Debug)]
pub struct Token {
    pub style: TokenStyle,
    pub bytes: Vec<u8>,
}

pub open spec fn token_view(t: Token) -> (TokenStyle, Seq<u8>) {
    (t.style, t.bytes@)
}

pub open spec fn tokens_view(ts: Seq<Token>) -> Seq<(TokenStyle, Seq<u8>)> {
    ts.map_values(|t: Token| token_view(t))
}

/// The token sequence of one line: styled name, styled `=`, the styled value
/// if and only if it is non-empty, then a plain newline.
pub open spec fn pair_tokens(name: Seq<u8>, value: Seq<u8>) -> Seq<(TokenStyle, Seq<u8>)> {
    seq![(TokenStyle::Name, name), (TokenStyle::Equals, seq![61u8])] + (if value.len() > 0 {
        seq![(TokenStyle::Value, value)]
    } else {
        Seq::empty()
    }) + seq![(TokenStyle::Plain, seq![10u8])]
}

/// Append the line for one (name, value) pair to `out`.
pub fn write_pair(out: &mut Vec<Token>, name: &[u8], value: &[u8])
    ensures
        tokens_view(final(out)@) == tokens_view(old(out)@) + pair_tokens(name@, value@),
{
    out.push(Token { style: TokenStyle::Name, bytes: slice_to_vec(name) });
    let mut equ: Vec<u8> = Vec::new();
    equ.push(61);
    out.push(Token { style: TokenStyle::Equals, bytes: equ });
    if value.len() > 0 {
        out.push(Token { style: TokenStyle::Value, bytes: slice_to_vec(value) });
    }
    let mut nl: Vec<u8> = Vec::new();
    nl.push(10);
    out.push(Token { style: TokenStyle::Plain, bytes: nl });
    proof {
        assert(tokens_view(out@) =~~= tokens_view(old(out)@) + pair_tokens(name@, value@));
    }
}

} // verus!
