//! The lexer: turns raw source text into a flat sequence of tokens and
//! appends one trailing line-break token as an end marker.

use vstd::prelude::*;

verus! {

/// The kinds of lexical unit the lexer can produce.
#[derive(Debug, Clone, Copy, PartialEq, Eq, Structural)]
pub enum Type {
    Identifier,
    Integer,
    Whitespace,
    LineBreak,
    Colon,
    Error,
}

/// One lexical unit: its kind and the exact substring matched.
#[derive(Debug, Clone)]
pub struct Token {
    pub token_type: Type,
    pub literal: String,
}

/// The mathematical content of a token: its kind and its characters.
pub ghost struct GToken {
    pub kind: Type,
    pub literal: Seq<char>,
}

impl View for Token {
    type V = GToken;

    open spec fn view(&self) -> GToken {
        GToken { kind: self.token_type, literal: self.literal@ }
    }
}

/// The contents of a token sequence.
pub open spec fn tokens_view(ts: Seq<Token>) -> Seq<GToken> {
    ts.map_values(|t: Token| t@)
}

fn new(token_type: Type, literal: String) -> (t: Token)
    ensures
        t@ == (GToken { kind: token_type, literal: literal@ }),
{
    Token { token_type, literal }
}

/// Whether `char::is_alphabetic` holds of `c`.
pub uninterp spec fn char_alphabetic(c: char) -> bool;

/// Whether `char::is_numeric` holds of `c`.
pub uninterp spec fn char_numeric(c: char) -> bool;

/// Whether `char::is_whitespace` holds of `c`.
pub uninterp spec fn char_whitespace(c: char) -> bool;

/// Whether `c` may continue an identifier, per `char::is_alphanumeric`.
pub open spec fn char_alphanumeric(c: char) -> bool {
    char_alphabetic(c) || char_numeric(c)
}

/// Relies on char::is_alphabetic: the result depends on the character alone.
#[verifier::external_body]
fn is_alphabetic_char(c: char) -> (r: bool)
    ensures
        r == char_alphabetic(c),
{
    c.is_alphabetic()
}

/// Relies on char::is_numeric: the result depends on the character alone.
#[verifier::external_body]
fn is_numeric_char(c: char) -> (r: bool)
    ensures
        r == char_numeric(c),
{
    c.is_numeric()
}

/// Relies on char::is_alphanumeric, documented to hold exactly when the
/// character is alphabetic or numeric.
#[verifier::external_body]
fn is_alphanumeric_char(c: char) -> (r: bool)
    ensures
        r == char_alphanumeric(c),
{
    c.is_alphanumeric()
}

/// Relies on char::is_whitespace: the result depends on the character alone.
#[verifier::external_body]
fn is_whitespace_char(c: char) -> (r: bool)
    ensures
        r == char_whitespace(c),
{
    c.is_whitespace()
}

/// The end of the identifier run (alphanumeric characters) starting at `pos`.
pub open spec fn ident_end(s: Seq<char>, pos: nat) -> nat
    decreases s.len() - pos,
    when pos <= s.len()
{
    if pos >= s.len() {
        pos
    } else if !char_alphanumeric(s[pos as int]) {
        pos
    } else {
        ident_end(s, pos + 1)
    }
}

/// The end of the integer-literal run (numeric characters) starting at `pos`.
pub open spec fn int_end(s: Seq<char>, pos: nat) -> nat
    decreases s.len() - pos,
    when pos <= s.len()
{
    if pos >= s.len() {
        pos
    } else if !char_numeric(s[pos as int]) {
        pos
    } else {
        int_end(s, pos + 1)
    }
}

pub proof fn lemma_ident_end(s: Seq<char>, pos: nat)
    requires
        pos <= s.len(),
    ensures
        pos <= ident_end(s, pos) <= s.len(),
        forall|i: int| pos <= i < ident_end(s, pos) ==> char_alphanumeric(s[i]),
        ident_end(s, pos) < s.len() ==> !char_alphanumeric(s[ident_end(s, pos) as int]),
        pos < s.len() && char_alphanumeric(s[pos as int]) ==> ident_end(s, pos) > pos,
    decreases s.len() - pos,
{
    if pos < s.len() && char_alphanumeric(s[pos as int]) {
        lemma_ident_end(s, pos + 1);
    }
}

pub proof fn lemma_int_end(s: Seq<char>, pos: nat)
    requires
        pos <= s.len(),
    ensures
        pos <= int_end(s, pos) <= s.len(),
        forall|i: int| pos <= i < int_end(s, pos) ==> char_numeric(s[i]),
        int_end(s, pos) < s.len() ==> !char_numeric(s[int_end(s, pos) as int]),
        pos < s.len() && char_numeric(s[pos as int]) ==> int_end(s, pos) > pos,
    decreases s.len() - pos,
{
    if pos < s.len() && char_numeric(s[pos as int]) {
        lemma_int_end(s, pos + 1);
    }
}

/// The kind of the single-character token for a character that starts
/// neither an identifier nor an integer literal.
pub open spec fn single_kind(c: char) -> Type {
    if c == ':' {
        Type::Colon
    } else if char_whitespace(c) {
        Type::Whitespace
    } else if c == '\r' || c == '\n' {
        Type::LineBreak
    } else {
        Type::Error
    }
}

/// The tokens lexed from `s` starting at position `pos`.
pub open spec fn spec_lex_from(s: Seq<char>, pos: nat) -> Seq<GToken>
    decreases s.len() - pos,
    when pos <= s.len()
{
    if pos >= s.len() {
        Seq::empty()
    } else if char_alphabetic(s[pos as int]) {
        proof {
            lemma_ident_end(s, pos);
        }
        let end = ident_end(s, pos);
        seq![GToken { kind: Type::Identifier, literal: s.subrange(pos as int, end as int) }]
            + spec_lex_from(s, end)
    } else if char_numeric(s[pos as int]) {
        proof {
            lemma_int_end(s, pos);
        }
        let end = int_end(s, pos);
        seq![GToken { kind: Type::Integer, literal: s.subrange(pos as int, end as int) }]
            + spec_lex_from(s, end)
    } else {
        seq![GToken { kind: single_kind(s[pos as int]), literal: seq![s[pos as int]] }]
            + spec_lex_from(s, pos + 1)
    }
}

/// The whole token sequence for source text `s`: the tokens of `s`
/// followed by the trailing line-break end marker.
pub open spec fn spec_lex(s: Seq<char>) -> Seq<GToken> {
    spec_lex_from(s, 0).push(GToken { kind: Type::LineBreak, literal: seq!['\n'] })
}

/// Lexes one piece of source text into tokens, appending a trailing
/// line-break token as an end marker.
pub fn lex(src: String) -> (tokens: Vec<Token>)
    ensures
        tokens_view(tokens@) == spec_lex(src@),
{
    let s = src.as_str();
    let len = s.unicode_len();
    let mut pos: usize = 0;
    let mut tokens: Vec<Token> = Vec::new();

    while pos < len
        invariant
            len == s@.len(),
            s@ == src@,
            pos <= len,
            spec_lex_from(s@, 0) == tokens_view(tokens@) + spec_lex_from(s@, pos as nat),
        decreases len - pos,
    {
        let character = s.get_char(pos);
        let ghost pre = tokens@;
        let ghost pos0 = pos as nat;

        let token: Token;
        if is_alphabetic_char(character) {
            let start = pos;
            proof {
                lemma_ident_end(s@, pos as nat);
            }
            while pos < len && is_alphanumeric_char(s.get_char(pos))
                invariant
                    len == s@.len(),
                    start <= pos <= len,
                    ident_end(s@, start as nat) == ident_end(s@, pos as nat),
                decreases len - pos,
            {
                pos += 1;
                proof {
                    lemma_ident_end(s@, pos as nat);
                }
            }
            token = new(Type::Identifier, String::from_str(s.substring_char(start, pos)));
            proof {
                lemma_ident_end(s@, start as nat);
                assert(ident_end(s@, start as nat) == pos as nat);
                assert(spec_lex_from(s@, pos0) == seq![token@] + spec_lex_from(s@, pos as nat));
            }
        } else if is_numeric_char(character) {
            let start = pos;
            proof {
                lemma_int_end(s@, pos as nat);
            }
            while pos < len && is_numeric_char(s.get_char(pos))
                invariant
                    len == s@.len(),
                    start <= pos <= len,
                    int_end(s@, start as nat) == int_end(s@, pos as nat),
                decreases len - pos,
            {
                pos += 1;
                proof {
                    lemma_int_end(s@, pos as nat);
                }
            }
            token = new(Type::Integer, String::from_str(s.substring_char(start, pos)));
            proof {
                lemma_int_end(s@, start as nat);
                assert(int_end(s@, start as nat) == pos as nat);
                assert(spec_lex_from(s@, pos0) == seq![token@] + spec_lex_from(s@, pos as nat));
            }
        } else {
            let kind = if character == ':' {
                Type::Colon
            } else if is_whitespace_char(character) {
                Type::Whitespace
            } else if character == '\r' || character == '\n' {
                Type::LineBreak
            } else {
                Type::Error
            };
            let literal = String::from_str(s.substring_char(pos, pos + 1));
            proof {
                assert(literal@ =~= seq![s@[pos as int]]);
            }
            pos += 1;
            token = new(kind, literal);
            proof {
                assert(spec_lex_from(s@, pos0) == seq![token@] + spec_lex_from(s@, pos as nat));
            }
        }

        tokens.push(token);
        proof {
            assert(tokens_view(tokens@) =~= tokens_view(pre).push(token@));
            assert(spec_lex_from(s@, 0) == tokens_view(tokens@) + spec_lex_from(s@, pos as nat))
                by {
                assert(tokens_view(pre).push(token@) + spec_lex_from(s@, pos as nat)
                    =~= tokens_view(pre) + (seq![token@] + spec_lex_from(s@, pos as nat)));
            }
        }
    }

    let ghost pre = tokens@;
    let end_marker = new(Type::LineBreak, String::from_str("\n"));
    tokens.push(end_marker);
    proof {
        reveal_strlit("\n");
        assert(end_marker@.literal =~= seq!['\n']);
        assert(spec_lex_from(s@, pos as nat) =~= Seq::<GToken>::empty());
        assert(tokens_view(pre) =~= spec_lex_from(src@, 0));
        assert(tokens_view(tokens@) =~= tokens_view(pre).push(end_marker@));
        assert(tokens_view(tokens@) =~= spec_lex(src@));
    }
    tokens
}

} // verus!
