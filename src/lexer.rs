use vstd::prelude::*;

use crate::error::{AssemblyError, Fault};
use crate::scanner::Scanner;

verus! {

/// A token of the source, located by byte offsets.
#[derive(Clone, Copy, Debug, PartialEq, Eq, Structural)]
pub enum Token {
    /// A run of letters, digits and underscores: a mnemonic, a register or a
    /// number, occupying `start..end`.
    Word { start: usize, end: usize },
    /// A comma at `position`.
    Comma { position: usize },
    /// A line break at `position`, which ends an instruction.
    Newline { position: usize },
}

/// Bytes that make up words.
pub open spec fn is_word_byte(b: u8) -> bool {
    (0x61 <= b <= 0x7a) || (0x41 <= b <= 0x5a) || (0x30 <= b <= 0x39) || b == 0x5f
}

/// Bytes skipped between tokens: space, tab and carriage return.
pub open spec fn is_blank(b: u8) -> bool {
    b == 0x20 || b == 0x09 || b == 0x0d
}

/// The end of the word that starts at `i`: the first position at or after `i`
/// that holds no word byte.
pub open spec fn word_end(s: Seq<u8>, i: int) -> int
    decreases s.len() - i,
{
    if 0 <= i < s.len() && is_word_byte(s[i]) {
        word_end(s, i + 1)
    } else {
        i
    }
}

pub proof fn lemma_word_end(s: Seq<u8>, i: int)
    requires
        0 <= i <= s.len(),
    ensures
        i <= word_end(s, i) <= s.len(),
        0 <= i < s.len() && is_word_byte(s[i]) ==> i < word_end(s, i),
    decreases s.len() - i,
{
    if 0 <= i < s.len() && is_word_byte(s[i]) {
        lemma_word_end(s, i + 1);
    }
}

/// Puts `t` in front of the tokens of a successful result.
pub open spec fn cons_token(t: Token, r: Result<Seq<Token>, Fault>) -> Result<Seq<Token>, Fault> {
    match r {
        Ok(ts) => Ok(seq![t] + ts),
        Err(f) => Err(f),
    }
}

/// Puts `p` in front of the tokens of a successful result.
pub open spec fn prefix_tokens(p: Seq<Token>, r: Result<Seq<Token>, Fault>) -> Result<
    Seq<Token>,
    Fault,
> {
    match r {
        Ok(ts) => Ok(p + ts),
        Err(f) => Err(f),
    }
}

/// The tokens of `s` from position `i` on. Scanning stops at the end of the
/// buffer or at a zero byte; a byte that starts no token is a lexical error.
pub open spec fn lex_from(s: Seq<u8>, i: int) -> Result<Seq<Token>, Fault>
    decreases s.len() - i,
{
    if i < 0 || Scanner::spec_eof_at(s, i) {
        Ok(seq![])
    } else if is_blank(s[i]) {
        lex_from(s, i + 1)
    } else if s[i] == 0x2c {
        cons_token(Token::Comma { position: i as usize }, lex_from(s, i + 1))
    } else if s[i] == 0x0a {
        cons_token(Token::Newline { position: i as usize }, lex_from(s, i + 1))
    } else if is_word_byte(s[i]) {
        proof {
            lemma_word_end(s, i);
        }
        cons_token(
            Token::Word { start: i as usize, end: word_end(s, i) as usize },
            lex_from(s, word_end(s, i)),
        )
    } else {
        Err(Fault::Lex { byte: s[i], position: i as usize })
    }
}

/// The tokens of a whole source buffer.
pub open spec fn lex(s: Seq<u8>) -> Result<Seq<Token>, Fault> {
    lex_from(s, 0)
}

/// Whether every word of `toks` lies inside `s`.
pub open spec fn tokens_within(s: Seq<u8>, toks: Seq<Token>) -> bool {
    forall|k: int|
        0 <= k < toks.len() ==> (#[trigger] toks[k] matches Token::Word { start, end } ==> start
            <= end <= s.len())
}

/// The model of a lexing result.
pub open spec fn tokens_view(r: Result<Vec<Token>, AssemblyError>) -> Result<Seq<Token>, Fault> {
    match r {
        Ok(v) => Ok(v@),
        Err(e) => Err(e@),
    }
}

pub fn word_byte(b: u8) -> (r: bool)
    ensures
        r == is_word_byte(b),
{
    (0x61 <= b && b <= 0x7a) || (0x41 <= b && b <= 0x5a) || (0x30 <= b && b <= 0x39) || b == 0x5f
}

pub fn blank(b: u8) -> (r: bool)
    ensures
        r == is_blank(b),
{
    b == 0x20 || b == 0x09 || b == 0x0d
}

/// Split `src` into tokens, failing at the first byte that starts no token.
pub fn tokenize(src: &[u8]) -> (r: Result<Vec<Token>, AssemblyError>)
    ensures
        tokens_view(r) == lex(src@),
        r matches Ok(v) ==> tokens_within(src@, v@),
{
    tokenize_from(src, 0)
}

/// Split `src` from position `from` on into tokens, failing at the first byte
/// that starts no token.
pub fn tokenize_from(src: &[u8], from: usize) -> (r: Result<Vec<Token>, AssemblyError>)
    requires
        from <= src@.len(),
    ensures
        tokens_view(r) == lex_from(src@, from as int),
        r matches Ok(v) ==> tokens_within(src@, v@),
{
    let mut scanner = Scanner::starting_at(src, from);
    proof {
        if let Ok(ts) = lex_from(src@, from as int) {
            assert(Seq::<Token>::empty() + ts =~= ts);
        }
    }
    let mut tokens: Vec<Token> = Vec::new();
    while !scanner.is_eof()
        invariant
            scanner.wf(),
            scanner.bytes() == src@,
            lex_from(src@, from as int) == prefix_tokens(tokens@, lex_from(src@, scanner.cursor())),
            tokens_within(src@, tokens@),
        decreases src@.len() - scanner.cursor(),
    {
        let ghost i = scanner.cursor();
        let b = scanner.peek();
        if blank(b) {
            scanner.consume();
        } else if b == 0x2c {
            let position = scanner.cursor_index();
            scanner.consume();
            proof {
                lemma_prefix_push(tokens@, Token::Comma { position }, lex_from(src@, i + 1));
            }
            tokens.push(Token::Comma { position });
        } else if b == 0x0a {
            let position = scanner.cursor_index();
            scanner.consume();
            proof {
                lemma_prefix_push(tokens@, Token::Newline { position }, lex_from(src@, i + 1));
            }
            tokens.push(Token::Newline { position });
        } else if word_byte(b) {
            let start = scanner.cursor_index();
            proof {
                lemma_word_end(src@, i);
            }
            while !scanner.is_eof() && word_byte(scanner.peek())
                invariant
                    scanner.wf(),
                    scanner.bytes() == src@,
                    start as int <= scanner.cursor() <= word_end(src@, start as int),
                    word_end(src@, scanner.cursor()) == word_end(src@, start as int),
                decreases src@.len() - scanner.cursor(),
            {
                proof {
                    lemma_word_end(src@, scanner.cursor());
                }
                scanner.consume();
            }
            let end = scanner.cursor_index();
            proof {
                lemma_prefix_push(
                    tokens@,
                    Token::Word { start, end },
                    lex_from(src@, word_end(src@, i)),
                );
            }
            tokens.push(Token::Word { start, end });
        } else {
            return Err(AssemblyError::Lex { byte: b, position: scanner.cursor_index() });
        }
    }
    assert(tokens@ + seq![] =~= tokens@);
    Ok(tokens)
}

proof fn lemma_prefix_push(p: Seq<Token>, t: Token, r: Result<Seq<Token>, Fault>)
    ensures
        prefix_tokens(p, cons_token(t, r)) == prefix_tokens(p.push(t), r),
{
    if let Ok(ts) = r {
        assert(p + (seq![t] + ts) =~= p.push(t) + ts);
    }
}

/// The text of the token that starts at position `p` of `s`: the whole word
/// for a word byte, else the single byte; empty past the end.
pub open spec fn token_at(s: Seq<u8>, p: int) -> Seq<u8> {
    if 0 <= p < s.len() && is_word_byte(s[p]) {
        s.subrange(p, word_end(s, p))
    } else if 0 <= p < s.len() {
        seq![s[p]]
    } else {
        Seq::empty()
    }
}

/// The text of the token that starts at position `p` of `src`.
pub fn token_text(src: &[u8], p: usize) -> (r: Vec<u8>)
    ensures
        r@ == token_at(src@, p as int),
{
    let n = src.len();
    let mut text: Vec<u8> = Vec::new();
    if p >= n {
        return text;
    }
    if !word_byte(src[p]) {
        text.push(src[p]);
        return text;
    }
    let mut i: usize = p;
    proof {
        lemma_word_end(src@, p as int);
    }
    while i < n && word_byte(src[i])
        invariant
            n == src@.len(),
            p <= i <= word_end(src@, p as int) <= n,
            word_end(src@, i as int) == word_end(src@, p as int),
            text@ == src@.subrange(p as int, i as int),
        decreases n - i,
    {
        proof {
            lemma_word_end(src@, i as int);
        }
        text.push(src[i]);
        i = i + 1;
        assert(text@ =~= src@.subrange(p as int, i as int));
    }
    text
}

} // verus!
