use vstd::prelude::*;

use crate::error::{AssemblyError, Fault};
use crate::lexer::{Token, lex_from, tokenize_from, tokens_within};
use crate::scanner::Scanner;
use crate::opcodes::{EntryModel, OpcodeTable, OperandKind, lemma_index_from, lookup, width};
use crate::operands::{encode_operand, operand_bytes, lemma_operand_bytes_width};

verus! {

/// The text of a word token; empty for other tokens.
pub open spec fn word_text(s: Seq<u8>, t: Token) -> Seq<u8> {
    match t {
        Token::Word { start, end } => s.subrange(start as int, end as int),
        _ => Seq::empty(),
    }
}

/// The source position of a token.
pub open spec fn token_position(t: Token) -> usize {
    match t {
        Token::Word { start, .. } => start,
        Token::Comma { position } => position,
        Token::Newline { position } => position,
    }
}

/// Whether position `i` of `s` ends a line: the end of the source, a zero
/// byte, or a line break.
pub open spec fn ends_line(s: Seq<u8>, i: int) -> bool {
    Scanner::spec_eof_at(s, i) || s[i] == 0x0a
}

/// The position where the line that starts at `i` ends.
pub open spec fn line_stop(s: Seq<u8>, i: int) -> int
    decreases s.len() - i,
{
    if i < 0 || ends_line(s, i) {
        i
    } else {
        line_stop(s, i + 1)
    }
}

pub proof fn lemma_line_stop(s: Seq<u8>, i: int)
    requires
        0 <= i <= s.len(),
    ensures
        i <= line_stop(s, i) <= s.len(),
    decreases s.len() - i,
{
    if !ends_line(s, i) {
        lemma_line_stop(s, i + 1);
    }
}

/// The source up to the end of the line that starts at `i`.
pub open spec fn line_bytes(s: Seq<u8>, i: int) -> Seq<u8> {
    s.subrange(0, line_stop(s, i))
}

/// The tokens of the line that starts at `i`.
pub open spec fn line_tokens(s: Seq<u8>, i: int) -> Result<Seq<Token>, Fault> {
    lex_from(line_bytes(s, i), i)
}

/// Whether the line that starts at `i` ends with a line break, so that
/// another line follows.
pub open spec fn has_next_line(s: Seq<u8>, i: int) -> bool {
    line_stop(s, i) < s.len() && s[line_stop(s, i)] == 0x0a
}

/// The number of word tokens in `ops`.
pub open spec fn count_words(ops: Seq<Token>) -> nat
    decreases ops.len(),
{
    if ops.len() == 0 {
        0
    } else {
        count_words(ops.drop_last()) + if ops.last() is Word {
            1nat
        } else {
            0nat
        }
    }
}

/// Whether `ops` is empty or has the shape word, comma, word, ..., word.
pub open spec fn separated(ops: Seq<Token>) -> bool {
    ops.len() == 0 || (ops.len() % 2 == 1 && forall|k: int|
        0 <= k < ops.len() ==> ((#[trigger] ops[k] is Word) <==> k % 2 == 0))
}

/// Puts `p` in front of the bytes of a successful result.
pub open spec fn prefix_bytes(p: Seq<u8>, r: Result<Seq<u8>, Fault>) -> Result<Seq<u8>, Fault> {
    match r {
        Ok(b) => Ok(p + b),
        Err(f) => Err(f),
    }
}

/// The encoding of the first `n` operands of a well-shaped operand list
/// `ops` (operand `i` is `ops[2 * i]`) against the kinds `kinds`; the first
/// operand that denotes no value of its kind fails.
pub open spec fn encode_operands(s: Seq<u8>, ops: Seq<Token>, kinds: Seq<OperandKind>, n: int) -> Result<
    Seq<u8>,
    Fault,
>
    decreases n,
{
    if n <= 0 {
        Ok(Seq::empty())
    } else {
        match encode_operands(s, ops, kinds, n - 1) {
            Err(f) => Err(f),
            Ok(b) => match operand_bytes(kinds[n - 1], word_text(s, ops[2 * (n - 1)])) {
                None => Err(Fault::OperandTypeMismatch { position: token_position(ops[2 * (n - 1)]) }),
                Some(x) => Ok(b + x),
            },
        }
    }
}

/// The encoding of one line of tokens: nothing for an empty line; else the
/// opcode of the entry that the leading mnemonic names, then its operands.
pub open spec fn encode_line(s: Seq<u8>, line: Seq<Token>, t: Seq<EntryModel>) -> Result<
    Seq<u8>,
    Fault,
> {
    if line.len() == 0 {
        Ok(Seq::empty())
    } else {
        match line[0] {
            Token::Word { start, end } => {
                let m = s.subrange(start as int, end as int);
                match lookup(t, m) {
                    None => Err(Fault::UnknownMnemonic { text: m, position: start }),
                    Some(e) => {
                        let ops = line.drop_first();
                        if count_words(ops) != e.operands.len() {
                            Err(
                                Fault::OperandCountMismatch {
                                    position: start,
                                    expected: e.operands.len() as usize,
                                    found: count_words(ops) as usize,
                                },
                            )
                        } else if !separated(ops) {
                            Err(Fault::Syntax { position: start })
                        } else {
                            prefix_bytes(
                                seq![e.opcode],
                                encode_operands(s, ops, e.operands, e.operands.len() as int),
                            )
                        }
                    },
                }
            },
            Token::Comma { position } => Err(Fault::Syntax { position }),
            Token::Newline { position } => Err(Fault::Syntax { position }),
        }
    }
}

/// The object code of the lines of `s` from position `i` on. Each line is
/// lexed and then encoded before the next is read, so the first failure in
/// source order decides the result.
pub open spec fn assemble_from(s: Seq<u8>, t: Seq<EntryModel>, i: int) -> Result<Seq<u8>, Fault>
    decreases s.len() + 1 - i,
{
    if i < 0 || Scanner::spec_eof_at(s, i) {
        Ok(Seq::empty())
    } else {
        match line_tokens(s, i) {
            Err(f) => Err(f),
            Ok(toks) => match encode_line(line_bytes(s, i), toks, t) {
                Err(f) => Err(f),
                Ok(b) => if has_next_line(s, i) {
                    proof {
                        lemma_line_stop(s, i);
                    }
                    prefix_bytes(b, assemble_from(s, t, line_stop(s, i) + 1))
                } else {
                    Ok(b)
                },
            },
        }
    }
}

/// The object code of the source `s` against the table `t`.
pub open spec fn assemble_source(s: Seq<u8>, t: Seq<EntryModel>) -> Result<Seq<u8>, Fault> {
    assemble_from(s, t, 0)
}

/// The model of an assembly result.
pub open spec fn bytes_view(r: Result<Vec<u8>, AssemblyError>) -> Result<Seq<u8>, Fault> {
    match r {
        Ok(v) => Ok(v@),
        Err(e) => Err(e@),
    }
}

/// Once encoding the first `q` operands fails, encoding more fails the same way.
proof fn lemma_encode_error_stays(
    s: Seq<u8>,
    ops: Seq<Token>,
    kinds: Seq<OperandKind>,
    q: int,
    m: int,
)
    requires
        0 <= q <= m,
        encode_operands(s, ops, kinds, q) is Err,
    ensures
        encode_operands(s, ops, kinds, m) == encode_operands(s, ops, kinds, q),
    decreases m - q,
{
    if q < m {
        lemma_encode_error_stays(s, ops, kinds, q, m - 1);
    }
}

proof fn lemma_count_separated(ops: Seq<Token>, k: int)
    requires
        separated(ops),
        0 <= k <= ops.len(),
    ensures
        count_words(ops.subrange(0, k)) == (k + 1) / 2,
    decreases k,
{
    if k > 0 {
        lemma_count_separated(ops, k - 1);
        assert(ops.subrange(0, k).drop_last() =~= ops.subrange(0, k - 1));
        assert(ops.subrange(0, k).last() == ops[k - 1]);
    }
}

/// Appends the encoding of the line `toks[j..e]` to `out`, or reports why it
/// has none. On failure `out` may hold part of the line's encoding.
fn encode_line_into(
    src: &[u8],
    toks: &Vec<Token>,
    j: usize,
    e: usize,
    table: &OpcodeTable,
    out: &mut Vec<u8>,
) -> (r: Result<(), AssemblyError>)
    requires
        j <= e <= toks@.len(),
        tokens_within(src@, toks@),
    ensures
        match encode_line(src@, toks@.subrange(j as int, e as int), table@) {
            Ok(b) => r is Ok && final(out)@ == old(out)@ + b,
            Err(f) => r matches Err(x) && x@ == f,
        },
{
    let ghost line = toks@.subrange(j as int, e as int);
    if j == e {
        return Ok(());
    }
    let (start, end) = match toks[j] {
        Token::Word { start, end } => (start, end),
        Token::Comma { position } => {
            return Err(AssemblyError::Syntax { position });
        },
        Token::Newline { position } => {
            return Err(AssemblyError::Syntax { position });
        },
    };
    assert(toks@[j as int] matches Token::Word { start, end });
    let ghost m = src@.subrange(start as int, end as int);
    let k = match table.find(src, start, end) {
        Some(k) => k,
        None => {
            let mut text: Vec<u8> = Vec::new();
            let mut i: usize = start;
            while i < end
                invariant
                    start <= i <= end <= src@.len(),
                    text@ == src@.subrange(start as int, i as int),
                decreases end - i,
            {
                text.push(src[i]);
                i = i + 1;
                assert(text@ =~= src@.subrange(start as int, i as int));
            }
            return Err(AssemblyError::UnknownMnemonic { text, position: start });
        },
    };
    proof {
        lemma_index_from(table@, m, 0);
    }
    let entry = table.entry(k);
    let ghost ops = line.drop_first();
    assert(ops =~= toks@.subrange(j + 1, e as int));
    let expected = entry.operands.len();
    let found = count_operand_words(toks, j + 1, e);
    if found != expected {
        return Err(AssemblyError::OperandCountMismatch { position: start, expected, found });
    }
    if !operands_separated(toks, j + 1, e) {
        return Err(AssemblyError::Syntax { position: start });
    }
    let ghost before = out@;
    out.push(entry.opcode);
    let encoded = encode_operands_into(src, toks, j + 1, e, &entry.operands, out);
    match encoded {
        Ok(()) => {
            let ghost b = encode_operands(src@, ops, entry@.operands, expected as int)->Ok_0;
            assert(out@ =~= before + (seq![entry.opcode] + b));
            Ok(())
        },
        Err(x) => Err(x),
    }
}

/// The number of word tokens in `toks[from..to]`.
fn count_operand_words(toks: &Vec<Token>, from: usize, to: usize) -> (r: usize)
    requires
        from <= to <= toks@.len(),
    ensures
        r == count_words(toks@.subrange(from as int, to as int)),
{
    let mut found: usize = 0;
    let mut i: usize = from;
    while i < to
        invariant
            from <= i <= to <= toks@.len(),
            found == count_words(toks@.subrange(from as int, i as int)),
            found <= i - from,
        decreases to - i,
    {
        assert(toks@.subrange(from as int, i + 1).drop_last() =~= toks@.subrange(
            from as int,
            i as int,
        ));
        if let Token::Word { .. } = toks[i] {
            found = found + 1;
        }
        i = i + 1;
    }
    found
}

/// Whether `toks[from..to]` is empty or alternates words and commas,
/// starting and ending with a word.
fn operands_separated(toks: &Vec<Token>, from: usize, to: usize) -> (r: bool)
    requires
        from <= to <= toks@.len(),
    ensures
        r == separated(toks@.subrange(from as int, to as int)),
{
    let ghost ops = toks@.subrange(from as int, to as int);
    let n = to - from;
    if n > 0 && n % 2 == 0 {
        return false;
    }
    let mut i: usize = 0;
    while i < n
        invariant
            from + n == to <= toks@.len(),
            ops == toks@.subrange(from as int, to as int),
            n > 0 ==> n % 2 == 1,
            i <= n,
            forall|q: int| 0 <= q < i ==> ((#[trigger] ops[q] is Word) <==> q % 2 == 0),
        decreases n - i,
    {
        let is_word = match toks[from + i] {
            Token::Word { .. } => true,
            _ => false,
        };
        assert(ops[i as int] == toks@[from + i]);
        if is_word != (i % 2 == 0) {
            return false;
        }
        i = i + 1;
    }
    true
}

/// Appends the encoding of the operands `toks[from..to]` against `kinds`
/// to `out`, or reports the first operand that fails.
fn encode_operands_into(
    src: &[u8],
    toks: &Vec<Token>,
    from: usize,
    to: usize,
    kinds: &Vec<OperandKind>,
    out: &mut Vec<u8>,
) -> (r: Result<(), AssemblyError>)
    requires
        from <= to <= toks@.len(),
        tokens_within(src@, toks@),
        separated(toks@.subrange(from as int, to as int)),
        count_words(toks@.subrange(from as int, to as int)) == kinds@.len(),
    ensures
        match encode_operands(
            src@,
            toks@.subrange(from as int, to as int),
            kinds@,
            kinds@.len() as int,
        ) {
            Ok(b) => r is Ok && final(out)@ == old(out)@ + b,
            Err(f) => r matches Err(x) && x@ == f,
        },
{
    let ghost ops = toks@.subrange(from as int, to as int);
    proof {
        lemma_count_separated(ops, ops.len() as int);
        assert(ops.subrange(0, ops.len() as int) =~= ops);
    }
    let ghost before = out@;
    let mut q: usize = 0;
    while q < kinds.len()
        invariant
            from <= to <= toks@.len(),
            tokens_within(src@, toks@),
            ops == toks@.subrange(from as int, to as int),
            separated(ops),
            count_words(ops) == kinds@.len(),
            count_words(ops) == (ops.len() + 1) / 2,
            q <= kinds@.len(),
            encode_operands(src@, ops, kinds@, q as int) matches Ok(b) && out@ == before + b,
        decreases kinds@.len() - q,
    {
        let at = from + 2 * q;
        assert(ops[2 * q as int] == toks@[at as int]);
        assert(ops[2 * q as int] is Word);
        let (ws, we) = match toks[at] {
            Token::Word { start, end } => (start, end),
            _ => (0, 0),
        };
        assert(toks@[at as int] matches Token::Word { start, end });
        let ghost b = encode_operands(src@, ops, kinds@, q as int)->Ok_0;
        let kind = kinds[q];
        if !encode_operand(kind, src, ws, we, out) {
            proof {
                lemma_encode_error_stays(src@, ops, kinds@, q + 1, kinds@.len() as int);
            }
            return Err(AssemblyError::OperandTypeMismatch { position: ws });
        }
        assert(out@ =~= before + (b + operand_bytes(kind, src@.subrange(ws as int, we as int))->0));
        q = q + 1;
    }
    Ok(())
}

/// Assemble the source `src` against `table`, one line at a time: each line
/// is lexed and then encoded before the next is read, so the first failure in
/// source order is reported. The object code is the concatenation of the
/// lines' encodings, with no padding; a failure yields no object code.
pub fn assemble(src: &[u8], table: &OpcodeTable) -> (r: Result<Vec<u8>, AssemblyError>)
    ensures
        bytes_view(r) == assemble_source(src@, table@),
{
    let n = src.len();
    let mut out: Vec<u8> = Vec::new();
    let mut i: usize = 0;
    proof {
        if let Ok(b) = assemble_from(src@, table@, 0) {
            assert(out@ + b =~= b);
        }
    }
    while i < n && src[i] != 0
        invariant
            i <= n,
            n == src@.len(),
            assemble_source(src@, table@) == prefix_bytes(out@, assemble_from(src@, table@, i as int)),
        decreases n - i,
    {
        let mut e: usize = i;
        while e < n && src[e] != 0 && src[e] != 0x0a
            invariant
                i <= e <= n,
                n == src@.len(),
                line_stop(src@, i as int) == line_stop(src@, e as int),
            decreases n - e,
        {
            e = e + 1;
        }
        let line = vstd::slice::slice_subrange(src, 0, e);
        assert(line@ == line_bytes(src@, i as int));
        let toks = match tokenize_from(line, i) {
            Ok(toks) => toks,
            Err(x) => {
                return Err(x);
            },
        };
        assert(toks@.subrange(0, toks@.len() as int) =~= toks@);
        let ghost before = out@;
        match encode_line_into(line, &toks, 0, toks.len(), table, &mut out) {
            Ok(()) => {},
            Err(x) => {
                return Err(x);
            },
        }
        let ghost b = encode_line(line@, toks@, table@)->Ok_0;
        if e < n && src[e] == 0x0a {
            proof {
                if let Ok(rest) = assemble_from(src@, table@, e + 1) {
                    assert(before + (b + rest) =~= out@ + rest);
                }
            }
            i = e + 1;
        } else {
            assert(out@ + Seq::<u8>::empty() =~= before + b);
            i = e;
        }
    }
    assert(out@ + Seq::<u8>::empty() =~= out@);
    Ok(out)
}

/// The total width of operands of the kinds `kinds`.
pub open spec fn widths_sum(kinds: Seq<OperandKind>) -> nat
    decreases kinds.len(),
{
    if kinds.len() == 0 {
        0
    } else {
        widths_sum(kinds.drop_last()) + width(kinds.last())
    }
}

/// Whether the line `line` is an instruction that encodes: empty, or a
/// mnemonic of the table followed by as many comma-separated operands as its
/// entry declares, each a value of the declared kind.
pub open spec fn line_valid(s: Seq<u8>, line: Seq<Token>, t: Seq<EntryModel>) -> bool {
    line.len() == 0 || (line[0] is Word && match lookup(t, word_text(s, line[0])) {
        None => false,
        Some(e) => {
            let ops = line.drop_first();
            &&& count_words(ops) == e.operands.len()
            &&& separated(ops)
            &&& forall|i: int|
                0 <= i < e.operands.len() ==> (#[trigger] operand_bytes(
                    e.operands[i],
                    word_text(s, ops[2 * i]),
                )) is Some
        },
    })
}

/// The encoded size of a line: nothing for an empty line, else one opcode
/// byte and the widths of its entry's operands.
pub open spec fn line_size(s: Seq<u8>, line: Seq<Token>, t: Seq<EntryModel>) -> nat {
    if line.len() == 0 {
        0
    } else {
        match lookup(t, word_text(s, line[0])) {
            None => 0,
            Some(e) => 1 + widths_sum(e.operands),
        }
    }
}

/// Whether every line of `s` from position `i` on lexes and is valid.
pub open spec fn lines_valid(s: Seq<u8>, t: Seq<EntryModel>, i: int) -> bool
    decreases s.len() + 1 - i,
{
    if i < 0 || Scanner::spec_eof_at(s, i) {
        true
    } else {
        &&& line_tokens(s, i) is Ok
        &&& line_valid(line_bytes(s, i), line_tokens(s, i)->Ok_0, t)
        &&& has_next_line(s, i) ==> {
            proof {
                lemma_line_stop(s, i);
            }
            lines_valid(s, t, line_stop(s, i) + 1)
        }
    }
}

/// The summed encoded size of the lines of `s` from position `i` on.
pub open spec fn program_size(s: Seq<u8>, t: Seq<EntryModel>, i: int) -> nat
    decreases s.len() + 1 - i,
{
    if i < 0 || Scanner::spec_eof_at(s, i) {
        0
    } else {
        line_size(line_bytes(s, i), line_tokens(s, i)->Ok_0, t) + if has_next_line(s, i) {
            proof {
                lemma_line_stop(s, i);
            }
            program_size(s, t, line_stop(s, i) + 1)
        } else {
            0
        }
    }
}

proof fn lemma_encode_operands_size(
    s: Seq<u8>,
    ops: Seq<Token>,
    kinds: Seq<OperandKind>,
    n: int,
)
    requires
        0 <= n <= kinds.len(),
    ensures
        encode_operands(s, ops, kinds, n) is Ok <==> forall|i: int|
            0 <= i < n ==> (#[trigger] operand_bytes(kinds[i], word_text(s, ops[2 * i]))) is Some,
        encode_operands(s, ops, kinds, n) matches Ok(b) ==> b.len() == widths_sum(
            kinds.subrange(0, n),
        ),
    decreases n,
{
    if n > 0 {
        lemma_encode_operands_size(s, ops, kinds, n - 1);
        lemma_operand_bytes_width(kinds[n - 1], word_text(s, ops[2 * (n - 1)]));
        assert(kinds.subrange(0, n).drop_last() =~= kinds.subrange(0, n - 1));
        if encode_operands(s, ops, kinds, n) is Ok {
            assert forall|i: int| 0 <= i < n implies (#[trigger] operand_bytes(
                kinds[i],
                word_text(s, ops[2 * i]),
            )) is Some by {
                if i < n - 1 {
                    assert(encode_operands(s, ops, kinds, n - 1) is Ok);
                }
            }
        }
        if forall|i: int|
            0 <= i < n ==> (#[trigger] operand_bytes(kinds[i], word_text(s, ops[2 * i]))) is Some {
            assert(operand_bytes(kinds[n - 1], word_text(s, ops[2 * (n - 1)])) is Some);
        }
    } else {
        assert(kinds.subrange(0, 0).len() == 0);
    }
}

proof fn lemma_line_encodes(s: Seq<u8>, line: Seq<Token>, t: Seq<EntryModel>)
    ensures
        encode_line(s, line, t) is Ok <==> line_valid(s, line, t),
        encode_line(s, line, t) matches Ok(b) ==> b.len() == line_size(s, line, t),
{
    if line.len() > 0 && line[0] is Word {
        if let Some(e) = lookup(t, word_text(s, line[0])) {
            let ops = line.drop_first();
            lemma_encode_operands_size(s, ops, e.operands, e.operands.len() as int);
            assert(e.operands.subrange(0, e.operands.len() as int) =~= e.operands);
        }
    }
}

proof fn lemma_lines_encode(s: Seq<u8>, t: Seq<EntryModel>, i: int)
    requires
        0 <= i,
    ensures
        assemble_from(s, t, i) is Ok <==> lines_valid(s, t, i),
        assemble_from(s, t, i) matches Ok(b) ==> b.len() == program_size(s, t, i),
    decreases s.len() + 1 - i,
{
    if !Scanner::spec_eof_at(s, i) {
        if let Ok(toks) = line_tokens(s, i) {
            lemma_line_encodes(line_bytes(s, i), toks, t);
            if has_next_line(s, i) {
                lemma_line_stop(s, i);
                lemma_lines_encode(s, t, line_stop(s, i) + 1);
            }
        }
    }
}

/// A source assembles exactly when each of its lines lexes and names a
/// mnemonic of the table with the declared number of comma-separated
/// operands, each a value of its kind; its object code is then as long as the
/// sum, over its instructions, of one opcode byte plus the widths of the
/// operands. A wrong operand count on any line thus never yields object code.
pub proof fn lemma_valid_program_size(s: Seq<u8>, t: Seq<EntryModel>)
    ensures
        assemble_source(s, t) is Ok <==> lines_valid(s, t, 0),
        assemble_source(s, t) matches Ok(b) ==> b.len() == program_size(s, t, 0),
{
    lemma_lines_encode(s, t, 0);
}

/// Whether the lines of `s` from position `i` up to the line that starts at
/// position `j` all lex and are valid, `j` being the start of a line.
pub open spec fn valid_until(s: Seq<u8>, t: Seq<EntryModel>, i: int, j: int) -> bool
    decreases s.len() + 1 - i,
{
    if i == j {
        true
    } else if i < 0 || i > j || Scanner::spec_eof_at(s, i) {
        false
    } else {
        &&& line_tokens(s, i) is Ok
        &&& line_valid(line_bytes(s, i), line_tokens(s, i)->Ok_0, t)
        &&& has_next_line(s, i)
        &&& {
            proof {
                lemma_line_stop(s, i);
            }
            valid_until(s, t, line_stop(s, i) + 1, j)
        }
    }
}

proof fn lemma_error_at_line(s: Seq<u8>, t: Seq<EntryModel>, i: int, j: int, f: Fault)
    requires
        0 <= i,
        valid_until(s, t, i, j),
        !Scanner::spec_eof_at(s, j),
        line_tokens(s, j) matches Ok(toks) && encode_line(line_bytes(s, j), toks, t) == Err::<
            Seq<u8>,
            Fault,
        >(f),
    ensures
        assemble_from(s, t, i) == Err::<Seq<u8>, Fault>(f),
    decreases s.len() + 1 - i,
{
    if i != j {
        lemma_line_stop(s, i);
        lemma_line_encodes(line_bytes(s, i), line_tokens(s, i)->Ok_0, t);
        lemma_error_at_line(s, t, line_stop(s, i) + 1, j, f);
    }
}

/// A line that names a mnemonic the table lacks, after valid lines only,
/// makes assembly fail with that mnemonic, spelled exactly as in the source,
/// whatever follows the line.
pub proof fn lemma_unknown_mnemonic(s: Seq<u8>, t: Seq<EntryModel>, j: int)
    requires
        valid_until(s, t, 0, j),
        !Scanner::spec_eof_at(s, j),
        line_tokens(s, j) matches Ok(toks) && toks.len() > 0 && toks[0] is Word,
        lookup(t, word_text(line_bytes(s, j), line_tokens(s, j)->Ok_0[0])) is None,
    ensures
        assemble_source(s, t) == Err::<Seq<u8>, Fault>(
            Fault::UnknownMnemonic {
                text: word_text(line_bytes(s, j), line_tokens(s, j)->Ok_0[0]),
                position: token_position(line_tokens(s, j)->Ok_0[0]),
            },
        ),
{
    let toks = line_tokens(s, j)->Ok_0;
    lemma_error_at_line(
        s,
        t,
        0,
        j,
        Fault::UnknownMnemonic {
            text: word_text(line_bytes(s, j), toks[0]),
            position: token_position(toks[0]),
        },
    );
}

/// A line with fewer or more operands than its mnemonic's entry declares,
/// after valid lines only, makes assembly fail with an operand count
/// mismatch, whatever follows the line; no object code is produced.
pub proof fn lemma_operand_count_mismatch(s: Seq<u8>, t: Seq<EntryModel>, j: int)
    requires
        valid_until(s, t, 0, j),
        !Scanner::spec_eof_at(s, j),
        line_tokens(s, j) matches Ok(toks) && toks.len() > 0 && toks[0] is Word,
        lookup(t, word_text(line_bytes(s, j), line_tokens(s, j)->Ok_0[0])) matches Some(e)
            && count_words(line_tokens(s, j)->Ok_0.drop_first()) != e.operands.len(),
    ensures
        assemble_source(s, t) == Err::<Seq<u8>, Fault>(
            Fault::OperandCountMismatch {
                position: token_position(line_tokens(s, j)->Ok_0[0]),
                expected: lookup(
                    t,
                    word_text(line_bytes(s, j), line_tokens(s, j)->Ok_0[0]),
                )->0.operands.len() as usize,
                found: count_words(line_tokens(s, j)->Ok_0.drop_first()) as usize,
            },
        ),
{
    let toks = line_tokens(s, j)->Ok_0;
    let e = lookup(t, word_text(line_bytes(s, j), toks[0]))->0;
    lemma_error_at_line(
        s,
        t,
        0,
        j,
        Fault::OperandCountMismatch {
            position: token_position(toks[0]),
            expected: e.operands.len() as usize,
            found: count_words(toks.drop_first()) as usize,
        },
    );
}

/// Assembling the same source against the same table twice gives the same
/// result, byte for byte.
pub proof fn lemma_assemble_deterministic(
    s: Seq<u8>,
    t: Seq<EntryModel>,
    first: Result<Seq<u8>, Fault>,
    second: Result<Seq<u8>, Fault>,
)
    requires
        first == assemble_source(s, t),
        second == assemble_source(s, t),
    ensures
        first == second,
{
}

} // verus!
