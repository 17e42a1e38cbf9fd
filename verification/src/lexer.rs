use vstd::prelude::*;
use crate::text::{chars_of, string_from_chars, copy_str, push_str, push_char, is_ascii_alpha, is_ascii_digit,
    is_ident_tail_char};

verus! {

/// A token of the build language.
#[derive(Clone, Debug, PartialEq)]
pub enum Tok {
    Bind,
    Let,
    In,
    If,
    For,
    Switch,
    Null,
    True,
    False,
    At,
    Underscore,
    TripleDots,
    RDoubleArrow,
    Colon,
    SemiColon,
    Assign,
    Pipe,
    Dot,
    Comma,
    Minus,
    UnOpNot,
    BinOpHasAttr,
    BinOpListConcat,
    BinOpMult,
    BinOpDiv,
    BinOpAdd,
    BinOpUpdate,
    BinOpLt,
    BinOpLe,
    BinOpGt,
    BinOpGe,
    BinOpEq,
    BinOpNeq,
    BinOpLogAnd,
    BinOpLogOr,
    BinOpLogImpl,
    LBrace,
    RBrace,
    LPar,
    RPar,
    LSqBracket,
    RSqBracket,
    Ident(String),
    Number(String),
    StringQuote,
    StringChunk(String),
    StringEmbedStart,
    StringEmbedEnd,
}

/// A token and the span `[start, end)` of the source (in characters) it
/// was read from.
#[derive(Clone, Debug, PartialEq)]
pub struct Token {
    pub tok: Tok,
    pub start: usize,
    pub end: usize,
}

/// A source the lexer could not read: why, and where.
#[derive(Clone, Debug, PartialEq)]
pub struct LexError {
    pub message: String,
    pub start: usize,
    pub end: usize,
}

/// The text a token stands for in the source.
pub open spec fn tok_text(t: Tok) -> Seq<char> {
    match t {
        Tok::Bind => seq!['b', 'i', 'n', 'd'],
        Tok::Let => seq!['l', 'e', 't'],
        Tok::In => seq!['i', 'n'],
        Tok::If => seq!['i', 'f'],
        Tok::For => seq!['f', 'o', 'r'],
        Tok::Switch => seq!['s', 'w', 'i', 't', 'c', 'h'],
        Tok::Null => seq!['n', 'u', 'l', 'l'],
        Tok::True => seq!['t', 'r', 'u', 'e'],
        Tok::False => seq!['f', 'a', 'l', 's', 'e'],
        Tok::At => seq!['@'],
        Tok::Underscore => seq!['_'],
        Tok::TripleDots => seq!['.', '.', '.'],
        Tok::RDoubleArrow => seq!['=', '>'],
        Tok::Colon => seq![':'],
        Tok::SemiColon => seq![';'],
        Tok::Assign => seq!['='],
        Tok::Pipe => seq!['|'],
        Tok::Dot => seq!['.'],
        Tok::Comma => seq![','],
        Tok::Minus => seq!['-'],
        Tok::UnOpNot => seq!['!'],
        Tok::BinOpHasAttr => seq!['?'],
        Tok::BinOpListConcat => seq!['+', '+'],
        Tok::BinOpMult => seq!['*'],
        Tok::BinOpDiv => seq!['/'],
        Tok::BinOpAdd => seq!['+'],
        Tok::BinOpUpdate => seq!['/', '/'],
        Tok::BinOpLt => seq!['<'],
        Tok::BinOpLe => seq!['<', '='],
        Tok::BinOpGt => seq!['>'],
        Tok::BinOpGe => seq!['>', '='],
        Tok::BinOpEq => seq!['=', '='],
        Tok::BinOpNeq => seq!['!', '='],
        Tok::BinOpLogAnd => seq!['&', '&'],
        Tok::BinOpLogOr => seq!['|', '|'],
        Tok::BinOpLogImpl => seq!['-', '>'],
        Tok::LBrace => seq!['{'],
        Tok::RBrace => seq!['}'],
        Tok::LPar => seq!['('],
        Tok::RPar => seq![')'],
        Tok::LSqBracket => seq!['['],
        Tok::RSqBracket => seq![']'],
        Tok::Ident(s) => s@,
        Tok::Number(s) => s@,
        Tok::StringQuote => seq!['"'],
        Tok::StringChunk(s) => s@,
        Tok::StringEmbedStart => seq!['$', '{'],
        Tok::StringEmbedEnd => seq!['}'],
    }
}

pub open spec fn is_ws(c: char) -> bool {
    c == ' ' || c == '\t' || c == '\r' || c == '\n'
}

/// Inside a comment: some `#` at or before `i` with no line break
/// between it and `i`.
pub open spec fn in_comment(s: Seq<char>, i: int) -> bool {
    exists|j: int| 0 <= j <= i && s[j] == '#' && forall|k: int| j <= k <= i ==> s[k] != '\n' && s[k] != '\r'
}

/// Text the lexer skips: whitespace and comments.
pub open spec fn is_trivia(s: Seq<char>) -> bool {
    forall|i: int| 0 <= i < s.len() ==> is_ws(#[trigger] s[i]) || in_comment(s, i)
}

/// The end of the token before the `i`th (0 before the first).
pub open spec fn prev_end(toks: Seq<Token>, i: int) -> int {
    if i <= 0 { 0 } else { toks[i - 1].end as int }
}

/// `toks` is a faithful reading of `s`: each token is the text it spans,
/// the spans come in order, and between them, and after the last, there
/// is only whitespace and comments.
pub open spec fn lexed(s: Seq<char>, toks: Seq<Token>) -> bool {
    &&& forall|i: int| 0 <= i < toks.len() ==> prev_end(toks, i) <= (#[trigger] toks[i]).start <= toks[i].end <= s.len()
    &&& forall|i: int| 0 <= i < toks.len() ==> s.subrange((#[trigger] toks[i]).start as int, toks[i].end as int) == tok_text(toks[i].tok)
    &&& forall|i: int| 0 <= i < toks.len() ==> is_trivia(s.subrange(prev_end(toks, i), (#[trigger] toks[i]).start as int))
    &&& prev_end(toks, toks.len() as int) <= s.len()
    &&& is_trivia(s.subrange(prev_end(toks, toks.len() as int), s.len() as int))
}

proof fn lemma_comment_prefix(u: Seq<char>, t: Seq<char>, i: int)
    requires
        u.len() <= t.len(),
        forall|k: int| 0 <= k < u.len() ==> t[k] == u[k],
        0 <= i < u.len(),
        in_comment(u, i),
    ensures
        in_comment(t, i),
{
    let j = choose|j: int| 0 <= j <= i && u[j] == '#' && forall|k: int| j <= k <= i ==> u[k] != '\n' && u[k] != '\r';
    assert(t[j] == '#');
    assert forall|k: int| j <= k <= i implies t[k] != '\n' && t[k] != '\r' by {
        assert(t[k] == u[k]);
    }
}

proof fn lemma_trivia_prefix(s: Seq<char>, a: int, c: int, b: int)
    requires
        0 <= a <= c <= b <= s.len(),
        is_trivia(s.subrange(a, c)),
    ensures
        forall|i: int| 0 <= i < c - a ==> is_ws(#[trigger] s.subrange(a, b)[i]) || in_comment(s.subrange(a, b), i),
{
    let t = s.subrange(a, b);
    let u = s.subrange(a, c);
    assert forall|i: int| 0 <= i < c - a implies is_ws(#[trigger] t[i]) || in_comment(t, i) by {
        assert(t[i] == u[i]);
        if !is_ws(u[i]) {
            lemma_comment_prefix(u, t, i);
        }
    }
}

proof fn lemma_trivia_extend_ws(s: Seq<char>, a: int, b: int)
    requires
        0 <= a <= b < s.len(),
        is_trivia(s.subrange(a, b)),
        is_ws(s[b]),
    ensures
        is_trivia(s.subrange(a, b + 1)),
{
    lemma_trivia_prefix(s, a, b, b + 1);
    let t = s.subrange(a, b + 1);
    assert(t[b - a] == s[b]);
}

proof fn lemma_trivia_extend_comment(s: Seq<char>, a: int, c: int, b: int)
    requires
        0 <= a <= c <= b <= s.len(),
        c < b,
        is_trivia(s.subrange(a, c)),
        s[c] == '#',
        forall|k: int| c <= k < b ==> s[k] != '\n' && s[k] != '\r',
    ensures
        is_trivia(s.subrange(a, b)),
{
    lemma_trivia_prefix(s, a, c, b);
    let t = s.subrange(a, b);
    assert forall|i: int| c - a <= i < t.len() implies is_ws(#[trigger] t[i]) || in_comment(t, i) by {
        let j = c - a;
        assert(t[j] == '#');
        assert forall|k: int| j <= k <= i implies t[k] != '\n' && t[k] != '\r' by {
            assert(t[k] == s[a + k]);
        }
    }
}

/// The characters of a string literal's body that a chunk runs over:
/// anything but a quote, a dollar or a backslash.
pub open spec fn plain_chunk_char(c: char) -> bool {
    c != '"' && c != '$' && c != '\\'
}

/* The lexer as a function of the source text. */

/// What kind of token a token is: a fixed one, or one whose text is its
/// payload (a name, a number, a piece of a string literal).
pub enum TokKind {
    Fixed(Tok),
    Ident,
    Number,
    Chunk,
}

pub open spec fn kind_of(t: Tok) -> TokKind {
    match t {
        Tok::Ident(_) => TokKind::Ident,
        Tok::Number(_) => TokKind::Number,
        Tok::StringChunk(_) => TokKind::Chunk,
        _ => TokKind::Fixed(t),
    }
}

/// A token's kind and span; with `lexed`, which fixes the text of each
/// token, this determines the token.
pub open spec fn descs(ts: Seq<Token>) -> Seq<(TokKind, int, int)> {
    ts.map_values(|t: Token| (kind_of(t.tok), t.start as int, t.end as int))
}

pub open spec fn is_letter(c: char) -> bool {
    ('a' <= c && c <= 'z') || ('A' <= c && c <= 'Z')
}

pub open spec fn is_digit_char(c: char) -> bool {
    '0' <= c && c <= '9'
}

pub open spec fn is_word_char(c: char) -> bool {
    is_letter(c) || is_digit_char(c) || c == '_'
}

/// The end of the longest run of name characters from `p`.
pub open spec fn word_end(s: Seq<char>, p: int) -> int
    decreases s.len() - p,
{
    if 0 <= p < s.len() && is_word_char(s[p]) { word_end(s, p + 1) } else { p }
}

/// The end of the longest run of digits from `p`.
pub open spec fn digits_end(s: Seq<char>, p: int) -> int
    decreases s.len() - p,
{
    if 0 <= p < s.len() && is_digit_char(s[p]) { digits_end(s, p + 1) } else { p }
}

/// The first line break at or after `p`, or the end.
pub open spec fn comment_end(s: Seq<char>, p: int) -> int
    decreases s.len() - p,
{
    if 0 <= p < s.len() && s[p] != '\n' && s[p] != '\r' { comment_end(s, p + 1) } else { p }
}

/// Where the piece of a string literal starting at `p` ends: before a
/// quote or a `$` that is not `$$`; a backslash or `$` takes the next
/// character along. The flag is set when such a character is the last of
/// the source (where the scan stops).
pub open spec fn chunk_scan(s: Seq<char>, p: int) -> (int, bool)
    decreases s.len() - p,
{
    if 0 <= p < s.len() && s[p] != '"' && !(s[p] == '$' && !(p + 1 < s.len() && s[p + 1] == '$')) {
        if s[p] == '\\' || s[p] == '$' {
            if p + 1 < s.len() { chunk_scan(s, p + 2) } else { (p, true) }
        } else {
            chunk_scan(s, p + 1)
        }
    } else {
        (p, false)
    }
}

pub proof fn lemma_ends(s: Seq<char>, p: int)
    requires
        0 <= p <= s.len(),
    ensures
        p <= word_end(s, p) <= s.len(),
        p <= digits_end(s, p) <= s.len(),
        p <= comment_end(s, p) <= s.len(),
        p <= chunk_scan(s, p).0 <= s.len(),
        chunk_scan(s, p).1 ==> chunk_scan(s, p).0 < s.len(),
    decreases s.len() - p,
{
    if p < s.len() {
        lemma_ends(s, p + 1);
        if p + 2 <= s.len() {
            lemma_ends(s, p + 2);
        }
    }
}

/// The keyword a name stands for, if it is one.
pub open spec fn keyword_v(w: Seq<char>) -> Option<Tok> {
    if w == seq!['i', 'n'] {
        Some(Tok::In)
    } else if w == seq!['i', 'f'] {
        Some(Tok::If)
    } else if w == seq!['l', 'e', 't'] {
        Some(Tok::Let)
    } else if w == seq!['f', 'o', 'r'] {
        Some(Tok::For)
    } else if w == seq!['b', 'i', 'n', 'd'] {
        Some(Tok::Bind)
    } else if w == seq!['n', 'u', 'l', 'l'] {
        Some(Tok::Null)
    } else if w == seq!['t', 'r', 'u', 'e'] {
        Some(Tok::True)
    } else if w == seq!['f', 'a', 'l', 's', 'e'] {
        Some(Tok::False)
    } else if w == seq!['s', 'w', 'i', 't', 'c', 'h'] {
        Some(Tok::Switch)
    } else {
        None
    }
}

/// The operator or punctuation token at `p`, and its length; the longest
/// one that matches.
pub open spec fn punct_v(s: Seq<char>, p: int) -> Option<(Tok, int)> {
    let c = s[p];
    let has_next = p + 1 < s.len();
    let next = if has_next { s[p + 1] } else { ' ' };
    if c == '.' {
        if p + 2 < s.len() && s[p + 1] == '.' && s[p + 2] == '.' { Some((Tok::TripleDots, 3)) } else { Some((Tok::Dot, 1)) }
    } else if c == '=' {
        if has_next && next == '>' {
            Some((Tok::RDoubleArrow, 2))
        } else if has_next && next == '=' {
            Some((Tok::BinOpEq, 2))
        } else {
            Some((Tok::Assign, 1))
        }
    } else if c == '|' {
        if has_next && next == '|' { Some((Tok::BinOpLogOr, 2)) } else { Some((Tok::Pipe, 1)) }
    } else if c == '&' {
        if has_next && next == '&' { Some((Tok::BinOpLogAnd, 2)) } else { None }
    } else if c == '-' {
        if has_next && next == '>' { Some((Tok::BinOpLogImpl, 2)) } else { Some((Tok::Minus, 1)) }
    } else if c == '!' {
        if has_next && next == '=' { Some((Tok::BinOpNeq, 2)) } else { Some((Tok::UnOpNot, 1)) }
    } else if c == '+' {
        if has_next && next == '+' { Some((Tok::BinOpListConcat, 2)) } else { Some((Tok::BinOpAdd, 1)) }
    } else if c == '/' {
        if has_next && next == '/' { Some((Tok::BinOpUpdate, 2)) } else { Some((Tok::BinOpDiv, 1)) }
    } else if c == '<' {
        if has_next && next == '=' { Some((Tok::BinOpLe, 2)) } else { Some((Tok::BinOpLt, 1)) }
    } else if c == '>' {
        if has_next && next == '=' { Some((Tok::BinOpGe, 2)) } else { Some((Tok::BinOpGt, 1)) }
    } else if c == '@' {
        Some((Tok::At, 1))
    } else if c == '_' {
        Some((Tok::Underscore, 1))
    } else if c == ':' {
        Some((Tok::Colon, 1))
    } else if c == ';' {
        Some((Tok::SemiColon, 1))
    } else if c == ',' {
        Some((Tok::Comma, 1))
    } else if c == '?' {
        Some((Tok::BinOpHasAttr, 1))
    } else if c == '*' {
        Some((Tok::BinOpMult, 1))
    } else if c == '(' {
        Some((Tok::LPar, 1))
    } else if c == ')' {
        Some((Tok::RPar, 1))
    } else if c == '[' {
        Some((Tok::LSqBracket, 1))
    } else if c == ']' {
        Some((Tok::RSqBracket, 1))
    } else {
        None
    }
}

/// The message of a lexing error at the character `c`.
pub open spec fn lex_msg(msg: Seq<char>, c: char) -> Seq<char> {
    msg + seq![' ', '"', c, '"']
}

/// A lexing error: its message and span.
pub type LexErrV = (Seq<char>, int, int);

/// The nesting counter of the innermost embedded expression, one up (it
/// stops at the largest `u64`).
pub open spec fn depth_open(d: Seq<u64>) -> Seq<u64> {
    if d.len() > 0 && d.last() < u64::MAX { d.update(d.len() - 1, (d.last() + 1) as u64) } else { d }
}

/// The tokens of `s` from `pos` on, after the tokens `acc` already read:
/// `ins` says whether `pos` is inside a string literal, and `depth` holds,
/// per embedded expression `${...}` that is open, how many braces are
/// open inside it. Whitespace and `#` comments are skipped; a name or a
/// number is read as far as it goes (a name that is a keyword is that
/// keyword); an operator is read as its longest form.
pub open spec fn lex_from(s: Seq<char>, pos: int, ins: bool, depth: Seq<u64>, acc: Seq<(TokKind, int, int)>)
    -> Result<Seq<(TokKind, int, int)>, LexErrV>
    decreases s.len() - pos,
{
    if pos < 0 || pos >= s.len() {
        if ins {
            Err(("unterminated string literal"@, s.len() as int, s.len() as int))
        } else {
            Ok(acc)
        }
    } else {
        let c = s[pos];
        proof {
            lemma_ends(s, pos + 1);
            lemma_ends(s, pos);
        }
        if !ins && is_ws(c) {
            lex_from(s, pos + 1, ins, depth, acc)
        } else if !ins && c == '#' {
            lex_from(s, comment_end(s, pos + 1), ins, depth, acc)
        } else if ins {
            if c == '"' {
                lex_from(s, pos + 1, false, depth, acc.push((TokKind::Fixed(Tok::StringQuote), pos, pos + 1)))
            } else if c == '$' && pos + 1 < s.len() && s[pos + 1] == '{' {
                lex_from(s, pos + 2, false, depth.push(0), acc.push((TokKind::Fixed(Tok::StringEmbedStart), pos, pos + 2)))
            } else {
                let (e, bad) = chunk_scan(s, pos);
                if bad {
                    Err((lex_msg("unrecognized token in string"@, s[e]), e, s.len() as int))
                } else if e == pos {
                    if e == s.len() {
                        Err(("unterminated string literal"@, e, e))
                    } else {
                        Err((lex_msg("unrecognized token in string"@, s[e]), e, e + 1))
                    }
                } else {
                    lex_from(s, e, true, depth, acc.push((TokKind::Chunk, pos, e)))
                }
            }
        } else if c == '"' {
            lex_from(s, pos + 1, true, depth, acc.push((TokKind::Fixed(Tok::StringQuote), pos, pos + 1)))
        } else if c == '{' {
            lex_from(s, pos + 1, false, depth_open(depth), acc.push((TokKind::Fixed(Tok::LBrace), pos, pos + 1)))
        } else if c == '}' {
            if depth.len() > 0 && depth.last() == 0 {
                lex_from(s, pos + 1, true, depth.drop_last(), acc.push((TokKind::Fixed(Tok::StringEmbedEnd), pos, pos + 1)))
            } else {
                let d2 = if depth.len() > 0 { depth.update(depth.len() - 1, (depth.last() - 1) as u64) } else { depth };
                lex_from(s, pos + 1, false, d2, acc.push((TokKind::Fixed(Tok::RBrace), pos, pos + 1)))
            }
        } else if is_letter(c) {
            let e = word_end(s, pos + 1);
            let k = match keyword_v(s.subrange(pos, e)) {
                Some(t) => TokKind::Fixed(t),
                None => TokKind::Ident,
            };
            lex_from(s, e, false, depth, acc.push((k, pos, e)))
        } else if is_digit_char(c) {
            let e = digits_end(s, pos + 1);
            lex_from(s, e, false, depth, acc.push((TokKind::Number, pos, e)))
        } else {
            match punct_v(s, pos) {
                Some((t, l)) => if pos + l <= s.len() {
                    lex_from(s, pos + l, false, depth, acc.push((TokKind::Fixed(t), pos, pos + l)))
                } else {
                    Err((lex_msg("unrecognized token"@, c), pos, pos + 1))
                },
                None => Err((lex_msg("unrecognized token"@, c), pos, pos + 1)),
            }
        }
    }
}

/// The tokens of `s` (their kinds and spans), or the error that stops the
/// lexer.
pub open spec fn lex_spec(s: Seq<char>) -> Result<Seq<(TokKind, int, int)>, LexErrV> {
    lex_from(s, 0, false, Seq::empty(), Seq::empty())
}

fn keyword(word: &Vec<char>) -> (r: Option<Tok>)
    ensures
        r matches Some(t) ==> tok_text(t) == word@,
        r == keyword_v(word@),
{
    let n = word.len();
    if n == 2 && word[0] == 'i' && word[1] == 'n' {
        assert(word@ =~= seq!['i', 'n']);
        Some(Tok::In)
    } else if n == 2 && word[0] == 'i' && word[1] == 'f' {
        assert(word@ =~= seq!['i', 'f']);
        Some(Tok::If)
    } else if n == 3 && word[0] == 'l' && word[1] == 'e' && word[2] == 't' {
        assert(word@ =~= seq!['l', 'e', 't']);
        Some(Tok::Let)
    } else if n == 3 && word[0] == 'f' && word[1] == 'o' && word[2] == 'r' {
        assert(word@ =~= seq!['f', 'o', 'r']);
        Some(Tok::For)
    } else if n == 4 && word[0] == 'b' && word[1] == 'i' && word[2] == 'n' && word[3] == 'd' {
        assert(word@ =~= seq!['b', 'i', 'n', 'd']);
        Some(Tok::Bind)
    } else if n == 4 && word[0] == 'n' && word[1] == 'u' && word[2] == 'l' && word[3] == 'l' {
        assert(word@ =~= seq!['n', 'u', 'l', 'l']);
        Some(Tok::Null)
    } else if n == 4 && word[0] == 't' && word[1] == 'r' && word[2] == 'u' && word[3] == 'e' {
        assert(word@ =~= seq!['t', 'r', 'u', 'e']);
        Some(Tok::True)
    } else if n == 5 && word[0] == 'f' && word[1] == 'a' && word[2] == 'l' && word[3] == 's' && word[4] == 'e' {
        assert(word@ =~= seq!['f', 'a', 'l', 's', 'e']);
        Some(Tok::False)
    } else if n == 6 && word[0] == 's' && word[1] == 'w' && word[2] == 'i' && word[3] == 't' && word[4] == 'c'
        && word[5] == 'h' {
        assert(word@ =~= seq!['s', 'w', 'i', 't', 'c', 'h']);
        Some(Tok::Switch)
    } else {
        None
    }
}

/// The operator or punctuation token at `pos`, and its length.
fn punct(s: &Vec<char>, pos: usize) -> (r: Option<(Tok, usize)>)
    requires
        pos < s@.len(),
    ensures
        r matches Some((t, n)) ==> 1 <= n && pos + n <= s@.len() && s@.subrange(pos as int, pos + n) == tok_text(t),
        match r {
            Some((t, n)) => punct_v(s@, pos as int) == Some((t, n as int)),
            None => punct_v(s@, pos as int) is None,
        },
{
    let c = s[pos];
    let has_next = s.len() - pos > 1;
    let next: char = if has_next { s[pos + 1] } else { ' ' };
    let r: Option<(Tok, usize)> = if c == '.' {
        if s.len() - pos > 2 && s[pos + 1] == '.' && s[pos + 2] == '.' {
            Some((Tok::TripleDots, 3))
        } else {
            Some((Tok::Dot, 1))
        }
    } else if c == '=' {
        if has_next && next == '>' {
            Some((Tok::RDoubleArrow, 2))
        } else if has_next && next == '=' {
            Some((Tok::BinOpEq, 2))
        } else {
            Some((Tok::Assign, 1))
        }
    } else if c == '|' {
        if has_next && next == '|' { Some((Tok::BinOpLogOr, 2)) } else { Some((Tok::Pipe, 1)) }
    } else if c == '&' {
        if has_next && next == '&' { Some((Tok::BinOpLogAnd, 2)) } else { None }
    } else if c == '-' {
        if has_next && next == '>' { Some((Tok::BinOpLogImpl, 2)) } else { Some((Tok::Minus, 1)) }
    } else if c == '!' {
        if has_next && next == '=' { Some((Tok::BinOpNeq, 2)) } else { Some((Tok::UnOpNot, 1)) }
    } else if c == '+' {
        if has_next && next == '+' { Some((Tok::BinOpListConcat, 2)) } else { Some((Tok::BinOpAdd, 1)) }
    } else if c == '/' {
        if has_next && next == '/' { Some((Tok::BinOpUpdate, 2)) } else { Some((Tok::BinOpDiv, 1)) }
    } else if c == '<' {
        if has_next && next == '=' { Some((Tok::BinOpLe, 2)) } else { Some((Tok::BinOpLt, 1)) }
    } else if c == '>' {
        if has_next && next == '=' { Some((Tok::BinOpGe, 2)) } else { Some((Tok::BinOpGt, 1)) }
    } else if c == '@' {
        Some((Tok::At, 1))
    } else if c == '_' {
        Some((Tok::Underscore, 1))
    } else if c == ':' {
        Some((Tok::Colon, 1))
    } else if c == ';' {
        Some((Tok::SemiColon, 1))
    } else if c == ',' {
        Some((Tok::Comma, 1))
    } else if c == '?' {
        Some((Tok::BinOpHasAttr, 1))
    } else if c == '*' {
        Some((Tok::BinOpMult, 1))
    } else if c == '(' {
        Some((Tok::LPar, 1))
    } else if c == ')' {
        Some((Tok::RPar, 1))
    } else if c == '[' {
        Some((Tok::LSqBracket, 1))
    } else if c == ']' {
        Some((Tok::RSqBracket, 1))
    } else {
        None
    };
    match &r {
        Some((t, n)) => {
            assert(s@.subrange(pos as int, pos + *n) =~= tok_text(*t));
        },
        None => {},
    }
    r
}

fn lex_error(msg: &str, c: char, start: usize, end: usize) -> (e: LexError)
    ensures
        e.start == start,
        e.end == end,
        e.message@ == lex_msg(msg@, c),
{
    let mut message = copy_str(msg);
    push_str(&mut message, " \"");
    push_char(&mut message, c);
    push_char(&mut message, '"');
    proof {
        reveal_strlit(" \"");
        assert(message@ =~= lex_msg(msg@, c));
    }
    LexError { message, start, end }
}

/// Reads the token at `start` (not whitespace or a comment outside a
/// string literal), updating whether the lexer is inside a string literal
/// and the brace counts of the open embedded expressions.
#[verifier::rlimit(100)]
#[verifier::spinoff_prover]
fn scan_token(s: &Vec<char>, start: usize, in_string: &mut bool, depth: &mut Vec<u64>) -> (r: Result<(Tok, usize), LexError>)
    requires
        start < s@.len(),
        !(!*old(in_string) && is_ws(s@[start as int])),
        !(!*old(in_string) && s@[start as int] == '#'),
    ensures
        match r {
            Ok((tok, end)) => start < end <= s@.len() && s@.subrange(start as int, end as int) == tok_text(tok)
                && forall|acc: Seq<(TokKind, int, int)>|
                #[trigger] lex_from(s@, start as int, *old(in_string), old(depth)@, acc) == lex_from(
                    s@,
                    end as int,
                    *final(in_string),
                    final(depth)@,
                    acc.push((kind_of(tok), start as int, end as int)),
                ),
            Err(e) => forall|acc: Seq<(TokKind, int, int)>|
                #[trigger] lex_from(s@, start as int, *old(in_string), old(depth)@, acc) == Err::<
                    Seq<(TokKind, int, int)>,
                    LexErrV,
                >((e.message@, e.start as int, e.end as int)),
        },
{
    let n = s.len();
    let mut pos = start;
    let c = s[pos];
    let ghost d0 = depth@;
    proof {
        lemma_ends(s@, pos + 1);
        lemma_ends(s@, pos as int);
    }
    let tok: Tok;
    if *in_string {
        if c == '"' {
            tok = Tok::StringQuote;
            pos = pos + 1;
            *in_string = false;
            assert(s@.subrange(start as int, pos as int) =~= tok_text(tok));
        } else if c == '$' && pos + 1 < n && s[pos + 1] == '{' {
            tok = Tok::StringEmbedStart;
            pos = pos + 2;
            *in_string = false;
            depth.push(0);
            assert(s@.subrange(start as int, pos as int) =~= tok_text(tok));
        } else {
            while pos < n && s[pos] != '"'
                && !(s[pos] == '$' && !(pos + 1 < n && s[pos + 1] == '$'))
                invariant
                    start <= pos <= n,
                    n == s@.len(),
                    chunk_scan(s@, pos as int) == chunk_scan(s@, start as int),
                    *old(in_string),
                    start < n,
                    s@[start as int] != '"',
                    !(s@[start as int] == '$' && start + 1 < n && s@[start + 1] == '{'),
                decreases n - pos,
            {
                if s[pos] == '\\' || s[pos] == '$' {
                    if pos + 1 < n {
                        pos = pos + 2;
                    } else {
                        return Err(lex_error("unrecognized token in string", s[pos], pos, n));
                    }
                } else {
                    pos = pos + 1;
                }
            }
            if pos == start {
                if pos == n {
                    return Err(LexError { message: copy_str("unterminated string literal"), start: pos, end: pos });
                }
                return Err(lex_error("unrecognized token in string", s[pos], pos, pos + 1));
            }
            tok = Tok::StringChunk(string_from_chars(&s, start, pos));
        }
    } else if c == '"' {
        tok = Tok::StringQuote;
        pos = pos + 1;
        *in_string = true;
        assert(s@.subrange(start as int, pos as int) =~= tok_text(tok));
    } else if c == '{' {
        tok = Tok::LBrace;
        pos = pos + 1;
        let d = depth.len();
        if d > 0 {
            let top = depth[d - 1];
            if top < u64::MAX {
                depth.set(d - 1, top + 1);
            }
        }
        assert(depth@ =~= depth_open(d0));
        assert(s@.subrange(start as int, pos as int) =~= tok_text(tok));
    } else if c == '}' {
        pos = pos + 1;
        let d = depth.len();
        if d > 0 && depth[d - 1] == 0 {
            depth.pop();
            assert(depth@ =~= d0.drop_last());
            tok = Tok::StringEmbedEnd;
            *in_string = true;
        } else {
            if d > 0 {
                let top = depth[d - 1];
                depth.set(d - 1, top - 1);
            }
            tok = Tok::RBrace;
        }
        assert(s@.subrange(start as int, pos as int) =~= tok_text(tok));
    } else if ('a' <= c && c <= 'z') || ('A' <= c && c <= 'Z') {
        pos = pos + 1;
        while pos < n && (('a' <= s[pos] && s[pos] <= 'z') || ('A' <= s[pos] && s[pos] <= 'Z')
            || ('0' <= s[pos] && s[pos] <= '9') || s[pos] == '_')
            invariant
                start < pos <= n,
                n == s@.len(),
                word_end(s@, pos as int) == word_end(s@, start + 1),
            decreases n - pos,
        {
            pos = pos + 1;
        }
        let mut word: Vec<char> = Vec::new();
        let mut k = start;
        while k < pos
            invariant
                start <= k <= pos <= n,
                n == s@.len(),
                word@ == s@.subrange(start as int, k as int),
            decreases pos - k,
        {
            word.push(s[k]);
            assert(word@ =~= s@.subrange(start as int, k + 1));
            k = k + 1;
        }
        tok = match keyword(&word) {
            Some(t) => t,
            None => Tok::Ident(string_from_chars(&s, start, pos)),
        };
    } else if '0' <= c && c <= '9' {
        pos = pos + 1;
        while pos < n && '0' <= s[pos] && s[pos] <= '9'
            invariant
                start < pos <= n,
                n == s@.len(),
                digits_end(s@, pos as int) == digits_end(s@, start + 1),
            decreases n - pos,
        {
            pos = pos + 1;
        }
        tok = Tok::Number(string_from_chars(&s, start, pos));
    } else {
        match punct(&s, pos) {
            Some((t, len)) => {
                tok = t;
                pos = pos + len;
            },
            None => {
                return Err(lex_error("unrecognized token", c, pos, pos + 1));
            },
        }
    }
    Ok((tok, pos))
}

/// Reads the tokens of `src`. While inside a string literal, a `${`
/// opens an embedded expression, whose own closing `}` returns to the
/// string (braces opened inside it are counted).
#[verifier::rlimit(100)]
#[verifier::spinoff_prover]
pub fn lex(src: &str) -> (r: Result<Vec<Token>, LexError>)
    ensures
        r matches Ok(toks) ==> lexed(src@, toks@),
        match r {
            Ok(toks) => lex_spec(src@) == Ok::<Seq<(TokKind, int, int)>, LexErrV>(descs(toks@)),
            Err(e) => lex_spec(src@) == Err::<Seq<(TokKind, int, int)>, LexErrV>((e.message@, e.start as int, e.end as int)),
        },
{
    let s = chars_of(src);
    let n = s.len();
    let mut toks: Vec<Token> = Vec::new();
    let mut pos: usize = 0;
    let mut last_end: usize = 0;
    let mut in_string = false;
    let mut depth: Vec<u64> = Vec::new();
    proof {
        assert(descs(toks@) =~= Seq::<(TokKind, int, int)>::empty());
        assert(depth@ =~= Seq::<u64>::empty());
    }
    while pos < n
        invariant
            s@ == src@,
            lex_spec(s@) == lex_from(s@, pos as int, in_string, depth@, descs(toks@)),
            n == s@.len(),
            last_end <= pos <= n,
            last_end == prev_end(toks@, toks@.len() as int),
            in_string ==> pos == last_end,
            is_trivia(s@.subrange(last_end as int, pos as int)),
            forall|i: int| 0 <= i < toks@.len() ==> prev_end(toks@, i) <= (#[trigger] toks@[i]).start <= toks@[i].end <= s@.len(),
            forall|i: int| 0 <= i < toks@.len() ==> s@.subrange((#[trigger] toks@[i]).start as int, toks@[i].end as int) == tok_text(toks@[i].tok),
            forall|i: int| 0 <= i < toks@.len() ==> is_trivia(s@.subrange(prev_end(toks@, i), (#[trigger] toks@[i]).start as int)),
        decreases n - pos,
    {
        let ghost t0 = toks@;
        let ghost d0 = depth@;
        let ghost st0 = pos as int;
        let c = s[pos];
        proof {
            lemma_ends(s@, pos + 1);
            lemma_ends(s@, pos as int);
        }
        if !in_string && (c == ' ' || c == '\t' || c == '\r' || c == '\n') {
            proof { lemma_trivia_extend_ws(s@, last_end as int, pos as int); }
            pos = pos + 1;
        } else if !in_string && c == '#' {
            let start = pos;
            while pos < n && s[pos] != '\n' && s[pos] != '\r'
                invariant
                    start <= pos <= n,
                    n == s@.len(),
                    s@[start as int] == '#',
                    forall|k: int| start <= k < pos ==> s@[k] != '\n' && s@[k] != '\r',
                    comment_end(s@, pos as int) == comment_end(s@, start as int),
                decreases n - pos,
            {
                pos = pos + 1;
            }
            assert(comment_end(s@, start as int) == comment_end(s@, start + 1));
            proof { lemma_trivia_extend_comment(s@, last_end as int, start as int, pos as int); }
        } else {
            let start = pos;
            match scan_token(&s, start, &mut in_string, &mut depth) {
                Ok((t, end)) => {
                    pos = end;
                    let tok = t;
                    let ghost kd = kind_of(tok);
                    toks.push(Token { tok, start, end: pos });
                    proof {
                        assert(descs(toks@) =~= descs(t0).push((kd, start as int, pos as int)));
                        assert(toks@.len() == t0.len() + 1);
                        assert forall|i: int| 0 <= i < toks@.len() implies prev_end(toks@, i) == prev_end(t0, i) || i == t0.len() by {
                            if i < t0.len() && i > 0 {
                                assert(toks@[i - 1] == t0[i - 1]);
                            }
                        }
                        assert forall|i: int| 0 <= i < toks@.len() implies prev_end(toks@, i) <= (#[trigger] toks@[i]).start
                            <= toks@[i].end <= s@.len() by {
                            if i < t0.len() {
                                assert(toks@[i] == t0[i]);
                                if i > 0 {
                                    assert(toks@[i - 1] == t0[i - 1]);
                                }
                            }
                        }
                        assert forall|i: int| 0 <= i < toks@.len() implies s@.subrange((#[trigger] toks@[i]).start as int,
                            toks@[i].end as int) == tok_text(toks@[i].tok) by {
                            if i < t0.len() {
                                assert(toks@[i] == t0[i]);
                            }
                        }
                        assert forall|i: int| 0 <= i < toks@.len() implies is_trivia(s@.subrange(prev_end(toks@, i),
                            (#[trigger] toks@[i]).start as int)) by {
                            if i < t0.len() {
                                assert(toks@[i] == t0[i]);
                                if i > 0 {
                                    assert(toks@[i - 1] == t0[i - 1]);
                                }
                            }
                        }
                    }
                    last_end = pos;
                    assert(s@.subrange(last_end as int, pos as int) =~= Seq::<char>::empty());
                },
                Err(e) => {
                    return Err(e);
                },
            }
        }
    }
    if in_string {
        return Err(LexError { message: copy_str("unterminated string literal"), start: n, end: n });
    }
    Ok(toks)
}

} // verus!
