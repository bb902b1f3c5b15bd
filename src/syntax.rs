use vstd::prelude::*;
use vstd::string::StrSliceExecFns;

use crate::assemble::{Line, ParsedDirective};
use crate::error::ParseError;
use crate::expr::Value;
use crate::instr::{
    InSource, IrqIndexMode, JmpCondition, MovOperation, MovRxIndex, OutDestination,
    ParsedInstruction, ParsedMovDestination, ParsedMovSource, ParsedOperands, SetDestination,
    WaitSource,
};

verus! {

/// One token of the assembly text.
#[derive(Debug)]
pub enum Tok {
    /// A name or keyword: as written, and folded to lower case.
    Word(String, Vec<char>),
    Int(i32),
    Punct(char),
    /// One of `--`, `!=` and `::`.
    Punct2(char, char),
    Newline,
}

/// A token and the character offset where it starts.
#[derive(Debug)]
pub struct Token {
    pub tok: Tok,
    pub pos: usize,
}

/// The lower-case form of a character: ASCII capitals move down by 32, all else stays.
pub open spec fn folded(c: char) -> u32 {
    if 65 <= (c as u32) <= 90 {
        (c as u32 + 32) as u32
    } else {
        c as u32
    }
}

/// The lower-case form of an ASCII capital; every other character stays.
pub open spec fn fold_char(c: char) -> char {
    match c {
        'A' => 'a',
        'B' => 'b',
        'C' => 'c',
        'D' => 'd',
        'E' => 'e',
        'F' => 'f',
        'G' => 'g',
        'H' => 'h',
        'I' => 'i',
        'J' => 'j',
        'K' => 'k',
        'L' => 'l',
        'M' => 'm',
        'N' => 'n',
        'O' => 'o',
        'P' => 'p',
        'Q' => 'q',
        'R' => 'r',
        'S' => 's',
        'T' => 't',
        'U' => 'u',
        'V' => 'v',
        'W' => 'w',
        'X' => 'x',
        'Y' => 'y',
        'Z' => 'z',
        _ => c,
    }
}

/// Folds ASCII capitals to lower case.
pub fn fold(c: char) -> (r: char)
    ensures
        r as u32 == folded(c),
        r == fold_char(c),
{
    match c {
        'A' => 'a',
        'B' => 'b',
        'C' => 'c',
        'D' => 'd',
        'E' => 'e',
        'F' => 'f',
        'G' => 'g',
        'H' => 'h',
        'I' => 'i',
        'J' => 'j',
        'K' => 'k',
        'L' => 'l',
        'M' => 'm',
        'N' => 'n',
        'O' => 'o',
        'P' => 'p',
        'Q' => 'q',
        'R' => 'r',
        'S' => 's',
        'T' => 't',
        'U' => 'u',
        'V' => 'v',
        'W' => 'w',
        'X' => 'x',
        'Y' => 'y',
        'Z' => 'z',
        _ => c,
    }
}

/// The characters of a string, one by one.
fn chars_of(s: &str) -> (r: Vec<char>)
    ensures
        r@ == s@,
{
    let n = s.unicode_len();
    let mut v: Vec<char> = Vec::new();
    let mut i: usize = 0;
    while i < n
        invariant
            n == s@.len(),
            i <= n,
            v@ == s@.subrange(0, i as int),
        decreases n - i,
    {
        v.push(s.get_char(i));
        i = i + 1;
        assert(v@ =~= s@.subrange(0, i as int));
    }
    assert(v@ =~= s@);
    v
}

/// The value of a digit in the given radix, if it is one.
pub open spec fn digit_value(c: char, radix: u32) -> Option<u32> {
    let d = if '0' <= c <= '9' {
        (c as u32 - '0' as u32) as u32
    } else if 'a' <= c <= 'f' {
        (c as u32 - 'a' as u32 + 10) as u32
    } else if 'A' <= c <= 'F' {
        (c as u32 - 'A' as u32 + 10) as u32
    } else {
        99
    };
    if d < radix {
        Some(d)
    } else {
        None
    }
}

fn digit(c: char, radix: u32) -> (r: Option<u32>)
    ensures
        r == digit_value(c, radix),
{
    let d: u32 = if '0' <= c && c <= '9' {
        c as u32 - '0' as u32
    } else if 'a' <= c && c <= 'f' {
        c as u32 - 'a' as u32 + 10
    } else if 'A' <= c && c <= 'F' {
        c as u32 - 'A' as u32 + 10
    } else {
        99
    };
    if d < radix {
        Some(d)
    } else {
        None
    }
}

/// The value of the digits `cs[from..to]` in the given radix.
pub open spec fn digits_value(cs: Seq<char>, from: int, to: int, radix: u32) -> int
    decreases to - from,
{
    if to <= from {
        0
    } else {
        digits_value(cs, from, to - 1, radix) * radix + digit_value(cs[to - 1], radix)->0 as int
    }
}

/// Reads digits from `i` on, `acc` being the value so far; fails once the
/// value passes `i32::MAX`. Gives the end and the value.
pub open spec fn read_from(cs: Seq<char>, i: int, acc: int, radix: u32) -> Option<(int, int)>
    decreases cs.len() - i,
{
    if 0 <= i < cs.len() && digit_value(cs[i], radix) is Some {
        let next = acc * radix + digit_value(cs[i], radix)->0;
        if next > i32::MAX {
            None
        } else {
            read_from(cs, i + 1, next, radix)
        }
    } else {
        Some((i, acc))
    }
}

/// The number whose digits start at `from`: its end and value, if it has a
/// digit and fits in `i32`.
pub open spec fn number_at(cs: Seq<char>, from: int, radix: u32) -> Option<(int, i32)> {
    match read_from(cs, from, 0, radix) {
        None => None,
        Some((e, v)) => if e == from {
            None
        } else {
            Some((e, v as i32))
        },
    }
}

proof fn lemma_read_from_bounds(cs: Seq<char>, i: int, acc: int, radix: u32)
    requires
        0 <= i <= cs.len(),
        0 <= acc <= i32::MAX,
    ensures
        read_from(cs, i, acc, radix) matches Some((e, v)) ==> i <= e <= cs.len() && 0 <= v <= i32::MAX,
    decreases cs.len() - i,
{
    if 0 <= i < cs.len() && digit_value(cs[i], radix) is Some {
        let next = acc * radix + digit_value(cs[i], radix)->0;
        if next <= i32::MAX {
            assert(next >= 0) by (nonlinear_arith)
                requires
                    acc >= 0,
                    next == acc * radix + digit_value(cs[i], radix)->0,
            ;
            lemma_read_from_bounds(cs, i + 1, next, radix);
        }
    }
}

/// Reads the digits that start at `from`; the end and the value, which must fit in `i32`.
fn read_digits(cs: &Vec<char>, from: usize, radix: u32) -> (r: Result<(usize, i32), ParseError>)
    requires
        from <= cs@.len(),
        2 <= radix <= 16,
    ensures
        match number_at(cs@, from as int, radix) {
            None => r is Err && r->Err_0 is Syntax,
            Some((e, v)) => r is Ok && r->Ok_0.0 as int == e && r->Ok_0.1 == v,
        },
        r is Ok ==> from < r->Ok_0.0 <= cs@.len(),
{
    let mut i: usize = from;
    let mut acc: i64 = 0;
    let mut more = true;
    proof {
        lemma_read_from_bounds(cs@, from as int, 0, radix);
    }
    while more && i < cs.len()
        invariant
            from <= i <= cs@.len(),
            2 <= radix <= 16,
            0 <= acc <= i32::MAX,
            more ==> read_from(cs@, from as int, 0, radix) == read_from(cs@, i as int, acc as int, radix),
            !more ==> read_from(cs@, from as int, 0, radix) == Some((i as int, acc as int)),
        decreases cs@.len() - i + if more { 1int } else { 0int },
    {
        match digit(cs[i], radix) {
            Some(d) => {
                assert(acc * (radix as i64) <= 2147483647 * 16) by (nonlinear_arith)
                    requires
                        0 <= acc <= 2147483647,
                        radix <= 16,
                ;
                let next = acc * (radix as i64) + d as i64;
                if next > 2147483647 {
                    return Err(ParseError::Syntax { position: i });
                }
                acc = next;
                i = i + 1;
            },
            None => {
                more = false;
            },
        }
    }
    if i == from {
        return Err(ParseError::Syntax { position: from });
    }
    Ok((i, acc as i32))
}

/// The token stands in the text where its position says, as written.
pub open spec fn token_fits(t: Token, s: Seq<char>) -> bool {
    &&& t.pos < s.len()
    &&& match t.tok {
        Tok::Word(text, lower) => {
            &&& t.pos + text@.len() <= s.len()
            &&& text@ == s.subrange(t.pos as int, t.pos + text@.len())
            &&& lower@.len() == text@.len()
            &&& forall|k: int| 0 <= k < lower@.len() ==> #[trigger] lower@[k] as u32 == folded(text@[k])
        },
        Tok::Punct(c) => s[t.pos as int] == c,
        Tok::Punct2(a, b) => t.pos + 1 < s.len() && s[t.pos as int] == a && s[t.pos + 1] == b,
        Tok::Newline => s[t.pos as int] == '\n',
        Tok::Int(_) => '0' <= s[t.pos as int] <= '9',
    }
}

/// A token as the specifications see it: names as character sequences.
pub enum TokV {
    Word(Seq<char>, Seq<char>),
    Int(i32),
    Punct(char),
    Punct2(char, char),
    Newline,
}

pub struct TokenV {
    pub tok: TokV,
    pub pos: int,
}

pub open spec fn token_view(t: Token) -> TokenV {
    TokenV {
        tok: match t.tok {
            Tok::Word(text, lower) => TokV::Word(text@, lower@),
            Tok::Int(v) => TokV::Int(v),
            Tok::Punct(c) => TokV::Punct(c),
            Tok::Punct2(a, b) => TokV::Punct2(a, b),
            Tok::Newline => TokV::Newline,
        },
        pos: t.pos as int,
    }
}

pub open spec fn token_views(s: Seq<Token>) -> Seq<TokenV> {
    s.map_values(|t: Token| token_view(t))
}

pub open spec fn is_word_char(c: char) -> bool {
    ('a' <= c <= 'z') || ('A' <= c <= 'Z') || c == '_' || ('0' <= c <= '9')
}

/// Where a name that continues at `j` ends.
pub open spec fn word_end(cs: Seq<char>, j: int) -> int
    decreases cs.len() - j,
{
    if 0 <= j < cs.len() && is_word_char(cs[j]) {
        word_end(cs, j + 1)
    } else {
        j
    }
}

/// Where a comment that runs to the end of the line, continuing at `j`, ends.
pub open spec fn comment_end(cs: Seq<char>, j: int) -> int
    decreases cs.len() - j,
{
    if 0 <= j < cs.len() && cs[j] != '\n' {
        comment_end(cs, j + 1)
    } else {
        j
    }
}

/// Just past the `*/` that closes a block comment, searching from `j`.
pub open spec fn block_close(cs: Seq<char>, j: int) -> Option<int>
    decreases cs.len() - j,
{
    if j < 0 || cs.len() - j < 2 {
        None
    } else if cs[j] == '*' && cs[j + 1] == '/' {
        Some(j + 2)
    } else {
        block_close(cs, j + 1)
    }
}

proof fn lemma_ends_grow(cs: Seq<char>, j: int)
    requires
        0 <= j <= cs.len(),
    ensures
        j <= word_end(cs, j) <= cs.len(),
        j <= comment_end(cs, j) <= cs.len(),
        block_close(cs, j) matches Some(e) ==> j + 2 <= e <= cs.len(),
    decreases cs.len() - j,
{
    if j < cs.len() {
        lemma_ends_grow(cs, j + 1);
    }
}

pub open spec fn is_punct(c: char) -> bool {
    c == '+' || c == '-' || c == '*' || c == '/' || c == '(' || c == ')' || c == '[' || c == ']'
        || c == ',' || c == ':' || c == '!' || c == '~' || c == '.'
}

pub open spec fn is_punct2(c: char, d: char) -> bool {
    (c == '-' && d == '-') || (c == '!' && d == '=') || (c == ':' && d == ':')
}

/// The tokens of `cs` from `i` on, after those already in `acc`; `None` where
/// the text holds a character, comment or number that no token allows.
pub open spec fn lex(cs: Seq<char>, i: int, acc: Seq<TokenV>) -> Option<Seq<TokenV>>
    decreases cs.len() - i,
{
    if i < 0 || i >= cs.len() {
        Some(acc)
    } else {
        let c = cs[i];
        let next = if i + 1 < cs.len() {
            cs[i + 1]
        } else {
            ' '
        };
        if c == ' ' || c == '\t' || c == '\r' {
            lex(cs, i + 1, acc)
        } else if c == '\n' {
            lex(cs, i + 1, acc.push(TokenV { tok: TokV::Newline, pos: i }))
        } else if c == ';' || (c == '/' && next == '/') {
            let e = comment_end(cs, i + 1);
            if i < e <= cs.len() {
                lex(cs, e, acc)
            } else {
                None
            }
        } else if c == '/' && next == '*' {
            match block_close(cs, i + 2) {
                Some(e) => if i < e <= cs.len() {
                    lex(cs, e, acc)
                } else {
                    None
                },
                None => None,
            }
        } else if '0' <= c <= '9' {
            let (radix, from) = if c == '0' && (next == 'x' || next == 'X') {
                (16u32, i + 2)
            } else if c == '0' && (next == 'b' || next == 'B') {
                (2u32, i + 2)
            } else {
                (10u32, i)
            };
            if from > cs.len() {
                None
            } else {
                match number_at(cs, from, radix) {
                    Some((e, v)) => if i < e <= cs.len() {
                        lex(cs, e, acc.push(TokenV { tok: TokV::Int(v), pos: i }))
                    } else {
                        None
                    },
                    None => None,
                }
            }
        } else if ('a' <= c <= 'z') || ('A' <= c <= 'Z') || c == '_' {
            let e = word_end(cs, i + 1);
            if i < e <= cs.len() {
                lex(
                    cs,
                    e,
                    acc.push(
                        TokenV {
                            tok: TokV::Word(cs.subrange(i, e), cs.subrange(i, e).map_values(|c: char| fold_char(c))),
                            pos: i,
                        },
                    ),
                )
            } else {
                None
            }
        } else if is_punct2(c, next) {
            lex(cs, i + 2, acc.push(TokenV { tok: TokV::Punct2(c, next), pos: i }))
        } else if is_punct(c) {
            lex(cs, i + 1, acc.push(TokenV { tok: TokV::Punct(c), pos: i }))
        } else {
            None
        }
    }
}

proof fn lemma_views_push(s: Seq<Token>, t: Token)
    ensures
        token_views(s.push(t)) == token_views(s).push(token_view(t)),
{
    assert(token_views(s.push(t)) =~= token_views(s).push(token_view(t)));
}

/// The tokens of a text, or `None` where it cannot be split into tokens.
pub open spec fn tokens_of(s: Seq<char>) -> Option<Seq<TokenV>> {
    lex(s, 0, Seq::empty())
}

/// Splits assembly text into tokens; comments and blanks are dropped, line ends kept.
pub fn tokenize(s: &str) -> (r: Result<Vec<Token>, ParseError>)
    ensures
        r is Ok ==> forall|k: int| 0 <= k < r->Ok_0@.len() ==> token_fits(#[trigger] r->Ok_0@[k], s@),
        r is Ok ==> forall|k: int, l: int|
            0 <= k < l < r->Ok_0@.len() ==> (#[trigger] r->Ok_0@[k]).pos < (#[trigger] r->Ok_0@[l]).pos,
        r is Err ==> r->Err_0 is Syntax,
        match tokens_of(s@) {
            None => r is Err,
            Some(t) => r is Ok && token_views(r->Ok_0@) == t,
        },
{
    let cs = chars_of(s);
    let n = cs.len();
    let mut out: Vec<Token> = Vec::new();
    let mut i: usize = 0;
    assert(token_views(out@) =~= Seq::<TokenV>::empty());
    while i < n
        invariant
            n == cs@.len(),
            cs@ == s@,
            i <= n,
            forall|k: int| 0 <= k < out@.len() ==> token_fits(#[trigger] out@[k], s@),
            forall|k: int| 0 <= k < out@.len() ==> (#[trigger] out@[k]).pos < i,
            forall|k: int, l: int|
                0 <= k < l < out@.len() ==> (#[trigger] out@[k]).pos < (#[trigger] out@[l]).pos,
            tokens_of(s@) == lex(s@, i as int, token_views(out@)),
        decreases n - i,
    {
        let ghost before = out@;
        proof {
            lemma_ends_grow(cs@, i + 1);
            if i + 2 <= n {
                lemma_ends_grow(cs@, i + 2);
            }
        }
        let c = cs[i];
        let next = if i + 1 < n {
            cs[i + 1]
        } else {
            ' '
        };
        if c == ' ' || c == '\t' || c == '\r' {
            i = i + 1;
        } else if c == '\n' {
            proof {
                lemma_views_push(out@, Token { tok: Tok::Newline, pos: i });
            }
            out.push(Token { tok: Tok::Newline, pos: i });
            i = i + 1;
        } else if c == ';' || (c == '/' && next == '/') {
            let start = i;
            i = i + 1;
            while i < n && cs[i] != '\n'
                invariant
                    start < i <= n,
                    n == cs@.len(),
                    comment_end(cs@, start + 1) == comment_end(cs@, i as int),
                decreases n - i,
            {
                i = i + 1;
            }
        } else if c == '/' && next == '*' {
            let start = i;
            let mut open = true;
            i = i + 2;
            while open
                invariant
                    start < i <= n,
                    !open ==> i < n,
                    n == cs@.len(),
                    open ==> block_close(cs@, start + 2) == block_close(cs@, i as int),
                    cs@ == s@,
                    cs@[start as int] == '/' && start + 1 < n && cs@[start + 1] == '*',
                    tokens_of(s@) == lex(s@, start as int, token_views(out@)),
                    !open ==> block_close(cs@, start + 2) == Some(i + 1),
                decreases n - i + if open { 1int } else { 0int },
            {
                if n - i < 2 {
                    assert(tokens_of(s@) is None);
                    return Err(ParseError::Syntax { position: start });
                }
                if cs[i] == '*' && cs[i + 1] == '/' {
                    open = false;
                }
                i = i + 1;
            }
            i = i + 1;
        } else if '0' <= c && c <= '9' {
            let (radix, from): (u32, usize) = if c == '0' && (next == 'x' || next == 'X') {
                (16, i + 2)
            } else if c == '0' && (next == 'b' || next == 'B') {
                (2, i + 2)
            } else {
                (10, i)
            };
            if from > n {
                assert(tokens_of(s@) is None);
                return Err(ParseError::Syntax { position: i });
            }
            assert(from >= i);
            let (end, v) = match read_digits(&cs, from, radix) {
                Ok(x) => x,
                Err(e) => {
                    assert(tokens_of(s@) is None);
                    return Err(e);
                },
            };
            assert(end > i);
            proof {
                lemma_views_push(out@, Token { tok: Tok::Int(v), pos: i });
            }
            out.push(Token { tok: Tok::Int(v), pos: i });
            i = end;
        } else if ('a' <= c && c <= 'z') || ('A' <= c && c <= 'Z') || c == '_' {
            let start = i;
            let mut lower: Vec<char> = Vec::new();
            lower.push(fold(c));
            i = i + 1;
            while i < n && (('a' <= cs[i] && cs[i] <= 'z') || ('A' <= cs[i] && cs[i] <= 'Z')
                || cs[i] == '_' || ('0' <= cs[i] && cs[i] <= '9'))
                invariant
                    start < i <= n,
                    n == cs@.len(),
                    cs@ == s@,
                    lower@.len() == i - start,
                    word_end(cs@, start + 1) == word_end(cs@, i as int),
                    lower@ == cs@.subrange(start as int, i as int).map_values(|c: char| fold_char(c)),
                    forall|k: int| 0 <= k < lower@.len() ==> #[trigger] lower@[k] as u32 == folded(cs@[start + k]),
                decreases n - i,
            {
                lower.push(fold(cs[i]));
                i = i + 1;
            }
            assert(lower@ =~= cs@.subrange(start as int, i as int).map_values(|c: char| fold_char(c)));
            let text = s.substring_char(start, i).to_owned();
            assert(forall|k: int| 0 <= k < lower@.len() ==> #[trigger] text@[k] == cs@[start + k]);
            proof {
                lemma_views_push(out@, Token { tok: Tok::Word(text, lower), pos: start });
            }
            out.push(Token { tok: Tok::Word(text, lower), pos: start });
        } else if (c == '-' && next == '-') || (c == '!' && next == '=') || (c == ':' && next == ':') {
            assert(i + 1 < n);
            proof {
                lemma_views_push(out@, Token { tok: Tok::Punct2(c, next), pos: i });
            }
            out.push(Token { tok: Tok::Punct2(c, next), pos: i });
            i = i + 2;
        } else if c == '+' || c == '-' || c == '*' || c == '/' || c == '(' || c == ')' || c == '['
            || c == ']' || c == ',' || c == ':' || c == '!' || c == '~' || c == '.' {
            proof {
                lemma_views_push(out@, Token { tok: Tok::Punct(c), pos: i });
            }
            out.push(Token { tok: Tok::Punct(c), pos: i });
            i = i + 1;
        } else {
            assert(tokens_of(s@) is None);
            return Err(ParseError::Syntax { position: i });
        }
    }
    assert(tokens_of(s@) == Some(token_views(out@)));
    Ok(out)
}

} // verus!
verus! {

/// `v` holds the characters of `kw`.
fn chars_eq(v: &Vec<char>, kw: &str) -> (r: bool)
    ensures
        r == (v@ == kw@),
{
    let n = kw.unicode_len();
    if v.len() != n {
        return false;
    }
    let mut i: usize = 0;
    while i < n
        invariant
            n == kw@.len(),
            v@.len() == n,
            i <= n,
            forall|k: int| 0 <= k < i ==> v@[k] == kw@[k],
        decreases n - i,
    {
        if v[i] != kw.get_char(i) {
            return false;
        }
        i = i + 1;
    }
    assert(v@ =~= kw@);
    true
}

/// Token `p`, before `end`, is the keyword `kw` in any case.
fn word_at(toks: &Vec<Token>, p: usize, end: usize, kw: &str) -> (r: bool)
    requires
        end <= toks@.len(),
    ensures
        r == (p < end && toks@[p as int].tok is Word && toks@[p as int].tok->Word_1@ == kw@),
{
    if p >= end {
        return false;
    }
    match &toks[p].tok {
        Tok::Word(_, lower) => chars_eq(lower, kw),
        _ => false,
    }
}

/// Token `p`, before `end`, is the punctuation `c`.
fn punct_at(toks: &Vec<Token>, p: usize, end: usize, c: char) -> (r: bool)
    requires
        end <= toks@.len(),
    ensures
        r == (p < end && toks@[p as int].tok == Tok::Punct(c)),
{
    if p >= end {
        return false;
    }
    match &toks[p].tok {
        Tok::Punct(d) => *d == c,
        _ => false,
    }
}

/// Token `p`, before `end`, is the two-character punctuation `a` `b`.
fn punct2_at(toks: &Vec<Token>, p: usize, end: usize, a: char, b: char) -> (r: bool)
    requires
        end <= toks@.len(),
    ensures
        r == (p < end && toks@[p as int].tok == Tok::Punct2(a, b)),
{
    if p >= end {
        return false;
    }
    match &toks[p].tok {
        Tok::Punct2(x, y) => *x == a && *y == b,
        _ => false,
    }
}

/// A syntax failure at token `p`, or at the last token where `p` is past the end.
pub open spec fn fail_sp(toks: Seq<Token>, p: int) -> ParseError {
    if 0 <= p < toks.len() {
        ParseError::Syntax { position: toks[p].pos }
    } else if toks.len() > 0 {
        ParseError::Syntax { position: toks[toks.len() - 1].pos }
    } else {
        ParseError::Syntax { position: 0 }
    }
}

/// A syntax failure at token `p`, or at the end of the text.
fn fail_at(toks: &Vec<Token>, p: usize) -> (r: ParseError)
    ensures
        r == fail_sp(toks@, p as int),
{
    if p < toks.len() {
        ParseError::Syntax { position: toks[p].pos }
    } else if toks.len() > 0 {
        ParseError::Syntax { position: toks[toks.len() - 1].pos }
    } else {
        ParseError::Syntax { position: 0 }
    }
}

pub open spec fn punct_sp(toks: Seq<Token>, p: int, end: int, c: char) -> bool {
    0 <= p < end && toks[p].tok == Tok::Punct(c)
}

pub open spec fn punct2_sp(toks: Seq<Token>, p: int, end: int, a: char, b: char) -> bool {
    0 <= p < end && toks[p].tok == Tok::Punct2(a, b)
}

pub open spec fn word_sp(toks: Seq<Token>, p: int, end: int, kw: Seq<char>) -> bool {
    0 <= p < end && toks[p].tok is Word && toks[p].tok->Word_1@ == kw
}

/// A sum or difference of terms at token `p`: the expression and where it ends.
pub open spec fn expr_sp(toks: Seq<Token>, p: int, end: int) -> Result<(Value, int), ParseError>
    decreases end - p, 3nat,
{
    if p < 0 || p > end {
        Err(fail_sp(toks, p))
    } else {
        match term_sp(toks, p, end) {
            Err(e) => Err(e),
            Ok((v, q)) => if p < q <= end {
                expr_rest(toks, v, q, end)
            } else {
                Err(fail_sp(toks, p))
            },
        }
    }
}

/// Further `+ term` and `- term` after the expression `v`, which ends at `q`.
pub open spec fn expr_rest(toks: Seq<Token>, v: Value, q: int, end: int) -> Result<(Value, int), ParseError>
    decreases end - q, 0nat,
{
    if q < 0 || q > end {
        Err(fail_sp(toks, q))
    } else if punct_sp(toks, q, end, '+') || punct_sp(toks, q, end, '-') {
        match term_sp(toks, q + 1, end) {
            Err(e) => Err(e),
            Ok((w, q2)) => if q < q2 <= end {
                expr_rest(
                    toks,
                    if punct_sp(toks, q, end, '+') {
                        Value::Add(Box::new(v), Box::new(w))
                    } else {
                        Value::Sub(Box::new(v), Box::new(w))
                    },
                    q2,
                    end,
                )
            } else {
                Err(fail_sp(toks, q))
            },
        }
    } else {
        Ok((v, q))
    }
}

/// A product or quotient of factors at token `p`.
pub open spec fn term_sp(toks: Seq<Token>, p: int, end: int) -> Result<(Value, int), ParseError>
    decreases end - p, 2nat,
{
    if p < 0 || p > end {
        Err(fail_sp(toks, p))
    } else {
        match unary_sp(toks, p, end) {
            Err(e) => Err(e),
            Ok((v, q)) => if p < q <= end {
                term_rest(toks, v, q, end)
            } else {
                Err(fail_sp(toks, p))
            },
        }
    }
}

/// Further `* factor` and `/ factor` after the term `v`, which ends at `q`.
pub open spec fn term_rest(toks: Seq<Token>, v: Value, q: int, end: int) -> Result<(Value, int), ParseError>
    decreases end - q, 0nat,
{
    if q < 0 || q > end {
        Err(fail_sp(toks, q))
    } else if punct_sp(toks, q, end, '*') || punct_sp(toks, q, end, '/') {
        match unary_sp(toks, q + 1, end) {
            Err(e) => Err(e),
            Ok((w, q2)) => if q < q2 <= end {
                term_rest(
                    toks,
                    if punct_sp(toks, q, end, '*') {
                        Value::Mul(Box::new(v), Box::new(w))
                    } else {
                        Value::Div(Box::new(v), Box::new(w))
                    },
                    q2,
                    end,
                )
            } else {
                Err(fail_sp(toks, q))
            },
        }
    } else {
        Ok((v, q))
    }
}

/// A factor at token `p` with any leading `-` or `::`.
pub open spec fn unary_sp(toks: Seq<Token>, p: int, end: int) -> Result<(Value, int), ParseError>
    decreases end - p, 1nat,
{
    if p < 0 || p > end {
        Err(fail_sp(toks, p))
    } else if punct_sp(toks, p, end, '-') {
        match unary_sp(toks, p + 1, end) {
            Err(e) => Err(e),
            Ok((v, q)) => Ok((Value::Neg(Box::new(v)), q)),
        }
    } else if punct2_sp(toks, p, end, ':', ':') {
        match unary_sp(toks, p + 1, end) {
            Err(e) => Err(e),
            Ok((v, q)) => Ok((Value::Rev(Box::new(v)), q)),
        }
    } else {
        primary_sp(toks, p, end)
    }
}

/// A number, a name or a parenthesised expression at token `p`.
pub open spec fn primary_sp(toks: Seq<Token>, p: int, end: int) -> Result<(Value, int), ParseError>
    decreases end - p, 0nat,
{
    if p < 0 || p >= end {
        Err(fail_sp(toks, p))
    } else {
        match toks[p].tok {
            Tok::Int(v) => Ok((Value::I32(v), p + 1)),
            Tok::Word(text, _) => Ok((Value::Symbol(text), p + 1)),
            Tok::Punct('(') => match expr_sp(toks, p + 1, end) {
                Err(e) => Err(e),
                Ok((v, q)) => if punct_sp(toks, q, end, ')') {
                    Ok((v, q + 1))
                } else {
                    Err(fail_sp(toks, q))
                },
            },
            _ => Err(fail_sp(toks, p)),
        }
    }
}

/// An executable result agrees with the grammar's: the same failure, or the
/// same value ending at the same token.
pub open spec fn agrees<T>(r: Result<(T, usize), ParseError>, s: Result<(T, int), ParseError>) -> bool {
    match s {
        Ok((v, q)) => r is Ok && r->Ok_0.0 == v && r->Ok_0.1 as int == q,
        Err(e) => r == Err::<(T, usize), ParseError>(e),
    }
}

/// Reads a sum or difference of terms starting at token `p`.
fn parse_expr(toks: &Vec<Token>, p: usize, end: usize) -> (r: Result<(Value, usize), ParseError>)
    requires
        p <= end <= toks@.len(),
    ensures
        agrees(r, expr_sp(toks@, p as int, end as int)),
        r is Ok ==> p < r->Ok_0.1 <= end,
        r is Err ==> r->Err_0 is Syntax,
    decreases end - p, 3nat,
{
    let (mut v, mut q) = parse_term(toks, p, end)?;
    while punct_at(toks, q, end, '+') || punct_at(toks, q, end, '-')
        invariant
            end <= toks@.len(),
            p < q <= end,
            expr_sp(toks@, p as int, end as int) == expr_rest(toks@, v, q as int, end as int),
        decreases end - q,
    {
        let plus = punct_at(toks, q, end, '+');
        let (w, q2) = parse_term(toks, q + 1, end)?;
        v = if plus {
            Value::Add(Box::new(v), Box::new(w))
        } else {
            Value::Sub(Box::new(v), Box::new(w))
        };
        q = q2;
    }
    Ok((v, q))
}

/// Reads a product or quotient of factors starting at token `p`.
fn parse_term(toks: &Vec<Token>, p: usize, end: usize) -> (r: Result<(Value, usize), ParseError>)
    requires
        p <= end <= toks@.len(),
    ensures
        agrees(r, term_sp(toks@, p as int, end as int)),
        r is Ok ==> p < r->Ok_0.1 <= end,
        r is Err ==> r->Err_0 is Syntax,
    decreases end - p, 2nat,
{
    let (mut v, mut q) = parse_unary(toks, p, end)?;
    while punct_at(toks, q, end, '*') || punct_at(toks, q, end, '/')
        invariant
            end <= toks@.len(),
            p < q <= end,
            term_sp(toks@, p as int, end as int) == term_rest(toks@, v, q as int, end as int),
        decreases end - q,
    {
        let times = punct_at(toks, q, end, '*');
        let (w, q2) = parse_unary(toks, q + 1, end)?;
        v = if times {
            Value::Mul(Box::new(v), Box::new(w))
        } else {
            Value::Div(Box::new(v), Box::new(w))
        };
        q = q2;
    }
    Ok((v, q))
}

/// Reads a factor with any leading `-` or `::`.
fn parse_unary(toks: &Vec<Token>, p: usize, end: usize) -> (r: Result<(Value, usize), ParseError>)
    requires
        p <= end <= toks@.len(),
    ensures
        agrees(r, unary_sp(toks@, p as int, end as int)),
        r is Ok ==> p < r->Ok_0.1 <= end,
        r is Err ==> r->Err_0 is Syntax,
    decreases end - p, 1nat,
{
    if punct_at(toks, p, end, '-') {
        let (v, q) = parse_unary(toks, p + 1, end)?;
        Ok((Value::Neg(Box::new(v)), q))
    } else if punct2_at(toks, p, end, ':', ':') {
        let (v, q) = parse_unary(toks, p + 1, end)?;
        Ok((Value::Rev(Box::new(v)), q))
    } else {
        parse_primary(toks, p, end)
    }
}

/// Reads a number, a name or a parenthesised expression.
fn parse_primary(toks: &Vec<Token>, p: usize, end: usize) -> (r: Result<(Value, usize), ParseError>)
    requires
        p <= end <= toks@.len(),
    ensures
        agrees(r, primary_sp(toks@, p as int, end as int)),
        r is Ok ==> p < r->Ok_0.1 <= end,
        r is Err ==> r->Err_0 is Syntax,
    decreases end - p, 0nat,
{
    if p >= end {
        return Err(fail_at(toks, p));
    }
    match &toks[p].tok {
        Tok::Int(v) => Ok((Value::I32(*v), p + 1)),
        Tok::Word(text, _) => Ok((Value::Symbol(text.clone()), p + 1)),
        Tok::Punct('(') => {
            let (v, q) = parse_expr(toks, p + 1, end)?;
            if punct_at(toks, q, end, ')') {
                Ok((v, q + 1))
            } else {
                Err(fail_at(toks, q))
            }
        },
        _ => Err(fail_at(toks, p)),
    }
}

} // verus!
verus! {


pub open spec fn in_source_sp(toks: Seq<Token>, p: int, end: int) -> Option<InSource> {
    if word_sp(toks, p, end, "pins"@) {
        Some(InSource::PINS)
    } else if word_sp(toks, p, end, "x"@) {
        Some(InSource::X)
    } else if word_sp(toks, p, end, "y"@) {
        Some(InSource::Y)
    } else if word_sp(toks, p, end, "null"@) {
        Some(InSource::NULL)
    } else if word_sp(toks, p, end, "isr"@) {
        Some(InSource::ISR)
    } else if word_sp(toks, p, end, "osr"@) {
        Some(InSource::OSR)
    } else {
        None
    }
}

pub open spec fn out_destination_sp(toks: Seq<Token>, p: int, end: int) -> Option<OutDestination> {
    if word_sp(toks, p, end, "pins"@) {
        Some(OutDestination::PINS)
    } else if word_sp(toks, p, end, "x"@) {
        Some(OutDestination::X)
    } else if word_sp(toks, p, end, "y"@) {
        Some(OutDestination::Y)
    } else if word_sp(toks, p, end, "null"@) {
        Some(OutDestination::NULL)
    } else if word_sp(toks, p, end, "pindirs"@) {
        Some(OutDestination::PINDIRS)
    } else if word_sp(toks, p, end, "pc"@) {
        Some(OutDestination::PC)
    } else if word_sp(toks, p, end, "isr"@) {
        Some(OutDestination::ISR)
    } else if word_sp(toks, p, end, "exec"@) {
        Some(OutDestination::EXEC)
    } else {
        None
    }
}

pub open spec fn set_destination_sp(toks: Seq<Token>, p: int, end: int) -> Option<SetDestination> {
    if word_sp(toks, p, end, "pins"@) {
        Some(SetDestination::PINS)
    } else if word_sp(toks, p, end, "x"@) {
        Some(SetDestination::X)
    } else if word_sp(toks, p, end, "y"@) {
        Some(SetDestination::Y)
    } else if word_sp(toks, p, end, "pindirs"@) {
        Some(SetDestination::PINDIRS)
    } else {
        None
    }
}

pub open spec fn fifo_lane_sp(toks: Seq<Token>, p: int, end: int) -> Option<(MovRxIndex, int)> {
    if p < 0 || p >= end || end - p < 4 {
        None
    } else if !(word_sp(toks, p, end, "rxfifo"@) && punct_sp(toks, p + 1, end, '[') && punct_sp(
        toks,
        p + 3,
        end,
        ']',
    )) {
        None
    } else if word_sp(toks, p + 2, end, "y"@) {
        Some((MovRxIndex::RXFIFOY, p + 4))
    } else {
        match toks[p + 2].tok {
            Tok::Int(0) => Some((MovRxIndex::RXFIFO0, p + 4)),
            Tok::Int(1) => Some((MovRxIndex::RXFIFO1, p + 4)),
            Tok::Int(2) => Some((MovRxIndex::RXFIFO2, p + 4)),
            Tok::Int(3) => Some((MovRxIndex::RXFIFO3, p + 4)),
            _ => None,
        }
    }
}

pub open spec fn mov_destination_sp(toks: Seq<Token>, p: int, end: int) -> Option<(ParsedMovDestination, int)> {
    if word_sp(toks, p, end, "pins"@) {
        Some((ParsedMovDestination::PINS, p + 1))
    } else if word_sp(toks, p, end, "x"@) {
        Some((ParsedMovDestination::X, p + 1))
    } else if word_sp(toks, p, end, "y"@) {
        Some((ParsedMovDestination::Y, p + 1))
    } else if word_sp(toks, p, end, "pindirs"@) {
        Some((ParsedMovDestination::PINDIRS, p + 1))
    } else if word_sp(toks, p, end, "exec"@) {
        Some((ParsedMovDestination::EXEC, p + 1))
    } else if word_sp(toks, p, end, "pc"@) {
        Some((ParsedMovDestination::PC, p + 1))
    } else if word_sp(toks, p, end, "isr"@) {
        Some((ParsedMovDestination::ISR, p + 1))
    } else if word_sp(toks, p, end, "osr"@) {
        Some((ParsedMovDestination::OSR, p + 1))
    } else {
        match fifo_lane_sp(toks, p, end) {
            Some((MovRxIndex::RXFIFOY, q)) => Some((ParsedMovDestination::RXFIFOY, q)),
            Some((MovRxIndex::RXFIFO0, q)) => Some((ParsedMovDestination::RXFIFO0, q)),
            Some((MovRxIndex::RXFIFO1, q)) => Some((ParsedMovDestination::RXFIFO1, q)),
            Some((MovRxIndex::RXFIFO2, q)) => Some((ParsedMovDestination::RXFIFO2, q)),
            Some((MovRxIndex::RXFIFO3, q)) => Some((ParsedMovDestination::RXFIFO3, q)),
            None => None,
        }
    }
}

pub open spec fn mov_source_sp(toks: Seq<Token>, p: int, end: int) -> Option<(ParsedMovSource, int)> {
    if word_sp(toks, p, end, "pins"@) {
        Some((ParsedMovSource::PINS, p + 1))
    } else if word_sp(toks, p, end, "x"@) {
        Some((ParsedMovSource::X, p + 1))
    } else if word_sp(toks, p, end, "y"@) {
        Some((ParsedMovSource::Y, p + 1))
    } else if word_sp(toks, p, end, "null"@) {
        Some((ParsedMovSource::NULL, p + 1))
    } else if word_sp(toks, p, end, "status"@) {
        Some((ParsedMovSource::STATUS, p + 1))
    } else if word_sp(toks, p, end, "isr"@) {
        Some((ParsedMovSource::ISR, p + 1))
    } else if word_sp(toks, p, end, "osr"@) {
        Some((ParsedMovSource::OSR, p + 1))
    } else {
        match fifo_lane_sp(toks, p, end) {
            Some((MovRxIndex::RXFIFOY, q)) => Some((ParsedMovSource::RXFIFOY, q)),
            Some((MovRxIndex::RXFIFO0, q)) => Some((ParsedMovSource::RXFIFO0, q)),
            Some((MovRxIndex::RXFIFO1, q)) => Some((ParsedMovSource::RXFIFO1, q)),
            Some((MovRxIndex::RXFIFO2, q)) => Some((ParsedMovSource::RXFIFO2, q)),
            Some((MovRxIndex::RXFIFO3, q)) => Some((ParsedMovSource::RXFIFO3, q)),
            None => None,
        }
    }
}

pub open spec fn jmp_condition_sp(toks: Seq<Token>, p: int, end: int) -> (JmpCondition, int) {
    if punct_sp(toks, p, end, '!') && word_sp(toks, p + 1, end, "x"@) {
        (JmpCondition::XIsZero, p + 2)
    } else if punct_sp(toks, p, end, '!') && word_sp(toks, p + 1, end, "y"@) {
        (JmpCondition::YIsZero, p + 2)
    } else if punct_sp(toks, p, end, '!') && word_sp(toks, p + 1, end, "osre"@) {
        (JmpCondition::OutputShiftRegisterNotEmpty, p + 2)
    } else if word_sp(toks, p, end, "x"@) && punct2_sp(toks, p + 1, end, '-', '-') {
        (JmpCondition::XDecNonZero, p + 2)
    } else if word_sp(toks, p, end, "y"@) && punct2_sp(toks, p + 1, end, '-', '-') {
        (JmpCondition::YDecNonZero, p + 2)
    } else if word_sp(toks, p, end, "x"@) && punct2_sp(toks, p + 1, end, '!', '=') && word_sp(
        toks,
        p + 2,
        end,
        "y"@,
    ) {
        (JmpCondition::XNotEqualY, p + 3)
    } else if word_sp(toks, p, end, "pin"@) && (punct_sp(toks, p + 1, end, ',') || end - p >= 2) {
        (JmpCondition::PinHigh, p + 1)
    } else {
        (JmpCondition::Always, p)
    }
}

pub open spec fn skip_comma_sp(toks: Seq<Token>, p: int, end: int) -> int {
    if punct_sp(toks, p, end, ',') {
        p + 1
    } else {
        p
    }
}

/// Reads the `in` source named at token `p`.
fn in_source(toks: &Vec<Token>, p: usize, end: usize) -> (r: Option<InSource>)
    requires
        end <= toks@.len(),
    ensures
        r is Some ==> p < end,
        r == in_source_sp(toks@, p as int, end as int),
{
    if word_at(toks, p, end, "pins") {
        Some(InSource::PINS)
    } else if word_at(toks, p, end, "x") {
        Some(InSource::X)
    } else if word_at(toks, p, end, "y") {
        Some(InSource::Y)
    } else if word_at(toks, p, end, "null") {
        Some(InSource::NULL)
    } else if word_at(toks, p, end, "isr") {
        Some(InSource::ISR)
    } else if word_at(toks, p, end, "osr") {
        Some(InSource::OSR)
    } else {
        None
    }
}

/// Reads the `out` destination named at token `p`.
fn out_destination(toks: &Vec<Token>, p: usize, end: usize) -> (r: Option<OutDestination>)
    requires
        end <= toks@.len(),
    ensures
        r is Some ==> p < end,
        r == out_destination_sp(toks@, p as int, end as int),
{
    if word_at(toks, p, end, "pins") {
        Some(OutDestination::PINS)
    } else if word_at(toks, p, end, "x") {
        Some(OutDestination::X)
    } else if word_at(toks, p, end, "y") {
        Some(OutDestination::Y)
    } else if word_at(toks, p, end, "null") {
        Some(OutDestination::NULL)
    } else if word_at(toks, p, end, "pindirs") {
        Some(OutDestination::PINDIRS)
    } else if word_at(toks, p, end, "pc") {
        Some(OutDestination::PC)
    } else if word_at(toks, p, end, "isr") {
        Some(OutDestination::ISR)
    } else if word_at(toks, p, end, "exec") {
        Some(OutDestination::EXEC)
    } else {
        None
    }
}

/// Reads the `set` destination named at token `p`.
fn set_destination(toks: &Vec<Token>, p: usize, end: usize) -> (r: Option<SetDestination>)
    requires
        end <= toks@.len(),
    ensures
        r is Some ==> p < end,
        r == set_destination_sp(toks@, p as int, end as int),
{
    if word_at(toks, p, end, "pins") {
        Some(SetDestination::PINS)
    } else if word_at(toks, p, end, "x") {
        Some(SetDestination::X)
    } else if word_at(toks, p, end, "y") {
        Some(SetDestination::Y)
    } else if word_at(toks, p, end, "pindirs") {
        Some(SetDestination::PINDIRS)
    } else {
        None
    }
}

/// Reads `rxfifo[0]` to `rxfifo[3]` or `rxfifo[y]` at token `p`, with the position after it.
fn fifo_lane(toks: &Vec<Token>, p: usize, end: usize) -> (r: Option<(MovRxIndex, usize)>)
    requires
        end <= toks@.len(),
    ensures
        r is Some ==> p < (r->0).1 <= end,
        match fifo_lane_sp(toks@, p as int, end as int) { None => r is None, Some((l, q)) => r is Some && (r->0).0 == l && (r->0).1 as int == q },
{
    if p >= end || end - p < 4 {
        return None;
    }
    if !(word_at(toks, p, end, "rxfifo") && punct_at(toks, p + 1, end, '[')
        && punct_at(toks, p + 3, end, ']')) {
        return None;
    }
    let lane = if word_at(toks, p + 2, end, "y") {
        Some(MovRxIndex::RXFIFOY)
    } else {
        match &toks[p + 2].tok {
            Tok::Int(0) => Some(MovRxIndex::RXFIFO0),
            Tok::Int(1) => Some(MovRxIndex::RXFIFO1),
            Tok::Int(2) => Some(MovRxIndex::RXFIFO2),
            Tok::Int(3) => Some(MovRxIndex::RXFIFO3),
            _ => None,
        }
    };
    match lane {
        Some(l) => Some((l, p + 4)),
        None => None,
    }
}

/// Reads a `mov` destination at token `p`, with the position after it.
fn mov_destination(toks: &Vec<Token>, p: usize, end: usize) -> (r: Option<(ParsedMovDestination, usize)>)
    requires
        end <= toks@.len(),
    ensures
        r is Some ==> p < (r->0).1 <= end,
        match mov_destination_sp(toks@, p as int, end as int) { None => r is None, Some((l, q)) => r is Some && (r->0).0 == l && (r->0).1 as int == q },
{
    let d = if word_at(toks, p, end, "pins") {
        ParsedMovDestination::PINS
    } else if word_at(toks, p, end, "x") {
        ParsedMovDestination::X
    } else if word_at(toks, p, end, "y") {
        ParsedMovDestination::Y
    } else if word_at(toks, p, end, "pindirs") {
        ParsedMovDestination::PINDIRS
    } else if word_at(toks, p, end, "exec") {
        ParsedMovDestination::EXEC
    } else if word_at(toks, p, end, "pc") {
        ParsedMovDestination::PC
    } else if word_at(toks, p, end, "isr") {
        ParsedMovDestination::ISR
    } else if word_at(toks, p, end, "osr") {
        ParsedMovDestination::OSR
    } else {
        return match fifo_lane(toks, p, end) {
            Some((MovRxIndex::RXFIFOY, q)) => Some((ParsedMovDestination::RXFIFOY, q)),
            Some((MovRxIndex::RXFIFO0, q)) => Some((ParsedMovDestination::RXFIFO0, q)),
            Some((MovRxIndex::RXFIFO1, q)) => Some((ParsedMovDestination::RXFIFO1, q)),
            Some((MovRxIndex::RXFIFO2, q)) => Some((ParsedMovDestination::RXFIFO2, q)),
            Some((MovRxIndex::RXFIFO3, q)) => Some((ParsedMovDestination::RXFIFO3, q)),
            None => None,
        };
    };
    Some((d, p + 1))
}

/// Reads a `mov` source at token `p`, with the position after it.
fn mov_source(toks: &Vec<Token>, p: usize, end: usize) -> (r: Option<(ParsedMovSource, usize)>)
    requires
        end <= toks@.len(),
    ensures
        r is Some ==> p < (r->0).1 <= end,
        match mov_source_sp(toks@, p as int, end as int) { None => r is None, Some((l, q)) => r is Some && (r->0).0 == l && (r->0).1 as int == q },
{
    let s = if word_at(toks, p, end, "pins") {
        ParsedMovSource::PINS
    } else if word_at(toks, p, end, "x") {
        ParsedMovSource::X
    } else if word_at(toks, p, end, "y") {
        ParsedMovSource::Y
    } else if word_at(toks, p, end, "null") {
        ParsedMovSource::NULL
    } else if word_at(toks, p, end, "status") {
        ParsedMovSource::STATUS
    } else if word_at(toks, p, end, "isr") {
        ParsedMovSource::ISR
    } else if word_at(toks, p, end, "osr") {
        ParsedMovSource::OSR
    } else {
        return match fifo_lane(toks, p, end) {
            Some((MovRxIndex::RXFIFOY, q)) => Some((ParsedMovSource::RXFIFOY, q)),
            Some((MovRxIndex::RXFIFO0, q)) => Some((ParsedMovSource::RXFIFO0, q)),
            Some((MovRxIndex::RXFIFO1, q)) => Some((ParsedMovSource::RXFIFO1, q)),
            Some((MovRxIndex::RXFIFO2, q)) => Some((ParsedMovSource::RXFIFO2, q)),
            Some((MovRxIndex::RXFIFO3, q)) => Some((ParsedMovSource::RXFIFO3, q)),
            None => None,
        };
    };
    Some((s, p + 1))
}

/// Reads the condition of a `jmp`, if one stands at token `p`, with the position after it.
fn jmp_condition(toks: &Vec<Token>, p: usize, end: usize) -> (r: (JmpCondition, usize))
    requires
        p <= end <= toks@.len(),
    ensures
        p <= r.1 <= end,
        r.0 == jmp_condition_sp(toks@, p as int, end as int).0 && r.1 as int == jmp_condition_sp(toks@, p as int, end as int).1,
{
    if punct_at(toks, p, end, '!') && word_at(toks, p + 1, end, "x") {
        (JmpCondition::XIsZero, p + 2)
    } else if punct_at(toks, p, end, '!') && word_at(toks, p + 1, end, "y") {
        (JmpCondition::YIsZero, p + 2)
    } else if punct_at(toks, p, end, '!') && word_at(toks, p + 1, end, "osre") {
        (JmpCondition::OutputShiftRegisterNotEmpty, p + 2)
    } else if word_at(toks, p, end, "x") && punct2_at(toks, p + 1, end, '-', '-') {
        (JmpCondition::XDecNonZero, p + 2)
    } else if word_at(toks, p, end, "y") && punct2_at(toks, p + 1, end, '-', '-') {
        (JmpCondition::YDecNonZero, p + 2)
    } else if word_at(toks, p, end, "x") && punct2_at(toks, p + 1, end, '!', '=')
        && word_at(toks, p + 2, end, "y") {
        (JmpCondition::XNotEqualY, p + 3)
    } else if word_at(toks, p, end, "pin") && (punct_at(toks, p + 1, end, ',') || end - p >= 2) {
        (JmpCondition::PinHigh, p + 1)
    } else {
        (JmpCondition::Always, p)
    }
}

/// Skips a comma at token `p`, if one stands there.
fn skip_comma(toks: &Vec<Token>, p: usize, end: usize) -> (r: usize)
    requires
        p <= end <= toks@.len(),
    ensures
        p <= r <= end,
        r as int == skip_comma_sp(toks@, p as int, end as int),
{
    if punct_at(toks, p, end, ',') {
        p + 1
    } else {
        p
    }
}

/// Demands a comma at token `p`.
fn expect_comma(toks: &Vec<Token>, p: usize, end: usize) -> (r: Result<usize, ParseError>)
    requires
        end <= toks@.len(),
    ensures
        r is Ok ==> p < r->Ok_0 <= end,
        r is Err ==> r->Err_0 is Syntax,
        r == (if punct_sp(toks@, p as int, end as int, ',') { Ok::<usize, ParseError>((p + 1) as usize) } else { Err(fail_sp(toks@, p as int)) }),
{
    if punct_at(toks, p, end, ',') {
        Ok(p + 1)
    } else {
        Err(fail_at(toks, p))
    }
}

} // verus!
verus! {

/// The flags after `push` or `pull` from token `q` on: the if-full or
/// if-empty flag, the blocking flag, and where they end.
pub open spec fn fifo_flags_sp(toks: Seq<Token>, q: int, end: int, push: bool, flag: bool, block: bool) -> (bool, bool, int)
    decreases end - q,
{
    if q < 0 || q >= end {
        (flag, block, q)
    } else if (push && word_sp(toks, q, end, "iffull"@)) || (!push && word_sp(toks, q, end, "ifempty"@)) {
        fifo_flags_sp(toks, q + 1, end, push, true, block)
    } else if word_sp(toks, q, end, "block"@) {
        fifo_flags_sp(toks, q + 1, end, push, flag, true)
    } else if word_sp(toks, q, end, "noblock"@) {
        fifo_flags_sp(toks, q + 1, end, push, flag, false)
    } else {
        (flag, block, q)
    }
}

/// The modifiers after `irq` from token `q` on: clear, wait, index mode, and where they end.
pub open spec fn irq_flags_sp(
    toks: Seq<Token>,
    q: int,
    end: int,
    clear: bool,
    wait: bool,
    mode: IrqIndexMode,
) -> (bool, bool, IrqIndexMode, int)
    decreases end - q,
{
    if q < 0 || q >= end {
        (clear, wait, mode, q)
    } else if word_sp(toks, q, end, "set"@) || word_sp(toks, q, end, "nowait"@) {
        irq_flags_sp(toks, q + 1, end, clear, false, mode)
    } else if word_sp(toks, q, end, "wait"@) {
        irq_flags_sp(toks, q + 1, end, clear, true, mode)
    } else if word_sp(toks, q, end, "clear"@) {
        irq_flags_sp(toks, q + 1, end, true, wait, mode)
    } else if word_sp(toks, q, end, "prev"@) {
        irq_flags_sp(toks, q + 1, end, clear, wait, IrqIndexMode::PREV)
    } else if word_sp(toks, q, end, "next"@) {
        irq_flags_sp(toks, q + 1, end, clear, wait, IrqIndexMode::NEXT)
    } else {
        (clear, wait, mode, q)
    }
}

pub open spec fn wait_source_sp(toks: Seq<Token>, q: int, end: int) -> Option<WaitSource> {
    if word_sp(toks, q, end, "gpio"@) {
        Some(WaitSource::GPIO)
    } else if word_sp(toks, q, end, "pin"@) {
        Some(WaitSource::PIN)
    } else if word_sp(toks, q, end, "irq"@) {
        Some(WaitSource::IRQ)
    } else if word_sp(toks, q, end, "jmppin"@) {
        Some(WaitSource::JMPPIN)
    } else {
        None
    }
}

/// The operands of the instruction whose keyword stands at token `p`, and where they end.
pub open spec fn operands_sp(toks: Seq<Token>, p: int, end: int) -> Result<(ParsedOperands, int), ParseError> {
    let q = p + 1;
    if p < 0 || p >= end {
        Err(fail_sp(toks, p))
    } else if word_sp(toks, p, end, "nop"@) {
        Ok((ParsedOperands::MOV {
            destination: ParsedMovDestination::Y,
            op: MovOperation::Unchanged,
            source: ParsedMovSource::Y,
        }, q))
    } else if word_sp(toks, p, end, "jmp"@) {
        let (condition, q) = jmp_condition_sp(toks, q, end);
        let q = skip_comma_sp(toks, q, end);
        match expr_sp(toks, q, end) {
            Err(e) => Err(e),
            Ok((address, q)) => Ok((ParsedOperands::JMP { condition, address }, q)),
        }
    } else if word_sp(toks, p, end, "wait"@) {
        match expr_sp(toks, q, end) {
            Err(e) => Err(e),
            Ok((polarity, q)) => match wait_source_sp(toks, q, end) {
                None => Err(fail_sp(toks, q)),
                Some(source) => {
                    let q = skip_comma_sp(toks, q + 1, end);
                    let index = if q < end && !word_sp(toks, q, end, "rel"@) && !word_sp(
                        toks,
                        q,
                        end,
                        "side"@,
                    ) && !punct_sp(toks, q, end, '[') {
                        expr_sp(toks, q, end)
                    } else {
                        Ok((Value::I32(0), q))
                    };
                    match index {
                        Err(e) => Err(e),
                        Ok((index, q)) => {
                            let relative = word_sp(toks, q, end, "rel"@);
                            Ok((
                                ParsedOperands::WAIT { polarity, source, index, relative },
                                if relative {
                                    q + 1
                                } else {
                                    q
                                },
                            ))
                        },
                    }
                },
            },
        }
    } else if word_sp(toks, p, end, "in"@) {
        match in_source_sp(toks, q, end) {
            None => Err(fail_sp(toks, q)),
            Some(source) => if punct_sp(toks, q + 1, end, ',') {
                match expr_sp(toks, q + 2, end) {
                    Err(e) => Err(e),
                    Ok((bit_count, q)) => Ok((ParsedOperands::IN { source, bit_count }, q)),
                }
            } else {
                Err(fail_sp(toks, q + 1))
            },
        }
    } else if word_sp(toks, p, end, "out"@) {
        match out_destination_sp(toks, q, end) {
            None => Err(fail_sp(toks, q)),
            Some(destination) => if punct_sp(toks, q + 1, end, ',') {
                match expr_sp(toks, q + 2, end) {
                    Err(e) => Err(e),
                    Ok((bit_count, q)) => Ok((ParsedOperands::OUT { destination, bit_count }, q)),
                }
            } else {
                Err(fail_sp(toks, q + 1))
            },
        }
    } else if word_sp(toks, p, end, "push"@) || word_sp(toks, p, end, "pull"@) {
        let push = word_sp(toks, p, end, "push"@);
        let (flag, block, q) = fifo_flags_sp(toks, q, end, push, false, true);
        if push {
            Ok((ParsedOperands::PUSH { if_full: flag, block }, q))
        } else {
            Ok((ParsedOperands::PULL { if_empty: flag, block }, q))
        }
    } else if word_sp(toks, p, end, "mov"@) {
        match mov_destination_sp(toks, q, end) {
            None => Err(fail_sp(toks, q)),
            Some((destination, q)) => if !punct_sp(toks, q, end, ',') {
                Err(fail_sp(toks, q))
            } else {
                let q = q + 1;
                let (op, q) = if punct_sp(toks, q, end, '!') || punct_sp(toks, q, end, '~') {
                    (MovOperation::Invert, q + 1)
                } else if punct2_sp(toks, q, end, ':', ':') {
                    (MovOperation::BitReverse, q + 1)
                } else {
                    (MovOperation::Unchanged, q)
                };
                match mov_source_sp(toks, q, end) {
                    None => Err(fail_sp(toks, q)),
                    Some((source, q)) => Ok((ParsedOperands::MOV { destination, op, source }, q)),
                }
            },
        }
    } else if word_sp(toks, p, end, "irq"@) {
        let (clear, wait, mode, q) = irq_flags_sp(toks, q, end, false, false, IrqIndexMode::DIRECT);
        match expr_sp(toks, q, end) {
            Err(e) => Err(e),
            Ok((index, q)) => if word_sp(toks, q, end, "rel"@) {
                Ok((ParsedOperands::IRQ { clear, wait, index, index_mode: IrqIndexMode::REL }, q + 1))
            } else {
                Ok((ParsedOperands::IRQ { clear, wait, index, index_mode: mode }, q))
            },
        }
    } else if word_sp(toks, p, end, "set"@) {
        match set_destination_sp(toks, q, end) {
            None => Err(fail_sp(toks, q)),
            Some(destination) => if punct_sp(toks, q + 1, end, ',') {
                match expr_sp(toks, q + 2, end) {
                    Err(e) => Err(e),
                    Ok((data, q)) => Ok((ParsedOperands::SET { destination, data }, q)),
                }
            } else {
                Err(fail_sp(toks, q + 1))
            },
        }
    } else {
        Err(fail_sp(toks, p))
    }
}

/// Reads the operands of the instruction whose keyword stands at token `p`.
#[verifier::rlimit(100)]
#[verifier::spinoff_prover]
fn parse_operands(toks: &Vec<Token>, p: usize, end: usize) -> (r: Result<(ParsedOperands, usize), ParseError>)
    requires
        end <= toks@.len(),
    ensures
        agrees(r, operands_sp(toks@, p as int, end as int)),
        r is Ok ==> p < r->Ok_0.1 <= end,
        r is Err ==> r->Err_0 is Syntax,
{
    if p >= end {
        return Err(fail_at(toks, p));
    }
    let q = p + 1;
    if word_at(toks, p, end, "nop") {
        Ok((ParsedOperands::MOV {
            destination: ParsedMovDestination::Y,
            op: MovOperation::Unchanged,
            source: ParsedMovSource::Y,
        }, q))
    } else if word_at(toks, p, end, "jmp") {
        let (condition, q) = jmp_condition(toks, q, end);
        let q = skip_comma(toks, q, end);
        let (address, q) = parse_expr(toks, q, end)?;
        Ok((ParsedOperands::JMP { condition, address }, q))
    } else if word_at(toks, p, end, "wait") {
        let (polarity, q) = parse_expr(toks, q, end)?;
        let source = if word_at(toks, q, end, "gpio") {
            WaitSource::GPIO
        } else if word_at(toks, q, end, "pin") {
            WaitSource::PIN
        } else if word_at(toks, q, end, "irq") {
            WaitSource::IRQ
        } else if word_at(toks, q, end, "jmppin") {
            WaitSource::JMPPIN
        } else {
            return Err(fail_at(toks, q));
        };
        let q = skip_comma(toks, q + 1, end);
        let (index, q) = if q < end && !word_at(toks, q, end, "rel") && !word_at(toks, q, end, "side")
            && !punct_at(toks, q, end, '[') {
            parse_expr(toks, q, end)?
        } else {
            (Value::I32(0), q)
        };
        let relative = word_at(toks, q, end, "rel");
        let q = if relative {
            q + 1
        } else {
            q
        };
        Ok((ParsedOperands::WAIT { polarity, source, index, relative }, q))
    } else if word_at(toks, p, end, "in") {
        let source = match in_source(toks, q, end) {
            Some(s) => s,
            None => return Err(fail_at(toks, q)),
        };
        let q = expect_comma(toks, q + 1, end)?;
        let (bit_count, q) = parse_expr(toks, q, end)?;
        Ok((ParsedOperands::IN { source, bit_count }, q))
    } else if word_at(toks, p, end, "out") {
        let destination = match out_destination(toks, q, end) {
            Some(d) => d,
            None => return Err(fail_at(toks, q)),
        };
        let q = expect_comma(toks, q + 1, end)?;
        let (bit_count, q) = parse_expr(toks, q, end)?;
        Ok((ParsedOperands::OUT { destination, bit_count }, q))
    } else if word_at(toks, p, end, "push") || word_at(toks, p, end, "pull") {
        let push = word_at(toks, p, end, "push");
        let mut flag = false;
        let mut block = true;
        let mut q = q;
        let mut more = true;
        while more && q < end
            invariant
                p < q <= end,
                end <= toks@.len(),
                more ==> fifo_flags_sp(toks@, p + 1, end as int, push, false, true) == fifo_flags_sp(
                    toks@,
                    q as int,
                    end as int,
                    push,
                    flag,
                    block,
                ),
                !more ==> fifo_flags_sp(toks@, p + 1, end as int, push, false, true) == (
                    flag,
                    block,
                    q as int,
                ),
            decreases end - q + if more { 1int } else { 0int },
        {
            if (push && word_at(toks, q, end, "iffull")) || (!push && word_at(toks, q, end, "ifempty")) {
                flag = true;
                q = q + 1;
            } else if word_at(toks, q, end, "block") {
                block = true;
                q = q + 1;
            } else if word_at(toks, q, end, "noblock") {
                block = false;
                q = q + 1;
            } else {
                more = false;
            }
        }
        if push {
            Ok((ParsedOperands::PUSH { if_full: flag, block }, q))
        } else {
            Ok((ParsedOperands::PULL { if_empty: flag, block }, q))
        }
    } else if word_at(toks, p, end, "mov") {
        let (destination, q) = match mov_destination(toks, q, end) {
            Some(d) => d,
            None => return Err(fail_at(toks, q)),
        };
        let q = expect_comma(toks, q, end)?;
        let (op, q) = if punct_at(toks, q, end, '!') || punct_at(toks, q, end, '~') {
            (MovOperation::Invert, q + 1)
        } else if punct2_at(toks, q, end, ':', ':') {
            (MovOperation::BitReverse, q + 1)
        } else {
            (MovOperation::Unchanged, q)
        };
        let (source, q) = match mov_source(toks, q, end) {
            Some(s) => s,
            None => return Err(fail_at(toks, q)),
        };
        Ok((ParsedOperands::MOV { destination, op, source }, q))
    } else if word_at(toks, p, end, "irq") {
        let mut clear = false;
        let mut wait = false;
        let mut index_mode = IrqIndexMode::DIRECT;
        let mut q = q;
        let mut more = true;
        while more && q < end
            invariant
                p < q <= end,
                end <= toks@.len(),
                more ==> irq_flags_sp(toks@, p + 1, end as int, false, false, IrqIndexMode::DIRECT)
                    == irq_flags_sp(toks@, q as int, end as int, clear, wait, index_mode),
                !more ==> irq_flags_sp(toks@, p + 1, end as int, false, false, IrqIndexMode::DIRECT)
                    == (clear, wait, index_mode, q as int),
            decreases end - q + if more { 1int } else { 0int },
        {
            if word_at(toks, q, end, "set") || word_at(toks, q, end, "nowait") {
                wait = false;
                q = q + 1;
            } else if word_at(toks, q, end, "wait") {
                wait = true;
                q = q + 1;
            } else if word_at(toks, q, end, "clear") {
                clear = true;
                q = q + 1;
            } else if word_at(toks, q, end, "prev") {
                index_mode = IrqIndexMode::PREV;
                q = q + 1;
            } else if word_at(toks, q, end, "next") {
                index_mode = IrqIndexMode::NEXT;
                q = q + 1;
            } else {
                more = false;
            }
        }
        let (index, q) = parse_expr(toks, q, end)?;
        let q = if word_at(toks, q, end, "rel") {
            index_mode = IrqIndexMode::REL;
            q + 1
        } else {
            q
        };
        Ok((ParsedOperands::IRQ { clear, wait, index, index_mode }, q))
    } else if word_at(toks, p, end, "set") {
        let destination = match set_destination(toks, q, end) {
            Some(d) => d,
            None => return Err(fail_at(toks, q)),
        };
        let q = expect_comma(toks, q + 1, end)?;
        let (data, q) = parse_expr(toks, q, end)?;
        Ok((ParsedOperands::SET { destination, data }, q))
    } else {
        Err(fail_at(toks, p))
    }
}

/// The `side` value and bracketed delay after the operands, from token `q`
/// on, each at most once and in either order.
pub open spec fn suffix_sp(
    toks: Seq<Token>,
    q: int,
    end: int,
    side: Option<Value>,
    delay: Option<Value>,
) -> Result<(Option<Value>, Option<Value>), ParseError>
    decreases end - q,
{
    if q < 0 || q >= end {
        Ok((side, delay))
    } else if side is None && (word_sp(toks, q, end, "side"@) || word_sp(toks, q, end, "sideset"@)) {
        match expr_sp(toks, q + 1, end) {
            Err(e) => Err(e),
            Ok((v, q2)) => if q < q2 <= end {
                suffix_sp(toks, q2, end, Some(v), delay)
            } else {
                Err(fail_sp(toks, q))
            },
        }
    } else if delay is None && punct_sp(toks, q, end, '[') {
        match expr_sp(toks, q + 1, end) {
            Err(e) => Err(e),
            Ok((v, q2)) => if !punct_sp(toks, q2, end, ']') {
                Err(fail_sp(toks, q2))
            } else if q < q2 < end {
                suffix_sp(toks, q2 + 1, end, side, Some(v))
            } else {
                Err(fail_sp(toks, q))
            },
        }
    } else {
        Err(fail_sp(toks, q))
    }
}

/// The instruction on tokens `p` to `end`.
pub open spec fn instruction_sp(toks: Seq<Token>, p: int, end: int) -> Result<ParsedInstruction, ParseError> {
    match operands_sp(toks, p, end) {
        Err(e) => Err(e),
        Ok((operands, q)) => match suffix_sp(toks, q, end, None, None) {
            Err(e) => Err(e),
            Ok((side_set, delay)) => Ok(
                ParsedInstruction {
                    operands,
                    side_set,
                    delay: match delay {
                        Some(d) => d,
                        None => Value::I32(0),
                    },
                },
            ),
        },
    }
}

/// Reads a whole instruction line from token `p` to `end`: operands, then
/// `side` and a delay in brackets, in either order.
fn parse_instruction(toks: &Vec<Token>, p: usize, end: usize) -> (r: Result<ParsedInstruction, ParseError>)
    requires
        end <= toks@.len(),
    ensures
        r == instruction_sp(toks@, p as int, end as int),
        r is Err ==> r->Err_0 is Syntax,
{
    let (operands, q) = parse_operands(toks, p, end)?;
    let ghost q0 = q as int;
    let mut side_set: Option<Value> = None;
    let mut delay: Option<Value> = None;
    let mut q = q;
    while q < end
        invariant
            q <= end,
            end <= toks@.len(),
            operands_sp(toks@, p as int, end as int) == Ok::<(ParsedOperands, int), ParseError>((operands, q0)),
            suffix_sp(toks@, q0, end as int, None, None) == suffix_sp(toks@, q as int, end as int, side_set, delay),
        decreases end - q,
    {
        if side_set.is_none() && (word_at(toks, q, end, "side") || word_at(toks, q, end, "sideset")) {
            let (v, q2) = parse_expr(toks, q + 1, end)?;
            side_set = Some(v);
            q = q2;
        } else if delay.is_none() && punct_at(toks, q, end, '[') {
            let (v, q2) = parse_expr(toks, q + 1, end)?;
            if !punct_at(toks, q2, end, ']') {
                return Err(fail_at(toks, q2));
            }
            delay = Some(v);
            q = q2 + 1;
        } else {
            return Err(fail_at(toks, q));
        }
    }
    let delay = match delay {
        Some(d) => d,
        None => Value::I32(0),
    };
    Ok(ParsedInstruction { operands, side_set, delay })
}

} // verus!
verus! {

/// The name at token `p`, as written.
pub open spec fn name_sp(toks: Seq<Token>, p: int, end: int) -> Option<String> {
    if 0 <= p < end && toks[p].tok is Word {
        Some(toks[p].tok->Word_0)
    } else {
        None
    }
}

/// The text of the name at token `p`.
fn name_at(toks: &Vec<Token>, p: usize, end: usize) -> (r: Option<String>)
    requires
        end <= toks@.len(),
    ensures
        r == name_sp(toks@, p as int, end as int),
        r is Some ==> p < end,
{
    if p >= end {
        return None;
    }
    match &toks[p].tok {
        Tok::Word(text, _) => Some(text.clone()),
        _ => None,
    }
}

/// The `opt` and `pindirs` words after `.side_set`'s width, from token `q` on.
pub open spec fn side_set_flags_sp(toks: Seq<Token>, q: int, end: int, opt: bool, pindirs: bool) -> Result<(bool, bool), ParseError>
    decreases end - q,
{
    if q < 0 || q >= end {
        Ok((opt, pindirs))
    } else if word_sp(toks, q, end, "opt"@) {
        side_set_flags_sp(toks, q + 1, end, true, pindirs)
    } else if word_sp(toks, q, end, "pindirs"@) {
        side_set_flags_sp(toks, q + 1, end, opt, true)
    } else {
        Err(fail_sp(toks, q))
    }
}

/// Demands that nothing follows token `q` on the line.
pub open spec fn line_done_sp<T>(toks: Seq<Token>, q: int, end: int, d: T) -> Result<T, ParseError> {
    if q < end {
        Err(fail_sp(toks, q))
    } else {
        Ok(d)
    }
}

/// The directive whose name stands at token `p` (after the dot) and which ends at `end`.
pub open spec fn directive_sp(toks: Seq<Token>, p: int, end: int) -> Result<ParsedDirective, ParseError> {
    let q = p + 1;
    if p < 0 || p >= end {
        Err(fail_sp(toks, p))
    } else if word_sp(toks, p, end, "define"@) {
        let public = word_sp(toks, q, end, "public"@);
        let q = if public {
            q + 1
        } else {
            q
        };
        match name_sp(toks, q, end) {
            None => Err(fail_sp(toks, q)),
            Some(name) => match expr_sp(toks, q + 1, end) {
                Err(e) => Err(e),
                Ok((value, q)) => line_done_sp(toks, q, end, ParsedDirective::Define { public, name, value }),
            },
        }
    } else if word_sp(toks, p, end, "origin"@) {
        match expr_sp(toks, q, end) {
            Err(e) => Err(e),
            Ok((value, q)) => line_done_sp(toks, q, end, ParsedDirective::Origin(value)),
        }
    } else if word_sp(toks, p, end, "side_set"@) {
        match expr_sp(toks, q, end) {
            Err(e) => Err(e),
            Ok((value, q)) => match side_set_flags_sp(toks, q, end, false, false) {
                Err(e) => Err(e),
                Ok((opt, pindirs)) => Ok(ParsedDirective::SideSet { value, opt, pindirs }),
            },
        }
    } else if word_sp(toks, p, end, "wrap_target"@) {
        line_done_sp(toks, q, end, ParsedDirective::WrapTarget)
    } else if word_sp(toks, p, end, "wrap"@) {
        line_done_sp(toks, q, end, ParsedDirective::Wrap)
    } else if word_sp(toks, p, end, "lang_opt"@) {
        match name_sp(toks, q, end) {
            None => Err(fail_sp(toks, q)),
            Some(name) => Ok(ParsedDirective::LangOpt(name)),
        }
    } else {
        Err(fail_sp(toks, p))
    }
}

/// Reads a directive whose name stands at token `p` (after the dot) and which ends at `end`.
fn parse_directive(toks: &Vec<Token>, p: usize, end: usize) -> (r: Result<ParsedDirective, ParseError>)
    requires
        end <= toks@.len(),
    ensures
        r == directive_sp(toks@, p as int, end as int),
        r is Err ==> r->Err_0 is Syntax,
{
    if p >= end {
        return Err(fail_at(toks, p));
    }
    let q = p + 1;
    if word_at(toks, p, end, "define") {
        let public = word_at(toks, q, end, "public");
        let q = if public {
            q + 1
        } else {
            q
        };
        let name = match name_at(toks, q, end) {
            Some(n) => n,
            None => return Err(fail_at(toks, q)),
        };
        let (value, q) = parse_expr(toks, q + 1, end)?;
        if q < end {
            return Err(fail_at(toks, q));
        }
        Ok(ParsedDirective::Define { public, name, value })
    } else if word_at(toks, p, end, "origin") {
        let (value, q) = parse_expr(toks, q, end)?;
        if q < end {
            return Err(fail_at(toks, q));
        }
        Ok(ParsedDirective::Origin(value))
    } else if word_at(toks, p, end, "side_set") {
        let (value, q) = parse_expr(toks, q, end)?;
        let ghost q0 = q as int;
        let mut opt = false;
        let mut pindirs = false;
        let mut q = q;
        while q < end
            invariant
                q <= end,
                end <= toks@.len(),
                directive_sp(toks@, p as int, end as int) == match side_set_flags_sp(toks@, q0, end as int, false, false) {
                    Err(e) => Err(e),
                    Ok((o, pd)) => Ok(ParsedDirective::SideSet { value, opt: o, pindirs: pd }),
                },
                side_set_flags_sp(toks@, q0, end as int, false, false) == side_set_flags_sp(
                    toks@,
                    q as int,
                    end as int,
                    opt,
                    pindirs,
                ),
            decreases end - q,
        {
            if word_at(toks, q, end, "opt") {
                opt = true;
            } else if word_at(toks, q, end, "pindirs") {
                pindirs = true;
            } else {
                return Err(fail_at(toks, q));
            }
            q = q + 1;
        }
        Ok(ParsedDirective::SideSet { value, opt, pindirs })
    } else if word_at(toks, p, end, "wrap_target") {
        if q < end {
            return Err(fail_at(toks, q));
        }
        Ok(ParsedDirective::WrapTarget)
    } else if word_at(toks, p, end, "wrap") {
        if q < end {
            return Err(fail_at(toks, q));
        }
        Ok(ParsedDirective::Wrap)
    } else if word_at(toks, p, end, "lang_opt") {
        match name_at(toks, q, end) {
            Some(n) => Ok(ParsedDirective::LangOpt(n)),
            None => Err(fail_at(toks, q)),
        }
    } else {
        Err(fail_at(toks, p))
    }
}

#[verifier::opaque]
/// The line on tokens `p` to `end`: a directive, a label or an instruction;
/// `None` for an empty line.
pub open spec fn line_sp(toks: Seq<Token>, p: int, end: int) -> Result<Option<Line>, ParseError> {
    if p < 0 || p >= end {
        Ok(None)
    } else if punct_sp(toks, p, end, '.') {
        match directive_sp(toks, p + 1, end) {
            Err(e) => Err(e),
            Ok(d) => Ok(Some(Line::Directive(d))),
        }
    } else {
        let public = end - p > 2 && word_sp(toks, p, end, "public"@) && punct_sp(toks, p + 2, end, ':');
        let q = if public {
            p + 1
        } else {
            p
        };
        if punct_sp(toks, q + 1, end, ':') {
            match name_sp(toks, q, end) {
                None => Err(fail_sp(toks, q)),
                Some(name) => if q + 2 < end {
                    Err(fail_sp(toks, q + 2))
                } else {
                    Ok(Some(Line::Label { public, name }))
                },
            }
        } else {
            match instruction_sp(toks, p, end) {
                Err(e) => Err(e),
                Ok(i) => Ok(Some(Line::Instruction(i))),
            }
        }
    }
}

/// Reads one line of a program, tokens `p` to `end`; an empty line gives `None`.
fn parse_line(toks: &Vec<Token>, p: usize, end: usize) -> (r: Result<Option<Line>, ParseError>)
    requires
        end <= toks@.len(),
    ensures
        r == line_sp(toks@, p as int, end as int),
        r is Err ==> r->Err_0 is Syntax,
{
    reveal(line_sp);
    if p >= end {
        return Ok(None);
    }
    if punct_at(toks, p, end, '.') {
        let d = parse_directive(toks, p + 1, end)?;
        return Ok(Some(Line::Directive(d)));
    }
    let public = end - p > 2 && word_at(toks, p, end, "public") && punct_at(toks, p + 2, end, ':');
    let q = if public {
        p + 1
    } else {
        p
    };
    if punct_at(toks, q + 1, end, ':') {
        let name = match name_at(toks, q, end) {
            Some(n) => n,
            None => return Err(fail_at(toks, q)),
        };
        if q + 2 < end {
            return Err(fail_at(toks, q + 2));
        }
        return Ok(Some(Line::Label { public, name }));
    }
    let i = parse_instruction(toks, p, end)?;
    Ok(Some(Line::Instruction(i)))
}

/// The first line end at or after token `q`, or the number of tokens.
pub open spec fn line_end_sp(toks: Seq<Token>, q: int) -> int
    decreases toks.len() - q,
{
    if 0 <= q < toks.len() && !(toks[q].tok is Newline) {
        line_end_sp(toks, q + 1)
    } else {
        q
    }
}

/// The index of the first line end at or after token `p`, or the number of tokens.
fn line_end(toks: &Vec<Token>, p: usize) -> (r: usize)
    requires
        p <= toks@.len(),
    ensures
        p <= r <= toks@.len(),
        r as int == line_end_sp(toks@, p as int),
{
    let mut q = p;
    while q < toks.len()
        invariant
            p <= q <= toks@.len(),
            line_end_sp(toks@, p as int) == line_end_sp(toks@, q as int),
        decreases toks@.len() - q,
    {
        if let Tok::Newline = toks[q].tok {
            return q;
        }
        q = q + 1;
    }
    q
}

pub open spec fn program_start_sp(toks: Seq<Token>, p: int, end: int) -> bool {
    punct_sp(toks, p, end, '.') && word_sp(toks, p + 1, end, "program"@)
}

/// Token `p` starts a `.program` line.
fn is_program_start(toks: &Vec<Token>, p: usize, end: usize) -> (r: bool)
    requires
        end <= toks@.len(),
    ensures
        r == program_start_sp(toks@, p as int, end as int),
{
    punct_at(toks, p, end, '.') && word_at(toks, p + 1, end, "program")
}

#[verifier::opaque]
/// The lines from token `q` on, after those in `acc`, up to the next
/// `.program` where `in_file` holds, or to the end; and where reading stopped.
pub open spec fn lines_sp(toks: Seq<Token>, q: int, in_file: bool, acc: Seq<Line>) -> Result<(Seq<Line>, int), ParseError>
    decreases toks.len() - q,
{
    if q < 0 || q >= toks.len() {
        Ok((acc, q))
    } else {
        let end = line_end_sp(toks, q);
        if in_file && program_start_sp(toks, q, end) {
            Ok((acc, q))
        } else {
            match line_sp(toks, q, end) {
                Err(e) => Err(e),
                Ok(l) => {
                    let next = end + if end < toks.len() {
                        1int
                    } else {
                        0int
                    };
                    let acc2 = match l {
                        Some(x) => acc.push(x),
                        None => acc,
                    };
                    if q < next <= toks.len() {
                        lines_sp(toks, next, in_file, acc2)
                    } else {
                        Err(fail_sp(toks, q))
                    }
                },
            }
        }
    }
}

/// Reads the lines of one program from token `p` up to the next `.program` or the end;
/// gives the lines and where reading stopped.
fn parse_lines(toks: &Vec<Token>, p: usize, in_file: bool) -> (r: Result<(Vec<Line>, usize), ParseError>)
    requires
        p <= toks@.len(),
    ensures
        match lines_sp(toks@, p as int, in_file, Seq::empty()) {
            Ok((l, q)) => r is Ok && r->Ok_0.0@ == l && r->Ok_0.1 as int == q,
            Err(e) => r == Err::<(Vec<Line>, usize), ParseError>(e),
        },
        r is Ok ==> p <= r->Ok_0.1 <= toks@.len(),
        r is Err ==> r->Err_0 is Syntax,
{
    reveal_with_fuel(lines_sp, 2);
    let mut lines: Vec<Line> = Vec::new();
    let mut q = p;
    while q < toks.len()
        invariant
            p <= q <= toks@.len(),
            lines_sp(toks@, p as int, in_file, Seq::empty()) == lines_sp(toks@, q as int, in_file, lines@),
        decreases toks@.len() - q,
    {
        proof {
            reveal_with_fuel(lines_sp, 2);
        }
        let end = line_end(toks, q);
        if in_file && is_program_start(toks, q, end) {
            return Ok((lines, q));
        }
        if let Some(l) = parse_line(toks, q, end)? {
            lines.push(l);
        }
        q = end + if end < toks.len() {
            1
        } else {
            0
        };
    }
    proof {
        reveal_with_fuel(lines_sp, 2);
    }
    Ok((lines, q))
}

/// The lines of a single program read from tokens `toks`, or the first failure.
pub open spec fn program_tokens_sp(toks: Seq<Token>) -> Result<Seq<Line>, ParseError> {
    match lines_sp(toks, 0, false, Seq::empty()) {
        Err(e) => Err(e),
        Ok((l, _)) => Ok(l),
    }
}

#[verifier::opaque]
/// The top-level lines of a file, which must all be directives.
pub open spec fn top_directives_sp(top: Seq<Line>) -> Option<Seq<ParsedDirective>>
    decreases top.len(),
{
    if top.len() == 0 {
        Some(Seq::empty())
    } else {
        match top[0] {
            Line::Directive(d) => match top_directives_sp(top.subrange(1, top.len() as int)) {
                Some(ds) => Some(seq![d] + ds),
                None => None,
            },
            _ => None,
        }
    }
}

#[verifier::opaque]
/// One program at token `q`: the name on its `.program` line, its lines, and
/// where the next program starts.
pub open spec fn program_step_sp(toks: Seq<Token>, q: int) -> Result<(String, Seq<Line>, int), ParseError> {
    let end = line_end_sp(toks, q);
    if end - q < 3 {
        Err(fail_sp(toks, q))
    } else {
        match name_sp(toks, q + 2, end) {
            None => Err(fail_sp(toks, q)),
            Some(name) => if q + 3 < end {
                Err(fail_sp(toks, q + 3))
            } else {
                match lines_sp(toks, end, true, Seq::empty()) {
                    Err(e) => Err(e),
                    Ok((lines, next)) => Ok((name, lines, next)),
                }
            },
        }
    }
}

/// The programs from token `q` on, after those in `acc`: each a `.program <name>`
/// line followed by its lines.
pub open spec fn programs_sp(toks: Seq<Token>, q: int, acc: Seq<(String, Seq<Line>)>) -> Result<
    Seq<(String, Seq<Line>)>,
    ParseError,
>
    decreases toks.len() - q,
{
    if q < 0 || q >= toks.len() {
        Ok(acc)
    } else {
        match program_step_sp(toks, q) {
            Err(e) => Err(e),
            Ok((name, lines, next)) => if next <= q || next > toks.len() {
                Err(fail_sp(toks, q))
            } else {
                programs_sp(toks, next, acc.push((name, lines)))
            },
        }
    }
}

/// Reads one program at token `q`, which starts a `.program` line.
fn parse_one_program(toks: &Vec<Token>, q: usize) -> (r: Result<(String, Vec<Line>, usize), ParseError>)
    requires
        q < toks@.len(),
    ensures
        match program_step_sp(toks@, q as int) {
            Err(e) => r == Err::<(String, Vec<Line>, usize), ParseError>(e),
            Ok((name, lines, next)) => r is Ok && r->Ok_0.0 == name && r->Ok_0.1@ == lines && r->Ok_0.2 as int == next,
        },
        r is Ok ==> r->Ok_0.2 <= toks@.len(),
        r is Err ==> r->Err_0 is Syntax,
{
    reveal(program_step_sp);
    let end = line_end(toks, q);
    if end - q < 3 {
        return Err(fail_at(toks, q));
    }
    let name = match name_at(toks, q + 2, end) {
        Some(n) => n,
        None => return Err(fail_at(toks, q)),
    };
    if q + 3 < end {
        return Err(fail_at(toks, q + 3));
    }
    let (lines, next) = parse_lines(toks, end, true)?;
    Ok((name, lines, next))
}

/// A file read from tokens `toks`: its top-level directives and its programs.
pub open spec fn file_tokens_sp(toks: Seq<Token>) -> Result<
    (Seq<ParsedDirective>, Seq<(String, Seq<Line>)>),
    ParseError,
> {
    match lines_sp(toks, 0, true, Seq::empty()) {
        Err(e) => Err(e),
        Ok((top, q)) => match top_directives_sp(top) {
            None => Err(fail_sp(toks, 0)),
            Some(ds) => match programs_sp(toks, q, Seq::empty()) {
                Err(e) => Err(e),
                Ok(ps) => Ok((ds, ps)),
            },
        },
    }
}

pub open spec fn program_views(ps: Seq<(String, Vec<Line>)>) -> Seq<(String, Seq<Line>)> {
    ps.map_values(|x: (String, Vec<Line>)| (x.0, x.1@))
}

pub open spec fn program_text_agrees(toks: Seq<Token>, r: Result<Vec<Line>, ParseError>) -> bool {
    match program_tokens_sp(toks) {
        Err(e) => r == Err::<Vec<Line>, ParseError>(e),
        Ok(l) => r is Ok && r->Ok_0@ == l,
    }
}

pub open spec fn file_text_agrees(
    toks: Seq<Token>,
    r: Result<(Vec<ParsedDirective>, Vec<(String, Vec<Line>)>), ParseError>,
) -> bool {
    match file_tokens_sp(toks) {
        Err(e) => r == Err::<(Vec<ParsedDirective>, Vec<(String, Vec<Line>)>), ParseError>(e),
        Ok((ds, ps)) => r is Ok && r->Ok_0.0@ == ds && program_views(r->Ok_0.1@) == ps,
    }
}

/// Splits the lines of a single program, written without `.program`: the
/// lines that the grammar reads from the text's tokens.
pub fn parse_program_text(source: &str) -> (r: Result<Vec<Line>, ParseError>)
    ensures
        r is Err ==> r->Err_0 is Syntax,
        tokens_of(source@) is None ==> r is Err,
        tokens_of(source@) is Some ==> exists|toks: Seq<Token>|
            token_views(toks) == tokens_of(source@)->0 && #[trigger] program_text_agrees(toks, r),
{
    let toks = tokenize(source)?;
    let (lines, _) = match parse_lines(&toks, 0, false) {
        Ok(x) => x,
        Err(e) => {
            assert(program_text_agrees(toks@, Err(e)));
            return Err(e);
        },
    };
    assert(program_text_agrees(toks@, Ok(lines)));
    Ok(lines)
}

proof fn lemma_top_step(top: Seq<Line>)
    requires
        top.len() > 0,
    ensures
        top_directives_sp(top) == match top[0] {
            Line::Directive(d) => match top_directives_sp(top.subrange(1, top.len() as int)) {
                Some(ds) => Some(seq![d] + ds),
                None => None,
            },
            _ => None::<Seq<ParsedDirective>>,
        },
{
    reveal_with_fuel(top_directives_sp, 2);
}

/// Splits a file into its top-level directives and its named programs, each
/// introduced by `.program <name>`, as the grammar reads them from the text's tokens.
#[verifier::rlimit(100)]
pub fn parse_file_text(source: &str) -> (r: Result<(Vec<ParsedDirective>, Vec<(String, Vec<Line>)>), ParseError>)
    ensures
        r is Err ==> r->Err_0 is Syntax,
        tokens_of(source@) is None ==> r is Err,
        tokens_of(source@) is Some ==> exists|toks: Seq<Token>|
            token_views(toks) == tokens_of(source@)->0 && #[trigger] file_text_agrees(toks, r),
{
    reveal_with_fuel(top_directives_sp, 1);
    let toks = tokenize(source)?;
    let (top, mut q) = match parse_lines(&toks, 0, true) {
        Ok(x) => x,
        Err(e) => {
            assert(file_text_agrees(toks@, Err(e)));
            return Err(e);
        },
    };
    let ghost top0 = top@;
    let ghost q0 = q as int;
    let mut directives: Vec<ParsedDirective> = Vec::new();
    let mut top = top;
    assert(directives@ + Seq::<ParsedDirective>::empty() =~= Seq::<ParsedDirective>::empty());
    while top.len() > 0
        invariant
            q <= toks@.len(),
            tokens_of(source@) == Some(token_views(toks@)),
            lines_sp(toks@, 0, true, Seq::empty()) == Ok::<(Seq<Line>, int), ParseError>((top0, q0)),
            q as int == q0,
            top_directives_sp(top0) == match top_directives_sp(top@) {
                Some(ds) => Some(directives@ + ds),
                None => None::<Seq<ParsedDirective>>,
            },
        decreases top@.len(),
    {
        proof {
            lemma_top_step(top@);
        }
        let ghost rest = top@.subrange(1, top@.len() as int);
        match top.remove(0) {
            Line::Directive(d) => {
                proof {
                    if let Some(ds) = top_directives_sp(rest) {
                        assert(directives@.push(d) + ds =~= directives@ + (seq![d] + ds));
                    }
                }
                directives.push(d);
            },
            _ => {
                assert(file_text_agrees(toks@, Err(fail_sp(toks@, 0))));
                return Err(fail_at(&toks, 0));
            },
        }
        assert(top@ =~= rest);
    }
    assert(directives@ + Seq::<ParsedDirective>::empty() =~= directives@);
    proof {
        reveal_with_fuel(top_directives_sp, 1);
    }
    let mut programs: Vec<(String, Vec<Line>)> = Vec::new();
    assert(program_views(programs@) =~= Seq::<(String, Seq<Line>)>::empty());
    while q < toks.len()
        invariant
            q <= toks@.len(),
            tokens_of(source@) == Some(token_views(toks@)),
            lines_sp(toks@, 0, true, Seq::empty()) == Ok::<(Seq<Line>, int), ParseError>((top0, q0)),
            top_directives_sp(top0) == Some(directives@),
            programs_sp(toks@, q0, Seq::empty()) == programs_sp(toks@, q as int, program_views(programs@)),
        decreases toks@.len() - q,
    {
        let (name, lines, next) = match parse_one_program(&toks, q) {
            Ok(x) => x,
            Err(e) => {
                assert(file_text_agrees(toks@, Err(e)));
                return Err(e);
            },
        };
        if next <= q {
            assert(file_text_agrees(toks@, Err(fail_sp(toks@, q as int))));
            return Err(fail_at(&toks, q));
        }
        proof {
            assert(program_views(programs@.push((name, lines))) =~= program_views(programs@).push((name, lines@)));
        }
        programs.push((name, lines));
        q = next;
    }
    let r = Ok((directives, programs));
    assert(file_text_agrees(toks@, r));
    r
}

} // verus!
