//! Splitting source text into tokens.
use vstd::prelude::*;

verus! {

/// A token of the surface syntax.
#[derive(Debug, Clone, Copy, PartialEq, Eq, Structural)]
pub enum Token {
    /// A name, as the byte range `start..end` of the source.
    Var(usize, usize),
    /// The keyword `fn`.
    Fn,
    /// The keyword `forall`.
    Forall,
    /// `:`
    Colon,
    /// `.`
    Dot,
    /// `(`
    LRound,
    /// `)`
    RRound,
    /// `*`
    Star,
}

/// An ASCII whitespace byte: space, tab, line feed, form feed or carriage return.
pub open spec fn is_space(b: u8) -> bool {
    b == 32 || b == 9 || b == 10 || b == 12 || b == 13
}

/// A byte that may occur in a name: an ASCII letter or `_`.
pub open spec fn is_name_byte(b: u8) -> bool {
    (65 <= b && b <= 90) || (97 <= b && b <= 122) || b == 95
}

/// The punctuation token that the byte `b` stands for.
pub open spec fn punct(b: u8) -> Option<Token> {
    if b == 58 {
        Some(Token::Colon)
    } else if b == 46 {
        Some(Token::Dot)
    } else if b == 40 {
        Some(Token::LRound)
    } else if b == 41 {
        Some(Token::RRound)
    } else if b == 42 {
        Some(Token::Star)
    } else {
        None
    }
}

/// The end of the run of name bytes that starts at `i`.
pub open spec fn name_end(bs: Seq<u8>, i: nat) -> nat
    decreases bs.len() - i,
{
    if i < bs.len() && is_name_byte(bs[i as int]) {
        name_end(bs, i + 1)
    } else {
        i
    }
}

/// The position of the first line feed at or after `i`, or the end of `bs`.
pub open spec fn line_end(bs: Seq<u8>, i: nat) -> nat
    decreases bs.len() - i,
{
    if i < bs.len() && bs[i as int] != 10 {
        line_end(bs, i + 1)
    } else {
        i
    }
}

/// The token for the name `bs[start..end]`: a keyword or a variable.
pub open spec fn word(bs: Seq<u8>, start: nat, end: nat) -> Token {
    let w = bs.subrange(start as int, end as int);
    if w == seq![102u8, 110u8] {
        Token::Fn
    } else if w == seq![102u8, 111u8, 114u8, 97u8, 108u8, 108u8] {
        Token::Forall
    } else {
        Token::Var(start as usize, end as usize)
    }
}

/// The tokens of `bs` from position `i` on, or the first byte that starts no token.
/// Whitespace separates tokens and `#` starts a comment that runs to the end of the line.
pub open spec fn lex_from(bs: Seq<u8>, i: nat) -> Result<Seq<Token>, u8>
    decreases bs.len() - i,
{
    if i >= bs.len() {
        Ok(seq![])
    } else {
        let b = bs[i as int];
        if is_space(b) {
            lex_from(bs, i + 1)
        } else if b == 35 {
            let j = line_end(bs, i + 1);
            if i < j <= bs.len() {
                lex_from(bs, j)
            } else {
                Err(b)
            }
        } else if is_name_byte(b) {
            let j = name_end(bs, i + 1);
            if i < j <= bs.len() {
                match lex_from(bs, j) {
                    Ok(rest) => Ok(seq![word(bs, i, j)] + rest),
                    Err(e) => Err(e),
                }
            } else {
                Err(b)
            }
        } else if let Some(t) = punct(b) {
            match lex_from(bs, i + 1) {
                Ok(rest) => Ok(seq![t] + rest),
                Err(e) => Err(e),
            }
        } else {
            Err(b)
        }
    }
}

/// A run that starts at `i` ends at or after `i`, and within the bytes.
pub proof fn lemma_ends_after(bs: Seq<u8>, i: nat)
    ensures
        name_end(bs, i) >= i,
        line_end(bs, i) >= i,
        i <= bs.len() ==> name_end(bs, i) <= bs.len(),
        i <= bs.len() ==> line_end(bs, i) <= bs.len(),
    decreases bs.len() - i,
{
    if i < bs.len() {
        lemma_ends_after(bs, i + 1);
    }
}

/// Every name token of `ts` is a byte range within a source of length `len`.
pub open spec fn ranges_in(ts: Seq<Token>, len: nat) -> bool {
    forall|k: int|
        0 <= k < ts.len() ==> (#[trigger] ts[k] matches Token::Var(s, e) ==> s <= e && e <= len)
}

/// Every name token that lexing yields is a byte range of the source.
pub proof fn lemma_lex_ranges(bs: Seq<u8>, i: nat)
    requires
        bs.len() <= usize::MAX,
    ensures
        lex_from(bs, i) matches Ok(ts) ==> ranges_in(ts, bs.len()),
    decreases bs.len() - i,
{
    if i < bs.len() {
        let b = bs[i as int];
        lemma_ends_after(bs, i + 1);
        if is_space(b) {
            lemma_lex_ranges(bs, i + 1);
        } else if b == 35 {
            let j = line_end(bs, i + 1);
            if i < j <= bs.len() {
                lemma_lex_ranges(bs, j);
            }
        } else if is_name_byte(b) {
            let j = name_end(bs, i + 1);
            if i < j <= bs.len() {
                lemma_lex_ranges(bs, j);
                if let Ok(rest) = lex_from(bs, j) {
                    let ts = seq![word(bs, i, j)] + rest;
                    assert forall|k: int| 0 <= k < ts.len() implies (#[trigger] ts[k] matches Token::Var(s, e)
                        ==> s <= e && e <= bs.len()) by {
                        if k > 0 {
                            assert(ts[k] == rest[k - 1]);
                        }
                    }
                }
            }
        } else if let Some(t) = punct(b) {
            lemma_lex_ranges(bs, i + 1);
            if let Ok(rest) = lex_from(bs, i + 1) {
                let ts = seq![t] + rest;
                assert forall|k: int| 0 <= k < ts.len() implies (#[trigger] ts[k] matches Token::Var(s, e)
                    ==> s <= e && e <= bs.len()) by {
                    if k > 0 {
                        assert(ts[k] == rest[k - 1]);
                    }
                }
            }
        }
    }
}

/// `ts` followed by the tokens in `rest`, where there are any.
pub open spec fn after(ts: Seq<Token>, rest: Result<Seq<Token>, u8>) -> Result<Seq<Token>, u8> {
    match rest {
        Ok(r) => Ok(ts + r),
        Err(e) => Err(e),
    }
}

/// Whether `b` may occur in a name.
pub fn is_var_byte(b: u8) -> (r: bool)
    ensures
        r == is_name_byte(b),
{
    (b >= 65 && b <= 90) || (b >= 97 && b <= 122) || b == 95
}

/// The end of the run of name bytes (`names`) or of bytes other than a line feed that starts at `i`.
pub fn advance_while(bs: &[u8], i: usize, names: bool) -> (r: usize)
    ensures
        r == (if names {
            name_end(bs@, i as nat)
        } else {
            line_end(bs@, i as nat)
        }),
{
    let mut j = i;
    while j < bs.len()
        invariant
            i <= j,
            j <= bs@.len() || j == i,
            names ==> name_end(bs@, i as nat) == name_end(bs@, j as nat),
            !names ==> line_end(bs@, i as nat) == line_end(bs@, j as nat),
        ensures
            names ==> name_end(bs@, i as nat) == j,
            !names ==> line_end(bs@, i as nat) == j,
        decreases bs@.len() - j,
    {
        let b = bs[j];
        let more = if names {
            is_var_byte(b)
        } else {
            b != 10
        };
        if more {
            j = j + 1;
        } else {
            assert(names ==> name_end(bs@, j as nat) == j);
            assert(!names ==> line_end(bs@, j as nat) == j);
            break;
        }
    }
    j
}

/// The token for the name `bs[start..end]`.
fn is_fn_or_forall(bs: &[u8], start: usize, end: usize) -> (r: Token)
    requires
        start <= end <= bs@.len(),
    ensures
        r == word(bs@, start as nat, end as nat),
{
    let ghost w = bs@.subrange(start as int, end as int);
    if end - start == 2 && bs[start] == 102 && bs[start + 1] == 110 {
        assert(w =~= seq![102u8, 110u8]);
        Token::Fn
    } else if end - start == 6 && bs[start] == 102 && bs[start + 1] == 111 && bs[start + 2] == 114
        && bs[start + 3] == 97 && bs[start + 4] == 108 && bs[start + 5] == 108 {
        assert(w =~= seq![102u8, 111u8, 114u8, 97u8, 108u8, 108u8]);
        Token::Forall
    } else {
        proof {
            assert(w.len() == end - start);
            assert(forall|k: int| 0 <= k < w.len() ==> w[k] == bs@[start + k]);
            if w == seq![102u8, 110u8] {
                assert(w[0] == 102u8 && w[1] == 110u8);
            }
            if w == seq![102u8, 111u8, 114u8, 97u8, 108u8, 108u8] {
                assert(w[0] == 102u8 && w[1] == 111u8 && w[2] == 114u8 && w[3] == 97u8 && w[4] == 108u8 && w[5] == 108u8);
            }
        }
        Token::Var(start, end)
    }
}

/// The punctuation token that `b` stands for.
fn punct_of(b: u8) -> (r: Option<Token>)
    ensures
        r == punct(b),
{
    if b == 58 {
        Some(Token::Colon)
    } else if b == 46 {
        Some(Token::Dot)
    } else if b == 40 {
        Some(Token::LRound)
    } else if b == 41 {
        Some(Token::RRound)
    } else if b == 42 {
        Some(Token::Star)
    } else {
        None
    }
}

/// The tokens of `bs`, or the first byte that starts no token.
pub fn lex(bs: &[u8]) -> (r: Vec<Token>)
    requires
        lex_from(bs@, 0) is Ok,
    ensures
        lex_from(bs@, 0) == Ok::<Seq<Token>, u8>(r@),
{
    let mut i: usize = 0;
    let mut tokens: Vec<Token> = Vec::new();
    while i < bs.len()
        invariant
            i <= bs@.len(),
            lex_from(bs@, 0) == after(tokens@, lex_from(bs@, i as nat)),
            lex_from(bs@, i as nat) is Ok,
        decreases bs@.len() - i,
    {
        let b = bs[i];
        if b == 32 || b == 9 || b == 10 || b == 12 || b == 13 {
            i = i + 1;
        } else if b == 35 {
            proof {
                lemma_ends_after(bs@, (i + 1) as nat);
            }
            i = advance_while(bs, i + 1, false);
        } else if is_var_byte(b) {
            proof {
                lemma_ends_after(bs@, (i + 1) as nat);
            }
            let start = i;
            i = advance_while(bs, i + 1, true);
            let t = is_fn_or_forall(bs, start, i);
            proof {
                let rest = lex_from(bs@, i as nat);
                if let Ok(r) = rest {
                    assert(tokens@.push(t) + r =~= tokens@ + (seq![t] + r));
                }
            }
            tokens.push(t);
        } else {
            let t = punct_of(b).unwrap();
            proof {
                let rest = lex_from(bs@, (i + 1) as nat);
                if let Ok(r) = rest {
                    assert(tokens@.push(t) + r =~= tokens@ + (seq![t] + r));
                }
            }
            tokens.push(t);
            i = i + 1;
        }
    }
    assert(tokens@ + seq![] =~= tokens@);
    tokens
}

/// The byte at which lexing `bs` fails, if any.
pub open spec fn failure(r: Result<Seq<Token>, u8>) -> Option<u8> {
    match r {
        Ok(_) => None,
        Err(b) => Some(b),
    }
}

/// The first byte of `bs` outside a comment that starts no token, if there is one.
pub fn unknown_byte(bs: &[u8]) -> (r: Option<u8>)
    ensures
        r == failure(lex_from(bs@, 0)),
{
    let mut i: usize = 0;
    while i < bs.len()
        invariant
            i <= bs@.len(),
            failure(lex_from(bs@, 0)) == failure(lex_from(bs@, i as nat)),
        decreases bs@.len() - i,
    {
        let b = bs[i];
        if b == 32 || b == 9 || b == 10 || b == 12 || b == 13 {
            i = i + 1;
        } else if b == 35 {
            proof {
                lemma_ends_after(bs@, (i + 1) as nat);
            }
            i = advance_while(bs, i + 1, false);
        } else if is_var_byte(b) {
            proof {
                lemma_ends_after(bs@, (i + 1) as nat);
            }
            i = advance_while(bs, i + 1, true);
        } else if punct_of(b).is_some() {
            i = i + 1;
        } else {
            return Some(b);
        }
    }
    None
}

} // verus!
