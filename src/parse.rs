//! Parsing surface syntax into terms with de Bruijn indices.
//!
//! ```text
//! term ::= 'fn' NAME ':' term '.' term | 'forall' NAME ':' term '.' term | atom+
//! atom ::= '(' term ')' | NAME | '*'
//! ```
use crate::lex::{lemma_lex_ranges, lex, lex_from, unknown_byte, Token};
use crate::parser::Parser;
use crate::scope::index_of;
use crate::term::{scoped, Term};
use vstd::prelude::*;
use vstd::string::StringSliceAdditionalSpecFns;

verus! {

/// Why a text is not a term.
#[derive(Debug)]
pub enum ParseError {
    /// A byte that starts no token.
    UnknownByte(u8),
    /// No term where one must start.
    ExpectedTerm,
    /// No name after `fn` or `forall`.
    ExpectedName,
    /// A token that must come next and does not.
    Expected(Token),
    /// A name with no binder around it.
    NotInScope,
    /// Tokens left after the term.
    TrailingInput,
}

/// The token at position `i`, if there is one.
pub open spec fn tok_at(ts: Seq<Token>, i: nat) -> Option<Token> {
    if i < ts.len() {
        Some(ts[i as int])
    } else {
        None
    }
}

/// Whether `t` can start a term: a binder keyword or the start of an atom.
pub open spec fn starts_term(t: Option<Token>) -> bool {
    match t {
        Some(Token::Fn) | Some(Token::Forall) | Some(Token::LRound) | Some(Token::Var(_, _))
        | Some(Token::Star) => true,
        _ => false,
    }
}

/// The term that starts at token `i` under the names `scope`, and the position after it.
pub open spec fn p_term(ts: Seq<Token>, src: Seq<u8>, i: nat, scope: Seq<Seq<u8>>) -> Result<
    (Term, nat),
    ParseError,
>
    decreases ts.len() - i, 3nat,
{
    if tok_at(ts, i) == Some(Token::Fn) || tok_at(ts, i) == Some(Token::Forall) {
        match p_binder(ts, src, i, scope) {
            Ok((a, b, j)) => Ok(
                (
                    if tok_at(ts, i) == Some(Token::Fn) {
                        Term::Lam(Box::new(a), Box::new(b))
                    } else {
                        Term::Pi(Box::new(a), Box::new(b))
                    },
                    j,
                ),
            ),
            Err(e) => Err(e),
        }
    } else {
        match p_atom(ts, src, i, scope) {
            Ok(Some((t, j))) => if i < j <= ts.len() {
                p_apps(ts, src, j, scope, t)
            } else {
                Err(ParseError::ExpectedTerm)
            },
            Ok(None) => Err(ParseError::ExpectedTerm),
            Err(e) => Err(e),
        }
    }
}

/// `acc` applied to the atoms that follow from token `i` on, left to right.
pub open spec fn p_apps(
    ts: Seq<Token>,
    src: Seq<u8>,
    i: nat,
    scope: Seq<Seq<u8>>,
    acc: Term,
) -> Result<(Term, nat), ParseError>
    decreases ts.len() - i, 2nat,
{
    match p_atom(ts, src, i, scope) {
        Ok(Some((t, j))) => if i < j <= ts.len() {
            p_apps(ts, src, j, scope, Term::App(Box::new(acc), Box::new(t)))
        } else {
            Err(ParseError::ExpectedTerm)
        },
        Ok(None) => Ok((acc, i)),
        Err(e) => Err(e),
    }
}

/// The atom at token `i` and the position after it, or `None` where no atom starts there.
pub open spec fn p_atom(ts: Seq<Token>, src: Seq<u8>, i: nat, scope: Seq<Seq<u8>>) -> Result<
    Option<(Term, nat)>,
    ParseError,
>
    decreases ts.len() - i, 1nat,
{
    match tok_at(ts, i) {
        Some(Token::LRound) => match p_term(ts, src, i + 1, scope) {
            Ok((t, j)) => if tok_at(ts, j) == Some(Token::RRound) {
                Ok(Some((t, j + 1)))
            } else {
                Err(ParseError::Expected(Token::RRound))
            },
            Err(e) => Err(e),
        },
        Some(Token::Var(s, e)) => match index_of(scope, src.subrange(s as int, e as int)) {
            Some(k) => Ok(Some((Term::Var(k as usize), i + 1))),
            None => Err(ParseError::NotInScope),
        },
        Some(Token::Star) => Ok(Some((Term::Prop, i + 1))),
        _ => Ok(None),
    }
}

/// The annotation and body of the binder whose keyword is token `i`, and the position after it.
pub open spec fn p_binder(ts: Seq<Token>, src: Seq<u8>, i: nat, scope: Seq<Seq<u8>>) -> Result<
    (Term, Term, nat),
    ParseError,
>
    decreases ts.len() - i, 1nat,
{
    match tok_at(ts, i + 1) {
        Some(Token::Var(s, e)) => if tok_at(ts, i + 2) != Some(Token::Colon) {
            Err(ParseError::Expected(Token::Colon))
        } else {
            match p_term(ts, src, i + 3, scope) {
                Ok((a, j)) => if tok_at(ts, j) != Some(Token::Dot) {
                    Err(ParseError::Expected(Token::Dot))
                } else if i < j {
                    match p_term(ts, src, j + 1, scope.push(src.subrange(s as int, e as int))) {
                        Ok((b, k)) => Ok((a, b, k)),
                        Err(e) => Err(e),
                    }
                } else {
                    Err(ParseError::Expected(Token::Dot))
                },
                Err(e) => Err(e),
            }
        },
        _ => Err(ParseError::ExpectedName),
    }
}

/// Where no term can start at token `i`, parsing a term there fails with `ExpectedTerm`.
pub proof fn lemma_no_term_here(ts: Seq<Token>, src: Seq<u8>, i: nat, scope: Seq<Seq<u8>>)
    requires
        !starts_term(tok_at(ts, i)),
    ensures
        p_term(ts, src, i, scope) == Err::<(Term, nat), ParseError>(ParseError::ExpectedTerm),
{
    assert(p_atom(ts, src, i, scope) == Ok::<Option<(Term, nat)>, ParseError>(None));
}

/// What `parse` gives for the source bytes `bs`.
pub open spec fn parsed(bs: Seq<u8>) -> Result<Term, ParseError> {
    match lex_from(bs, 0) {
        Err(b) => Err(ParseError::UnknownByte(b)),
        Ok(ts) => match p_term(ts, bs, 0, Seq::empty()) {
            Ok((t, j)) => if j == ts.len() {
                Ok(t)
            } else {
                Err(ParseError::TrailingInput)
            },
            Err(e) => Err(e),
        },
    }
}

/// The term that `s` writes: application is left-associative, `*` is `Prop`, and each name
/// refers to its innermost binder.
pub fn parse(s: &str) -> (r: Result<Term, ParseError>)
    ensures
        r == parsed(s.spec_bytes()),
        r matches Ok(t) ==> scoped(t, 0),
{
    let bs = s.as_bytes();
    if let Some(b) = unknown_byte(bs) {
        return Err(ParseError::UnknownByte(b));
    }
    let ts = lex(bs);
    let n = bs.len();
    proof {
        assert(bs@.len() == n);
        lemma_lex_ranges(bs@, 0);
    }
    let mut p = Parser::new(bs, ts);
    if !p.starts_term() {
        proof {
            lemma_no_term_here(p.tokens@, p.src@, p.i as nat, p.scope@);
        }
        return Err(ParseError::ExpectedTerm);
    }
    let ret = match term(&mut p) {
        Ok(t) => t,
        Err(e) => return Err(e),
    };
    if p.peek().is_some() {
        return Err(ParseError::TrailingInput);
    }
    Ok(ret)
}

fn term(p: &mut Parser) -> (r: Result<Term, ParseError>)
    requires
        old(p).wf(),
        starts_term(old(p).next()),
    ensures
        final(p).wf(),
        final(p).same_input(old(p)),
        final(p).scope@ == old(p).scope@,
        old(p).i <= final(p).i,
        r matches Ok(t) ==> scoped(t, old(p).scope@.len()),
        match p_term(old(p).tokens@, old(p).src@, old(p).i as nat, old(p).scope@) {
            Ok((t, j)) => r == Ok::<Term, ParseError>(t) && final(p).i == j,
            Err(e) => r == Err::<Term, ParseError>(e),
        },
    decreases old(p).tokens@.len() - old(p).i, 2nat,
{
    if p.at(Token::Fn) {
        let (ann, body) = match lam_like(p) {
            Ok(x) => x,
            Err(e) => return Err(e),
        };
        Ok(Term::Lam(Box::new(ann), Box::new(body)))
    } else if p.at(Token::Forall) {
        let (ann, body) = match lam_like(p) {
            Ok(x) => x,
            Err(e) => return Err(e),
        };
        Ok(Term::Pi(Box::new(ann), Box::new(body)))
    } else {
        let mut ret = match at_term(p) {
            Ok(Some(t)) => t,
            Ok(None) => return Err(ParseError::ExpectedTerm),
            Err(e) => return Err(e),
        };
        loop
            invariant
                p.wf(),
                p.same_input(old(p)),
                p.scope@ == old(p).scope@,
                old(p).i < p.i,
                scoped(ret, old(p).scope@.len()),
                p_term(old(p).tokens@, old(p).src@, old(p).i as nat, old(p).scope@) == p_apps(
                    p.tokens@,
                    p.src@,
                    p.i as nat,
                    p.scope@,
                    ret,
                ),
            ensures
                p.wf(),
                p.same_input(old(p)),
                p.scope@ == old(p).scope@,
                scoped(ret, old(p).scope@.len()),
                p_term(old(p).tokens@, old(p).src@, old(p).i as nat, old(p).scope@) == Ok::<
                    (Term, nat),
                    ParseError,
                >((ret, p.i as nat)),
            decreases p.tokens@.len() - p.i,
        {
            match at_term(p) {
                Ok(Some(arg)) => {
                    ret = Term::App(Box::new(ret), Box::new(arg));
                },
                Ok(None) => break,
                Err(e) => return Err(e),
            }
        }
        Ok(ret)
    }
}

/// The annotation and the body of a `fn` or `forall` that starts at the current token.
fn lam_like(p: &mut Parser) -> (r: Result<(Term, Term), ParseError>)
    requires
        old(p).wf(),
        old(p).i < old(p).tokens@.len(),
    ensures
        final(p).wf(),
        final(p).same_input(old(p)),
        final(p).scope@ == old(p).scope@,
        old(p).i <= final(p).i,
        r matches Ok((a, b)) ==> scoped(a, old(p).scope@.len()) && scoped(b, old(p).scope@.len() + 1),
        match p_binder(old(p).tokens@, old(p).src@, old(p).i as nat, old(p).scope@) {
            Ok((a, b, j)) => r == Ok::<(Term, Term), ParseError>((a, b)) && final(p).i == j,
            Err(e) => r == Err::<(Term, Term), ParseError>(e),
        },
    decreases old(p).tokens@.len() - old(p).i, 1nat,
{
    p.bump();
    let var = match p.var() {
        Some(v) => v,
        None => return Err(ParseError::ExpectedName),
    };
    assert(p.tokens@[p.i as int] matches Token::Var(s, e));
    p.bump();
    if !p.at(Token::Colon) {
        return Err(ParseError::Expected(Token::Colon));
    }
    p.eat(Token::Colon);
    if !p.starts_term() {
        proof {
            lemma_no_term_here(p.tokens@, p.src@, p.i as nat, p.scope@);
        }
        return Err(ParseError::ExpectedTerm);
    }
    let ann = match term(p) {
        Ok(t) => t,
        Err(e) => return Err(e),
    };
    if !p.at(Token::Dot) {
        return Err(ParseError::Expected(Token::Dot));
    }
    p.eat(Token::Dot);
    if !p.starts_term() {
        proof {
            lemma_no_term_here(p.tokens@, p.src@, p.i as nat, p.scope@.push(p.name(var)));
        }
        return Err(ParseError::ExpectedTerm);
    }
    p.push(var);
    let body = term(p);
    p.pop();
    assert(p.scope@ =~= old(p).scope@);
    match body {
        Ok(body) => Ok((ann, body)),
        Err(e) => Err(e),
    }
}

/// The atom at the current token, or `None` where no atom starts there.
fn at_term(p: &mut Parser) -> (r: Result<Option<Term>, ParseError>)
    requires
        old(p).wf(),
    ensures
        final(p).wf(),
        final(p).same_input(old(p)),
        final(p).scope@ == old(p).scope@,
        old(p).i <= final(p).i,
        r matches Ok(Some(t)) ==> scoped(t, old(p).scope@.len()) && old(p).i < final(p).i,
        r matches Ok(None) ==> final(p).i == old(p).i,
        match p_atom(old(p).tokens@, old(p).src@, old(p).i as nat, old(p).scope@) {
            Ok(Some((t, j))) => r == Ok::<Option<Term>, ParseError>(Some(t)) && final(p).i == j,
            Ok(None) => r == Ok::<Option<Term>, ParseError>(None),
            Err(e) => r == Err::<Option<Term>, ParseError>(e),
        },
    decreases old(p).tokens@.len() - old(p).i, 1nat,
{
    if p.at(Token::LRound) {
        p.bump();
        if !p.starts_term() {
            proof {
                lemma_no_term_here(p.tokens@, p.src@, p.i as nat, p.scope@);
            }
            return Err(ParseError::ExpectedTerm);
        }
        let ret = match term(p) {
            Ok(t) => t,
            Err(e) => return Err(e),
        };
        if !p.at(Token::RRound) {
            return Err(ParseError::Expected(Token::RRound));
        }
        p.eat(Token::RRound);
        Ok(Some(ret))
    } else if let Some(v) = p.var() {
        assert(p.tokens@[p.i as int] matches Token::Var(s, e));
        p.bump();
        if p.in_scope(v) {
            Ok(Some(Term::Var(p.get(v))))
        } else {
            Err(ParseError::NotInScope)
        }
    } else if p.at(Token::Star) {
        p.bump();
        Ok(Some(Term::Prop))
    } else {
        Ok(None)
    }
}

} // verus!
