//! The state of the parser: the tokens, the position, and the names in scope.
use crate::lex::{ranges_in, Token};
use crate::parse::starts_term;
use crate::scope::{index_of, Scope};
use vstd::prelude::*;

verus! {

/// The bytes `src[start..end]`.
fn name_bytes(src: &[u8], start: usize, end: usize) -> (r: Vec<u8>)
    requires
        start <= end <= src@.len(),
    ensures
        r@ == src@.subrange(start as int, end as int),
{
    let mut r: Vec<u8> = Vec::new();
    let mut k = start;
    while k < end
        invariant
            start <= k <= end <= src@.len(),
            r@ == src@.subrange(start as int, k as int),
        decreases end - k,
    {
        r.push(src[k]);
        k = k + 1;
        assert(r@ =~= src@.subrange(start as int, k as int));
    }
    r
}

/// A recursive-descent parser over the tokens of `src`.
pub struct Parser<'a> {
    pub tokens: Vec<Token>,
    pub i: usize,
    pub scope: Scope,
    pub src: &'a [u8],
}

impl<'a> Parser<'a> {
    /// The position lies within the tokens, and every name token lies within the source.
    pub open spec fn wf(&self) -> bool {
        self.i <= self.tokens@.len() && ranges_in(self.tokens@, self.src@.len())
    }

    /// The token at the current position, if any is left.
    pub open spec fn next(&self) -> Option<Token> {
        if self.i < self.tokens@.len() {
            Some(self.tokens@[self.i as int])
        } else {
            None
        }
    }

    /// `self` and `other` read the same tokens of the same source.
    pub open spec fn same_input(&self, other: &Self) -> bool {
        self.tokens@ == other.tokens@ && self.src@ == other.src@
    }

    /// The name that a range of the source holds.
    pub open spec fn name(&self, r: (usize, usize)) -> Seq<u8> {
        self.src@.subrange(r.0 as int, r.1 as int)
    }

    /// A parser at the first of `tokens`, which were read from `src`, with nothing in scope.
    pub fn new(src: &'a [u8], tokens: Vec<Token>) -> (p: Self)
        requires
            ranges_in(tokens@, src@.len()),
        ensures
            p.wf(),
            p.i == 0,
            p.tokens@ == tokens@,
            p.src@ == src@,
            p.scope@ == Seq::<Seq<u8>>::empty(),
    {
        Parser { tokens, i: 0, scope: Scope::new(), src }
    }

    /// The token at the current position.
    pub fn peek(&self) -> (r: Option<Token>)
        ensures
            r == self.next(),
    {
        if self.i < self.tokens.len() {
            Some(self.tokens[self.i])
        } else {
            None
        }
    }

    /// Whether `token` comes next.
    pub fn at(&self, token: Token) -> (r: bool)
        ensures
            r == (self.next() == Some(token)),
    {
        match self.peek() {
            Some(t) => t == token,
            None => false,
        }
    }

    /// Moves past the current token.
    pub fn bump(&mut self)
        requires
            old(self).i < old(self).tokens@.len(),
        ensures
            final(self).i == old(self).i + 1,
            final(self).same_input(old(self)),
            final(self).scope@ == old(self).scope@,
    {
        let n = self.tokens.len();
        assert(self.i < n);
        self.i = self.i + 1;
    }

    /// Moves past `token`, which must come next.
    pub fn eat(&mut self, token: Token)
        requires
            old(self).next() == Some(token),
        ensures
            final(self).same_input(old(self)),
            final(self).scope@ == old(self).scope@,
            final(self).i == old(self).i + 1,
    {
        self.bump();
    }

    /// Whether a term can start at the current token.
    pub fn starts_term(&self) -> (r: bool)
        ensures
            r == starts_term(self.next()),
    {
        match self.peek() {
            Some(Token::Fn) | Some(Token::Forall) | Some(Token::LRound) | Some(Token::Var(_, _))
            | Some(Token::Star) => true,
            _ => false,
        }
    }

    /// The source range of the name that comes next, if one does.
    pub fn var(&self) -> (r: Option<(usize, usize)>)
        ensures
            match self.next() {
                Some(Token::Var(s, e)) => r == Some((s, e)),
                _ => r is None,
            },
    {
        match self.peek() {
            Some(Token::Var(s, e)) => Some((s, e)),
            _ => None,
        }
    }

    /// Binds the name in the source range `name` innermost.
    pub fn push(&mut self, name: (usize, usize))
        requires
            name.0 <= name.1 <= old(self).src@.len(),
        ensures
            final(self).scope@ == old(self).scope@.push(old(self).name(name)),
            final(self).same_input(old(self)),
            final(self).i == old(self).i,
    {
        let s = name_bytes(self.src, name.0, name.1);
        self.scope.push(s)
    }

    /// Removes the innermost binding.
    pub fn pop(&mut self)
        requires
            old(self).scope@.len() > 0,
        ensures
            final(self).scope@ == old(self).scope@.drop_last(),
            final(self).same_input(old(self)),
            final(self).i == old(self).i,
    {
        self.scope.pop()
    }

    /// Whether the name in the source range `name` is bound.
    pub fn in_scope(&self, name: (usize, usize)) -> (r: bool)
        requires
            name.0 <= name.1 <= self.src@.len(),
        ensures
            r == index_of(self.scope@, self.name(name)) is Some,
    {
        let s = name_bytes(self.src, name.0, name.1);
        self.scope.contains(s.as_slice())
    }

    /// The de Bruijn index of the bound name in the source range `name`.
    pub fn get(&self, name: (usize, usize)) -> (r: usize)
        requires
            name.0 <= name.1 <= self.src@.len(),
            index_of(self.scope@, self.name(name)) is Some,
        ensures
            r == index_of(self.scope@, self.name(name))->0,
            r < self.scope@.len(),
    {
        let s = name_bytes(self.src, name.0, name.1);
        self.scope.get(s.as_slice())
    }
}

} // verus!
