//! The names bound around the current position of the parser.
use vstd::prelude::*;

verus! {

/// Whether two byte strings are equal.
pub fn bytes_eq(a: &[u8], b: &[u8]) -> (r: bool)
    ensures
        r == (a@ == b@),
{
    if a.len() != b.len() {
        return false;
    }
    let mut i: usize = 0;
    while i < a.len()
        invariant
            a@.len() == b@.len(),
            i <= a@.len(),
            forall|k: int| 0 <= k < i ==> a@[k] == b@[k],
        decreases a@.len() - i,
    {
        if a[i] != b[i] {
            return false;
        }
        i = i + 1;
    }
    assert(a@ =~= b@);
    true
}

/// The bound names, outermost first.
pub struct Scope {
    vars: Vec<Vec<u8>>,
}

impl View for Scope {
    type V = Seq<Seq<u8>>;

    closed spec fn view(&self) -> Seq<Seq<u8>> {
        self.vars@.map_values(|v: Vec<u8>| v@)
    }
}

/// The de Bruijn index of the innermost binding of `s` in `names`, if `s` is bound.
pub open spec fn index_of(names: Seq<Seq<u8>>, s: Seq<u8>) -> Option<nat>
    decreases names.len(),
{
    if names.len() == 0 {
        None
    } else if names.last() == s {
        Some(0)
    } else {
        match index_of(names.drop_last(), s) {
            Some(k) => Some(k + 1),
            None => None,
        }
    }
}

impl Scope {
    /// An empty scope.
    pub fn new() -> (r: Scope)
        ensures
            r@ == Seq::<Seq<u8>>::empty(),
    {
        let r = Scope { vars: Vec::new() };
        assert(r@ =~= Seq::<Seq<u8>>::empty());
        r
    }

    /// Binds `s` innermost.
    pub fn push(&mut self, s: Vec<u8>)
        ensures
            final(self)@ == old(self)@.push(s@),
    {
        self.vars.push(s);
        assert(self@ =~= old(self)@.push(s@));
    }

    /// Removes the innermost binding.
    pub fn pop(&mut self)
        requires
            old(self)@.len() > 0,
        ensures
            final(self)@ == old(self)@.drop_last(),
    {
        let _ = self.vars.pop();
        assert(self@ =~= old(self)@.drop_last());
    }

    /// Whether `s` is bound.
    pub fn contains(&self, s: &[u8]) -> (r: bool)
        ensures
            r == index_of(self@, s@) is Some,
    {
        let n = self.vars.len();
        let mut i = n;
        assert(self@.subrange(0, n as int) =~= self@);
        while i > 0
            invariant
                i <= n == self.vars@.len() == self@.len(),
                index_of(self@, s@) is Some == index_of(self@.subrange(0, i as int), s@) is Some,
            decreases i,
        {
            let ghost pre = self@.subrange(0, i as int);
            assert(pre.drop_last() =~= self@.subrange(0, i - 1));
            assert(pre.last() == self.vars@[i - 1]@);
            if bytes_eq(self.vars[i - 1].as_slice(), s) {
                return true;
            }
            i = i - 1;
        }
        assert(self@.subrange(0, 0) =~= Seq::<Seq<u8>>::empty());
        false
    }

    /// The de Bruijn index of the bound name `s`: the number of bindings inside its
    /// innermost one.
    pub fn get(&self, s: &[u8]) -> (r: usize)
        requires
            index_of(self@, s@) is Some,
        ensures
            r == index_of(self@, s@)->0,
            r < self@.len(),
    {
        let n = self.vars.len();
        let mut i = n;
        assert(self@.subrange(0, n as int) =~= self@);
        loop
            invariant
                i <= n == self.vars@.len() == self@.len(),
                index_of(self@.subrange(0, i as int), s@) is Some,
                index_of(self@, s@) == Some((index_of(self@.subrange(0, i as int), s@)->0 + (n - i)) as nat),
            decreases i,
        {
            let ghost pre = self@.subrange(0, i as int);
            assert(pre.drop_last() =~= self@.subrange(0, i - 1));
            assert(pre.last() == self.vars@[i - 1]@);
            if bytes_eq(self.vars[i - 1].as_slice(), s) {
                return n - i;
            }
            i = i - 1;
        }
    }
}

} // verus!
