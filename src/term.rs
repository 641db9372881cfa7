use vstd::prelude::*;

verus! {

/// A term of the calculus of constructions, with de Bruijn indices.
#[derive(Debug)]
pub enum Term {
    /// The sort of propositions.
    Prop,
    /// The sort of `Prop`.
    Type,
    /// A bound variable, counted from the innermost binder outward.
    Var(usize),
    /// Application of a function to an argument.
    App(Box<Term>, Box<Term>),
    /// Abstraction: the domain type, then the body.
    Lam(Box<Term>, Box<Term>),
    /// Dependent function type: the domain type, then the body.
    Pi(Box<Term>, Box<Term>),
}

/// Every free variable of `t` is below `n`, and `t` holds no `Type`: what the surface
/// syntax can produce under `n` binders.
pub open spec fn scoped(t: Term, n: nat) -> bool
    decreases t,
{
    match t {
        Term::Prop => true,
        Term::Type => false,
        Term::Var(v) => v < n,
        Term::App(f, a) => scoped(*f, n) && scoped(*a, n),
        Term::Lam(a, b) => scoped(*a, n) && scoped(*b, n + 1),
        Term::Pi(a, b) => scoped(*a, n) && scoped(*b, n + 1),
    }
}

impl Term {
    /// A structural copy of the term.
    pub fn copy(&self) -> (r: Term)
        ensures
            r == *self,
        decreases self,
    {
        match self {
            Term::Prop => Term::Prop,
            Term::Type => Term::Type,
            Term::Var(v) => Term::Var(*v),
            Term::App(f, a) => Term::App(Box::new(f.copy()), Box::new(a.copy())),
            Term::Lam(a, b) => Term::Lam(Box::new(a.copy()), Box::new(b.copy())),
            Term::Pi(a, b) => Term::Pi(Box::new(a.copy()), Box::new(b.copy())),
        }
    }
}

impl PartialEq for Term {
    fn eq(&self, other: &Term) -> (r: bool)
        decreases self,
    {
        match (self, other) {
            (Term::Prop, Term::Prop) => true,
            (Term::Type, Term::Type) => true,
            (Term::Var(x), Term::Var(y)) => *x == *y,
            (Term::App(f, a), Term::App(g, b)) => (**f).eq(&**g) && (**a).eq(&**b),
            (Term::Lam(a, x), Term::Lam(b, y)) => (**a).eq(&**b) && (**x).eq(&**y),
            (Term::Pi(a, x), Term::Pi(b, y)) => (**a).eq(&**b) && (**x).eq(&**y),
            _ => false,
        }
    }
}

impl vstd::std_specs::cmp::PartialEqSpecImpl for Term {
    open spec fn obeys_eq_spec() -> bool {
        true
    }

    open spec fn eq_spec(&self, other: &Term) -> bool {
        *self == *other
    }
}

impl Eq for Term {}

impl Clone for Term {
    fn clone(&self) -> (r: Term)
        ensures
            r == *self,
    {
        self.copy()
    }
}

/// How tightly a position binds: `A` takes any term, `B` the function of an application,
/// `C` its argument.
#[derive(Debug, Clone, Copy, PartialEq, Eq, Structural)]
pub enum Prec {
    A,
    B,
    C,
}

/// The decimal digits of `n`.
pub open spec fn decimal(n: nat) -> Seq<char>
    decreases n,
{
    if n < 10 {
        seq![((48 + n) as u8) as char]
    } else {
        decimal(n / 10) + seq![((48 + n % 10) as u8) as char]
    }
}

/// The display name of the variable bound by the `n`-th binder from the outside:
/// a letter, then for `n >= 26` the number `n / 26`.
pub open spec fn var_name(n: nat) -> Seq<char> {
    seq![((97 + n % 26) as u8) as char] + if n / 26 > 0 {
        decimal(n / 26)
    } else {
        Seq::<char>::empty()
    }
}

/// The keyword that opens a binder, with its trailing space.
pub open spec fn keyword(pi: bool) -> Seq<char> {
    if pi {
        seq!['f', 'o', 'r', 'a', 'l', 'l', ' ']
    } else {
        seq!['f', 'n', ' ']
    }
}

/// A binder written with keyword `kw`, bound name `vars`, annotation `ann` and body `body`,
/// in parentheses unless it stands at `Prec::A`.
pub open spec fn binder_text(
    kw: Seq<char>,
    prec: Prec,
    vars: nat,
    ann: Option<Seq<char>>,
    body: Option<Seq<char>>,
) -> Option<Seq<char>> {
    match (ann, body) {
        (Some(x), Some(y)) => {
            let inner = kw + var_name(vars) + seq![':', ' '] + x + seq!['.', ' '] + y;
            Some(
                if prec != Prec::A {
                    seq!['('] + inner + seq![')']
                } else {
                    inner
                },
            )
        },
        _ => None,
    }
}

/// The surface text of `t` at `prec` under `vars` binders, where each variable refers to
/// one of those binders.
pub open spec fn shown(t: Term, prec: Prec, vars: nat) -> Option<Seq<char>>
    decreases t,
{
    match t {
        Term::Prop => Some(seq!['*']),
        Term::Type => Some(seq!['@']),
        Term::Var(v) => if v < vars {
            Some(var_name((vars - 1 - v) as nat))
        } else {
            None
        },
        Term::App(f, a) => match (shown(*f, Prec::B, vars), shown(*a, Prec::C, vars)) {
            (Some(x), Some(y)) => Some(
                if prec == Prec::C {
                    seq!['('] + x + seq![' '] + y + seq![')']
                } else {
                    x + seq![' '] + y
                },
            ),
            _ => None,
        },
        Term::Lam(a, b) => binder_text(
            keyword(false),
            prec,
            vars,
            shown(*a, Prec::A, vars),
            if vars < usize::MAX {
                shown(*b, Prec::A, vars + 1)
            } else {
                None
            },
        ),
        Term::Pi(a, b) => binder_text(
            keyword(true),
            prec,
            vars,
            shown(*a, Prec::A, vars),
            if vars < usize::MAX {
                shown(*b, Prec::A, vars + 1)
            } else {
                None
            },
        ),
    }
}

/// Appends the decimal digits of `n`.
fn push_decimal(out: &mut Vec<char>, n: usize)
    ensures
        final(out)@ == old(out)@ + decimal(n as nat),
    decreases n,
{
    if n < 10 {
        out.push(((48 + n) as u8) as char);
    } else {
        push_decimal(out, n / 10);
        out.push(((48 + n % 10) as u8) as char);
    }
    assert(final(out)@ =~= old(out)@ + decimal(n as nat));
}

/// The display name of the variable bound by the `n`-th binder from the outside.
fn var(n: usize) -> (r: Vec<char>)
    ensures
        r@ == var_name(n as nat),
{
    let q = n / 26;
    let r = n % 26;
    let mut ret: Vec<char> = Vec::new();
    ret.push(((97 + r) as u8) as char);
    if q > 0 {
        push_decimal(&mut ret, q);
    }
    assert(ret@ =~= var_name(n as nat));
    ret
}

/// Appends the keyword that opens a binder.
fn push_keyword(out: &mut Vec<char>, pi: bool)
    ensures
        final(out)@ == old(out)@ + keyword(pi),
{
    if pi {
        out.push('f');
        out.push('o');
        out.push('r');
        out.push('a');
        out.push('l');
        out.push('l');
    } else {
        out.push('f');
        out.push('n');
    }
    out.push(' ');
    assert(final(out)@ =~= old(out)@ + keyword(pi));
}

/// Appends `more` to `out`.
fn push_all(out: &mut Vec<char>, more: &Vec<char>)
    ensures
        final(out)@ == old(out)@ + more@,
{
    let mut i: usize = 0;
    while i < more.len()
        invariant
            i <= more@.len(),
            out@ == old(out)@ + more@.subrange(0, i as int),
        decreases more@.len() - i,
    {
        out.push(more[i]);
        i = i + 1;
        assert(out@ =~= old(out)@ + more@.subrange(0, i as int));
    }
    assert(more@.subrange(0, i as int) =~= more@);
}

/// Relies on `String`'s `FromIterator<char>`: the string holds exactly the given characters.
#[verifier::external_body]
fn string_of(cs: &Vec<char>) -> (r: String)
    ensures
        r@ == cs@,
{
    cs.iter().collect()
}

impl Term {
    /// Appends the text of `self` at `prec` under `vars` binders; false where a variable
    /// refers to no binder or the binder count would overflow.
    fn show(&self, out: &mut Vec<char>, prec: Prec, vars: usize) -> (ok: bool)
        ensures
            ok == shown(*self, prec, vars as nat) is Some,
            ok ==> final(out)@ == old(out)@ + shown(*self, prec, vars as nat)->0,
        decreases self, 1nat,
    {
        match self {
            Term::Prop => {
                out.push('*');
                true
            },
            Term::Type => {
                out.push('@');
                true
            },
            Term::Var(v) => {
                if *v < vars {
                    let name = var(vars - 1 - *v);
                    push_all(out, &name);
                    true
                } else {
                    false
                }
            },
            Term::App(func, arg) => {
                let ghost x = shown(**func, Prec::B, vars as nat)->0;
                let ghost y = shown(**arg, Prec::C, vars as nat)->0;
                if prec == Prec::C {
                    out.push('(');
                }
                if !func.show(out, Prec::B, vars) {
                    return false;
                }
                out.push(' ');
                if !arg.show(out, Prec::C, vars) {
                    return false;
                }
                if prec == Prec::C {
                    out.push(')');
                    assert(final(out)@ =~= old(out)@ + (seq!['('] + x + seq![' '] + y + seq![')']));
                } else {
                    assert(final(out)@ =~= old(out)@ + (x + seq![' '] + y));
                }
                true
            },
            Term::Lam(..) | Term::Pi(..) => show_lam_like(self, out, prec, vars),
        }
    }
}

/// Appends the text of the binder `t` at `prec` under `vars` binders.
fn show_lam_like(t: &Term, out: &mut Vec<char>, prec: Prec, vars: usize) -> (ok: bool)
    requires
        t is Lam || t is Pi,
    ensures
        ok == shown(*t, prec, vars as nat) is Some,
        ok ==> final(out)@ == old(out)@ + shown(*t, prec, vars as nat)->0,
    decreases t, 0nat,
{
    let (ann, body, pi) = match t {
        Term::Lam(a, b) => (a, b, false),
        Term::Pi(a, b) => (a, b, true),
        _ => {
            return false;
        },
    };
    let ghost kw = keyword(pi);
    assert(shown(*t, prec, vars as nat) == binder_text(
        kw,
        prec,
        vars as nat,
        shown(**ann, Prec::A, vars as nat),
        if vars < usize::MAX {
            shown(**body, Prec::A, vars as nat + 1)
        } else {
            None
        },
    ));
    let ghost x = shown(**ann, Prec::A, vars as nat)->0;
    let ghost y = shown(**body, Prec::A, vars as nat + 1)->0;
    let mut inner: Vec<char> = Vec::new();
    push_keyword(&mut inner, pi);
    let name = var(vars);
    push_all(&mut inner, &name);
    inner.push(':');
    inner.push(' ');
    let ghost s1 = inner@;
    assert(s1 =~= kw + var_name(vars as nat) + seq![':', ' ']);
    if !ann.show(&mut inner, Prec::A, vars) {
        return false;
    }
    inner.push('.');
    inner.push(' ');
    let ghost s2 = inner@;
    assert(s2 =~= s1 + x + seq!['.', ' ']);
    if vars == usize::MAX {
        return false;
    }
    if !body.show(&mut inner, Prec::A, vars + 1) {
        return false;
    }
    assert(inner@ =~= kw + var_name(vars as nat) + seq![':', ' '] + x + seq!['.', ' '] + y);
    if prec != Prec::A {
        out.push('(');
        push_all(out, &inner);
        out.push(')');
        assert(final(out)@ =~= old(out)@ + (seq!['('] + inner@ + seq![')']));
    } else {
        push_all(out, &inner);
    }
    true
}

impl Term {
    /// The surface text of a closed term, naming the variable of the `n`-th binder from the
    /// outside by `var_name(n)`; `None` where a variable refers to no binder.
    pub fn to_string(&self) -> (r: Option<String>)
        ensures
            r is Some == shown(*self, Prec::A, 0) is Some,
            r matches Some(s) ==> s@ == shown(*self, Prec::A, 0)->0,
    {
        let mut out: Vec<char> = Vec::new();
        if self.show(&mut out, Prec::A, 0) {
            assert(out@ =~= shown(*self, Prec::A, 0)->0);
            Some(string_of(&out))
        } else {
            None
        }
    }
}

} // verus!
