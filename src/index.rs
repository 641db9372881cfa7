//! De Bruijn index arithmetic: lifting and substitution.
use crate::term::Term;
use vstd::prelude::*;

verus! {

/// Every variable index in `t`, free or bound, is at most `m`.
pub open spec fn vars_le(t: Term, m: nat) -> bool
    decreases t,
{
    match t {
        Term::Var(v) => v <= m,
        Term::App(f, a) => vars_le(*f, m) && vars_le(*a, m),
        Term::Lam(a, b) => vars_le(*a, m) && vars_le(*b, m),
        Term::Pi(a, b) => vars_le(*a, m) && vars_le(*b, m),
        _ => true,
    }
}

/// The largest number of binders nested inside `t`.
pub open spec fn depth(t: Term) -> nat
    decreases t,
{
    match t {
        Term::App(f, a) => vstd::math::max(depth(*f) as int, depth(*a) as int) as nat,
        Term::Lam(a, b) => 1 + vstd::math::max(depth(*a) as int, depth(*b) as int) as nat,
        Term::Pi(a, b) => 1 + vstd::math::max(depth(*a) as int, depth(*b) as int) as nat,
        _ => 0,
    }
}

/// `t` with every variable at or above `free` raised by `by`.
pub open spec fn lifted(by: nat, free: nat, t: Term) -> Term
    decreases t,
{
    match t {
        Term::Var(v) => if v >= free {
            Term::Var((v + by) as usize)
        } else {
            Term::Var(v)
        },
        Term::App(f, a) => Term::App(Box::new(lifted(by, free, *f)), Box::new(lifted(by, free, *a))),
        Term::Lam(a, b) => Term::Lam(Box::new(lifted(by, free, *a)), Box::new(lifted(by, free + 1, *b))),
        Term::Pi(a, b) => Term::Pi(Box::new(lifted(by, free, *a)), Box::new(lifted(by, free + 1, *b))),
        _ => t,
    }
}

/// `t` with the variable `var` replaced by `r` and the variables above it lowered by one.
pub open spec fn substituted(var: nat, r: Term, t: Term) -> Term
    decreases t,
{
    match t {
        Term::Var(v) => if v < var {
            t
        } else if v == var {
            r
        } else {
            Term::Var((v - 1) as usize)
        },
        Term::App(f, a) => Term::App(
            Box::new(substituted(var, r, *f)),
            Box::new(substituted(var, r, *a)),
        ),
        Term::Lam(a, b) => Term::Lam(
            Box::new(substituted(var, r, *a)),
            Box::new(substituted(var + 1, lifted(1, 0, r), *b)),
        ),
        Term::Pi(a, b) => Term::Pi(
            Box::new(substituted(var, r, *a)),
            Box::new(substituted(var + 1, lifted(1, 0, r), *b)),
        ),
        _ => t,
    }
}

/// Lifting `t` by `by` above `free` keeps every index within `usize`.
pub open spec fn lift_fits(by: nat, free: nat, t: Term) -> bool {
    &&& by <= usize::MAX
    &&& vars_le(t, (usize::MAX - by) as nat)
    &&& free + depth(t) <= usize::MAX
}

/// Substituting `r` for `var` in `t` keeps every index within `usize`.
pub open spec fn subst_fits(var: nat, r: Term, t: Term) -> bool {
    &&& var + depth(t) <= usize::MAX
    &&& vars_le(r, (usize::MAX - depth(t)) as nat)
    &&& depth(r) <= usize::MAX
}

/// A bound on the indices holds for any larger bound too.
pub proof fn lemma_vars_le_mono(t: Term, m1: nat, m2: nat)
    requires
        vars_le(t, m1),
        m1 <= m2,
    ensures
        vars_le(t, m2),
    decreases t,
{
    match t {
        Term::App(f, a) => {
            lemma_vars_le_mono(*f, m1, m2);
            lemma_vars_le_mono(*a, m1, m2);
        },
        Term::Lam(a, b) | Term::Pi(a, b) => {
            lemma_vars_le_mono(*a, m1, m2);
            lemma_vars_le_mono(*b, m1, m2);
        },
        _ => {},
    }
}

/// Lifting by `by` raises the index bound by at most `by` and keeps the depth.
pub proof fn lemma_lifted_shape(by: nat, free: nat, t: Term, m: nat)
    requires
        vars_le(t, m),
        m + by <= usize::MAX,
    ensures
        vars_le(lifted(by, free, t), m + by),
        depth(lifted(by, free, t)) == depth(t),
    decreases t,
{
    match t {
        Term::App(f, a) => {
            lemma_lifted_shape(by, free, *f, m);
            lemma_lifted_shape(by, free, *a, m);
        },
        Term::Lam(a, b) | Term::Pi(a, b) => {
            lemma_lifted_shape(by, free, *a, m);
            lemma_lifted_shape(by, free + 1, *b, m);
        },
        _ => {},
    }
}

/// `t` refers to the variable `k` of the context it stands in.
pub open spec fn free_in(t: Term, k: nat) -> bool
    decreases t,
{
    match t {
        Term::Var(v) => v == k,
        Term::App(f, a) => free_in(*f, k) || free_in(*a, k),
        Term::Lam(a, b) => free_in(*a, k) || free_in(*b, k + 1),
        Term::Pi(a, b) => free_in(*a, k) || free_in(*b, k + 1),
        _ => false,
    }
}

/// Lifting by `by` above `free` moves exactly the free variables at or above `free` up by `by`.
pub proof fn lemma_free_in_lifted(by: nat, free: nat, t: Term, k: nat)
    requires
        by <= usize::MAX,
        vars_le(t, (usize::MAX - by) as nat),
    ensures
        free_in(lifted(by, free, t), k) == ((k < free && free_in(t, k)) || (k >= free + by
            && free_in(t, (k - by) as nat))),
    decreases t,
{
    match t {
        Term::App(f, a) => {
            lemma_free_in_lifted(by, free, *f, k);
            lemma_free_in_lifted(by, free, *a, k);
        },
        Term::Lam(a, b) | Term::Pi(a, b) => {
            lemma_free_in_lifted(by, free, *a, k);
            lemma_free_in_lifted(by, free + 1, *b, k + 1);
        },
        _ => {},
    }
}

/// Substitution is sound: after replacing the variable `var` of `t` by `r`, the free
/// variables of the result are exactly those of `t` below `var`, those of `t` above `var`
/// lowered by one, and, where `t` refers to `var` at all, those of `r`. No variable of the
/// result refers to the eliminated binder.
pub proof fn lemma_subst_sound(var: nat, r: Term, t: Term, k: nat)
    requires
        subst_fits(var, r, t),
    ensures
        free_in(substituted(var, r, t), k) == ((k < var && free_in(t, k)) || (k >= var
            && free_in(t, k + 1)) || (free_in(t, var) && free_in(r, k))),
    decreases t,
{
    let m = (usize::MAX - depth(t)) as nat;
    match t {
        Term::App(f, a) => {
            lemma_vars_le_mono(r, m, (usize::MAX - depth(*f)) as nat);
            lemma_vars_le_mono(r, m, (usize::MAX - depth(*a)) as nat);
            lemma_subst_sound(var, r, *f, k);
            lemma_subst_sound(var, r, *a, k);
        },
        Term::Lam(a, b) | Term::Pi(a, b) => {
            lemma_vars_le_mono(r, m, (usize::MAX - depth(*a)) as nat);
            lemma_vars_le_mono(r, m, (usize::MAX - 1) as nat);
            lemma_lifted_shape(1, 0, r, m);
            lemma_vars_le_mono(lifted(1, 0, r), m + 1, (usize::MAX - depth(*b)) as nat);
            lemma_free_in_lifted(1, 0, r, k + 1);
            lemma_subst_sound(var, r, *a, k);
            lemma_subst_sound(var + 1, lifted(1, 0, r), *b, k + 1);
        },
        _ => {},
    }
}

/// Lifting twice above the same threshold is lifting once by the sum; so the copy of the
/// replacement that `subst` puts under `d` binders is the replacement lifted by `d`.
pub proof fn lemma_lift_compose(a: nat, b: nat, free: nat, t: Term)
    requires
        a + b <= usize::MAX,
        vars_le(t, (usize::MAX - a - b) as nat),
    ensures
        lifted(a, free, lifted(b, free, t)) == lifted(a + b, free, t),
    decreases t,
{
    match t {
        Term::App(f, x) => {
            lemma_lift_compose(a, b, free, *f);
            lemma_lift_compose(a, b, free, *x);
        },
        Term::Lam(x, y) | Term::Pi(x, y) => {
            lemma_lift_compose(a, b, free, *x);
            lemma_lift_compose(a, b, free + 1, *y);
        },
        _ => {},
    }
}

/// Substituting any `x` for the variable `i` right after lifting `t` by one above `i`
/// gives `t` back; at `i == 0` this is `subst(0, x, lift(1, 0, t)) == t`.
pub proof fn lemma_subst_lift_inverse(i: nat, x: Term, t: Term)
    requires
        vars_le(t, (usize::MAX - 1) as nat),
    ensures
        substituted(i, x, lifted(1, i, t)) == t,
    decreases t,
{
    match t {
        Term::App(f, a) => {
            lemma_subst_lift_inverse(i, x, *f);
            lemma_subst_lift_inverse(i, x, *a);
        },
        Term::Lam(a, b) | Term::Pi(a, b) => {
            lemma_subst_lift_inverse(i, x, *a);
            lemma_subst_lift_inverse(i + 1, lifted(1, 0, x), *b);
        },
        _ => {},
    }
}

/// Decides `vars_le(t, m)`.
pub fn vars_at_most(t: &Term, m: usize) -> (r: bool)
    ensures
        r == vars_le(*t, m as nat),
    decreases t,
{
    match t {
        Term::Var(v) => *v <= m,
        Term::App(x, y) | Term::Lam(x, y) | Term::Pi(x, y) => vars_at_most(x, m) && vars_at_most(y, m),
        _ => true,
    }
}

/// The depth of `t`, where it fits in `usize`.
pub fn depth_of(t: &Term) -> (r: Option<usize>)
    ensures
        r == (if depth(*t) <= usize::MAX {
            Some(depth(*t) as usize)
        } else {
            None::<usize>
        }),
    decreases t,
{
    match t {
        Term::App(x, y) => match (depth_of(x), depth_of(y)) {
            (Some(d), Some(e)) => Some(if d < e { e } else { d }),
            _ => None,
        },
        Term::Lam(x, y) | Term::Pi(x, y) => match (depth_of(x), depth_of(y)) {
            (Some(d), Some(e)) => {
                let m = if d < e { e } else { d };
                if m < usize::MAX {
                    Some(m + 1)
                } else {
                    None
                }
            },
            _ => None,
        },
        _ => Some(0),
    }
}

/// Decides `lift_fits(by, free, t)`.
pub fn can_lift(by: usize, free: usize, t: &Term) -> (r: bool)
    ensures
        r == lift_fits(by as nat, free as nat, *t),
{
    match depth_of(t) {
        Some(d) => free <= usize::MAX - d && vars_at_most(t, usize::MAX - by),
        None => false,
    }
}

/// Decides `subst_fits(var, r, t)`.
pub fn can_subst(var: usize, r: &Term, t: &Term) -> (b: bool)
    ensures
        b == subst_fits(var as nat, *r, *t),
{
    match depth_of(t) {
        Some(d) => var <= usize::MAX - d && vars_at_most(r, usize::MAX - d) && depth_of(r).is_some(),
        None => false,
    }
}

/// Moves `t` beneath `by` more binders: every variable at or above `free` is raised by `by`.
pub fn lift(by: usize, free: usize, t: &Term) -> (r: Term)
    requires
        lift_fits(by as nat, free as nat, *t),
    ensures
        r == lifted(by as nat, free as nat, *t),
    decreases t,
{
    match t {
        Term::Prop => Term::Prop,
        Term::Type => Term::Type,
        Term::Var(v) => if *v >= free {
            Term::Var(*v + by)
        } else {
            Term::Var(*v)
        },
        Term::App(f, a) => Term::App(Box::new(lift(by, free, f)), Box::new(lift(by, free, a))),
        Term::Lam(a, b) => Term::Lam(Box::new(lift(by, free, a)), Box::new(lift(by, free + 1, b))),
        Term::Pi(a, b) => Term::Pi(Box::new(lift(by, free, a)), Box::new(lift(by, free + 1, b))),
    }
}

/// Replaces the variable `var` of `t` by `r`, lowering the variables above it by one.
pub fn subst(var: usize, r: &Term, t: &Term) -> (s: Term)
    requires
        subst_fits(var as nat, *r, *t),
    ensures
        s == substituted(var as nat, *r, *t),
    decreases t,
{
    match t {
        Term::Prop => Term::Prop,
        Term::Type => Term::Type,
        Term::Var(v) => if *v < var {
            Term::Var(*v)
        } else if *v == var {
            r.copy()
        } else {
            Term::Var(*v - 1)
        },
        Term::App(f, a) => {
            proof {
                let m = (usize::MAX - depth(*t)) as nat;
                lemma_vars_le_mono(*r, m, (usize::MAX - depth(**f)) as nat);
                lemma_vars_le_mono(*r, m, (usize::MAX - depth(**a)) as nat);
            }
            Term::App(Box::new(subst(var, r, f)), Box::new(subst(var, r, a)))
        },
        Term::Lam(a, b) => {
            proof {
                let m = (usize::MAX - depth(*t)) as nat;
                lemma_vars_le_mono(*r, m, (usize::MAX - depth(**a)) as nat);
                lemma_vars_le_mono(*r, m, (usize::MAX - 1) as nat);
                lemma_lifted_shape(1, 0, *r, (usize::MAX - depth(*t)) as nat);
                lemma_vars_le_mono(lifted(1, 0, *r), (usize::MAX - depth(*t) + 1) as nat, (usize::MAX - depth(**b)) as nat);
            }
            let lr = lift(1, 0, r);
            Term::Lam(Box::new(subst(var, r, a)), Box::new(subst(var + 1, &lr, b)))
        },
        Term::Pi(a, b) => {
            proof {
                let m = (usize::MAX - depth(*t)) as nat;
                lemma_vars_le_mono(*r, m, (usize::MAX - depth(**a)) as nat);
                lemma_vars_le_mono(*r, m, (usize::MAX - 1) as nat);
                lemma_lifted_shape(1, 0, *r, (usize::MAX - depth(*t)) as nat);
                lemma_vars_le_mono(lifted(1, 0, *r), (usize::MAX - depth(*t) + 1) as nat, (usize::MAX - depth(**b)) as nat);
            }
            let lr = lift(1, 0, r);
            Term::Pi(Box::new(subst(var, r, a)), Box::new(subst(var + 1, &lr, b)))
        },
    }
}

} // verus!
