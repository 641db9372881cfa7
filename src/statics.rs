//! Weak-head reduction and type synthesis.
use crate::index::{can_lift, can_subst, lift, lift_fits, lifted, subst, subst_fits, substituted};
use crate::term::Term;
use vstd::prelude::*;

verus! {

/// The number of steps that `go` allows itself.
pub const STEP_LIMIT: u64 = 18446744073709551615;

/// Why a term has no type.
#[derive(Debug)]
pub enum TypeError {
    /// A literal `Type` was given to synthesize.
    InvalidSort,
    /// A variable index with no context entry.
    UnboundVariable(usize),
    /// The weak-head normal type of an applied term, which is not a `Pi`.
    NotAFunction(Term),
    /// The function's domain and the argument's type, both in weak-head normal form.
    TypeMismatch(Term, Term),
    /// A weak-head normal type that should have been a sort.
    ExpectedSort(Term),
    /// The step budget ran out, or an index would not fit in `usize`.
    LimitReached,
}

/// `Prop` or `Type`.
pub open spec fn is_sort_spec(t: Term) -> bool {
    t is Prop || t is Type
}

/// The weak-head normal form of `t`, reached within `fuel` nested steps.
pub open spec fn whnf(t: Term, fuel: nat) -> Option<Term>
    decreases fuel,
{
    match t {
        Term::App(f, a) => if fuel == 0 {
            None
        } else {
            match whnf(*f, (fuel - 1) as nat) {
                Some(Term::Lam(_, body)) => if subst_fits(0, *a, *body) {
                    whnf(substituted(0, *a, *body), (fuel - 1) as nat)
                } else {
                    None
                },
                Some(g) => Some(Term::App(Box::new(g), a)),
                None => None,
            }
        },
        _ => Some(t),
    }
}

/// The type of `t` under `ctx` (innermost binder last), within `fuel` nested steps.
pub open spec fn synth(ctx: Seq<Term>, t: Term, fuel: nat) -> Result<Term, TypeError>
    decreases fuel,
{
    if fuel == 0 {
        Err(TypeError::LimitReached)
    } else {
        let k = (fuel - 1) as nat;
        match t {
            Term::Prop => Ok(Term::Type),
            Term::Type => Err(TypeError::InvalidSort),
            Term::Var(v) => if v < ctx.len() {
                let e = ctx[ctx.len() - 1 - v];
                if lift_fits((v + 1) as nat, 0, e) {
                    Ok(lifted((v + 1) as nat, 0, e))
                } else {
                    Err(TypeError::LimitReached)
                }
            } else {
                Err(TypeError::UnboundVariable(v))
            },
            Term::App(f, a) => match synth(ctx, *f, k) {
                Err(e) => Err(e),
                Ok(fty) => match whnf(fty, k) {
                    None => Err(TypeError::LimitReached),
                    Some(Term::Pi(dom, cod)) => match synth(ctx, *a, k) {
                        Err(e) => Err(e),
                        Ok(aty) => match (whnf(*dom, k), whnf(aty, k)) {
                            (Some(x), Some(y)) => if x != y {
                                Err(TypeError::TypeMismatch(x, y))
                            } else if subst_fits(0, *a, *cod) {
                                Ok(substituted(0, *a, *cod))
                            } else {
                                Err(TypeError::LimitReached)
                            },
                            _ => Err(TypeError::LimitReached),
                        },
                    },
                    Some(other) => Err(TypeError::NotAFunction(other)),
                },
            },
            Term::Lam(ann, body) => match whnf(*ann, k) {
                None => Err(TypeError::LimitReached),
                Some(dom) => match synth(ctx, dom, k) {
                    Err(e) => Err(e),
                    Ok(_) => match synth(ctx.push(dom), *body, k) {
                        Err(e) => Err(e),
                        Ok(cod) => {
                            let p = Term::Pi(Box::new(dom), Box::new(cod));
                            match synth(ctx, p, k) {
                                Err(e) => Err(e),
                                Ok(_) => Ok(p),
                            }
                        },
                    },
                },
            },
            Term::Pi(ann, body) => match whnf(*ann, k) {
                None => Err(TypeError::LimitReached),
                Some(dom) => match synth(ctx, dom, k) {
                    Err(e) => Err(e),
                    Ok(dty) => match whnf(dty, k) {
                        None => Err(TypeError::LimitReached),
                        Some(s) => if !is_sort_spec(s) {
                            Err(TypeError::ExpectedSort(s))
                        } else {
                            match synth(ctx.push(dom), *body, k) {
                                Err(e) => Err(e),
                                Ok(cty) => match whnf(cty, k) {
                                    None => Err(TypeError::LimitReached),
                                    Some(r) => if is_sort_spec(r) {
                                        Ok(r)
                                    } else {
                                        Err(TypeError::ExpectedSort(r))
                                    },
                                },
                            }
                        },
                    },
                },
            },
        }
    }
}

/// Once reached, the weak-head normal form does not change with a larger budget.
pub proof fn lemma_whnf_fuel_mono(t: Term, k1: nat, k2: nat)
    requires
        whnf(t, k1) is Some,
        k1 <= k2,
    ensures
        whnf(t, k2) == whnf(t, k1),
    decreases k1,
{
    if let Term::App(f, a) = t {
        lemma_whnf_fuel_mono(*f, (k1 - 1) as nat, (k2 - 1) as nat);
        if let Some(Term::Lam(_, body)) = whnf(*f, (k1 - 1) as nat) {
            if subst_fits(0, *a, *body) {
                lemma_whnf_fuel_mono(substituted(0, *a, *body), (k1 - 1) as nat, (k2 - 1) as nat);
            }
        }
    }
}

/// Reduction to weak-head normal form is idempotent: `wh(wh(t)) == wh(t)`.
pub proof fn lemma_whnf_idempotent(t: Term, k: nat)
    requires
        whnf(t, k) is Some,
    ensures
        whnf(whnf(t, k)->0, k) == whnf(t, k),
    decreases k,
{
    if let Term::App(f, a) = t {
        let g = whnf(*f, (k - 1) as nat)->0;
        if let Term::Lam(_, body) = g {
            let s = substituted(0, *a, *body);
            lemma_whnf_idempotent(s, (k - 1) as nat);
            lemma_whnf_fuel_mono(whnf(s, (k - 1) as nat)->0, (k - 1) as nat, k);
        } else {
            lemma_whnf_idempotent(*f, (k - 1) as nat);
        }
    }
}

/// The step budget decides only whether an answer comes, never which: an answer other
/// than `LimitReached` stays the same under any larger budget.
pub proof fn lemma_synth_fuel_mono(ctx: Seq<Term>, t: Term, k1: nat, k2: nat)
    requires
        synth(ctx, t, k1) != Err::<Term, TypeError>(TypeError::LimitReached),
        k1 <= k2,
    ensures
        synth(ctx, t, k2) == synth(ctx, t, k1),
    decreases k1,
{
    let j1 = (k1 - 1) as nat;
    let j2 = (k2 - 1) as nat;
    match t {
        Term::App(f, a) => {
            lemma_synth_fuel_mono(ctx, *f, j1, j2);
            if let Ok(fty) = synth(ctx, *f, j1) {
                lemma_whnf_fuel_mono(fty, j1, j2);
                if let Some(Term::Pi(dom, cod)) = whnf(fty, j1) {
                    lemma_synth_fuel_mono(ctx, *a, j1, j2);
                    if let Ok(aty) = synth(ctx, *a, j1) {
                        lemma_whnf_fuel_mono(*dom, j1, j2);
                        lemma_whnf_fuel_mono(aty, j1, j2);
                    }
                }
            }
        },
        Term::Lam(ann, body) => {
            lemma_whnf_fuel_mono(*ann, j1, j2);
            let dom = whnf(*ann, j1)->0;
            lemma_synth_fuel_mono(ctx, dom, j1, j2);
            if synth(ctx, dom, j1) is Ok {
                lemma_synth_fuel_mono(ctx.push(dom), *body, j1, j2);
                if let Ok(cod) = synth(ctx.push(dom), *body, j1) {
                    lemma_synth_fuel_mono(ctx, Term::Pi(Box::new(dom), Box::new(cod)), j1, j2);
                }
            }
        },
        Term::Pi(ann, body) => {
            lemma_whnf_fuel_mono(*ann, j1, j2);
            let dom = whnf(*ann, j1)->0;
            lemma_synth_fuel_mono(ctx, dom, j1, j2);
            if let Ok(dty) = synth(ctx, dom, j1) {
                lemma_whnf_fuel_mono(dty, j1, j2);
                if is_sort_spec(whnf(dty, j1)->0) {
                    lemma_synth_fuel_mono(ctx.push(dom), *body, j1, j2);
                    if let Ok(cty) = synth(ctx.push(dom), *body, j1) {
                        lemma_whnf_fuel_mono(cty, j1, j2);
                    }
                }
            }
        },
        _ => {},
    }
}

/// A variable's type is the type it was bound with, lifted past itself and every binder
/// added to the context after it.
pub proof fn lemma_lookup_lifted(base: Seq<Term>, a: Term, later: Seq<Term>, fuel: nat)
    requires
        fuel > 0,
        later.len() < usize::MAX,
        lift_fits(later.len() + 1, 0, a),
    ensures
        synth(base.push(a) + later, Term::Var(later.len() as usize), fuel) == Ok::<Term, TypeError>(
            lifted(later.len() + 1, 0, a),
        ),
{
    let ctx = base.push(a) + later;
    assert(ctx[ctx.len() - 1 - later.len()] == a);
}

/// Reduces `t` to weak-head normal form, taking at most `fuel` nested steps.
pub fn wh(t: Term, fuel: u64) -> (r: Option<Term>)
    ensures
        r == whnf(t, fuel as nat),
    decreases fuel,
{
    match t {
        Term::App(f, a) => {
            if fuel == 0 {
                return None;
            }
            match wh(*f, fuel - 1) {
                Some(Term::Lam(_, body)) => {
                    if can_subst(0, &a, &body) {
                        wh(subst(0, &a, &body), fuel - 1)
                    } else {
                        None
                    }
                },
                Some(g) => Some(Term::App(Box::new(g), a)),
                None => None,
            }
        },
        _ => Some(t),
    }
}

/// Whether `t` is `Prop` or `Type`.
pub fn is_sort(t: &Term) -> (r: bool)
    ensures
        r == is_sort_spec(*t),
{
    match t {
        Term::Prop | Term::Type => true,
        _ => false,
    }
}

/// The type of `t` under `ctx` (innermost binder last), within `fuel` nested steps.
/// The context is extended while the body of a binder is checked and restored before returning.
pub fn synthesize(ctx: &mut Vec<Term>, t: &Term, fuel: u64) -> (r: Result<Term, TypeError>)
    ensures
        r == synth(old(ctx)@, *t, fuel as nat),
        final(ctx)@ == old(ctx)@,
    decreases fuel, 0nat,
{
    if fuel == 0 {
        return Err(TypeError::LimitReached);
    }
    let k = fuel - 1;
    match t {
        Term::Prop => Ok(Term::Type),
        Term::Type => Err(TypeError::InvalidSort),
        Term::Var(v) => {
            let v = *v;
            if v < ctx.len() {
                let e = &ctx[ctx.len() - 1 - v];
                if can_lift(v + 1, 0, e) {
                    Ok(lift(v + 1, 0, e))
                } else {
                    Err(TypeError::LimitReached)
                }
            } else {
                Err(TypeError::UnboundVariable(v))
            }
        },
        Term::App(f, a) => {
            let fty = match synthesize(ctx, f, k) {
                Ok(x) => x,
                Err(e) => return Err(e),
            };
            match wh(fty, k) {
                None => Err(TypeError::LimitReached),
                Some(Term::Pi(dom, cod)) => {
                    let aty = match synthesize(ctx, a, k) {
                        Ok(x) => x,
                        Err(e) => return Err(e),
                    };
                    match (wh(*dom, k), wh(aty, k)) {
                        (Some(x), Some(y)) => {
                            if x == y {
                                if can_subst(0, a, &cod) {
                                    Ok(subst(0, a, &cod))
                                } else {
                                    Err(TypeError::LimitReached)
                                }
                            } else {
                                Err(TypeError::TypeMismatch(x, y))
                            }
                        },
                        _ => Err(TypeError::LimitReached),
                    }
                },
                Some(other) => Err(TypeError::NotAFunction(other)),
            }
        },
        Term::Lam(ann, body) => {
            let dom = match wh(ann.copy(), k) {
                Some(x) => x,
                None => return Err(TypeError::LimitReached),
            };
            match synthesize(ctx, &dom, k) {
                Ok(_) => {},
                Err(e) => return Err(e),
            }
            let cod = match synthesize_under(ctx, dom.copy(), body, k) {
                Ok(x) => x,
                Err(e) => return Err(e),
            };
            let p = Term::Pi(Box::new(dom), Box::new(cod));
            match synthesize(ctx, &p, k) {
                Ok(_) => Ok(p),
                Err(e) => Err(e),
            }
        },
        Term::Pi(ann, body) => {
            let dom = match wh(ann.copy(), k) {
                Some(x) => x,
                None => return Err(TypeError::LimitReached),
            };
            let dty = match synthesize(ctx, &dom, k) {
                Ok(x) => x,
                Err(e) => return Err(e),
            };
            let s = match wh(dty, k) {
                Some(x) => x,
                None => return Err(TypeError::LimitReached),
            };
            if !is_sort(&s) {
                return Err(TypeError::ExpectedSort(s));
            }
            let cty = match synthesize_under(ctx, dom, body, k) {
                Ok(x) => x,
                Err(e) => return Err(e),
            };
            match wh(cty, k) {
                None => Err(TypeError::LimitReached),
                Some(r) => if is_sort(&r) {
                    Ok(r)
                } else {
                    Err(TypeError::ExpectedSort(r))
                },
            }
        },
    }
}

/// The type of `t` under `ctx` extended with `dom`, within `fuel` nested steps.
fn synthesize_under(ctx: &mut Vec<Term>, dom: Term, t: &Term, fuel: u64) -> (r: Result<Term, TypeError>)
    ensures
        r == synth(old(ctx)@.push(dom), *t, fuel as nat),
        final(ctx)@ == old(ctx)@,
    decreases fuel, 1nat,
{
    ctx.push(dom);
    let r = synthesize(ctx, t, fuel);
    let _ = ctx.pop();
    r
}

/// The type of `term` under `env` (innermost binder last), or why it has none.
pub fn go(env: &[Term], term: &Term) -> (r: Result<Term, TypeError>)
    ensures
        r == synth(env@, *term, STEP_LIMIT as nat),
{
    let mut ctx: Vec<Term> = Vec::new();
    let mut i: usize = 0;
    while i < env.len()
        invariant
            i <= env@.len(),
            ctx@ == env@.subrange(0, i as int),
        decreases env@.len() - i,
    {
        ctx.push(env[i].copy());
        i = i + 1;
    }
    proof {
        assert(ctx@ =~= env@);
    }
    synthesize(&mut ctx, term, STEP_LIMIT)
}

} // verus!
