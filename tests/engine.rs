use coc::index::{lift, subst};
use coc::parse::{parse, ParseError};
use coc::statics::{go, synthesize, wh, TypeError, STEP_LIMIT};
use coc::term::Term;

fn b(t: Term) -> Box<Term> {
    Box::new(t)
}

fn app(f: Term, a: Term) -> Term {
    Term::App(b(f), b(a))
}

fn lam(a: Term, body: Term) -> Term {
    Term::Lam(b(a), b(body))
}

fn pi(a: Term, body: Term) -> Term {
    Term::Pi(b(a), b(body))
}

#[test]
fn lift_shifts_only_free_variables() {
    // fn _: v0. (v0 v1 v3)
    let t = lam(Term::Var(0), app(app(Term::Var(0), Term::Var(1)), Term::Var(3)));
    let r = lift(2, 0, &t);
    assert_eq!(r, lam(Term::Var(2), app(app(Term::Var(0), Term::Var(3)), Term::Var(5))));
    let r = lift(1, 1, &t);
    assert_eq!(r, lam(Term::Var(0), app(app(Term::Var(0), Term::Var(1)), Term::Var(4))));
    assert_eq!(lift(5, 0, &Term::Prop), Term::Prop);
}

#[test]
fn subst_replaces_and_lowers() {
    // v0 v1 v2 with v1 := Prop
    let t = app(app(Term::Var(0), Term::Var(1)), Term::Var(2));
    assert_eq!(subst(1, &Term::Prop, &t), app(app(Term::Var(0), Term::Prop), Term::Var(1)));
}

#[test]
fn subst_lifts_replacement_under_binders() {
    // fn _: v0. v1, with v0 := v4
    let t = lam(Term::Var(0), Term::Var(1));
    assert_eq!(subst(0, &Term::Var(4), &t), lam(Term::Var(4), Term::Var(5)));
}

#[test]
fn subst_leaves_no_reference_to_the_eliminated_variable() {
    // v0 v1 v2 with v1 := Prop: v1 goes, v2 becomes v1, v0 stays
    let t = lam(Term::Var(2), app(Term::Var(3), Term::Var(0)));
    let r = subst(1, &Term::Prop, &t);
    assert_eq!(r, lam(Term::Var(1), app(Term::Var(2), Term::Var(0))));
}

#[test]
fn subst_after_lift_is_identity() {
    let t = lam(Term::Var(1), app(Term::Var(0), pi(Term::Var(2), Term::Var(3))));
    let lifted = lift(1, 0, &t);
    assert_ne!(lifted, t);
    assert_eq!(subst(0, &app(Term::Prop, Term::Prop), &lifted), t);
}

#[test]
fn wh_reduces_head_redex() {
    // (fn x: *. x) (fn y: *. y) reduces to fn y: *. y
    let id = lam(Term::Prop, Term::Var(0));
    let t = app(id.clone(), id.clone());
    assert_eq!(wh(t, 100), Some(id));
}

#[test]
fn wh_keeps_stuck_application() {
    let t = app(Term::Var(3), app(lam(Term::Prop, Term::Var(0)), Term::Prop));
    assert_eq!(wh(t.clone(), 100), Some(t));
}

#[test]
fn wh_is_idempotent() {
    // ((fn x: *. fn y: *. x) v5) v6 reduces to v5
    let k = lam(Term::Prop, lam(Term::Prop, Term::Var(1)));
    let t = app(app(k, Term::Var(5)), Term::Var(6));
    let once = wh(t, 100).unwrap();
    assert_eq!(once, Term::Var(5));
    assert_eq!(wh(once.clone(), 100), Some(once));
}

#[test]
fn wh_stops_without_budget() {
    let t = app(lam(Term::Prop, Term::Var(0)), Term::Prop);
    assert_eq!(wh(t.clone(), 0), None);
    assert_eq!(wh(t, 2), Some(Term::Prop));
}

#[test]
fn names_do_not_matter() {
    let a = parse("fn a: *. fn b: a. b").unwrap();
    let c = parse("fn q: *. fn r: q. r").unwrap();
    assert_eq!(a, c);
    assert_eq!(go(&[], &a).unwrap(), go(&[], &c).unwrap());
}

#[test]
fn variable_type_is_lifted_past_later_binders() {
    // context a: *, x: a, y: *; seen from the end, x is v1 and its type a is v2
    let ctx = vec![Term::Prop, Term::Var(0), Term::Prop];
    let r = go(&ctx, &Term::Var(1)).unwrap();
    assert_eq!(r, lift(2, 0, &Term::Var(0)));
    assert_eq!(r, Term::Var(2));
    assert_eq!(go(&ctx, &Term::Var(0)).unwrap(), Term::Prop);
}

#[test]
fn prop_has_type_type() {
    assert_eq!(go(&[], &Term::Prop).unwrap(), Term::Type);
}

#[test]
fn type_is_rejected() {
    assert!(matches!(go(&[], &Term::Type), Err(TypeError::InvalidSort)));
}

#[test]
fn unbound_variable_is_rejected() {
    assert!(matches!(go(&[], &Term::Var(0)), Err(TypeError::UnboundVariable(0))));
}

#[test]
fn applying_a_non_function_is_rejected() {
    let t = parse("* *").unwrap();
    assert!(matches!(go(&[], &t), Err(TypeError::NotAFunction(Term::Type))));
}

#[test]
fn argument_type_mismatch_is_rejected() {
    // (fn x: *. x) *: the argument * has type @, not *
    let t = parse("(fn x: *. x) *").unwrap();
    match go(&[], &t) {
        Err(TypeError::TypeMismatch(expected, found)) => {
            assert_eq!(expected, Term::Prop);
            assert_eq!(found, Term::Type);
        }
        other => panic!("unexpected {:?}", other),
    }
}

#[test]
fn non_sort_domain_is_rejected() {
    let t = parse("forall x: (fn a: *. a). *").unwrap();
    match go(&[], &t) {
        Err(TypeError::ExpectedSort(s)) => assert_eq!(s, pi(Term::Prop, Term::Prop)),
        other => panic!("unexpected {:?}", other),
    }
}

#[test]
fn small_budget_reports_limit() {
    let t = parse("fn a: *. fn b: a. b").unwrap();
    let mut ctx: Vec<Term> = Vec::new();
    assert!(matches!(synthesize(&mut ctx, &t, 1), Err(TypeError::LimitReached)));
    assert!(ctx.is_empty());
    assert!(synthesize(&mut ctx, &t, STEP_LIMIT).is_ok());
}

#[test]
fn parse_builds_de_bruijn_indices() {
    let t = parse("fn a: *. fn b: a. a b # a comment\n").unwrap();
    assert_eq!(t, lam(Term::Prop, lam(Term::Var(0), app(Term::Var(1), Term::Var(0)))));
}

#[test]
fn parse_shadowing_takes_innermost() {
    let t = parse("fn x: *. fn x: x. x").unwrap();
    assert_eq!(t, lam(Term::Prop, lam(Term::Var(0), Term::Var(0))));
}

#[test]
fn parse_errors() {
    assert!(matches!(parse("$"), Err(ParseError::UnknownByte(b'$'))));
    assert!(matches!(parse(""), Err(ParseError::ExpectedTerm)));
    assert!(matches!(parse("fn : *. *"), Err(ParseError::ExpectedName)));
    assert!(matches!(parse("fn x *. x"), Err(ParseError::Expected(_))));
    assert!(matches!(parse("x"), Err(ParseError::NotInScope)));
    assert!(matches!(parse("* )"), Err(ParseError::TrailingInput)));
}

#[test]
fn display_names_past_the_alphabet() {
    let mut t = Term::Var(0);
    for _ in 0..28 {
        t = lam(Term::Prop, t);
    }
    let s = t.to_string().unwrap();
    assert!(s.starts_with("fn a: *. fn b: *. "));
    assert!(s.ends_with("fn a1: *. fn b1: *. b1"));
}

#[test]
fn display_parenthesizes() {
    let t = app(Term::Prop, app(Term::Prop, Term::Prop));
    assert_eq!(t.to_string(), Some(String::from("* (* *)")));
    let t = app(lam(Term::Prop, Term::Var(0)), Term::Prop);
    assert_eq!(t.to_string(), Some(String::from("(fn a: *. a) *")));
    assert_eq!(Term::Var(0).to_string(), None);
}

#[test]
fn parse_checks_before_each_step() {
    assert!(matches!(parse("a1"), Err(ParseError::UnknownByte(b'1'))));
    assert!(matches!(parse("@"), Err(ParseError::UnknownByte(b'@'))));
    assert!(matches!(parse("fn x: *."), Err(ParseError::ExpectedTerm)));
    assert!(matches!(parse("fn x: . *"), Err(ParseError::ExpectedTerm)));
    assert!(matches!(parse("(*"), Err(ParseError::Expected(_))));
    assert!(matches!(parse("()"), Err(ParseError::ExpectedTerm)));
    assert!(matches!(parse("fn x: * *"), Err(ParseError::Expected(_))));
    assert!(matches!(parse("fn x: *. y"), Err(ParseError::NotInScope)));
}
