use nickel::environment::{Closure, Environment, IdentKind, Store, ThunkState};
use nickel::error::{EvalError, ImportError};
use nickel::eval::{eval, mk_env};
use nickel::full::{eval_deep, eval_full};
use nickel::identifier::Ident;
use nickel::import_resolution::resolve_imports;
use nickel::number::Number;
use nickel::resolvers::{DummyResolver, SimpleResolver};
use nickel::subst::subst;
use nickel::term::make as mk_term;
use nickel::term::make::{mk_app, mk_fun, mk_record};
use nickel::term::{BinaryOp, RichTerm, StrChunk, Term, UnaryOp};

const FUEL: u64 = 100_000;

fn n(x: f64) -> RichTerm {
    Term::Num(Number::from_units((x * 18446744073709551616.0) as i128)).into()
}

fn b(x: bool) -> RichTerm {
    Term::Bool(x).into()
}

/// A string as the parser gives it: one literal chunk.
fn parsed_str(s: &str) -> RichTerm {
    Term::StrChunks(vec![StrChunk::Literal(String::from(s))]).into()
}

fn plus(a: RichTerm, c: RichTerm) -> RichTerm {
    mk_term::op2(BinaryOp::Plus(), a, c)
}

fn rec_record(fields: Vec<(&str, RichTerm)>) -> RichTerm {
    Term::RecRecord(
        fields
            .into_iter()
            .map(|(k, v)| (Ident::from(k), v))
            .collect(),
    )
    .into()
}

fn record(fields: Vec<(&str, RichTerm)>) -> RichTerm {
    mk_record(
        fields
            .into_iter()
            .map(|(k, v)| (Ident::from(k), v))
            .collect(),
    )
}

fn array(elems: Vec<RichTerm>) -> RichTerm {
    Term::Array(elems).into()
}

fn access(field: &str, t: RichTerm) -> RichTerm {
    mk_term::op1(UnaryOp::StaticAccess(Ident::from(field)), t)
}

#[test]
fn imports() {
    let mut resolver = SimpleResolver::new();
    resolver.add_source(String::from("two"), plus(n(1.0), n(1.0)));
    resolver.add_source(String::from("lib"), rec_record(vec![("f", b(true))]));
    resolver.add_invalid(String::from("bad"), String::from("^$*/.23ab 0°@"));
    resolver.add_source(
        String::from("nested"),
        mk_term::let_in("x", mk_term::import("two"), plus(mk_term::var("x"), n(1.0))),
    );
    resolver.add_source(
        String::from("cycle"),
        mk_term::let_in(
            "x",
            mk_term::import("cycle_b"),
            rec_record(vec![("a", n(1.0)), ("b", access("a", mk_term::var("x")))]),
        ),
    );
    resolver.add_source(
        String::from("cycle_b"),
        mk_term::let_in(
            "x",
            mk_term::import("cycle"),
            rec_record(vec![("a", access("a", mk_term::var("x")))]),
        ),
    );

    fn mk_import(
        var: &str,
        import: &str,
        body: RichTerm,
        resolver: &mut SimpleResolver,
    ) -> Result<RichTerm, ImportError> {
        resolve_imports(
            mk_term::let_in(var, mk_term::import(import), body),
            resolver,
            64,
        )
    }

    // let x = import "does_not_exist" in x
    match mk_import("x", "does_not_exist", mk_term::var("x"), &mut resolver).unwrap_err() {
        ImportError::IOError(_, _, _) => (),
        _ => assert!(false),
    };

    // let x = import "bad" in x
    match mk_import("x", "bad", mk_term::var("x"), &mut resolver).unwrap_err() {
        ImportError::ParseErrors(_, _) => (),
        _ => assert!(false),
    };

    // let x = import "two" in x
    let mut store = Store::new();
    assert_eq!(
        eval(
            mk_import("x", "two", mk_term::var("x"), &mut resolver).unwrap(),
            &Environment::new(),
            &mut store,
            FUEL
        )
        .map(Term::from)
        .unwrap(),
        Term::from(n(2.0))
    );

    // let x = import "lib" in x.f
    let mut store = Store::new();
    assert_eq!(
        eval(
            mk_import(
                "x",
                "lib",
                mk_term::op1(UnaryOp::StaticAccess(Ident::from("f")), mk_term::var("x")),
                &mut resolver,
            )
            .unwrap(),
            &Environment::new(),
            &mut store,
            FUEL
        )
        .map(Term::from)
        .unwrap(),
        Term::Bool(true)
    );
}

#[test]
fn import_cycle_is_rejected() {
    let mut resolver = SimpleResolver::new();
    resolver.add_source(
        String::from("cycle"),
        mk_term::let_in(
            "x",
            mk_term::import("cycle_b"),
            rec_record(vec![("a", n(1.0)), ("b", access("a", mk_term::var("x")))]),
        ),
    );
    resolver.add_source(
        String::from("cycle_b"),
        mk_term::let_in(
            "x",
            mk_term::import("cycle"),
            rec_record(vec![("a", access("a", mk_term::var("x")))]),
        ),
    );
    let t = mk_term::let_in("x", mk_term::import("cycle"), mk_term::var("x"));
    match resolve_imports(t, &mut resolver, 64) {
        Err(ImportError::Cycle(name, _)) => assert_eq!(name, "cycle"),
        other => panic!("expected a cycle, got {:?}", other),
    }
}

#[test]
fn import_of_itself_is_a_cycle() {
    let mut resolver = SimpleResolver::new();
    resolver.add_source(String::from("me"), mk_term::import("me"));
    match resolve_imports(mk_term::import("me"), &mut resolver, 64) {
        Err(ImportError::Cycle(name, _)) => assert_eq!(name, "me"),
        other => panic!("expected a cycle, got {:?}", other),
    }
}

#[test]
fn nested_import_is_resolved() {
    let mut resolver = SimpleResolver::new();
    resolver.add_source(String::from("two"), plus(n(1.0), n(1.0)));
    resolver.add_source(
        String::from("nested"),
        mk_term::let_in("x", mk_term::import("two"), plus(mk_term::var("x"), n(1.0))),
    );
    let t = resolve_imports(mk_term::import("nested"), &mut resolver, 64).unwrap();
    let mut store = Store::new();
    assert_eq!(
        eval(t, &Environment::new(), &mut store, FUEL).map(Term::from),
        Ok(Term::from(n(3.0)))
    );
}

#[test]
fn import_deeper_than_the_limit() {
    let mut resolver = SimpleResolver::new();
    resolver.add_source(String::from("a"), mk_term::import("b"));
    resolver.add_source(String::from("b"), mk_term::import("c"));
    resolver.add_source(String::from("c"), n(1.0));
    match resolve_imports(mk_term::import("a"), &mut resolver, 2) {
        Err(ImportError::TooDeep(name, _)) => assert_eq!(name, "c"),
        other => panic!("expected too deep, got {:?}", other),
    }
    assert_eq!(
        resolve_imports(mk_term::import("a"), &mut resolver, 3),
        Ok(n(1.0))
    );
}

#[test]
fn later_source_replaces_earlier() {
    let mut resolver = SimpleResolver::new();
    resolver.add_source(String::from("a"), n(1.0));
    resolver.add_source(String::from("a"), n(2.0));
    assert_eq!(
        resolve_imports(mk_term::import("a"), &mut resolver, 1),
        Ok(n(2.0))
    );
}

#[test]
fn dummy_resolver_knows_nothing() {
    let mut resolver = DummyResolver {};
    match resolve_imports(mk_term::import("a"), &mut resolver, 8) {
        Err(ImportError::IOError(name, _, _)) => assert_eq!(name, "a"),
        other => panic!("expected an IO error, got {:?}", other),
    }
    // a term without imports is left as it is
    assert_eq!(
        resolve_imports(plus(n(1.0), n(2.0)), &mut resolver, 0),
        Ok(plus(n(1.0), n(2.0)))
    );
}

#[test]
fn unresolved_import_does_not_evaluate() {
    let mut store = Store::new();
    match eval(mk_term::import("a"), &Environment::new(), &mut store, FUEL) {
        Err(EvalError::UnresolvedImport(name, _)) => assert_eq!(name, "a"),
        other => panic!("expected an unresolved import, got {:?}", other),
    }
}

#[test]
fn global_env() {
    let mut store = Store::new();
    let mut global_env = Environment::new();
    let g = store.suspend(Closure::atomic_closure(n(1.0)), IdentKind::Let);
    global_env.insert(Ident::from("g"), g);

    let t = mk_term::let_in("x", n(2.0), mk_term::var("x"));
    assert_eq!(
        eval(t, &global_env, &mut store, FUEL).map(Term::from),
        Ok(Term::from(n(2.0)))
    );

    let t = mk_term::let_in("x", n(2.0), mk_term::var("g"));
    assert_eq!(
        eval(t, &global_env, &mut store, FUEL).map(Term::from),
        Ok(Term::from(n(1.0)))
    );

    // Shadowing of global environment
    let t = mk_term::let_in("g", n(2.0), mk_term::var("g"));
    assert_eq!(
        eval(t, &global_env, &mut store, FUEL).map(Term::from),
        Ok(Term::from(n(2.0)))
    );
}

#[test]
fn substitution() {
    let mut store = Store::new();
    let global_env = mk_env(
        &mut store,
        vec![
            ("glob1", n(1.0)),
            ("glob2", parsed_str("Glob2")),
            ("glob3", b(false)),
        ],
    );
    let env = mk_env(
        &mut store,
        vec![
            ("loc1", b(true)),
            (
                "loc2",
                mk_term::if_then_else(
                    mk_term::var("glob3"),
                    mk_term::var("glob1"),
                    mk_term::var("glob2"),
                ),
            ),
        ],
    );

    // let x = 1 in if loc1 then 1 + loc2 else glob3
    let t = mk_term::let_in(
        "x",
        n(1.0),
        mk_term::if_then_else(
            mk_term::var("loc1"),
            plus(n(1.0), mk_term::var("loc2")),
            mk_term::var("glob3"),
        ),
    );
    // let x = 1 in if true then 1 + (if false then 1 else "Glob2") else false
    let expected = mk_term::let_in(
        "x",
        n(1.0),
        mk_term::if_then_else(
            b(true),
            plus(
                n(1.0),
                mk_term::if_then_else(b(false), n(1.0), parsed_str("Glob2")),
            ),
            b(false),
        ),
    );
    assert_eq!(subst(&store, t, &global_env, &env), expected);

    // switch {`x => [1, glob1], `y => loc2, `z => {id = true, other = glob3}} loc1
    let t: RichTerm = Term::Switch(
        mk_term::var("loc1"),
        vec![
            (Ident::from("x"), array(vec![n(1.0), mk_term::var("glob1")])),
            (Ident::from("y"), mk_term::var("loc2")),
            (
                Ident::from("z"),
                rec_record(vec![("id", b(true)), ("other", mk_term::var("glob3"))]),
            ),
        ],
        None,
    )
    .into();
    // switch {`x => [1, 1], `y => (if false then 1 else "Glob2"), `z => {id = true, other = false}} true
    let expected: RichTerm = Term::Switch(
        b(true),
        vec![
            (Ident::from("x"), array(vec![n(1.0), n(1.0)])),
            (
                Ident::from("y"),
                mk_term::if_then_else(b(false), n(1.0), parsed_str("Glob2")),
            ),
            (
                Ident::from("z"),
                rec_record(vec![("id", b(true)), ("other", b(false))]),
            ),
        ],
        None,
    )
    .into();
    assert_eq!(subst(&store, t, &global_env, &env), expected);
}

#[test]
fn substitution_respects_shadowing() {
    // against a global g = 1, `let g = 2 in g` keeps its own g
    let mut store = Store::new();
    let global_env = mk_env(&mut store, vec![("g", n(1.0))]);
    let env = Environment::new();
    let t = mk_term::let_in("g", n(2.0), mk_term::var("g"));
    assert_eq!(
        subst(&store, t.clone(), &global_env, &env),
        mk_term::let_in("g", n(2.0), mk_term::var("g"))
    );
    assert_eq!(
        eval(t, &global_env, &mut store, FUEL).map(Term::from),
        Ok(Term::from(n(2.0)))
    );
    // a parameter shadows too, a free variable of the same function does not
    let t = mk_fun("g", plus(mk_term::var("g"), mk_term::var("h")));
    let global_env = mk_env(&mut store, vec![("g", n(1.0)), ("h", n(5.0))]);
    assert_eq!(
        subst(&store, t, &global_env, &env),
        mk_fun("g", plus(mk_term::var("g"), n(5.0)))
    );
    // the binder ends with the function
    let t = mk_app(mk_fun("g", mk_term::var("g")), mk_term::var("g"));
    assert_eq!(
        subst(&store, t, &global_env, &env),
        mk_app(mk_fun("g", mk_term::var("g")), n(1.0))
    );
}

#[test]
fn substitution_of_a_recursive_binding_ends() {
    // g is bound to a term that mentions g itself
    let mut store = Store::new();
    let env = mk_env(&mut store, vec![("g", plus(mk_term::var("g"), n(1.0)))]);
    let global_env = Environment::new();
    assert_eq!(
        subst(&store, mk_term::var("g"), &global_env, &env),
        plus(mk_term::var("g"), n(1.0))
    );
}

#[test]
fn evaluation_full() {
    let mut store = Store::new();
    let global = Environment::new();
    // [(1 + 1), ("a" ++ "b"), ([ 1, [1 + 2] ])]
    let t = array(vec![
        plus(n(1.0), n(1.0)),
        mk_term::op2(BinaryOp::StrConcat(), parsed_str("a"), parsed_str("b")),
        array(vec![n(1.0), array(vec![plus(n(1.0), n(2.0))])]),
    ]);
    let t = eval_full(t, &global, &mut store, FUEL).unwrap();
    // [2, "ab", [1, [3]]]
    let expd = array(vec![
        n(2.0),
        mk_term::string("ab"),
        array(vec![n(1.0), array(vec![n(3.0)])]),
    ]);
    assert_eq!(t, expd);

    // let x = 1 in let y = 1 + x in let z = {foo.bar.baz = y} in z
    let t = mk_term::let_in(
        "x",
        n(1.0),
        mk_term::let_in(
            "y",
            plus(n(1.0), mk_term::var("x")),
            mk_term::let_in(
                "z",
                rec_record(vec![(
                    "foo",
                    rec_record(vec![("bar", rec_record(vec![("baz", mk_term::var("y"))]))]),
                )]),
                mk_term::var("z"),
            ),
        ),
    );
    let t = eval_full(t, &global, &mut store, FUEL).unwrap();
    let expd = record(vec![(
        "foo",
        record(vec![("bar", record(vec![("baz", n(2.0))]))]),
    )]);
    assert_eq!(t, expd);

    // {y = fun x => x, x = fun y => y}
    let t = rec_record(vec![
        ("y", mk_fun("x", mk_term::var("x"))),
        ("x", mk_fun("y", mk_term::var("y"))),
    ]);
    let t = eval_full(t, &global, &mut store, FUEL).unwrap();
    assert_eq!(
        t,
        record(vec![
            ("y", mk_fun("x", mk_term::var("x"))),
            ("x", mk_fun("y", mk_term::var("y"))),
        ])
    );
}

#[test]
fn full_evaluation_substitutes_and_deep_does_not() {
    let global = Environment::new();
    // let a = 1 in {f = fun x => a}
    let t = mk_term::let_in(
        "a",
        n(1.0),
        record(vec![("f", mk_fun("x", mk_term::var("a")))]),
    );
    let mut store = Store::new();
    assert_eq!(
        eval_full(t.clone(), &global, &mut store, FUEL),
        Ok(record(vec![("f", mk_fun("x", n(1.0)))]))
    );
    let mut store = Store::new();
    assert_eq!(
        eval_deep(t, &global, &mut store, FUEL),
        Ok(record(vec![("f", mk_fun("x", mk_term::var("a")))]))
    );
}

#[test]
fn full_evaluation_of_a_recursive_record() {
    let global = Environment::new();
    // {a = 1, b = a + 1, c = {d = b + a}}
    let t = rec_record(vec![
        ("a", n(1.0)),
        ("b", plus(mk_term::var("a"), n(1.0))),
        (
            "c",
            rec_record(vec![("d", plus(mk_term::var("b"), mk_term::var("a")))]),
        ),
    ]);
    let mut store = Store::new();
    assert_eq!(
        eval_full(t, &global, &mut store, FUEL),
        Ok(record(vec![
            ("a", n(1.0)),
            ("b", n(2.0)),
            ("c", record(vec![("d", n(3.0))])),
        ]))
    );
}

#[test]
fn full_evaluation_reports_the_error_of_a_part() {
    let global = Environment::new();
    let t = array(vec![n(1.0), plus(n(1.0), b(true))]);
    let mut store = Store::new();
    match eval_full(t, &global, &mut store, FUEL) {
        Err(EvalError::TypeMismatch(_, _, found, _)) => assert_eq!(found, b(true)),
        other => panic!("expected a type mismatch, got {:?}", other),
    }
    // the weak head normal form of the same term is fine
    let t = array(vec![n(1.0), plus(n(1.0), b(true))]);
    assert!(eval(t, &global, &mut store, FUEL).is_ok());
}

#[test]
fn full_evaluation_within_its_fuel() {
    let global = Environment::new();
    let mut store = Store::new();
    assert_eq!(
        eval_full(n(1.0), &global, &mut store, 0),
        Err(EvalError::StepLimit)
    );
    // one level of nesting needs fuel for the parts too
    let t = array(vec![array(vec![n(1.0)])]);
    assert_eq!(
        eval_full(t.clone(), &global, &mut store, 2),
        Err(EvalError::StepLimit)
    );
    assert_eq!(eval_full(t.clone(), &global, &mut store, 3), Ok(t));
}

#[test]
fn a_thunk_is_evaluated_once() {
    // let x = 1 + 1 in x + x
    let t = mk_term::let_in(
        "x",
        plus(n(1.0), n(1.0)),
        plus(mk_term::var("x"), mk_term::var("x")),
    );
    let mut store = Store::new();
    let global = Environment::new();
    assert_eq!(
        eval(t, &global, &mut store, FUEL).map(Term::from),
        Ok(Term::from(n(4.0)))
    );
    assert_eq!(store.len(), 1);
    assert_eq!(store.thunks[0].state, ThunkState::Evaluated);
    assert_eq!(store.thunks[0].closure.body, n(2.0));
}

#[test]
fn an_evaluated_thunk_costs_one_step() {
    // g = 1 + 1 in the global environment: the first use evaluates it
    let mut store = Store::new();
    let global = mk_env(&mut store, vec![("g", plus(n(1.0), n(1.0)))]);
    assert_eq!(
        eval(mk_term::var("g"), &global, &mut store, 1),
        Err(EvalError::StepLimit)
    );
    // giving up left the thunk suspended, not under evaluation
    assert_eq!(store.thunks[0].state, ThunkState::Suspended);
    assert_eq!(
        eval(mk_term::var("g"), &global, &mut store, FUEL),
        Ok(n(2.0))
    );
    assert_eq!(store.thunks[0].state, ThunkState::Evaluated);
    // now two steps are enough: take the value, and be done
    assert_eq!(eval(mk_term::var("g"), &global, &mut store, 2), Ok(n(2.0)));
}
