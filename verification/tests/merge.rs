use nickel::environment::{Environment, Store};
use nickel::eval::eval;
use nickel::full::eval_full;
use nickel::identifier::Ident;
use nickel::number::Number;
use nickel::term::make as mk_term;
use nickel::term::make::{mk_default, mk_record};
use nickel::term::{BinaryOp, RichTerm, Term, UnaryOp};

fn whole(x: i64) -> RichTerm {
    Term::Num(Number::from_integer(x)).into()
}

fn rec(fields: Vec<(&str, RichTerm)>) -> RichTerm {
    mk_record(
        fields
            .into_iter()
            .map(|(k, v)| (Ident::from(k), v))
            .collect(),
    )
}

fn merged(a: RichTerm, b: RichTerm) -> RichTerm {
    mk_term::op2(BinaryOp::Merge(), a, b)
}

fn full(t: RichTerm) -> Result<RichTerm, nickel::error::EvalError> {
    let mut store = Store::new();
    eval_full(t, &Environment::new(), &mut store, 100_000)
}

#[test]
fn merge_unions_disjoint_records() {
    let t = merged(rec(vec![("a", whole(1))]), rec(vec![("b", whole(2))]));
    assert_eq!(full(t), Ok(rec(vec![("a", whole(1)), ("b", whole(2))])));
}

#[test]
fn merge_recurses_on_shared_fields() {
    // {a = {x = 1}, b = 1} & {a = {y = 2}, c = 3}
    let t = merged(
        rec(vec![("a", rec(vec![("x", whole(1))])), ("b", whole(1))]),
        rec(vec![("a", rec(vec![("y", whole(2))])), ("c", whole(3))]),
    );
    assert_eq!(
        full(t),
        Ok(rec(vec![
            ("a", rec(vec![("x", whole(1)), ("y", whole(2))])),
            ("b", whole(1)),
            ("c", whole(3)),
        ]))
    );
}

#[test]
fn merge_of_a_shared_field_may_fail() {
    let t = merged(rec(vec![("a", whole(1))]), rec(vec![("a", whole(2))]));
    // the record itself merges: the fields are merged when they are needed
    let mut store = Store::new();
    assert!(eval(t.clone(), &Environment::new(), &mut store, 1000).is_ok());
    assert!(full(t).is_err());
    let t = merged(rec(vec![("a", whole(1))]), rec(vec![("a", whole(1))]));
    assert_eq!(full(t), Ok(rec(vec![("a", whole(1))])));
}

#[test]
fn merge_overlays_defaults() {
    // {workers = default 80, host = default "localhost"} & {workers = 8080}
    let defaults = rec(vec![
        ("workers", mk_default(whole(80)).into()),
        ("host", mk_default(mk_term::string("localhost")).into()),
    ]);
    let overrides = rec(vec![("workers", whole(8080))]);
    let expected = rec(vec![
        ("workers", whole(8080)),
        ("host", mk_term::string("localhost")),
    ]);
    assert_eq!(
        full(merged(defaults.clone(), overrides.clone())),
        Ok(expected)
    );
    // the order of the fields follows the left record
    let expected = rec(vec![
        ("workers", whole(8080)),
        ("host", mk_term::string("localhost")),
    ]);
    assert_eq!(full(merged(overrides, defaults)), Ok(expected));
}

#[test]
fn merged_fields_keep_their_environments() {
    // let x = 1 in {a = x} & (let x = 2 in {b = x})
    let left = mk_term::let_in("x", whole(1), rec(vec![("a", mk_term::var("x"))]));
    let right = mk_term::let_in("x", whole(2), rec(vec![("b", mk_term::var("x"))]));
    assert_eq!(
        full(merged(left, right)),
        Ok(rec(vec![("a", whole(1)), ("b", whole(2))]))
    );
}

#[test]
fn a_field_of_a_merge() {
    let t = merged(
        rec(vec![("a", rec(vec![("x", whole(1))]))]),
        rec(vec![("a", rec(vec![("y", whole(2))]))]),
    );
    let y = mk_term::op1(
        UnaryOp::StaticAccess(Ident::from("y")),
        mk_term::op1(UnaryOp::StaticAccess(Ident::from("a")), t),
    );
    let mut store = Store::new();
    assert_eq!(eval(y, &Environment::new(), &mut store, 1000), Ok(whole(2)));
}

#[test]
fn merge_is_not_evaluated_twice_for_one_field() {
    // let r = {a = 1} & {a = 1} in r.a + r.a
    let r = merged(rec(vec![("a", whole(1))]), rec(vec![("a", whole(1))]));
    let a = || mk_term::op1(UnaryOp::StaticAccess(Ident::from("a")), mk_term::var("r"));
    let t = mk_term::let_in("r", r, mk_term::op2(BinaryOp::Plus(), a(), a()));
    let mut store = Store::new();
    assert_eq!(eval(t, &Environment::new(), &mut store, 1000), Ok(whole(2)));
    // r, and the three thunks of the one shared field
    assert_eq!(store.len(), 4);
}

fn rec_rec(fields: Vec<(&str, RichTerm)>) -> RichTerm {
    Term::RecRecord(
        fields
            .into_iter()
            .map(|(k, v)| (Ident::from(k), v))
            .collect(),
    )
    .into()
}

#[test]
fn defaults_survive_in_recursive_records() {
    // {a = default 1, b = a + 1} & {a = 2}
    let left = rec_rec(vec![
        ("a", mk_default(whole(1)).into()),
        (
            "b",
            mk_term::op2(BinaryOp::Plus(), mk_term::var("a"), whole(1)),
        ),
    ]);
    let right = rec_rec(vec![("a", whole(2))]);
    // b was closed over the a of its own record
    assert_eq!(
        full(merged(left, right)),
        Ok(rec(vec![("a", whole(2)), ("b", whole(2))]))
    );
}

#[test]
fn defaults_survive_behind_variables() {
    // let d = default 1 in d & 2
    let t = mk_term::let_in(
        "d",
        mk_default(whole(1)).into(),
        merged(mk_term::var("d"), whole(2)),
    );
    assert_eq!(full(t), Ok(whole(2)));
    // and the variable is still the default afterwards
    let t = mk_term::let_in(
        "d",
        mk_default(whole(1)).into(),
        mk_term::op2(
            BinaryOp::Plus(),
            merged(mk_term::var("d"), whole(2)),
            merged(mk_term::var("d"), whole(3)),
        ),
    );
    assert_eq!(full(t), Ok(whole(5)));
}

#[test]
fn merge_of_three_records() {
    let t = merged(
        merged(rec(vec![("a", whole(1))]), rec(vec![("b", whole(2))])),
        rec(vec![("c", whole(3)), ("a", whole(1))]),
    );
    assert_eq!(
        full(t),
        Ok(rec(vec![
            ("a", whole(1)),
            ("b", whole(2)),
            ("c", whole(3))
        ]))
    );
}
