use nickel::error::EvalError;
use nickel::eval::eval_no_import;
use nickel::label::Label;
use nickel::number::Number;
use nickel::term::make as mk_term;
use nickel::term::make::{mk_app, mk_default, mk_docstring, mk_fun};
use nickel::term::{BinaryOp, RichTerm, StrChunk, Term, UnaryOp};

/// The number `x`, which must be a multiple of `2^-64` within the range.
fn num(x: f64) -> Term {
    Term::Num(Number::from_units((x * 18446744073709551616.0) as i128))
}

#[test]
fn identity_over_values() {
    let num = num(45.3);
    assert_eq!(Ok(num.clone()), eval_no_import(num.into()));

    let boolean = Term::Bool(true);
    assert_eq!(Ok(boolean.clone()), eval_no_import(boolean.into()));

    let lambda = mk_fun("x", mk_app(mk_term::var("x"), mk_term::var("x")));
    assert_eq!(Ok(lambda.term.as_ref().clone()), eval_no_import(lambda));
}

#[test]
fn blame_panics() {
    let label = Label::dummy();
    if let Err(EvalError::BlameError(l, ..)) = eval_no_import(mk_term::op1(
        UnaryOp::Blame(),
        Term::Lbl(label.clone()).into(),
    )) {
        assert_eq!(l, label);
    } else {
        panic!("This evaluation should've returned a BlameError!");
    }
}

#[test]
#[should_panic]
fn lone_var_panics() {
    eval_no_import(mk_term::var("unbound")).unwrap();
}

#[test]
fn only_fun_are_applicable() {
    eval_no_import(mk_app(Term::Bool(true).into(), num(45.).into())).unwrap_err();
}

#[test]
fn simple_app() {
    let t = mk_app(mk_term::id(), num(5.0).into());
    assert_eq!(Ok(num(5.0)), eval_no_import(t));
}

#[test]
fn simple_let() {
    let t = mk_term::let_in("x", num(5.0).into(), mk_term::var("x"));
    assert_eq!(Ok(num(5.0)), eval_no_import(t));
}

#[test]
fn simple_ite() {
    let t = mk_term::if_then_else(
        Term::Bool(true).into(),
        num(5.0).into(),
        Term::Bool(false).into(),
    );
    assert_eq!(Ok(num(5.0)), eval_no_import(t));
}

#[test]
fn simple_plus() {
    let t = mk_term::op2(BinaryOp::Plus(), num(5.0).into(), num(7.5).into());
    assert_eq!(Ok(num(12.5)), eval_no_import(t));
}

#[test]
fn asking_for_various_types() {
    let num = mk_term::op1(UnaryOp::IsNum(), num(45.3).into());
    assert_eq!(Ok(Term::Bool(true)), eval_no_import(num));

    let boolean = mk_term::op1(UnaryOp::IsBool(), Term::Bool(true).into());
    assert_eq!(Ok(Term::Bool(true)), eval_no_import(boolean));

    let lambda = mk_term::op1(
        UnaryOp::IsFun(),
        mk_fun("x", mk_app(mk_term::var("x"), mk_term::var("x"))),
    );
    assert_eq!(Ok(Term::Bool(true)), eval_no_import(lambda));
}

#[test]
fn enriched_terms_unwrapping() {
    let t =
        mk_default(mk_default(mk_docstring(Term::Bool(false).into(), "a").into()).into()).into();
    assert_eq!(Ok(Term::Bool(false)), eval_no_import(t));
}

#[test]
fn merge_enriched_default() {
    let t = mk_term::op2(
        BinaryOp::Merge(),
        num(1.0).into(),
        mk_default(num(2.0).into()).into(),
    );
    assert_eq!(Ok(num(1.0)), eval_no_import(t));
}

#[test]
fn merge_incompatible_defaults() {
    let t = mk_term::op2(
        BinaryOp::Merge(),
        mk_default(num(1.0).into()).into(),
        mk_default(num(2.0).into()).into(),
    );

    eval_no_import(t).unwrap_err();
}

#[test]
fn interpolation_simple() {
    let mut chunks = vec![
        StrChunk::Literal(String::from("Hello")),
        StrChunk::expr(mk_term::op2(
            BinaryOp::StrConcat(),
            mk_term::string(", "),
            mk_term::string("World!"),
        )),
        StrChunk::Literal(String::from(" How")),
        StrChunk::expr(mk_term::if_then_else(
            Term::Bool(true).into(),
            mk_term::string(" are"),
            mk_term::string(" is"),
        )),
        StrChunk::Literal(String::from(" you?")),
    ];
    chunks.reverse();

    let t: RichTerm = Term::StrChunks(chunks).into();
    assert_eq!(
        eval_no_import(t),
        Ok(Term::Str(String::from("Hello, World! How are you?")))
    );
}

#[test]
fn interpolation_nested() {
    let mut inner_chunks = vec![
        StrChunk::Literal(String::from(" How")),
        StrChunk::expr(
            Term::Op2(
                BinaryOp::StrConcat(),
                mk_term::string(" ar"),
                mk_term::string("e"),
            )
            .into(),
        ),
        StrChunk::expr(mk_term::if_then_else(
            Term::Bool(true).into(),
            mk_term::string(" you"),
            mk_term::string(" me"),
        )),
    ];
    inner_chunks.reverse();

    let mut chunks = vec![
        StrChunk::Literal(String::from("Hello, World!")),
        StrChunk::expr(Term::StrChunks(inner_chunks).into()),
        StrChunk::Literal(String::from("?")),
    ];
    chunks.reverse();

    let t: RichTerm = Term::StrChunks(chunks).into();
    assert_eq!(
        eval_no_import(t),
        Ok(Term::Str(String::from("Hello, World! How are you?")))
    );
}

#[test]
fn evaluating_twice_gives_the_same() {
    use_twice(mk_app(mk_term::id(), num(5.0).into()));
    use_twice(mk_term::op2(
        BinaryOp::Merge(),
        mk_default(num(1.0).into()).into(),
        mk_default(num(2.0).into()).into(),
    ));
    use_twice(mk_term::let_in(
        "x",
        mk_term::op2(BinaryOp::Plus(), num(1.0).into(), num(2.0).into()),
        mk_term::op2(BinaryOp::Plus(), mk_term::var("x"), mk_term::var("y")),
    ));
}

/// Evaluates `t` in a new store, again in that store, and in a store that
/// holds other thunks: all three must give the same.
fn use_twice(t: RichTerm) {
    let global = nickel::environment::Environment::new();
    let mut store = nickel::environment::Store::new();
    let first = nickel::eval::eval(t.clone(), &global, &mut store, 1000);
    let second = nickel::eval::eval(t.clone(), &global, &mut store, 1000);
    assert_eq!(first, second);
    assert_eq!(first.clone().map(Term::from), eval_no_import(t.clone()));
    let mut other = nickel::environment::Store::new();
    other.suspend(
        nickel::environment::Closure::atomic_closure(num(9.0).into()),
        nickel::environment::IdentKind::Let,
    );
    assert_eq!(nickel::eval::eval(t, &global, &mut other, 1000), first);
}

#[test]
fn layers_of_metadata_do_not_matter() {
    let inner = mk_term::op2(BinaryOp::Plus(), num(1.0).into(), num(2.0).into());
    let mut wrapped = inner.clone();
    for i in 0..10 {
        wrapped = if i % 2 == 0 {
            mk_default(wrapped).into()
        } else {
            mk_docstring(wrapped, "layer").into()
        };
        assert_eq!(eval_no_import(wrapped.clone()), eval_no_import(inner.clone()));
    }
}

#[test]
fn literal_chunks_read_in_source_order() {
    let mut chunks: Vec<StrChunk> = ["a", "b", "", "cd", "e"]
        .iter()
        .map(|s| StrChunk::Literal(String::from(*s)))
        .collect();
    chunks.reverse();
    assert_eq!(
        eval_no_import(Term::StrChunks(chunks).into()),
        Ok(Term::Str(String::from("abcde")))
    );
    assert_eq!(
        eval_no_import(Term::StrChunks(Vec::new()).into()),
        Ok(Term::Str(String::new()))
    );
}
