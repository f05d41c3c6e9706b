use nickel::environment::{Environment, Store, ThunkState};
use nickel::error::{EvalError, Kind, MergeError, Operation};
use nickel::eval::{eval, eval_meta, eval_no_import};
use nickel::identifier::Ident;
use nickel::label::Label;
use nickel::number::Number;
use nickel::position::{RawSpan, TermPos};
use nickel::term::make as mk_term;
use nickel::term::make::{mk_app, mk_default, mk_docstring, mk_fun, mk_record};
use nickel::term::{BinaryOp, MergePriority, RichTerm, Term, UnaryOp};

fn whole(x: i64) -> RichTerm {
    Term::Num(Number::from_integer(x)).into()
}

fn truth(x: bool) -> RichTerm {
    Term::Bool(x).into()
}

fn tag(name: &str) -> RichTerm {
    Term::Enum(Ident::from(name)).into()
}

fn at(t: Term, start: u32, end: u32) -> RichTerm {
    RichTerm::new(
        t,
        TermPos::Original(RawSpan {
            src_id: 0,
            start,
            end,
        }),
    )
}

fn fields(fields: Vec<(&str, RichTerm)>) -> Vec<(Ident, RichTerm)> {
    fields
        .into_iter()
        .map(|(k, v)| (Ident::from(k), v))
        .collect()
}

#[test]
fn unbound_identifier_with_its_position() {
    let t = at(Term::Var(Ident::from("unbound")), 3, 10);
    assert_eq!(
        eval_no_import(t),
        Err(EvalError::UnboundIdentifier(
            Ident::from("unbound"),
            TermPos::Original(RawSpan {
                src_id: 0,
                start: 3,
                end: 10
            })
        ))
    );
}

#[test]
fn not_a_function_names_what_was_applied() {
    let t = mk_app(truth(true), whole(45));
    assert_eq!(
        eval_no_import(t),
        Err(EvalError::NotAFunction(truth(true), TermPos::Unknown))
    );
}

#[test]
fn type_mismatch_of_each_operation() {
    assert_eq!(
        eval_no_import(mk_term::op2(BinaryOp::Plus(), truth(true), whole(1))),
        Err(EvalError::TypeMismatch(
            Operation::Plus,
            Kind::Num,
            truth(true),
            TermPos::Unknown
        ))
    );
    assert_eq!(
        eval_no_import(mk_term::op2(BinaryOp::Plus(), whole(1), truth(false))),
        Err(EvalError::TypeMismatch(
            Operation::Plus,
            Kind::Num,
            truth(false),
            TermPos::Unknown
        ))
    );
    assert_eq!(
        eval_no_import(mk_term::op2(
            BinaryOp::StrConcat(),
            mk_term::string("a"),
            whole(1)
        )),
        Err(EvalError::TypeMismatch(
            Operation::StrConcat,
            Kind::Str,
            whole(1),
            TermPos::Unknown
        ))
    );
    assert_eq!(
        eval_no_import(mk_term::if_then_else(whole(1), whole(2), whole(3))),
        Err(EvalError::TypeMismatch(
            Operation::If,
            Kind::Bool,
            whole(1),
            TermPos::Unknown
        ))
    );
    assert_eq!(
        eval_no_import(mk_term::op1(
            UnaryOp::StaticAccess(Ident::from("a")),
            whole(1)
        )),
        Err(EvalError::TypeMismatch(
            Operation::StaticAccess,
            Kind::Record,
            whole(1),
            TermPos::Unknown
        ))
    );
    assert_eq!(
        eval_no_import(mk_term::op1(UnaryOp::Blame(), whole(1))),
        Err(EvalError::TypeMismatch(
            Operation::Blame,
            Kind::Label,
            whole(1),
            TermPos::Unknown
        ))
    );
    let chunks = vec![nickel::term::StrChunk::expr(whole(1))];
    assert_eq!(
        eval_no_import(Term::StrChunks(chunks).into()),
        Err(EvalError::TypeMismatch(
            Operation::Interpolation,
            Kind::Str,
            whole(1),
            TermPos::Unknown
        ))
    );
    assert_eq!(
        eval_no_import(Term::Switch(whole(1), fields(vec![("a", whole(1))]), None).into()),
        Err(EvalError::TypeMismatch(
            Operation::Switch,
            Kind::Enum,
            whole(1),
            TermPos::Unknown
        ))
    );
}

#[test]
fn missing_field_names_field_and_record() {
    let record = mk_record(fields(vec![("a", whole(1))]));
    let t = mk_term::op1(UnaryOp::StaticAccess(Ident::from("b")), record.clone());
    assert_eq!(
        eval_no_import(t),
        Err(EvalError::MissingField(
            Ident::from("b"),
            record,
            TermPos::Unknown
        ))
    );
}

#[test]
fn static_access_gives_the_field() {
    let record = mk_record(fields(vec![
        ("a", whole(1)),
        ("b", mk_term::op2(BinaryOp::Plus(), whole(1), whole(2))),
    ]));
    let t = mk_term::op1(UnaryOp::StaticAccess(Ident::from("b")), record);
    assert_eq!(eval_no_import(t), Ok(Term::from(whole(3))));
}

#[test]
fn switch_selects_by_tag() {
    let cases = fields(vec![("x", whole(1)), ("y", whole(2))]);
    assert_eq!(
        eval_no_import(Term::Switch(tag("y"), cases.clone(), None).into()),
        Ok(Term::from(whole(2)))
    );
    // no case and no default
    assert_eq!(
        eval_no_import(Term::Switch(tag("z"), cases.clone(), None).into()),
        Err(EvalError::NonExhaustiveSwitch(tag("z"), TermPos::Unknown))
    );
    // the default stands in for a missing case
    assert_eq!(
        eval_no_import(Term::Switch(tag("z"), cases.clone(), Some(whole(9))).into()),
        Ok(Term::from(whole(9)))
    );
    // and for what is no tag
    assert_eq!(
        eval_no_import(Term::Switch(whole(0), cases, Some(whole(9))).into()),
        Ok(Term::from(whole(9)))
    );
}

#[test]
fn blame_carries_label_and_position() {
    let label = Label::dummy();
    let t = at(
        Term::Op1(UnaryOp::Blame(), Term::Lbl(label.clone()).into()),
        5,
        9,
    );
    assert_eq!(
        eval_no_import(t),
        Err(EvalError::BlameError(
            label,
            TermPos::Original(RawSpan {
                src_id: 0,
                start: 5,
                end: 9
            })
        ))
    );
}

#[test]
fn number_overflow() {
    let big: RichTerm = Term::Num(Number::from_units(i128::MAX)).into();
    let one: RichTerm = Term::Num(Number::from_units(1)).into();
    assert_eq!(
        eval_no_import(mk_term::op2(BinaryOp::Plus(), big.clone(), one)),
        Err(EvalError::NumberOverflow(TermPos::Unknown))
    );
    let minus_one: RichTerm = Term::Num(Number::from_units(-1)).into();
    assert_eq!(
        eval_no_import(mk_term::op2(BinaryOp::Plus(), big, minus_one)),
        Ok(Term::Num(Number::from_units(i128::MAX - 1)))
    );
}

#[test]
fn numbers_are_exact() {
    // a tenth is no multiple of 2^-64, but what stands for it adds up
    let tenth = Number::from_units(1844674407370955162);
    assert_eq!(
        tenth.checked_add(tenth),
        Some(Number::from_units(3689348814741910324))
    );
    assert_eq!(Number::from_integer(3).units(), 3 << 64);
    assert_eq!(Number::from_integer(-1).units(), -(1i128 << 64));
    assert_eq!(
        Number::from_integer(i64::MAX).checked_add(Number::from_integer(i64::MAX)),
        None
    );
    assert_eq!(
        Number::from_integer(i64::MIN).checked_add(Number::from_integer(-1)),
        None
    );
}

#[test]
fn step_limit() {
    // (fun x => x x) (fun x => x x)
    let omega = mk_fun("x", mk_app(mk_term::var("x"), mk_term::var("x")));
    let t = mk_app(omega.clone(), omega);
    let mut store = Store::new();
    assert_eq!(
        eval(t, &Environment::new(), &mut store, 10_000),
        Err(EvalError::StepLimit)
    );
    // no thunk is left under evaluation
    assert!(store
        .thunks
        .iter()
        .all(|d| d.state != ThunkState::Blackholed));
    // no steps at all
    assert_eq!(
        eval(whole(1), &Environment::new(), &mut store, 0),
        Err(EvalError::StepLimit)
    );
    assert_eq!(
        eval(whole(1), &Environment::new(), &mut store, 1),
        Ok(whole(1))
    );
}

#[test]
fn a_field_that_needs_itself() {
    // {a = a}.a
    let record: RichTerm = Term::RecRecord(fields(vec![("a", mk_term::var("a"))])).into();
    let t = mk_term::op1(UnaryOp::StaticAccess(Ident::from("a")), record);
    assert_eq!(
        eval_no_import(t),
        Err(EvalError::InfiniteRecursion(
            Ident::from("a"),
            TermPos::Unknown
        ))
    );
}

#[test]
fn fields_of_a_recursive_record_see_each_other() {
    // {a = b + 1, b = 2}.a
    let record: RichTerm = Term::RecRecord(fields(vec![
        (
            "a",
            mk_term::op2(BinaryOp::Plus(), mk_term::var("b"), whole(1)),
        ),
        ("b", whole(2)),
    ]))
    .into();
    let t = mk_term::op1(UnaryOp::StaticAccess(Ident::from("a")), record);
    assert_eq!(eval_no_import(t), Ok(Term::from(whole(3))));
    // the fields of a plain record do not
    let record = mk_record(fields(vec![
        (
            "a",
            mk_term::op2(BinaryOp::Plus(), mk_term::var("b"), whole(1)),
        ),
        ("b", whole(2)),
    ]));
    let t = mk_term::op1(UnaryOp::StaticAccess(Ident::from("a")), record);
    assert_eq!(
        eval_no_import(t),
        Err(EvalError::UnboundIdentifier(
            Ident::from("b"),
            TermPos::Unknown
        ))
    );
}

#[test]
fn arguments_are_lazy() {
    // (fun x => 1) (blame l) never blames
    let blame = mk_term::op1(UnaryOp::Blame(), Term::Lbl(Label::dummy()).into());
    let t = mk_app(mk_fun("x", whole(1)), blame.clone());
    assert_eq!(eval_no_import(t), Ok(Term::from(whole(1))));
    // neither does let x = blame l in 1
    let t = mk_term::let_in("x", blame.clone(), whole(1));
    assert_eq!(eval_no_import(t), Ok(Term::from(whole(1))));
    // nor a field that is not looked at
    let record = mk_record(fields(vec![("a", whole(1)), ("b", blame)]));
    let t = mk_term::op1(UnaryOp::StaticAccess(Ident::from("a")), record);
    assert_eq!(eval_no_import(t), Ok(Term::from(whole(1))));
}

#[test]
fn whnf_leaves_the_parts() {
    let sum = mk_term::op2(BinaryOp::Plus(), whole(1), whole(1));
    let array: RichTerm = Term::Array(vec![sum]).into();
    assert_eq!(eval_no_import(array.clone()), Ok(Term::from(array)));
}

#[test]
fn type_tests_are_consistent() {
    let values: Vec<(RichTerm, [bool; 6])> = vec![
        (whole(1), [true, false, false, false, false, false]),
        (truth(true), [false, true, false, false, false, false]),
        (
            mk_term::string("s"),
            [false, false, true, false, false, false],
        ),
        (
            mk_fun("x", mk_term::var("x")),
            [false, false, false, true, false, false],
        ),
        (
            mk_record(Vec::new()),
            [false, false, false, false, true, false],
        ),
        (
            Term::Array(Vec::new()).into(),
            [false, false, false, false, false, true],
        ),
    ];
    for (v, expected) in values {
        let ops = [
            UnaryOp::IsNum(),
            UnaryOp::IsBool(),
            UnaryOp::IsStr(),
            UnaryOp::IsFun(),
            UnaryOp::IsRecord(),
            UnaryOp::IsArray(),
        ];
        for (op, e) in ops.into_iter().zip(expected) {
            assert_eq!(
                eval_no_import(mk_term::op1(op, v.clone())),
                Ok(Term::Bool(e))
            );
        }
    }
}

#[test]
fn results_inherit_the_position_of_the_operation() {
    let t = at(Term::Op2(BinaryOp::Plus(), whole(1), whole(2)), 1, 6);
    let mut store = Store::new();
    let v = eval(t, &Environment::new(), &mut store, 100).unwrap();
    assert_eq!(
        v.pos,
        TermPos::Inherited(RawSpan {
            src_id: 0,
            start: 1,
            end: 6
        })
    );
    assert_eq!(TermPos::Unknown.into_inherited(), TermPos::Unknown);
    assert_eq!(v.pos.into_inherited(), v.pos);
    assert_eq!(
        v.pos.as_opt(),
        Some(RawSpan {
            src_id: 0,
            start: 1,
            end: 6
        })
    );
    assert_eq!(TermPos::Unknown.as_opt(), None);
}

#[test]
fn merge_errors() {
    let merge = |a: RichTerm, b: RichTerm| mk_term::op2(BinaryOp::Merge(), a, b);
    assert_eq!(
        eval_no_import(merge(whole(1), whole(2))),
        Err(EvalError::MergeError(
            MergeError::IncompatibleValues,
            whole(1),
            whole(2),
            TermPos::Unknown
        ))
    );
    assert_eq!(
        eval_no_import(merge(
            mk_default(whole(1)).into(),
            mk_default(whole(2)).into()
        )),
        Err(EvalError::MergeError(
            MergeError::IncompatibleDefaults,
            whole(1),
            whole(2),
            TermPos::Unknown
        ))
    );
    let record = mk_record(fields(vec![("a", whole(1))]));
    assert_eq!(
        eval_no_import(merge(record.clone(), whole(2))),
        Err(EvalError::MergeError(
            MergeError::RecordVsScalar,
            record.clone(),
            whole(2),
            TermPos::Unknown
        ))
    );
    assert_eq!(
        eval_no_import(merge(whole(2), record.clone())),
        Err(EvalError::MergeError(
            MergeError::RecordVsScalar,
            whole(2),
            record,
            TermPos::Unknown
        ))
    );
    // functions never merge, not even with themselves
    let f = mk_fun("x", mk_term::var("x"));
    assert_eq!(
        eval_no_import(merge(f.clone(), f.clone())),
        Err(EvalError::MergeError(
            MergeError::IncompatibleValues,
            f.clone(),
            f,
            TermPos::Unknown
        ))
    );
}

#[test]
fn merge_of_equal_values() {
    let merge = |a: RichTerm, b: RichTerm| mk_term::op2(BinaryOp::Merge(), a, b);
    assert_eq!(
        eval_no_import(merge(whole(1), whole(1))),
        Ok(Term::from(whole(1)))
    );
    assert_eq!(
        eval_no_import(merge(mk_term::string("a"), mk_term::string("a"))),
        Ok(Term::from(mk_term::string("a")))
    );
    assert_eq!(
        eval_no_import(merge(tag("a"), tag("a"))),
        Ok(Term::from(tag("a")))
    );
    assert_eq!(
        eval_no_import(merge(truth(true), truth(true))),
        Ok(Term::Bool(true))
    );
    // two defaults of the same content
    assert_eq!(
        eval_no_import(merge(
            mk_default(whole(1)).into(),
            mk_default(whole(1)).into()
        )),
        Ok(Term::from(whole(1)))
    );
    // a default loses on either side
    assert_eq!(
        eval_no_import(merge(mk_default(whole(2)).into(), whole(1))),
        Ok(Term::from(whole(1)))
    );
    // and to a record as well
    let record = mk_record(fields(vec![("a", whole(1))]));
    assert!(matches!(
        eval_no_import(merge(mk_default(whole(2)).into(), record)),
        Ok(Term::Record(_))
    ));
}

#[test]
fn merge_keeps_the_metadata_of_both() {
    let left: RichTerm = mk_docstring(whole(1), "left").into();
    let mut right = match mk_default(whole(2)) {
        Term::MetaValue(m) => m,
        _ => unreachable!(),
    };
    right.doc = Some(String::from("right"));
    right.contracts.push(nickel::term::Contract {
        types: String::from("Num"),
        label: Label::dummy(),
    });
    let t = mk_term::op2(BinaryOp::Merge(), left, Term::MetaValue(right).into());
    let mut store = Store::new();
    match eval_meta(t, &Environment::new(), &mut store, 1000)
        .unwrap()
        .into_term()
    {
        Term::MetaValue(m) => {
            assert_eq!(m.doc, Some(String::from("left")));
            assert_eq!(m.priority, MergePriority::Normal);
            assert_eq!(m.contracts.len(), 1);
            assert_eq!(m.contracts[0].types, "Num");
            assert_eq!(m.value, whole(1));
        }
        other => panic!("expected a metavalue, got {:?}", other),
    }
}

#[test]
fn weak_evaluation_stops_at_a_metavalue() {
    let sum = mk_term::op2(BinaryOp::Plus(), whole(1), whole(2));
    let t: RichTerm = mk_docstring(sum, "a sum").into();
    let mut store = Store::new();
    let v = eval_meta(t.clone(), &Environment::new(), &mut store, 1000).unwrap();
    assert_eq!(v.into_term(), mk_docstring(whole(3), "a sum"));
    // strict evaluation goes through
    assert_eq!(eval_no_import(t), Ok(Term::from(whole(3))));
    // what is no metavalue is evaluated as ever
    let sum = mk_term::op2(BinaryOp::Plus(), whole(1), whole(2));
    assert_eq!(
        eval_meta(sum, &Environment::new(), &mut store, 1000),
        Ok(whole(3))
    );
}
