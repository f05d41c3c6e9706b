use nickel::environment::{Environment, Store};
use nickel::error::{EvalError, ImportError};
use nickel::label::Label;
use nickel::eval::mk_env;
use nickel::identifier::Ident;
use nickel::number::Number;
use nickel::position::{RawSpan, TermPos};
use nickel::program::{
    hover, increase_header_level, is_identifier, join_lines, output_doc, parse_path, query,
    split_path, DocItem, Error, HoverText, LabelKind,
};
use nickel::term::make as mk_term;
use nickel::term::make::{mk_docstring, mk_record};
use nickel::term::{BinaryOp, RichTerm, Term, UnaryOp};

fn number(x: i64) -> RichTerm {
    Term::Num(Number::from_integer(x)).into()
}

fn rec_of(fields: Vec<(&str, RichTerm)>) -> RichTerm {
    mk_record(
        fields
            .into_iter()
            .map(|(k, v)| (Ident::from(k), v))
            .collect(),
    )
}

fn subject() -> RichTerm {
    // {a = {b = 1 + 1 | doc "two"}, c = 3}
    let two = mk_term::op2(BinaryOp::Plus(), number(1), number(1));
    rec_of(vec![
        ("a", rec_of(vec![("b", mk_docstring(two, "two").into())])),
        ("c", number(3)),
    ])
}

#[test]
fn paths_split_at_dots() {
    assert_eq!(split_path("a.b.c"), vec!["a", "b", "c"]);
    assert_eq!(split_path("a"), vec!["a"]);
    assert_eq!(split_path(""), vec![""]);
    assert_eq!(split_path("a..b."), vec!["a", "", "b", ""]);
}

#[test]
fn identifiers() {
    assert!(is_identifier("a"));
    assert!(is_identifier("_a1-b'"));
    assert!(is_identifier("Z"));
    assert!(!is_identifier(""));
    assert!(!is_identifier("1a"));
    assert!(!is_identifier("-a"));
    assert!(!is_identifier("a b"));
    assert!(!is_identifier("a.b"));
    assert!(!is_identifier("é"));
}

#[test]
fn a_path_is_an_access() {
    let access = |f: &str, t: RichTerm| mk_term::op1(UnaryOp::StaticAccess(Ident::from(f)), t);
    assert_eq!(
        parse_path("a.b"),
        Some(access("b", access("a", mk_term::var("x"))))
    );
    assert_eq!(parse_path("a"), Some(access("a", mk_term::var("x"))));
    assert_eq!(parse_path(""), None);
    assert_eq!(parse_path("a."), None);
    assert_eq!(parse_path("a.1"), None);
}

#[test]
fn query_of_a_path() {
    let mut store = Store::new();
    let global = Environment::new();
    assert_eq!(
        query(
            subject(),
            &global,
            &mut store,
            Some(String::from("a.b")),
            1000
        ),
        Ok(mk_docstring(number(2), "two"))
    );
    assert_eq!(
        query(subject(), &global, &mut store, Some(String::from("c")), 1000),
        Ok(Term::from(number(3)))
    );
}

#[test]
fn query_without_a_path() {
    let mut store = Store::new();
    let global = Environment::new();
    assert_eq!(
        query(subject(), &global, &mut store, None, 1000),
        Ok(Term::from(subject()))
    );
    let documented: RichTerm = mk_docstring(subject(), "all of it").into();
    assert_eq!(
        query(documented, &global, &mut store, None, 1000),
        Ok(mk_docstring(subject(), "all of it"))
    );
}

#[test]
fn query_of_what_is_not_there() {
    let mut store = Store::new();
    let global = Environment::new();
    assert_eq!(
        query(
            subject(),
            &global,
            &mut store,
            Some(String::from("a.z")),
            1000
        ),
        Err(Error::EvalError(EvalError::MissingField(
            Ident::from("z"),
            rec_of(vec![(
                "b",
                mk_docstring(mk_term::op2(BinaryOp::Plus(), number(1), number(1)), "two").into()
            )]),
            TermPos::Unknown
        )))
    );
    assert_eq!(
        query(
            subject(),
            &global,
            &mut store,
            Some(String::from("a b")),
            1000
        ),
        Err(Error::ParseErrors(String::from("a b")))
    );
}

#[test]
fn query_sees_the_global_environment() {
    let mut store = Store::new();
    let global = mk_env(&mut store, vec![("g", number(7))]);
    let t = rec_of(vec![("a", mk_term::var("g"))]);
    assert_eq!(
        query(t, &global, &mut store, Some(String::from("a")), 1000),
        Ok(Term::from(number(7)))
    );
}

#[test]
fn documentation_of_a_record() {
    // {a | doc "A" = {b | doc "B" = 1}, c = {d | doc "# D" = 2}, e = 3}
    let b: RichTerm = mk_docstring(number(1), "B").into();
    let a: RichTerm = mk_docstring(rec_of(vec![("b", b)]), "A").into();
    let d: RichTerm = mk_docstring(number(2), "# D").into();
    let t = rec_of(vec![("a", a), ("c", rec_of(vec![("d", d)])), ("e", number(3))]);
    assert_eq!(
        output_doc(&t),
        vec![
            DocItem::Header(1, String::from("a")),
            DocItem::Text(1, String::from("A")),
            DocItem::Header(1, String::from("c")),
            DocItem::Header(2, String::from("d")),
            DocItem::Text(2, String::from("# D")),
            DocItem::Header(1, String::from("e")),
        ]
    );
}

#[test]
fn documentation_of_a_value() {
    assert_eq!(output_doc(&number(1)), vec![]);
    let t: RichTerm = mk_docstring(number(1), "one").into();
    assert_eq!(output_doc(&t), vec![DocItem::Text(0, String::from("one"))]);
    // a recursive record is a record
    let t: RichTerm = Term::RecRecord(vec![(Ident::from("a"), number(1))]).into();
    assert_eq!(output_doc(&t), vec![DocItem::Header(1, String::from("a"))]);
}

#[test]
fn header_levels_add_up() {
    assert_eq!(increase_header_level(0, 1), 1);
    assert_eq!(increase_header_level(2, 3), 5);
    assert_eq!(increase_header_level(u32::MAX, 1), u32::MAX);
    assert_eq!(increase_header_level(u32::MAX - 1, 1), u32::MAX);
}

#[test]
fn lines_are_joined_by_line_breaks() {
    assert_eq!(join_lines(&vec![]), "");
    assert_eq!(join_lines(&vec![String::from("a")]), "a");
    assert_eq!(
        join_lines(&vec![
            String::from("a"),
            String::from(""),
            String::from("b")
        ]),
        "a\n\nb"
    );
}

#[test]
fn reply_to_a_hover() {
    let span = RawSpan {
        src_id: 1,
        start: 4,
        end: 9,
    };
    let reply = hover(
        TermPos::Inherited(span),
        String::from("Num"),
        &vec![String::from("doc: a number"), String::from("default")],
        String::from("item"),
    );
    assert_eq!(
        reply.contents,
        vec![
            HoverText {
                language: String::from("nickel"),
                value: String::from("Num")
            },
            HoverText {
                language: String::from("plain"),
                value: String::from("doc: a number\ndefault")
            },
            HoverText {
                language: String::from("plain"),
                value: String::from("item")
            },
        ]
    );
    assert_eq!(reply.span, Some(span));
    let reply = hover(
        TermPos::Unknown,
        String::from("Dyn"),
        &vec![],
        String::new(),
    );
    assert_eq!(reply.span, None);
    assert_eq!(reply.contents[1].value, "");
}

#[test]
fn diagnostics_point_at_the_error_and_the_contract() {
    let here = RawSpan {
        src_id: 3,
        start: 10,
        end: 12,
    };
    let mut label = Label::dummy();
    label.span = RawSpan {
        src_id: 1,
        start: 0,
        end: 5,
    };
    let error = Error::EvalError(EvalError::BlameError(label, TermPos::Original(here)));
    let d = error.to_diagnostic(None);
    assert_eq!(d.message, "a contract was violated");
    assert_eq!(
        d.labels,
        vec![
            (here, LabelKind::Here),
            (
                RawSpan {
                    src_id: 1,
                    start: 0,
                    end: 5
                },
                LabelKind::Contract
            )
        ]
    );
    // the contracts of source 1 are not shown
    assert_eq!(
        error.to_diagnostic(Some(1)).labels,
        vec![(here, LabelKind::Here)]
    );
    assert_eq!(
        error.to_diagnostic(Some(3)).labels.len(),
        1
    );
    // an error without a position points at nothing
    let error = Error::EvalError(EvalError::StepLimit);
    let d = error.to_diagnostic(None);
    assert_eq!(d.message, "evaluation took too many steps");
    assert!(d.labels.is_empty());
    let error = Error::ParseErrors(String::from("a b"));
    assert_eq!(error.to_diagnostic(None).message, "the text does not parse");
}

#[test]
fn errors_say_what_they_are_about() {
    let e = EvalError::UnboundIdentifier(Ident::from("x"), TermPos::Unknown);
    assert_eq!(e.message(), "unbound identifier");
    assert_eq!(e.subject(), Some(String::from("x")));
    assert_eq!(e.position(), TermPos::Unknown);
    let e = EvalError::MissingField(Ident::from("f"), number(1), TermPos::Unknown);
    assert_eq!(e.message(), "missing field");
    assert_eq!(e.subject(), Some(String::from("f")));
    let e = EvalError::NumberOverflow(TermPos::Unknown);
    assert_eq!(e.subject(), None);
    let e = ImportError::Cycle(String::from("a"), TermPos::Unknown);
    assert_eq!(e.message(), "import of a source from inside itself");
    assert_eq!(e.position(), TermPos::Unknown);
}

#[test]
fn diagnostics_of_import_errors() {
    let here = RawSpan {
        src_id: 0,
        start: 8,
        end: 20,
    };
    let error = Error::ImportError(ImportError::IOError(
        String::from("lib.ncl"),
        String::from("no such file"),
        TermPos::Original(here),
    ));
    let d = error.to_diagnostic(None);
    assert_eq!(d.message, "import could not be read");
    assert_eq!(d.labels, vec![(here, LabelKind::Here)]);
    let error = Error::ImportError(ImportError::TooDeep(String::from("a"), TermPos::Unknown));
    let d = error.to_diagnostic(None);
    assert_eq!(d.message, "imports nested too deep");
    assert!(d.labels.is_empty());
    let error = Error::ImportError(ImportError::ParseErrors(
        String::from("unexpected token"),
        TermPos::Inherited(here),
    ));
    assert_eq!(error.to_diagnostic(None).message, "import does not parse");
}
