//! The errors of evaluation and of import resolution.
use crate::identifier::Ident;
use crate::label::{Label, LabelView};
use crate::position::TermPos;
use crate::term::{RichTerm, RichTermView};
use vstd::prelude::*;
use vstd::string::*;

verus! {

/// What an operation expects of an operand.
#[derive(Debug, Clone, Copy, PartialEq, Eq, Structural)]
pub enum Kind {
    Num,
    Bool,
    Str,
    Record,
    Enum,
    Label,
}

/// The operations that can refuse an operand for its kind.
#[derive(Debug, Clone, Copy, PartialEq, Eq, Structural)]
pub enum Operation {
    StaticAccess,
    Blame,
    Plus,
    StrConcat,
    If,
    Interpolation,
    Switch,
}

/// Why two values do not merge.
#[derive(Debug, Clone, Copy, PartialEq, Eq, Structural)]
pub enum MergeError {
    /// Two values that are not records and are not equal.
    IncompatibleValues,
    /// Two unequal values that both came with the priority `Default`.
    IncompatibleDefaults,
    /// A record and a value that is not a record.
    RecordVsScalar,
}

/// An error of evaluation. Each one ends the evaluation of the whole term.
#[derive(Debug, PartialEq)]
pub enum EvalError {
    /// A variable that no environment binds, at the position of the variable.
    UnboundIdentifier(Ident, TermPos),
    /// A variable whose value is needed to compute that same value.
    InfiniteRecursion(Ident, TermPos),
    /// The application of a value that is not a function; with the value and
    /// the position of the application.
    NotAFunction(RichTerm, TermPos),
    /// An operand of the wrong kind; with the operation, the kind it expects,
    /// the operand, and the position of the operation.
    TypeMismatch(Operation, Kind, RichTerm, TermPos),
    /// The access to a field that the record lacks; with the field, the
    /// record, and the position of the access.
    MissingField(Ident, RichTerm, TermPos),
    /// A switch with no case for the tag and no default; with the tag term
    /// and the position of the switch.
    NonExhaustiveSwitch(RichTerm, TermPos),
    /// A contract was violated; with its label and the position of the blame.
    BlameError(Label, TermPos),
    /// Two values that do not merge; with both, and the position of the merge.
    MergeError(MergeError, RichTerm, RichTerm, TermPos),
    /// A sum that is too large to hold, at the position of the sum.
    NumberOverflow(TermPos),
    /// An import that was not resolved before evaluation.
    UnresolvedImport(String, TermPos),
    /// The evaluation used up the steps it was given.
    StepLimit,
}

/// The view of an [`EvalError`].
pub enum EvalErrorView {
    UnboundIdentifier(Seq<char>, TermPos),
    InfiniteRecursion(Seq<char>, TermPos),
    NotAFunction(RichTermView, TermPos),
    TypeMismatch(Operation, Kind, RichTermView, TermPos),
    MissingField(Seq<char>, RichTermView, TermPos),
    NonExhaustiveSwitch(RichTermView, TermPos),
    BlameError(LabelView, TermPos),
    MergeError(MergeError, RichTermView, RichTermView, TermPos),
    NumberOverflow(TermPos),
    UnresolvedImport(Seq<char>, TermPos),
    StepLimit,
}

impl View for EvalError {
    type V = EvalErrorView;

    open spec fn view(&self) -> EvalErrorView {
        match self {
            EvalError::UnboundIdentifier(x, pos) => EvalErrorView::UnboundIdentifier(x@, *pos),
            EvalError::InfiniteRecursion(x, pos) => EvalErrorView::InfiniteRecursion(x@, *pos),
            EvalError::NotAFunction(t, pos) => EvalErrorView::NotAFunction(t@, *pos),
            EvalError::TypeMismatch(op, kind, t, pos) => EvalErrorView::TypeMismatch(
                *op,
                *kind,
                t@,
                *pos,
            ),
            EvalError::MissingField(f, t, pos) => EvalErrorView::MissingField(f@, t@, *pos),
            EvalError::NonExhaustiveSwitch(t, pos) => EvalErrorView::NonExhaustiveSwitch(t@, *pos),
            EvalError::BlameError(l, pos) => EvalErrorView::BlameError(l@, *pos),
            EvalError::MergeError(e, a, b, pos) => EvalErrorView::MergeError(*e, a@, b@, *pos),
            EvalError::NumberOverflow(pos) => EvalErrorView::NumberOverflow(*pos),
            EvalError::UnresolvedImport(name, pos) => EvalErrorView::UnresolvedImport(name@, *pos),
            EvalError::StepLimit => EvalErrorView::StepLimit,
        }
    }
}

impl Clone for EvalError {
    fn clone(&self) -> (res: Self)
        ensures
            res@ == self@,
    {
        match self {
            EvalError::UnboundIdentifier(x, pos) => EvalError::UnboundIdentifier(x.clone(), *pos),
            EvalError::InfiniteRecursion(x, pos) => EvalError::InfiniteRecursion(x.clone(), *pos),
            EvalError::NotAFunction(t, pos) => EvalError::NotAFunction(t.clone(), *pos),
            EvalError::TypeMismatch(op, kind, t, pos) => EvalError::TypeMismatch(
                *op,
                *kind,
                t.clone(),
                *pos,
            ),
            EvalError::MissingField(f, t, pos) => EvalError::MissingField(
                f.clone(),
                t.clone(),
                *pos,
            ),
            EvalError::NonExhaustiveSwitch(t, pos) => EvalError::NonExhaustiveSwitch(
                t.clone(),
                *pos,
            ),
            EvalError::BlameError(l, pos) => EvalError::BlameError(l.clone(), *pos),
            EvalError::MergeError(e, a, b, pos) => EvalError::MergeError(
                *e,
                a.clone(),
                b.clone(),
                *pos,
            ),
            EvalError::NumberOverflow(pos) => EvalError::NumberOverflow(*pos),
            EvalError::UnresolvedImport(name, pos) => EvalError::UnresolvedImport(
                name.clone(),
                *pos,
            ),
            EvalError::StepLimit => EvalError::StepLimit,
        }
    }
}

/// An error of import resolution.
#[derive(Debug, PartialEq)]
pub enum ImportError {
    /// The source could not be read; with its name, what went wrong, and the
    /// position of the import.
    IOError(String, String, TermPos),
    /// The source does not parse; with what the parser said and the position
    /// of the import.
    ParseErrors(String, TermPos),
    /// The source is imported from inside itself; with its name and the
    /// position of the import that closes the cycle.
    Cycle(String, TermPos),
    /// Imports are nested deeper than the limit; with the name and position
    /// of the import that was not followed.
    TooDeep(String, TermPos),
}

/// The view of an [`ImportError`].
pub enum ImportErrorView {
    IOError(Seq<char>, Seq<char>, TermPos),
    ParseErrors(Seq<char>, TermPos),
    Cycle(Seq<char>, TermPos),
    TooDeep(Seq<char>, TermPos),
}

impl View for ImportError {
    type V = ImportErrorView;

    open spec fn view(&self) -> ImportErrorView {
        match self {
            ImportError::IOError(name, msg, pos) => ImportErrorView::IOError(name@, msg@, *pos),
            ImportError::ParseErrors(msg, pos) => ImportErrorView::ParseErrors(msg@, *pos),
            ImportError::Cycle(name, pos) => ImportErrorView::Cycle(name@, *pos),
            ImportError::TooDeep(name, pos) => ImportErrorView::TooDeep(name@, *pos),
        }
    }
}

impl Clone for ImportError {
    fn clone(&self) -> (res: Self)
        ensures
            res@ == self@,
    {
        match self {
            ImportError::IOError(name, msg, pos) => ImportError::IOError(
                name.clone(),
                msg.clone(),
                *pos,
            ),
            ImportError::ParseErrors(msg, pos) => ImportError::ParseErrors(msg.clone(), *pos),
            ImportError::Cycle(name, pos) => ImportError::Cycle(name.clone(), *pos),
            ImportError::TooDeep(name, pos) => ImportError::TooDeep(name.clone(), *pos),
        }
    }
}

impl EvalError {
    /// The position the error speaks of: that of the term or the operation
    /// that failed. `StepLimit` has none.
    pub fn position(&self) -> (pos: TermPos)
        ensures
            pos == eval_position(self@),
    {
        match self {
            EvalError::UnboundIdentifier(_, p) => *p,
            EvalError::InfiniteRecursion(_, p) => *p,
            EvalError::NotAFunction(_, p) => *p,
            EvalError::TypeMismatch(_, _, _, p) => *p,
            EvalError::MissingField(_, _, p) => *p,
            EvalError::NonExhaustiveSwitch(_, p) => *p,
            EvalError::BlameError(_, p) => *p,
            EvalError::MergeError(_, _, _, p) => *p,
            EvalError::NumberOverflow(p) => *p,
            EvalError::UnresolvedImport(_, p) => *p,
            EvalError::StepLimit => TermPos::Unknown,
        }
    }

    /// What the error says, in a few words; the name it speaks of, if there
    /// is one, is [`EvalError::subject`].
    pub fn message(&self) -> (text: String)
        ensures
            text@ == eval_message(self@),
    {
        match self {
            EvalError::UnboundIdentifier(_, _) => String::from_str("unbound identifier"),
            EvalError::InfiniteRecursion(_, _) => String::from_str("infinite recursion"),
            EvalError::NotAFunction(_, _) => String::from_str("not a function"),
            EvalError::TypeMismatch(_, kind, _, _) => match kind {
                Kind::Num => String::from_str("expected a number"),
                Kind::Bool => String::from_str("expected a boolean"),
                Kind::Str => String::from_str("expected a string"),
                Kind::Record => String::from_str("expected a record"),
                Kind::Enum => String::from_str("expected an enum tag"),
                Kind::Label => String::from_str("expected a label"),
            },
            EvalError::MissingField(_, _, _) => String::from_str("missing field"),
            EvalError::NonExhaustiveSwitch(_, _) => String::from_str("no case for the tag"),
            EvalError::BlameError(_, _) => String::from_str("a contract was violated"),
            EvalError::MergeError(e, _, _, _) => match e {
                MergeError::IncompatibleValues => String::from_str("values do not merge"),
                MergeError::IncompatibleDefaults => String::from_str("defaults do not merge"),
                MergeError::RecordVsScalar => String::from_str(
                    "a record does not merge with a value that is none",
                ),
            },
            EvalError::NumberOverflow(_) => String::from_str("number out of range"),
            EvalError::UnresolvedImport(_, _) => String::from_str("unresolved import"),
            EvalError::StepLimit => String::from_str("evaluation took too many steps"),
        }
    }

    /// The name the error speaks of: the identifier, the field, the tag of
    /// the label, or the import.
    pub fn subject(&self) -> (name: Option<String>)
        ensures
            match name {
                Some(n) => eval_subject(self@) == Some(n@),
                None => eval_subject(self@) is None,
            },
    {
        match self {
            EvalError::UnboundIdentifier(x, _) => Some(x.label.clone()),
            EvalError::InfiniteRecursion(x, _) => Some(x.label.clone()),
            EvalError::MissingField(f, _, _) => Some(f.label.clone()),
            EvalError::BlameError(l, _) => Some(l.tag.clone()),
            EvalError::UnresolvedImport(name, _) => Some(name.clone()),
            _ => None,
        }
    }
}

/// The position an error of evaluation speaks of.
pub open spec fn eval_position(e: EvalErrorView) -> TermPos {
    match e {
        EvalErrorView::UnboundIdentifier(_, p) => p,
        EvalErrorView::InfiniteRecursion(_, p) => p,
        EvalErrorView::NotAFunction(_, p) => p,
        EvalErrorView::TypeMismatch(_, _, _, p) => p,
        EvalErrorView::MissingField(_, _, p) => p,
        EvalErrorView::NonExhaustiveSwitch(_, p) => p,
        EvalErrorView::BlameError(_, p) => p,
        EvalErrorView::MergeError(_, _, _, p) => p,
        EvalErrorView::NumberOverflow(p) => p,
        EvalErrorView::UnresolvedImport(_, p) => p,
        EvalErrorView::StepLimit => TermPos::Unknown,
    }
}

/// The position an error of import resolution speaks of.
pub open spec fn import_position(e: ImportErrorView) -> TermPos {
    match e {
        ImportErrorView::IOError(_, _, p) => p,
        ImportErrorView::ParseErrors(_, p) => p,
        ImportErrorView::Cycle(_, p) => p,
        ImportErrorView::TooDeep(_, p) => p,
    }
}

/// What an error of evaluation says.
pub open spec fn eval_message(e: EvalErrorView) -> Seq<char> {
    match e {
        EvalErrorView::UnboundIdentifier(_, _) => "unbound identifier"@,
        EvalErrorView::InfiniteRecursion(_, _) => "infinite recursion"@,
        EvalErrorView::NotAFunction(_, _) => "not a function"@,
        EvalErrorView::TypeMismatch(_, kind, _, _) => match kind {
            Kind::Num => "expected a number"@,
            Kind::Bool => "expected a boolean"@,
            Kind::Str => "expected a string"@,
            Kind::Record => "expected a record"@,
            Kind::Enum => "expected an enum tag"@,
            Kind::Label => "expected a label"@,
        },
        EvalErrorView::MissingField(_, _, _) => "missing field"@,
        EvalErrorView::NonExhaustiveSwitch(_, _) => "no case for the tag"@,
        EvalErrorView::BlameError(_, _) => "a contract was violated"@,
        EvalErrorView::MergeError(e, _, _, _) => match e {
            MergeError::IncompatibleValues => "values do not merge"@,
            MergeError::IncompatibleDefaults => "defaults do not merge"@,
            MergeError::RecordVsScalar => "a record does not merge with a value that is none"@,
        },
        EvalErrorView::NumberOverflow(_) => "number out of range"@,
        EvalErrorView::UnresolvedImport(_, _) => "unresolved import"@,
        EvalErrorView::StepLimit => "evaluation took too many steps"@,
    }
}

/// The name an error of evaluation speaks of.
pub open spec fn eval_subject(e: EvalErrorView) -> Option<Seq<char>> {
    match e {
        EvalErrorView::UnboundIdentifier(x, _) => Some(x),
        EvalErrorView::InfiniteRecursion(x, _) => Some(x),
        EvalErrorView::MissingField(f, _, _) => Some(f),
        EvalErrorView::BlameError(l, _) => Some(l.tag),
        EvalErrorView::UnresolvedImport(name, _) => Some(name),
        _ => None,
    }
}

impl ImportError {
    /// The position of the import that failed.
    pub fn position(&self) -> (pos: TermPos)
        ensures
            pos == import_position(self@),
    {
        match self {
            ImportError::IOError(_, _, p) => *p,
            ImportError::ParseErrors(_, p) => *p,
            ImportError::Cycle(_, p) => *p,
            ImportError::TooDeep(_, p) => *p,
        }
    }

    /// What the error says, in a few words.
    pub fn message(&self) -> (text: String)
        ensures
            text@ == import_message(self@),
    {
        match self {
            ImportError::IOError(_, _, _) => String::from_str("import could not be read"),
            ImportError::ParseErrors(_, _) => String::from_str("import does not parse"),
            ImportError::Cycle(_, _) => String::from_str("import of a source from inside itself"),
            ImportError::TooDeep(_, _) => String::from_str("imports nested too deep"),
        }
    }
}

/// What an error of import resolution says.
pub open spec fn import_message(e: ImportErrorView) -> Seq<char> {
    match e {
        ImportErrorView::IOError(_, _, _) => "import could not be read"@,
        ImportErrorView::ParseErrors(_, _) => "import does not parse"@,
        ImportErrorView::Cycle(_, _) => "import of a source from inside itself"@,
        ImportErrorView::TooDeep(_, _) => "imports nested too deep"@,
    }
}

} // verus!
