use nickel::error::ImportError;
use nickel::import_resolution::{resolve_imports, ImportResolver};
use nickel::position::TermPos;
use nickel::term::make as mk_term;
use nickel::term::{RichTerm, Term};

struct Always {
    calls: usize,
}

impl ImportResolver for Always {
    fn resolve(&mut self, _name: &String, _pos: TermPos) -> Result<RichTerm, ImportError> {
        self.calls += 1;
        Ok(Term::Bool(true).into())
    }
}

#[test]
fn a_resolver_of_the_caller() {
    let mut r = Always { calls: 0 };
    let t = mk_term::mk_app(mk_term::import("a"), mk_term::import("b"));
    assert_eq!(
        resolve_imports(t, &mut r, 4),
        Ok(mk_term::mk_app(Term::Bool(true).into(), Term::Bool(true).into()))
    );
    assert_eq!(r.calls, 2);
}
