//! Import resolution: a term with each import replaced by the term it names.
//!
//! The terms come from an [`ImportResolver`]. An imported term is resolved
//! in turn, with the names of the imports that led to it kept in a chain: an
//! import of a name that is in the chain closes a cycle and is an error, as
//! is a chain longer than the limit given.
use crate::error::{ImportError, ImportErrorView};
use crate::identifier::Ident;
use crate::position::TermPos;
use crate::term::{at, chunks_view, clone_contracts, clone_doc, clone_types, fields_view};
use crate::term::{lemma_term_view, terms_view, MetaValue, MetaValueView, RichTerm, RichTermView};
use crate::term::{StrChunk, StrChunkView, Term, TermView};
use vstd::prelude::*;

verus! {

/// What a resolver gives for each name and position of an import.
pub type Resolution = spec_fn(Seq<char>, TermPos) -> Result<RichTermView, ImportErrorView>;

/// A source of imported terms.
///
/// What a resolver gives for a name does not change: a second import of the
/// same name gives the same term.
pub trait ImportResolver {
    /// What the resolver gives for each name.
    open spec fn resolution(&self) -> Resolution {
        arbitrary()
    }

    /// The term named `name`, for an import at `pos`; or why there is none.
    fn resolve(&mut self, name: &String, pos: TermPos) -> (r: Result<RichTerm, ImportError>)
        ensures
            import_result_view(r) == (old(self).resolution())(name@, pos),
            final(self).resolution() == old(self).resolution(),
    ;
}

/// The view of the result of a resolution.
pub open spec fn import_result_view(r: Result<RichTerm, ImportError>) -> Result<
    RichTermView,
    ImportErrorView,
> {
    match r {
        Ok(t) => Ok(t@),
        Err(e) => Err(e@),
    }
}

/// The outcome of resolving two terms, one after the other.
pub open spec fn both(
    a: Result<RichTermView, ImportErrorView>,
    b: Result<RichTermView, ImportErrorView>,
) -> Result<(RichTermView, RichTermView), ImportErrorView> {
    match (a, b) {
        (Err(e), _) => Err(e),
        (Ok(_), Err(e)) => Err(e),
        (Ok(x), Ok(y)) => Ok((x, y)),
    }
}

/// The term `rt` with its imports resolved by `f`, or the first error in the
/// order of the term.
///
/// `chain` holds the names of the imports that led to `rt`, and `depth` how
/// many imports deep the resolution may still go.
pub open spec fn resolved(
    f: Resolution,
    rt: RichTermView,
    chain: Seq<Seq<char>>,
    depth: nat,
) -> Result<RichTermView, ImportErrorView>
    decreases depth, rt, 0int,
{
    match *rt.term {
        TermView::Import(name) => if chain.contains(name) {
            Err(ImportErrorView::Cycle(name, rt.pos))
        } else if depth == 0 {
            Err(ImportErrorView::TooDeep(name, rt.pos))
        } else {
            match f(name, rt.pos) {
                Err(e) => Err(e),
                Ok(t) => resolved(f, t, chain.push(name), (depth - 1) as nat),
            }
        },
        TermView::Fun(x, body) => match resolved(f, body, chain, depth) {
            Ok(b) => Ok(at(TermView::Fun(x, b), rt.pos)),
            Err(e) => Err(e),
        },
        TermView::Let(x, a, b) => match both(
            resolved(f, a, chain, depth),
            resolved(f, b, chain, depth),
        ) {
            Ok((a, b)) => Ok(at(TermView::Let(x, a, b), rt.pos)),
            Err(e) => Err(e),
        },
        TermView::App(a, b) => match both(
            resolved(f, a, chain, depth),
            resolved(f, b, chain, depth),
        ) {
            Ok((a, b)) => Ok(at(TermView::App(a, b), rt.pos)),
            Err(e) => Err(e),
        },
        TermView::Op1(op, a) => match resolved(f, a, chain, depth) {
            Ok(a) => Ok(at(TermView::Op1(op, a), rt.pos)),
            Err(e) => Err(e),
        },
        TermView::Op2(op, a, b) => match both(
            resolved(f, a, chain, depth),
            resolved(f, b, chain, depth),
        ) {
            Ok((a, b)) => Ok(at(TermView::Op2(op, a, b), rt.pos)),
            Err(e) => Err(e),
        },
        TermView::If(c, t, e) => match resolved(f, c, chain, depth) {
            Err(err) => Err(err),
            Ok(c) => match both(resolved(f, t, chain, depth), resolved(f, e, chain, depth)) {
                Ok((t, e)) => Ok(at(TermView::If(c, t, e), rt.pos)),
                Err(err) => Err(err),
            },
        },
        TermView::StrChunks(chunks) => match resolved_chunks(
            f,
            chunks,
            chain,
            depth,
            0,
            Seq::empty(),
        ) {
            Ok(cs) => Ok(at(TermView::StrChunks(cs), rt.pos)),
            Err(e) => Err(e),
        },
        TermView::Record(fields) => match resolved_fields(
            f,
            fields,
            chain,
            depth,
            0,
            Seq::empty(),
        ) {
            Ok(fs) => Ok(at(TermView::Record(fs), rt.pos)),
            Err(e) => Err(e),
        },
        TermView::RecRecord(fields) => match resolved_fields(
            f,
            fields,
            chain,
            depth,
            0,
            Seq::empty(),
        ) {
            Ok(fs) => Ok(at(TermView::RecRecord(fs), rt.pos)),
            Err(e) => Err(e),
        },
        TermView::Switch(s, cases, default) => match resolved(f, s, chain, depth) {
            Err(e) => Err(e),
            Ok(s) => match resolved_fields(f, cases, chain, depth, 0, Seq::empty()) {
                Err(e) => Err(e),
                Ok(cs) => match default {
                    None => Ok(at(TermView::Switch(s, cs, None), rt.pos)),
                    Some(d) => match resolved(f, d, chain, depth) {
                        Ok(d) => Ok(at(TermView::Switch(s, cs, Some(d)), rt.pos)),
                        Err(e) => Err(e),
                    },
                },
            },
        },
        TermView::Array(elems) => match resolved_terms(f, elems, chain, depth, 0, Seq::empty()) {
            Ok(ts) => Ok(at(TermView::Array(ts), rt.pos)),
            Err(e) => Err(e),
        },
        TermView::MetaValue(m) => match resolved(f, m.value, chain, depth) {
            Ok(v) => Ok(at(TermView::MetaValue(MetaValueView { value: v, ..m }), rt.pos)),
            Err(e) => Err(e),
        },
        _ => Ok(rt),
    }
}

/// The fields from index `i` on with their imports resolved, after `done`.
pub open spec fn resolved_fields(
    f: Resolution,
    fields: Seq<(Seq<char>, RichTermView)>,
    chain: Seq<Seq<char>>,
    depth: nat,
    i: int,
    done: Seq<(Seq<char>, RichTermView)>,
) -> Result<Seq<(Seq<char>, RichTermView)>, ImportErrorView>
    decreases depth, fields, fields.len() - i,
{
    if i < 0 || i >= fields.len() {
        Ok(done)
    } else {
        match resolved(f, fields[i].1, chain, depth) {
            Err(e) => Err(e),
            Ok(t) => resolved_fields(f, fields, chain, depth, i + 1, done.push((fields[i].0, t))),
        }
    }
}

/// The terms from index `i` on with their imports resolved, after `done`.
pub open spec fn resolved_terms(
    f: Resolution,
    terms: Seq<RichTermView>,
    chain: Seq<Seq<char>>,
    depth: nat,
    i: int,
    done: Seq<RichTermView>,
) -> Result<Seq<RichTermView>, ImportErrorView>
    decreases depth, terms, terms.len() - i,
{
    if i < 0 || i >= terms.len() {
        Ok(done)
    } else {
        match resolved(f, terms[i], chain, depth) {
            Err(e) => Err(e),
            Ok(t) => resolved_terms(f, terms, chain, depth, i + 1, done.push(t)),
        }
    }
}

/// The chunks from index `i` on with their imports resolved, after `done`.
pub open spec fn resolved_chunks(
    f: Resolution,
    chunks: Seq<StrChunkView>,
    chain: Seq<Seq<char>>,
    depth: nat,
    i: int,
    done: Seq<StrChunkView>,
) -> Result<Seq<StrChunkView>, ImportErrorView>
    decreases depth, chunks, chunks.len() - i,
{
    if i < 0 || i >= chunks.len() {
        Ok(done)
    } else {
        match chunks[i] {
            StrChunkView::Literal(s) => resolved_chunks(
                f,
                chunks,
                chain,
                depth,
                i + 1,
                done.push(StrChunkView::Literal(s)),
            ),
            StrChunkView::Expr(e) => match resolved(f, e, chain, depth) {
                Err(err) => Err(err),
                Ok(t) => resolved_chunks(
                    f,
                    chunks,
                    chain,
                    depth,
                    i + 1,
                    done.push(StrChunkView::Expr(t)),
                ),
            },
        }
    }
}

/// Whether no import is left in the term.
pub open spec fn import_free(rt: RichTermView) -> bool
    decreases rt, 0int,
{
    match *rt.term {
        TermView::Import(_) => false,
        TermView::Fun(_, body) => import_free(body),
        TermView::Let(_, a, b) => import_free(a) && import_free(b),
        TermView::App(f, a) => import_free(f) && import_free(a),
        TermView::Op1(_, a) => import_free(a),
        TermView::Op2(_, a, b) => import_free(a) && import_free(b),
        TermView::If(c, t, e) => import_free(c) && import_free(t) && import_free(e),
        TermView::StrChunks(chunks) => import_free_chunks(chunks, 0),
        TermView::Record(fields) => import_free_fields(fields, 0),
        TermView::RecRecord(fields) => import_free_fields(fields, 0),
        TermView::Switch(s, cases, default) => {
            &&& import_free(s)
            &&& import_free_fields(cases, 0)
            &&& match default {
                Some(d) => import_free(d),
                None => true,
            }
        },
        TermView::Array(elems) => import_free_terms(elems, 0),
        TermView::MetaValue(m) => import_free(m.value),
        _ => true,
    }
}

/// Whether no import is left in the fields from index `i` on.
pub open spec fn import_free_fields(fields: Seq<(Seq<char>, RichTermView)>, i: int) -> bool
    decreases fields, fields.len() - i,
{
    if i < 0 || i >= fields.len() {
        true
    } else {
        import_free(fields[i].1) && import_free_fields(fields, i + 1)
    }
}

/// Whether no import is left in the terms from index `i` on.
pub open spec fn import_free_terms(terms: Seq<RichTermView>, i: int) -> bool
    decreases terms, terms.len() - i,
{
    if i < 0 || i >= terms.len() {
        true
    } else {
        import_free(terms[i]) && import_free_terms(terms, i + 1)
    }
}

/// Whether the chunk holds no import.
pub open spec fn import_free_chunk(chunk: StrChunkView) -> bool {
    match chunk {
        StrChunkView::Literal(_) => true,
        StrChunkView::Expr(e) => import_free(e),
    }
}

/// Whether no import is left in the chunks from index `i` on.
pub open spec fn import_free_chunks(chunks: Seq<StrChunkView>, i: int) -> bool
    decreases chunks, chunks.len() - i,
{
    if i < 0 || i >= chunks.len() {
        true
    } else {
        (match chunks[i] {
            StrChunkView::Literal(_) => true,
            StrChunkView::Expr(e) => import_free(e),
        }) && import_free_chunks(chunks, i + 1)
    }
}

/// The views of a sequence of names.
pub open spec fn names_view(names: Seq<String>) -> Seq<Seq<char>> {
    names.map_values(|s: String| s@)
}

/// Whether `name` is one of `names`.
fn has_name(names: &Vec<String>, name: &String) -> (found: bool)
    ensures
        found == names_view(names@).contains(name@),
{
    let mut i: usize = 0;
    while i < names.len()
        invariant
            i <= names.len(),
            forall|j: int| 0 <= j < i ==> names_view(names@)[j] != name@,
        decreases names.len() - i,
    {
        if names[i] == *name {
            assert(names_view(names@)[i as int] == name@);
            return true;
        }
        i += 1;
    }
    false
}

/// Pushes a name.
fn push_name(names: &mut Vec<String>, name: String)
    ensures
        names_view(final(names)@) == names_view(old(names)@).push(name@),
        final(names)@.len() > 0,
{
    names.push(name);
    assert(names_view(names@) =~= names_view(old(names)@).push(name@));
}

/// Drops the last name.
fn pop_name(names: &mut Vec<String>)
    requires
        old(names)@.len() > 0,
    ensures
        names_view(final(names)@) == names_view(old(names)@).drop_last(),
{
    names.pop();
    assert(names_view(names@) =~= names_view(old(names)@).drop_last());
}

/// Resolves the import of `name` at `pos`, and the imports of what it gives.
fn resolve_import<R: ImportResolver>(
    rt: &RichTerm,
    name: &String,
    resolver: &mut R,
    chain: &mut Vec<String>,
    depth: usize,
) -> (res: Result<RichTerm, ImportError>)
    requires
        *rt@.term == TermView::Import(name@),
    ensures
        import_result_view(res) == resolved(
            old(resolver).resolution(),
            rt@,
            names_view(old(chain)@),
            depth as nat,
        ),
        final(resolver).resolution() == old(resolver).resolution(),
        names_view(final(chain)@) == names_view(old(chain)@),
    decreases depth, rt, 0int,
{
    let ghost c = names_view(chain@);
    let pos = rt.pos;
    if has_name(chain, name) {
        return Err(ImportError::Cycle(name.clone(), pos));
    }
    if depth == 0 {
        return Err(ImportError::TooDeep(name.clone(), pos));
    }
    match resolver.resolve(name, pos) {
        Err(e) => Err(e),
        Ok(t) => {
            push_name(chain, name.clone());
            let res = resolve_term(&t, resolver, chain, depth - 1);
            assert(names_view(chain@).len() > 0);
            pop_name(chain);
            assert(c.push(name@).drop_last() =~= c);
            res
        },
    }
}

/// The term `rt` with its imports resolved: [`resolved`], computed. `chain`
/// is left as it was.
pub fn resolve_term<R: ImportResolver>(
    rt: &RichTerm,
    resolver: &mut R,
    chain: &mut Vec<String>,
    depth: usize,
) -> (res: Result<RichTerm, ImportError>)
    ensures
        import_result_view(res) == resolved(
            old(resolver).resolution(),
            rt@,
            names_view(old(chain)@),
            depth as nat,
        ),
        final(resolver).resolution() == old(resolver).resolution(),
        names_view(final(chain)@) == names_view(old(chain)@),
    decreases depth, rt, 1int,
{
    proof {
        lemma_term_view(&*rt.term);
    }
    let term = match &*rt.term {
        Term::Import(name) => {
            return resolve_import(rt, name, resolver, chain, depth);
        },
        Term::Fun(x, body) => match resolve_term(body, resolver, chain, depth) {
            Ok(b) => Term::Fun(x.clone(), b),
            Err(e) => {
                return Err(e);
            },
        },
        Term::Let(x, a, b) => match resolve_term(a, resolver, chain, depth) {
            Err(e) => {
                return Err(e);
            },
            Ok(a) => match resolve_term(b, resolver, chain, depth) {
                Err(e) => {
                    return Err(e);
                },
                Ok(b) => Term::Let(x.clone(), a, b),
            },
        },
        Term::App(a, b) => match resolve_term(a, resolver, chain, depth) {
            Err(e) => {
                return Err(e);
            },
            Ok(a) => match resolve_term(b, resolver, chain, depth) {
                Err(e) => {
                    return Err(e);
                },
                Ok(b) => Term::App(a, b),
            },
        },
        Term::Op1(op, a) => match resolve_term(a, resolver, chain, depth) {
            Ok(a) => Term::Op1(op.clone(), a),
            Err(e) => {
                return Err(e);
            },
        },
        Term::Op2(op, a, b) => match resolve_term(a, resolver, chain, depth) {
            Err(e) => {
                return Err(e);
            },
            Ok(a) => match resolve_term(b, resolver, chain, depth) {
                Err(e) => {
                    return Err(e);
                },
                Ok(b) => Term::Op2(*op, a, b),
            },
        },
        Term::If(c, t, e) => match resolve_term(c, resolver, chain, depth) {
            Err(err) => {
                return Err(err);
            },
            Ok(c) => match resolve_term(t, resolver, chain, depth) {
                Err(err) => {
                    return Err(err);
                },
                Ok(t) => match resolve_term(e, resolver, chain, depth) {
                    Err(err) => {
                        return Err(err);
                    },
                    Ok(e) => Term::If(c, t, e),
                },
            },
        },
        Term::StrChunks(chunks) => match resolve_chunks(chunks, resolver, chain, depth) {
            Ok(cs) => Term::StrChunks(cs),
            Err(e) => {
                return Err(e);
            },
        },
        Term::Record(fields) => match resolve_fields(fields, resolver, chain, depth) {
            Ok(fs) => Term::Record(fs),
            Err(e) => {
                return Err(e);
            },
        },
        Term::RecRecord(fields) => match resolve_fields(fields, resolver, chain, depth) {
            Ok(fs) => Term::RecRecord(fs),
            Err(e) => {
                return Err(e);
            },
        },
        Term::Switch(s, cases, default) => match resolve_term(s, resolver, chain, depth) {
            Err(e) => {
                return Err(e);
            },
            Ok(s) => match resolve_fields(cases, resolver, chain, depth) {
                Err(e) => {
                    return Err(e);
                },
                Ok(cs) => match default {
                    None => Term::Switch(s, cs, None),
                    Some(d) => match resolve_term(d, resolver, chain, depth) {
                        Ok(d) => Term::Switch(s, cs, Some(d)),
                        Err(e) => {
                            return Err(e);
                        },
                    },
                },
            },
        },
        Term::Array(elems) => match resolve_terms(elems, resolver, chain, depth) {
            Ok(ts) => Term::Array(ts),
            Err(e) => {
                return Err(e);
            },
        },
        Term::MetaValue(m) => match resolve_term(&m.value, resolver, chain, depth) {
            Ok(value) => Term::MetaValue(
                MetaValue {
                    doc: clone_doc(&m.doc),
                    types: clone_types(&m.types),
                    contracts: clone_contracts(&m.contracts),
                    priority: m.priority,
                    value,
                },
            ),
            Err(e) => {
                return Err(e);
            },
        },
        _ => {
            return Ok(rt.clone());
        },
    };
    proof {
        lemma_term_view(&term);
    }
    Ok(RichTerm::new(term, rt.pos))
}

/// The view of the result of resolving fields.
pub open spec fn fields_result_view(r: Result<Vec<(Ident, RichTerm)>, ImportError>) -> Result<
    Seq<(Seq<char>, RichTermView)>,
    ImportErrorView,
> {
    match r {
        Ok(fs) => Ok(fields_view(fs@)),
        Err(e) => Err(e@),
    }
}

/// Resolves the imports of the fields, in order.
#[verifier::loop_isolation(false)]
fn resolve_fields<R: ImportResolver>(
    fields: &Vec<(Ident, RichTerm)>,
    resolver: &mut R,
    chain: &mut Vec<String>,
    depth: usize,
) -> (res: Result<Vec<(Ident, RichTerm)>, ImportError>)
    ensures
        fields_result_view(res) == resolved_fields(
            old(resolver).resolution(),
            fields_view(fields@),
            names_view(old(chain)@),
            depth as nat,
            0,
            Seq::empty(),
        ),
        final(resolver).resolution() == old(resolver).resolution(),
        names_view(final(chain)@) == names_view(old(chain)@),
    decreases depth, fields, 0int,
{
    let ghost f = resolver.resolution();
    let ghost c = names_view(chain@);
    let ghost fv = fields_view(fields@);
    let ghost goal = resolved_fields(f, fv, c, depth as nat, 0, Seq::empty());
    let mut done: Vec<(Ident, RichTerm)> = Vec::new();
    let mut i: usize = 0;
    assert(fields_view(done@) =~= Seq::empty());
    while i < fields.len()
        invariant
            i <= fields.len(),
            resolver.resolution() == f,
            names_view(chain@) == c,
            resolved_fields(f, fv, c, depth as nat, i as int, fields_view(done@)) == goal,
        decreases fields.len() - i,
    {
        let ghost before = fields_view(done@);
        match resolve_term(&fields[i].1, resolver, chain, depth) {
            Err(e) => {
                return Err(e);
            },
            Ok(t) => {
                done.push((fields[i].0.clone(), t));
                assert(fields_view(done@) =~= before.push((fv[i as int].0, t@)));
            },
        }
        i += 1;
    }
    Ok(done)
}

/// The view of the result of resolving a sequence of terms.
pub open spec fn terms_result_view(r: Result<Vec<RichTerm>, ImportError>) -> Result<
    Seq<RichTermView>,
    ImportErrorView,
> {
    match r {
        Ok(ts) => Ok(terms_view(ts@)),
        Err(e) => Err(e@),
    }
}

/// Resolves the imports of the terms, in order.
#[verifier::loop_isolation(false)]
fn resolve_terms<R: ImportResolver>(
    terms: &Vec<RichTerm>,
    resolver: &mut R,
    chain: &mut Vec<String>,
    depth: usize,
) -> (res: Result<Vec<RichTerm>, ImportError>)
    ensures
        terms_result_view(res) == resolved_terms(
            old(resolver).resolution(),
            terms_view(terms@),
            names_view(old(chain)@),
            depth as nat,
            0,
            Seq::empty(),
        ),
        final(resolver).resolution() == old(resolver).resolution(),
        names_view(final(chain)@) == names_view(old(chain)@),
    decreases depth, terms, 0int,
{
    let ghost f = resolver.resolution();
    let ghost c = names_view(chain@);
    let ghost tv = terms_view(terms@);
    let ghost goal = resolved_terms(f, tv, c, depth as nat, 0, Seq::empty());
    let mut done: Vec<RichTerm> = Vec::new();
    let mut i: usize = 0;
    assert(terms_view(done@) =~= Seq::empty());
    while i < terms.len()
        invariant
            i <= terms.len(),
            resolver.resolution() == f,
            names_view(chain@) == c,
            resolved_terms(f, tv, c, depth as nat, i as int, terms_view(done@)) == goal,
        decreases terms.len() - i,
    {
        let ghost before = terms_view(done@);
        match resolve_term(&terms[i], resolver, chain, depth) {
            Err(e) => {
                return Err(e);
            },
            Ok(t) => {
                done.push(t);
                assert(terms_view(done@) =~= before.push(t@));
            },
        }
        i += 1;
    }
    Ok(done)
}

/// The view of the result of resolving chunks.
pub open spec fn chunks_result_view(r: Result<Vec<StrChunk>, ImportError>) -> Result<
    Seq<StrChunkView>,
    ImportErrorView,
> {
    match r {
        Ok(cs) => Ok(chunks_view(cs@)),
        Err(e) => Err(e@),
    }
}

/// Resolves the imports of the chunks, in order.
#[verifier::loop_isolation(false)]
fn resolve_chunks<R: ImportResolver>(
    chunks: &Vec<StrChunk>,
    resolver: &mut R,
    chain: &mut Vec<String>,
    depth: usize,
) -> (res: Result<Vec<StrChunk>, ImportError>)
    ensures
        chunks_result_view(res) == resolved_chunks(
            old(resolver).resolution(),
            chunks_view(chunks@),
            names_view(old(chain)@),
            depth as nat,
            0,
            Seq::empty(),
        ),
        final(resolver).resolution() == old(resolver).resolution(),
        names_view(final(chain)@) == names_view(old(chain)@),
    decreases depth, chunks, 0int,
{
    let ghost f = resolver.resolution();
    let ghost c = names_view(chain@);
    let ghost cv = chunks_view(chunks@);
    let ghost goal = resolved_chunks(f, cv, c, depth as nat, 0, Seq::empty());
    let mut done: Vec<StrChunk> = Vec::new();
    let mut i: usize = 0;
    assert(chunks_view(done@) =~= Seq::empty());
    while i < chunks.len()
        invariant
            i <= chunks.len(),
            resolver.resolution() == f,
            names_view(chain@) == c,
            resolved_chunks(f, cv, c, depth as nat, i as int, chunks_view(done@)) == goal,
        decreases chunks.len() - i,
    {
        let ghost before = chunks_view(done@);
        match &chunks[i] {
            StrChunk::Literal(s) => {
                done.push(StrChunk::Literal(s.clone()));
                assert(chunks_view(done@) =~= before.push(StrChunkView::Literal(s@)));
            },
            StrChunk::Expr(e) => match resolve_term(e, resolver, chain, depth) {
                Err(err) => {
                    return Err(err);
                },
                Ok(t) => {
                    done.push(StrChunk::Expr(t));
                    assert(chunks_view(done@) =~= before.push(StrChunkView::Expr(t@)));
                },
            },
        }
        i += 1;
    }
    Ok(done)
}

/// Replaces every import in `rt` by the term the resolver gives for its name,
/// with the imports of that term replaced in turn.
///
/// Fails with the error of the resolver where it has no term for a name;
/// with `Cycle` at an import of a name whose own resolution led to that
/// import; and with `TooDeep` at an import nested under `max_depth` others.
/// Of several errors, the first in the order of the term is given.
pub fn resolve_imports<R: ImportResolver>(rt: RichTerm, resolver: &mut R, max_depth: usize) -> (res:
    Result<RichTerm, ImportError>)
    ensures
        import_result_view(res) == resolved(
            old(resolver).resolution(),
            rt@,
            Seq::empty(),
            max_depth as nat,
        ),
        res matches Ok(t) ==> import_free(t@),
        final(resolver).resolution() == old(resolver).resolution(),
{
    proof {
        crate::laws::imports::lemma_resolved_is_import_free(
            resolver.resolution(),
            rt@,
            Seq::empty(),
            max_depth as nat,
        );
    }
    let mut chain: Vec<String> = Vec::new();
    assert(names_view(chain@) =~= Seq::empty());
    resolve_term(&rt, resolver, &mut chain, max_depth)
}

} // verus!
