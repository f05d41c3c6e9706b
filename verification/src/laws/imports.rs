//! What holds of every import resolution.
use crate::environment::{suspended, ClosureView, EnvView, IdentKind, StoreView};
use crate::error::{EvalErrorView, ImportErrorView};
use crate::eval::whnf;
use crate::import_resolution::{import_free, import_free_chunk, import_free_chunks};
use crate::import_resolution::{import_free_fields, import_free_terms, resolved, resolved_chunks};
use crate::import_resolution::{resolved_fields, resolved_terms, Resolution};
use crate::merge::{defer, find, merge_left, merge_meta, merge_result, merge_right, Merged};
use crate::position::TermPos;
use crate::semantics::{closed, field_thunks, read_chunks, rec_env, return_value, run, start, step};
use crate::semantics::{var_fields, FrameView, MachineView, Mode, StepView};
use crate::term::{at, MetaValueView, RichTermView, StrChunkView, TermView, UnaryOpView};
use vstd::prelude::*;

verus! {

/// Fields are free of imports from an index on if each of them is.
proof fn lemma_import_free_fields(fields: Seq<(Seq<char>, RichTermView)>, i: int)
    requires
        0 <= i,
        forall|n: int| i <= n < fields.len() ==> import_free((#[trigger] fields[n]).1),
    ensures
        import_free_fields(fields, i),
    decreases fields.len() - i,
{
    if i < fields.len() {
        lemma_import_free_fields(fields, i + 1);
    }
}

/// Terms are free of imports from an index on if each of them is.
proof fn lemma_import_free_terms(terms: Seq<RichTermView>, i: int)
    requires
        0 <= i,
        forall|n: int| i <= n < terms.len() ==> import_free(#[trigger] terms[n]),
    ensures
        import_free_terms(terms, i),
    decreases terms.len() - i,
{
    if i < terms.len() {
        lemma_import_free_terms(terms, i + 1);
    }
}

/// Chunks are free of imports from an index on if each of them is.
proof fn lemma_import_free_chunks(chunks: Seq<StrChunkView>, i: int)
    requires
        0 <= i,
        forall|n: int| i <= n < chunks.len() ==> import_free_chunk(#[trigger] chunks[n]),
    ensures
        import_free_chunks(chunks, i),
    decreases chunks.len() - i,
{
    if i < chunks.len() {
        lemma_import_free_chunks(chunks, i + 1);
    }
}

/// The resolution of fields leaves no import in them.
proof fn lemma_resolved_fields_import_free(
    f: Resolution,
    fields: Seq<(Seq<char>, RichTermView)>,
    chain: Seq<Seq<char>>,
    depth: nat,
    i: int,
    done: Seq<(Seq<char>, RichTermView)>,
)
    requires
        0 <= i,
        forall|n: int| 0 <= n < done.len() ==> import_free((#[trigger] done[n]).1),
    ensures
        resolved_fields(f, fields, chain, depth, i, done) matches Ok(out) ==> forall|n: int|
            0 <= n < out.len() ==> import_free((#[trigger] out[n]).1),
    decreases depth, fields, fields.len() - i,
{
    if i < fields.len() {
        lemma_resolved_is_import_free(f, fields[i].1, chain, depth);
        match resolved(f, fields[i].1, chain, depth) {
            Ok(t) => {
                lemma_resolved_fields_import_free(
                    f,
                    fields,
                    chain,
                    depth,
                    i + 1,
                    done.push((fields[i].0, t)),
                );
            },
            Err(_) => {},
        }
    }
}

/// The resolution of terms leaves no import in them.
proof fn lemma_resolved_terms_import_free(
    f: Resolution,
    terms: Seq<RichTermView>,
    chain: Seq<Seq<char>>,
    depth: nat,
    i: int,
    done: Seq<RichTermView>,
)
    requires
        0 <= i,
        forall|n: int| 0 <= n < done.len() ==> import_free(#[trigger] done[n]),
    ensures
        resolved_terms(f, terms, chain, depth, i, done) matches Ok(out) ==> forall|n: int|
            0 <= n < out.len() ==> import_free(#[trigger] out[n]),
    decreases depth, terms, terms.len() - i,
{
    if i < terms.len() {
        lemma_resolved_is_import_free(f, terms[i], chain, depth);
        match resolved(f, terms[i], chain, depth) {
            Ok(t) => {
                lemma_resolved_terms_import_free(f, terms, chain, depth, i + 1, done.push(t));
            },
            Err(_) => {},
        }
    }
}

/// The resolution of chunks leaves no import in them.
proof fn lemma_resolved_chunks_import_free(
    f: Resolution,
    chunks: Seq<StrChunkView>,
    chain: Seq<Seq<char>>,
    depth: nat,
    i: int,
    done: Seq<StrChunkView>,
)
    requires
        0 <= i,
        forall|n: int| 0 <= n < done.len() ==> import_free_chunk(#[trigger] done[n]),
    ensures
        resolved_chunks(f, chunks, chain, depth, i, done) matches Ok(out) ==> forall|n: int|
            0 <= n < out.len() ==> import_free_chunk(#[trigger] out[n]),
    decreases depth, chunks, chunks.len() - i,
{
    if i < chunks.len() {
        match chunks[i] {
            StrChunkView::Literal(s) => {
                lemma_resolved_chunks_import_free(
                    f,
                    chunks,
                    chain,
                    depth,
                    i + 1,
                    done.push(StrChunkView::Literal(s)),
                );
            },
            StrChunkView::Expr(e) => {
                lemma_resolved_is_import_free(f, e, chain, depth);
                match resolved(f, e, chain, depth) {
                    Ok(t) => {
                        lemma_resolved_chunks_import_free(
                            f,
                            chunks,
                            chain,
                            depth,
                            i + 1,
                            done.push(StrChunkView::Expr(t)),
                        );
                    },
                    Err(_) => {},
                }
            },
        }
    }
}

/// Import resolution leaves no import: in the term that a successful
/// resolution gives, every import was replaced, those of the imported terms
/// too.
pub proof fn lemma_resolved_is_import_free(
    f: Resolution,
    rt: RichTermView,
    chain: Seq<Seq<char>>,
    depth: nat,
)
    ensures
        resolved(f, rt, chain, depth) matches Ok(t) ==> import_free(t),
    decreases depth, rt, 0int,
{
    match *rt.term {
        TermView::Import(name) => {
            if !chain.contains(name) && depth > 0 {
                match f(name, rt.pos) {
                    Ok(t) => {
                        lemma_resolved_is_import_free(f, t, chain.push(name), (depth - 1) as nat);
                    },
                    Err(_) => {},
                }
            }
        },
        TermView::Fun(_, body) => {
            lemma_resolved_is_import_free(f, body, chain, depth);
        },
        TermView::Let(_, a, b) => {
            lemma_resolved_is_import_free(f, a, chain, depth);
            lemma_resolved_is_import_free(f, b, chain, depth);
        },
        TermView::App(a, b) => {
            lemma_resolved_is_import_free(f, a, chain, depth);
            lemma_resolved_is_import_free(f, b, chain, depth);
        },
        TermView::Op1(_, a) => {
            lemma_resolved_is_import_free(f, a, chain, depth);
        },
        TermView::Op2(_, a, b) => {
            lemma_resolved_is_import_free(f, a, chain, depth);
            lemma_resolved_is_import_free(f, b, chain, depth);
        },
        TermView::If(c, t, e) => {
            lemma_resolved_is_import_free(f, c, chain, depth);
            lemma_resolved_is_import_free(f, t, chain, depth);
            lemma_resolved_is_import_free(f, e, chain, depth);
        },
        TermView::StrChunks(chunks) => {
            lemma_resolved_chunks_import_free(f, chunks, chain, depth, 0, Seq::empty());
            match resolved_chunks(f, chunks, chain, depth, 0, Seq::empty()) {
                Ok(out) => {
                    lemma_import_free_chunks(out, 0);
                },
                Err(_) => {},
            }
        },
        TermView::Record(fields) => {
            lemma_resolved_fields_import_free(f, fields, chain, depth, 0, Seq::empty());
            match resolved_fields(f, fields, chain, depth, 0, Seq::empty()) {
                Ok(out) => {
                    lemma_import_free_fields(out, 0);
                },
                Err(_) => {},
            }
        },
        TermView::RecRecord(fields) => {
            lemma_resolved_fields_import_free(f, fields, chain, depth, 0, Seq::empty());
            match resolved_fields(f, fields, chain, depth, 0, Seq::empty()) {
                Ok(out) => {
                    lemma_import_free_fields(out, 0);
                },
                Err(_) => {},
            }
        },
        TermView::Switch(s, cases, default) => {
            lemma_resolved_is_import_free(f, s, chain, depth);
            lemma_resolved_fields_import_free(f, cases, chain, depth, 0, Seq::empty());
            match resolved_fields(f, cases, chain, depth, 0, Seq::empty()) {
                Ok(out) => {
                    lemma_import_free_fields(out, 0);
                },
                Err(_) => {},
            }
            match default {
                Some(d) => {
                    lemma_resolved_is_import_free(f, d, chain, depth);
                },
                None => {},
            }
        },
        TermView::Array(elems) => {
            lemma_resolved_terms_import_free(f, elems, chain, depth, 0, Seq::empty());
            match resolved_terms(f, elems, chain, depth, 0, Seq::empty()) {
                Ok(out) => {
                    lemma_import_free_terms(out, 0);
                },
                Err(_) => {},
            }
        },
        TermView::MetaValue(m) => {
            lemma_resolved_is_import_free(f, m.value, chain, depth);
        },
        _ => {},
    }
}

/// An import of a name whose own resolution is under way is a cycle,
/// whatever the resolver has for the name; and a source that imports itself
/// is a cycle.
pub proof fn lemma_import_cycle(
    f: Resolution,
    name: Seq<char>,
    pos: TermPos,
    inner_pos: TermPos,
    chain: Seq<Seq<char>>,
    depth: nat,
)
    ensures
        chain.contains(name) ==> resolved(f, at(TermView::Import(name), pos), chain, depth)
            == Err::<RichTermView, ImportErrorView>(ImportErrorView::Cycle(name, pos)),
        !chain.contains(name) && depth > 0 && f(name, pos) == Ok::<RichTermView, ImportErrorView>(
            at(TermView::Import(name), inner_pos),
        ) ==> resolved(f, at(TermView::Import(name), pos), chain, depth) == Err::<
            RichTermView,
            ImportErrorView,
        >(ImportErrorView::Cycle(name, inner_pos)),
{
    if !chain.contains(name) && depth > 0 && f(name, pos) == Ok::<RichTermView, ImportErrorView>(
        at(TermView::Import(name), inner_pos),
    ) {
        assert(chain.push(name)[chain.len() as int] == name);
        assert(chain.push(name).contains(name));
        assert(resolved(
            f,
            at(TermView::Import(name), inner_pos),
            chain.push(name),
            (depth - 1) as nat,
        ) == Err::<RichTermView, ImportErrorView>(ImportErrorView::Cycle(name, inner_pos)));
    }
}

/// The resolution of fields without imports gives the fields.
proof fn lemma_import_free_fields_resolve(
    f: Resolution,
    fields: Seq<(Seq<char>, RichTermView)>,
    chain: Seq<Seq<char>>,
    depth: nat,
    i: int,
    done: Seq<(Seq<char>, RichTermView)>,
)
    requires
        0 <= i <= fields.len(),
        import_free_fields(fields, i),
        done == fields.take(i),
    ensures
        resolved_fields(f, fields, chain, depth, i, done) == Ok::<
            Seq<(Seq<char>, RichTermView)>,
            ImportErrorView,
        >(fields),
    decreases depth, fields, fields.len() - i,
{
    if i < fields.len() {
        lemma_import_free_resolves_to_itself(f, fields[i].1, chain, depth);
        assert(done.push((fields[i].0, fields[i].1)) =~= fields.take(i + 1));
        lemma_import_free_fields_resolve(
            f,
            fields,
            chain,
            depth,
            i + 1,
            done.push((fields[i].0, fields[i].1)),
        );
    } else {
        assert(fields.take(i) =~= fields);
    }
}

/// The resolution of terms without imports gives the terms.
proof fn lemma_import_free_terms_resolve(
    f: Resolution,
    terms: Seq<RichTermView>,
    chain: Seq<Seq<char>>,
    depth: nat,
    i: int,
    done: Seq<RichTermView>,
)
    requires
        0 <= i <= terms.len(),
        import_free_terms(terms, i),
        done == terms.take(i),
    ensures
        resolved_terms(f, terms, chain, depth, i, done) == Ok::<
            Seq<RichTermView>,
            ImportErrorView,
        >(terms),
    decreases depth, terms, terms.len() - i,
{
    if i < terms.len() {
        lemma_import_free_resolves_to_itself(f, terms[i], chain, depth);
        assert(done.push(terms[i]) =~= terms.take(i + 1));
        lemma_import_free_terms_resolve(f, terms, chain, depth, i + 1, done.push(terms[i]));
    } else {
        assert(terms.take(i) =~= terms);
    }
}

/// The resolution of chunks without imports gives the chunks.
proof fn lemma_import_free_chunks_resolve(
    f: Resolution,
    chunks: Seq<StrChunkView>,
    chain: Seq<Seq<char>>,
    depth: nat,
    i: int,
    done: Seq<StrChunkView>,
)
    requires
        0 <= i <= chunks.len(),
        import_free_chunks(chunks, i),
        done == chunks.take(i),
    ensures
        resolved_chunks(f, chunks, chain, depth, i, done) == Ok::<
            Seq<StrChunkView>,
            ImportErrorView,
        >(chunks),
    decreases depth, chunks, chunks.len() - i,
{
    if i < chunks.len() {
        match chunks[i] {
            StrChunkView::Literal(_) => {},
            StrChunkView::Expr(e) => {
                lemma_import_free_resolves_to_itself(f, e, chain, depth);
            },
        }
        assert(done.push(chunks[i]) =~= chunks.take(i + 1));
        lemma_import_free_chunks_resolve(f, chunks, chain, depth, i + 1, done.push(chunks[i]));
    } else {
        assert(chunks.take(i) =~= chunks);
    }
}

/// A term without imports needs no resolver: its resolution succeeds,
/// whatever the resolver has, and gives the term as it is.
pub proof fn lemma_import_free_resolves_to_itself(
    f: Resolution,
    rt: RichTermView,
    chain: Seq<Seq<char>>,
    depth: nat,
)
    requires
        import_free(rt),
    ensures
        resolved(f, rt, chain, depth) == Ok::<RichTermView, ImportErrorView>(rt),
    decreases depth, rt, 0int,
{
    match *rt.term {
        TermView::Fun(_, body) => {
            lemma_import_free_resolves_to_itself(f, body, chain, depth);
        },
        TermView::Let(_, a, b) => {
            lemma_import_free_resolves_to_itself(f, a, chain, depth);
            lemma_import_free_resolves_to_itself(f, b, chain, depth);
        },
        TermView::App(a, b) => {
            lemma_import_free_resolves_to_itself(f, a, chain, depth);
            lemma_import_free_resolves_to_itself(f, b, chain, depth);
        },
        TermView::Op1(_, a) => {
            lemma_import_free_resolves_to_itself(f, a, chain, depth);
        },
        TermView::Op2(_, a, b) => {
            lemma_import_free_resolves_to_itself(f, a, chain, depth);
            lemma_import_free_resolves_to_itself(f, b, chain, depth);
        },
        TermView::If(c, t, e) => {
            lemma_import_free_resolves_to_itself(f, c, chain, depth);
            lemma_import_free_resolves_to_itself(f, t, chain, depth);
            lemma_import_free_resolves_to_itself(f, e, chain, depth);
        },
        TermView::StrChunks(chunks) => {
            assert(chunks.take(0) =~= Seq::empty());
            lemma_import_free_chunks_resolve(f, chunks, chain, depth, 0, Seq::empty());
        },
        TermView::Record(fields) => {
            assert(fields.take(0) =~= Seq::empty());
            lemma_import_free_fields_resolve(f, fields, chain, depth, 0, Seq::empty());
        },
        TermView::RecRecord(fields) => {
            assert(fields.take(0) =~= Seq::empty());
            lemma_import_free_fields_resolve(f, fields, chain, depth, 0, Seq::empty());
        },
        TermView::Switch(s, cases, default) => {
            lemma_import_free_resolves_to_itself(f, s, chain, depth);
            assert(cases.take(0) =~= Seq::empty());
            lemma_import_free_fields_resolve(f, cases, chain, depth, 0, Seq::empty());
            match default {
                Some(d) => {
                    lemma_import_free_resolves_to_itself(f, d, chain, depth);
                },
                None => {},
            }
        },
        TermView::Array(elems) => {
            assert(elems.take(0) =~= Seq::empty());
            lemma_import_free_terms_resolve(f, elems, chain, depth, 0, Seq::empty());
        },
        TermView::MetaValue(m) => {
            lemma_import_free_resolves_to_itself(f, m.value, chain, depth);
        },
        _ => {},
    }
}

/// Whether no import is left in any of the fields.
pub open spec fn fields_free(fields: Seq<(Seq<char>, RichTermView)>) -> bool {
    forall|i: int| 0 <= i < fields.len() ==> import_free((#[trigger] fields[i]).1)
}

/// Whether no import is left in any of the chunks.
pub open spec fn chunks_free(chunks: Seq<StrChunkView>) -> bool {
    forall|i: int| 0 <= i < chunks.len() ==> import_free_chunk(#[trigger] chunks[i])
}

/// Whether no import is left in any thunk of the store.
pub open spec fn store_free(store: StoreView) -> bool {
    forall|i: int| 0 <= i < store.len() ==> import_free((#[trigger] store[i]).closure.body)
}

/// Whether no import is left in the frame.
pub open spec fn frame_free(f: FrameView) -> bool {
    match f {
        FrameView::Arg(c, _) => import_free(c.body),
        FrameView::Update(_) => true,
        FrameView::Op1(_, _) => true,
        FrameView::Op2First(_, c, _) => import_free(c.body),
        FrameView::Op2Second(_, c, _) => import_free(c.body),
        FrameView::If(t, e, _, _) => import_free(t) && import_free(e),
        FrameView::Chunks(_, chunks, _, _) => chunks_free(chunks),
        FrameView::Switch(cases, default, _, _) => fields_free(cases) && match default {
            Some(d) => import_free(d),
            None => true,
        },
    }
}

/// Whether no import is left in any term of the machine.
pub open spec fn machine_free(m: MachineView) -> bool {
    &&& store_free(m.store)
    &&& import_free(m.control.body)
    &&& forall|i: int| 0 <= i < m.stack.len() ==> frame_free(#[trigger] m.stack[i])
}

/// Fields that are free of imports from an index on are so one by one.
proof fn lemma_fields_free(fields: Seq<(Seq<char>, RichTermView)>, i: int)
    requires
        0 <= i,
        import_free_fields(fields, i),
    ensures
        forall|n: int| i <= n < fields.len() ==> import_free((#[trigger] fields[n]).1),
    decreases fields.len() - i,
{
    if i < fields.len() {
        lemma_fields_free(fields, i + 1);
    }
}

/// Chunks that are free of imports from an index on are so one by one.
proof fn lemma_chunks_free(chunks: Seq<StrChunkView>, i: int)
    requires
        0 <= i,
        import_free_chunks(chunks, i),
    ensures
        forall|n: int| i <= n < chunks.len() ==> import_free_chunk(#[trigger] chunks[n]),
    decreases chunks.len() - i,
{
    if i < chunks.len() {
        lemma_chunks_free(chunks, i + 1);
    }
}

/// Reading chunks that are free of imports leaves a machine that is.
proof fn lemma_read_chunks_free(
    store: StoreView,
    stack: Seq<FrameView>,
    acc: Seq<char>,
    chunks: Seq<StrChunkView>,
    env: EnvView,
    pos: TermPos,
)
    requires
        store_free(store),
        forall|i: int| 0 <= i < stack.len() ==> frame_free(#[trigger] stack[i]),
        chunks_free(chunks),
    ensures
        machine_free(read_chunks(store, stack, acc, chunks, env, pos)),
    decreases chunks.len(),
{
    if chunks.len() > 0 {
        let rest = chunks.drop_last();
        assert(chunks_free(rest)) by {
            assert forall|i: int| 0 <= i < rest.len() implies import_free_chunk(
                #[trigger] rest[i],
            ) by {
                assert(rest[i] == chunks[i]);
            }
        }
        match chunks.last() {
            StrChunkView::Literal(s) => {
                lemma_read_chunks_free(store, stack, acc + s, rest, env, pos);
            },
            StrChunkView::Expr(e) => {
                assert(import_free_chunk(chunks[chunks.len() - 1]));
                let frame = FrameView::Chunks(acc, rest, env, pos);
                assert forall|i: int| 0 <= i < stack.push(frame).len() implies frame_free(
                    #[trigger] stack.push(frame)[i],
                ) by {
                    if i < stack.len() {
                        assert(stack.push(frame)[i] == stack[i]);
                    }
                }
            },
        }
    }
}

/// The thunks of a deferred merge of terms that are free of imports are.
proof fn lemma_defer_free(
    store: StoreView,
    a: ClosureView,
    b: ClosureView,
    defaults: bool,
    pos: TermPos,
)
    requires
        store_free(store),
        import_free(a.body),
        import_free(b.body),
    ensures
        store_free(defer(store, a, b, defaults, pos)),
{
    let after = defer(store, a, b, defaults, pos);
    assert(import_free(at(TermView::Var(crate::merge::left_name()), pos)));
    assert(import_free(at(TermView::Var(crate::merge::right_name()), pos)));
    assert(import_free(crate::merge::deferred_term(defaults, pos)));
    assert forall|i: int| 0 <= i < after.len() implies import_free(
        (#[trigger] after[i]).closure.body,
    ) by {
        if i < store.len() {
            assert(after[i] == store[i]);
        }
    }
}

/// Whether no import is left in a merge in progress.
pub open spec fn merged_free(acc: Merged) -> bool {
    store_free(acc.store) && fields_free(acc.fields)
}

/// One more thunk without imports leaves a store that is free of them.
proof fn lemma_push_free(store: StoreView, c: ClosureView, kind: IdentKind)
    requires
        store_free(store),
        import_free(c.body),
    ensures
        store_free(store.push(suspended(c, kind))),
{
    let after = store.push(suspended(c, kind));
    assert forall|i: int| 0 <= i < after.len() implies import_free(
        (#[trigger] after[i]).closure.body,
    ) by {
        if i < store.len() {
            assert(after[i] == store[i]);
        }
    }
}

/// One more field that is a variable leaves fields that are free of imports.
proof fn lemma_with_field_free(
    acc: Merged,
    store: StoreView,
    name: Seq<char>,
    thunk: nat,
    pos: TermPos,
)
    requires
        fields_free(acc.fields),
        store_free(store),
    ensures
        merged_free(acc.with_field(store, name, thunk, pos)),
{
    let next = acc.with_field(store, name, thunk, pos);
    assert forall|i: int| 0 <= i < next.fields.len() implies import_free(
        (#[trigger] next.fields[i]).1,
    ) by {
        if i < acc.fields.len() {
            assert(next.fields[i] == acc.fields[i]);
        }
    }
}

/// The merge of the fields of the left record brings no import.
proof fn lemma_merge_left_free(
    left: Seq<(Seq<char>, RichTermView)>,
    left_env: EnvView,
    right: Seq<(Seq<char>, RichTermView)>,
    right_env: EnvView,
    pos: TermPos,
    i: int,
    acc: Merged,
)
    requires
        merged_free(acc),
        fields_free(left),
        fields_free(right),
    ensures
        merged_free(merge_left(left, left_env, right, right_env, pos, i, acc)),
    decreases left.len() - i,
{
    if 0 <= i < left.len() {
        let (name, t) = left[i];
        let mine = ClosureView { body: t, env: left_env };
        assert(import_free(left[i].1));
        crate::merge::lemma_find_is_field(right, name, 0);
        match find(right, name, 0) {
            Some(j) => {
                let other = ClosureView { body: right[j].1, env: right_env };
                assert(import_free(right[j].1));
                lemma_defer_free(acc.store, mine, other, false, pos);
                let store = defer(acc.store, mine, other, false, pos);
                lemma_with_field_free(acc, store, name, (acc.store.len() + 2) as nat, pos);
                lemma_merge_left_free(
                    left,
                    left_env,
                    right,
                    right_env,
                    pos,
                    i + 1,
                    acc.with_field(store, name, (acc.store.len() + 2) as nat, pos),
                );
            },
            None => {
                lemma_push_free(acc.store, mine, IdentKind::Record);
                let store = acc.store.push(suspended(mine, IdentKind::Record));
                lemma_with_field_free(acc, store, name, acc.store.len(), pos);
                lemma_merge_left_free(
                    left,
                    left_env,
                    right,
                    right_env,
                    pos,
                    i + 1,
                    acc.with_field(store, name, acc.store.len(), pos),
                );
            },
        }
    }
}

/// The merge of the fields of the right record brings no import.
proof fn lemma_merge_right_free(
    left: Seq<(Seq<char>, RichTermView)>,
    right: Seq<(Seq<char>, RichTermView)>,
    right_env: EnvView,
    pos: TermPos,
    j: int,
    acc: Merged,
)
    requires
        merged_free(acc),
        fields_free(right),
    ensures
        merged_free(merge_right(left, right, right_env, pos, j, acc)),
    decreases right.len() - j,
{
    if 0 <= j < right.len() {
        let (name, t) = right[j];
        assert(import_free(right[j].1));
        match find(left, name, 0) {
            Some(_) => {
                lemma_merge_right_free(left, right, right_env, pos, j + 1, acc);
            },
            None => {
                let c = ClosureView { body: t, env: right_env };
                lemma_push_free(acc.store, c, IdentKind::Record);
                let store = acc.store.push(suspended(c, IdentKind::Record));
                lemma_with_field_free(acc, store, name, acc.store.len(), pos);
                lemma_merge_right_free(
                    left,
                    right,
                    right_env,
                    pos,
                    j + 1,
                    acc.with_field(store, name, acc.store.len(), pos),
                );
            },
        }
    }
}

/// The merge of two metavalues without imports brings none.
proof fn lemma_merge_meta_free(
    store: StoreView,
    a: MetaValueView,
    a_env: EnvView,
    b: MetaValueView,
    b_env: EnvView,
    pos: TermPos,
)
    requires
        store_free(store),
        import_free(a.value),
        import_free(b.value),
    ensures
        store_free(merge_meta(store, a, a_env, b, b_env, pos).0),
        import_free(merge_meta(store, a, a_env, b, b_env, pos).1.body),
{
    assert(import_free(at(TermView::Var(crate::merge::merged_name()), pos)));
    if a.priority.rank() == b.priority.rank() {
        lemma_defer_free(
            store,
            ClosureView { body: a.value, env: a_env },
            ClosureView { body: b.value, env: b_env },
            a.priority == crate::term::MergePriority::Default,
            pos,
        );
    }
}

/// A merge of values without imports brings none.
proof fn lemma_merge_free(
    store: StoreView,
    first: ClosureView,
    second: ClosureView,
    defaults: bool,
    pos: TermPos,
)
    requires
        store_free(store),
        import_free(first.body),
        import_free(second.body),
    ensures
        merge_result(store, first, second, defaults, pos) matches Ok((after, c)) ==> store_free(
            after,
        ) && import_free(c.body),
{
    match (*first.body.term, *second.body.term) {
        (TermView::MetaValue(a), TermView::MetaValue(b)) => {
            lemma_merge_meta_free(store, a, first.env, b, second.env, pos);
        },
        (TermView::MetaValue(a), _) => {
            lemma_merge_meta_free(
                store,
                a,
                first.env,
                crate::merge::lift(second.body),
                second.env,
                pos,
            );
        },
        (_, TermView::MetaValue(b)) => {
            lemma_merge_meta_free(
                store,
                crate::merge::lift(first.body),
                first.env,
                b,
                second.env,
                pos,
            );
        },
        (TermView::Record(left), TermView::Record(right)) => {
            lemma_fields_free(left, 0);
            lemma_fields_free(right, 0);
            let begin = Merged { store, env: Map::empty(), fields: Seq::empty() };
            lemma_merge_left_free(left, first.env, right, second.env, pos, 0, begin);
            let half = merge_left(left, first.env, right, second.env, pos, 0, begin);
            lemma_merge_right_free(left, right, second.env, pos, 0, half);
            let all = merge_right(left, right, second.env, pos, 0, half);
            lemma_import_free_fields(all.fields, 0);
        },
        _ => {},
    }
}

/// A frame without imports on a stack without imports leaves one.
proof fn lemma_push_frame_free(stack: Seq<FrameView>, frame: FrameView)
    requires
        forall|i: int| 0 <= i < stack.len() ==> frame_free(#[trigger] stack[i]),
        frame_free(frame),
    ensures
        forall|i: int|
            0 <= i < stack.push(frame).len() ==> frame_free(#[trigger] stack.push(frame)[i]),
{
    assert forall|i: int| 0 <= i < stack.push(frame).len() implies frame_free(
        #[trigger] stack.push(frame)[i],
    ) by {
        if i < stack.len() {
            assert(stack.push(frame)[i] == stack[i]);
        }
    }
}

/// The transition of a machine without imports whose control is a value
/// leaves a machine without imports.
proof fn lemma_return_free(m: MachineView)
    requires
        machine_free(m),
    ensures
        return_value(m) matches StepView::Next(next) ==> machine_free(next),
        !(return_value(m) matches StepView::Fail(EvalErrorView::UnresolvedImport(_, _))),
{
    if m.stack.len() > 0 {
        let rest = m.stack.drop_last();
        let v = m.control;
        assert(frame_free(m.stack[m.stack.len() - 1]));
        assert forall|i: int| 0 <= i < rest.len() implies frame_free(#[trigger] rest[i]) by {
            assert(rest[i] == m.stack[i]);
        }
        match m.stack.last() {
            FrameView::Update(i) => {
                let after = crate::semantics::updated(m.store, i, v);
                assert forall|n: int| 0 <= n < after.len() implies import_free(
                    (#[trigger] after[n]).closure.body,
                ) by {
                    if n != i {
                        assert(after[n] == m.store[n]);
                    } else {
                        assert(import_free(m.store[n].closure.body));
                    }
                }
            },
            FrameView::Arg(arg, _) => {
                lemma_push_free(m.store, arg, IdentKind::Lam);
            },
            FrameView::Op1(op, pos) => {
                match (op, *v.body.term) {
                    (UnaryOpView::StaticAccess(name), TermView::Record(fields)) => {
                        lemma_fields_free(fields, 0);
                        crate::merge::lemma_find_is_field(fields, name, 0);
                    },
                    _ => {},
                }
            },
            FrameView::Op2First(op, second, pos) => {
                lemma_push_frame_free(rest, FrameView::Op2Second(op, v, pos));
            },
            FrameView::Op2Second(op, first, pos) => {
                lemma_merge_free(m.store, first, v, true, pos);
                lemma_merge_free(m.store, first, v, false, pos);
            },
            FrameView::If(_, _, _, _) => {},
            FrameView::Chunks(acc, chunks, env, pos) => {
                match *v.body.term {
                    TermView::Str(text) => {
                        lemma_read_chunks_free(m.store, rest, acc + text, chunks, env, pos);
                    },
                    _ => {},
                }
            },
            FrameView::Switch(cases, _, _, _) => {
                match *v.body.term {
                    TermView::Enum(tag) => {
                        crate::merge::lemma_find_is_field(cases, tag, 0);
                    },
                    _ => {},
                }
            },
        }
    }
}

/// A transition of a machine without imports leaves a machine without
/// imports, and does not fail for an import.
pub proof fn lemma_step_free(m: MachineView, global: EnvView, mode: Mode)
    requires
        machine_free(m),
    ensures
        step(m, global, mode) matches StepView::Next(next) ==> machine_free(next),
        !(step(m, global, mode) matches StepView::Fail(EvalErrorView::UnresolvedImport(_, _))),
{
    let rt = m.control.body;
    let env = m.control.env;
    let pos = rt.pos;
    lemma_return_free(m);
    match *rt.term {
        TermView::Var(x) => {
            match crate::semantics::lookup(env, global, x) {
                Some(i) => {
                    if i < m.store.len() {
                        assert(import_free(m.store[i as int].closure.body));
                        let data = m.store[i as int];
                        let after = m.store.update(
                            i as int,
                            crate::environment::ThunkDataView {
                                state: crate::environment::ThunkState::Blackholed,
                                ..data
                            },
                        );
                        assert forall|n: int| 0 <= n < after.len() implies import_free(
                            (#[trigger] after[n]).closure.body,
                        ) by {
                            if n != i {
                                assert(after[n] == m.store[n]);
                            }
                        }
                        lemma_push_frame_free(m.stack, FrameView::Update(i));
                    }
                },
                None => {},
            }
        },
        TermView::App(f, a) => {
            lemma_push_frame_free(m.stack, FrameView::Arg(ClosureView { body: a, env }, pos));
        },
        TermView::Let(x, bound, body) => {
            lemma_push_free(m.store, ClosureView { body: bound, env }, IdentKind::Let);
        },
        TermView::Op1(op, a) => {
            lemma_push_frame_free(m.stack, FrameView::Op1(op, pos));
        },
        TermView::Op2(op, a, b) => {
            lemma_push_frame_free(
                m.stack,
                FrameView::Op2First(op, ClosureView { body: b, env }, pos),
            );
        },
        TermView::If(c, t, e) => {
            lemma_push_frame_free(m.stack, FrameView::If(t, e, env, pos));
        },
        TermView::StrChunks(chunks) => {
            lemma_chunks_free(chunks, 0);
            lemma_read_chunks_free(m.store, m.stack, Seq::empty(), chunks, env, pos);
        },
        TermView::Switch(scrutinee, cases, default) => {
            lemma_fields_free(cases, 0);
            lemma_push_frame_free(m.stack, FrameView::Switch(cases, default, env, pos));
        },
        TermView::RecRecord(fields) => {
            lemma_fields_free(fields, 0);
            let rec = rec_env(env, fields, m.store.len(), fields.len() as int);
            let after = m.store + field_thunks(fields, rec);
            assert forall|n: int| 0 <= n < after.len() implies import_free(
                (#[trigger] after[n]).closure.body,
            ) by {
                if n < m.store.len() {
                    assert(after[n] == m.store[n]);
                } else {
                    assert(after[n] == field_thunks(fields, rec)[n - m.store.len()]);
                }
            }
            lemma_import_free_fields(var_fields(fields), 0);
        },
        _ => {},
    }
}

/// A run of a machine without imports does not fail for an import.
pub proof fn lemma_run_free(m: MachineView, global: EnvView, mode: Mode, fuel: nat)
    requires
        machine_free(m),
    ensures
        !(run(m, global, mode, fuel).result matches Err(EvalErrorView::UnresolvedImport(_, _))),
    decreases fuel,
{
    if fuel > 0 {
        lemma_step_free(m, global, mode);
        match step(m, global, mode) {
            StepView::Next(next) => {
                lemma_run_free(next, global, mode, (fuel - 1) as nat);
            },
            _ => {},
        }
    }
}

/// Once imports are resolved, evaluation meets none: the evaluation of a
/// term without imports, in a store whose thunks have none, does not fail
/// with `UnresolvedImport`.
pub proof fn lemma_eval_meets_no_import(
    store: StoreView,
    t: RichTermView,
    global: EnvView,
    fuel: nat,
)
    requires
        import_free(t),
        store_free(store),
    ensures
        !(whnf(store, t, global, fuel).result matches Err(EvalErrorView::UnresolvedImport(_, _))),
{
    lemma_run_free(start(store, closed(t)), global, Mode::Strict, fuel);
}

} // verus!
