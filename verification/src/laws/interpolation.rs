//! Interpolation reads its chunks in the order of the source.
use crate::semantics::take_literals;
use crate::term::{RichTermView, StrChunkView};
use vstd::prelude::*;

verus! {

/// The chunks that are the literals `texts`, held last first as an
/// interpolated string holds them.
pub open spec fn literal_chunks(texts: Seq<Seq<char>>) -> Seq<StrChunkView> {
    Seq::new(texts.len(), |i: int| StrChunkView::Literal(texts[texts.len() - 1 - i]))
}

/// Interpolation keeps the order of the source: chunks that are all
/// literals read as the literals one after the other, first to last,
/// although they are held last first.
pub proof fn lemma_literals_in_source_order(acc: Seq<char>, texts: Seq<Seq<char>>)
    ensures
        take_literals(acc, literal_chunks(texts)) == (
            acc + texts.flatten(),
            Seq::<StrChunkView>::empty(),
            None::<RichTermView>,
        ),
    decreases texts.len(),
{
    let chunks = literal_chunks(texts);
    if texts.len() == 0 {
        assert(acc + texts.flatten() =~= acc);
        assert(chunks =~= Seq::empty());
    } else {
        assert(chunks.last() == StrChunkView::Literal(texts[0]));
        assert(chunks.drop_last() =~= literal_chunks(texts.drop_first()));
        lemma_literals_in_source_order(acc + texts[0], texts.drop_first());
        assert(acc + texts[0] + texts.drop_first().flatten() =~= acc + texts.flatten());
    }
}

/// Interpolation keeps the order of the source: of chunks that are, in the
/// order of the source, the literals `texts`, then the expression `e`, then
/// the chunks `rest`, the literals are read first, the expression `e` is
/// what is evaluated next, and `rest` is what is left for after it.
pub proof fn lemma_first_expression_is_next(
    acc: Seq<char>,
    texts: Seq<Seq<char>>,
    e: RichTermView,
    rest: Seq<StrChunkView>,
)
    ensures
        take_literals(acc, rest.push(StrChunkView::Expr(e)) + literal_chunks(texts)) == (
            acc + texts.flatten(),
            rest,
            Some(e),
        ),
    decreases texts.len(),
{
    let held = rest.push(StrChunkView::Expr(e));
    let chunks = held + literal_chunks(texts);
    if texts.len() == 0 {
        assert(acc + texts.flatten() =~= acc);
        assert(chunks =~= held);
        assert(held.drop_last() =~= rest);
    } else {
        assert(chunks.last() == StrChunkView::Literal(texts[0]));
        assert(chunks.drop_last() =~= held + literal_chunks(texts.drop_first()));
        lemma_first_expression_is_next(acc + texts[0], texts.drop_first(), e, rest);
        assert(acc + texts[0] + texts.drop_first().flatten() =~= acc + texts.flatten());
    }
}

} // verus!
