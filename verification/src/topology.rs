//! Layer widths: which lists of widths describe a network, and how a list
//! with absent layers is brought into that form.

use vstd::prelude::*;

verus! {

/// The widths that remain when absent layers (width zero) are left out.
pub open spec fn compacted(widths: Seq<usize>) -> Seq<usize> {
    widths.filter(|w: usize| w != 0)
}

/// A topology a network can be built on: at least an input and an output
/// layer, and no layer of width zero.
pub open spec fn usable(widths: Seq<usize>) -> bool {
    &&& widths.len() >= 2
    &&& forall|i: int| 0 <= i < widths.len() ==> #[trigger] widths[i] > 0
}

/// The widths of the hidden layers: all but the first and the last.
pub open spec fn hidden(widths: Seq<usize>) -> Seq<usize>
    recommends
        widths.len() >= 2,
{
    widths.subrange(1, widths.len() - 1)
}

/// The topology with the given input width, hidden layers and output width.
pub open spec fn assembled(input: usize, hidden_layers: Seq<usize>, output: usize) -> Seq<
    usize,
> {
    compacted(seq![input] + hidden_layers + seq![output])
}

/// Compaction keeps nothing but positive widths.
pub proof fn lemma_compacted_positive(widths: Seq<usize>)
    ensures
        forall|i: int| 0 <= i < compacted(widths).len() ==> #[trigger] compacted(widths)[i] > 0,
        compacted(widths).len() <= widths.len(),
{
    let keep = |w: usize| w != 0;
    widths.lemma_filter_len(keep);
    assert forall|i: int| 0 <= i < compacted(widths).len() implies #[trigger] compacted(
        widths,
    )[i] > 0 by {
        widths.lemma_filter_pred(keep, i);
    }
}

/// A list without absent layers is its own compaction.
pub proof fn lemma_compacted_fixed(widths: Seq<usize>)
    requires
        forall|i: int| 0 <= i < widths.len() ==> #[trigger] widths[i] > 0,
    ensures
        compacted(widths) == widths,
    decreases widths.len(),
{
    let keep = |w: usize| w != 0;
    reveal(Seq::filter);
    if widths.len() > 0 {
        lemma_compacted_fixed(widths.drop_last());
        assert(widths.drop_last().push(widths.last()) == widths);
    }
}

/// Between a positive input width and a positive output width every choice of
/// hidden layers gives a usable topology, which compaction leaves as it is.
pub proof fn lemma_assembled_usable(input: usize, hidden_layers: Seq<usize>, output: usize)
    requires
        input > 0,
        output > 0,
    ensures
        usable(assembled(input, hidden_layers, output)),
        compacted(assembled(input, hidden_layers, output)) == assembled(
            input,
            hidden_layers,
            output,
        ),
{
    let keep = |w: usize| w != 0;
    let widths = assembled(input, hidden_layers, output);
    Seq::filter_distributes_over_add(seq![input] + hidden_layers, seq![output], keep);
    Seq::filter_distributes_over_add(seq![input], hidden_layers, keep);
    lemma_compacted_fixed(seq![input]);
    lemma_compacted_fixed(seq![output]);
    assert(widths == seq![input] + compacted(hidden_layers) + seq![output]);
    lemma_compacted_positive(seq![input] + hidden_layers + seq![output]);
    lemma_compacted_fixed(widths);
}

/// Leaves out the absent layers, keeping the others in order.
pub fn compact(widths: &Vec<usize>) -> (kept: Vec<usize>)
    ensures
        kept@ == compacted(widths@),
{
    let mut kept: Vec<usize> = Vec::new();
    let mut i: usize = 0;
    proof {
        reveal(Seq::filter);
        assert(widths@.take(0).len() == 0);
    }
    while i < widths.len()
        invariant
            i <= widths.len(),
            kept@ == compacted(widths@.take(i as int)),
        decreases widths.len() - i,
    {
        let w: usize = widths[i];
        proof {
            let keep = |w: usize| w != 0;
            widths@.take(i as int).lemma_filter_push(w, keep);
            assert(widths@.take(i as int).push(w) == widths@.take(i + 1));
        }
        if w != 0 {
            kept.push(w);
        }
        i += 1;
    }
    proof {
        assert(widths@.take(widths.len() as int) == widths@);
    }
    kept
}

/// Whether two lists of widths are the same.
pub fn same_widths(left: &Vec<usize>, right: &Vec<usize>) -> (same: bool)
    ensures
        same == (left@ == right@),
{
    if left.len() != right.len() {
        return false;
    }
    let mut i: usize = 0;
    while i < left.len()
        invariant
            i <= left.len(),
            left.len() == right.len(),
            forall|j: int| 0 <= j < i ==> left@[j] == right@[j],
        decreases left.len() - i,
    {
        if left[i] != right[i] {
            return false;
        }
        i += 1;
    }
    proof {
        assert(left@ =~= right@);
    }
    true
}

/// The topology of a network between a fixed input and a fixed output layer.
pub fn assemble(input: usize, hidden_layers: &Vec<usize>, output: usize) -> (widths: Vec<usize>)
    ensures
        widths@ == assembled(input, hidden_layers@, output),
{
    let mut all: Vec<usize> = Vec::new();
    all.push(input);
    let mut i: usize = 0;
    while i < hidden_layers.len()
        invariant
            i <= hidden_layers.len(),
            all@ == seq![input] + hidden_layers@.take(i as int),
        decreases hidden_layers.len() - i,
    {
        all.push(hidden_layers[i]);
        proof {
            assert(hidden_layers@.take(i + 1) == hidden_layers@.take(i as int).push(
                hidden_layers@[i as int],
            ));
        }
        i += 1;
    }
    proof {
        assert(hidden_layers@.take(hidden_layers.len() as int) == hidden_layers@);
    }
    all.push(output);
    proof {
        assert(all@ =~= seq![input] + hidden_layers@ + seq![output]);
    }
    compact(&all)
}

} // verus!
