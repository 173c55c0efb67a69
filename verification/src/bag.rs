//! The bag that blocks are drawn from: every kind comes once before any
//! kind comes again.
use vstd::prelude::*;
use crate::block::BlockKind;

verus! {

/// The kinds that a draw chooses from: those left in the bag, or all seven
/// when none is left.
pub open spec fn bag_source(bag: Seq<BlockKind>) -> Seq<BlockKind> {
    if bag.len() == 0 {
        BlockKind::all()
    } else {
        bag
    }
}

/// The place in `bag_source(bag)` that the raw random number selects.
pub open spec fn bag_index(bag: Seq<BlockKind>, random: int) -> int {
    if bag.len() == 0 {
        random % 7
    } else {
        random % (bag.len() as int)
    }
}

/// The kind that a draw with the raw random number `random` gives.
pub open spec fn bag_pick(bag: Seq<BlockKind>, random: int) -> BlockKind {
    bag_source(bag)[bag_index(bag, random)]
}

/// The bag after that draw.
pub open spec fn bag_rest(bag: Seq<BlockKind>, random: int) -> Seq<BlockKind> {
    bag_source(bag).remove(bag_index(bag, random))
}

/// The bag after one draw for each of `randoms`, in their order.
pub open spec fn bag_after(bag: Seq<BlockKind>, randoms: Seq<int>) -> Seq<BlockKind>
    decreases randoms.len(),
{
    if randoms.len() == 0 {
        bag
    } else {
        bag_after(bag_rest(bag, randoms[0]), randoms.drop_first())
    }
}

/// The kinds that those draws give, in their order.
pub open spec fn bag_picks(bag: Seq<BlockKind>, randoms: Seq<int>) -> Seq<BlockKind>
    decreases randoms.len(),
{
    if randoms.len() == 0 {
        Seq::empty()
    } else {
        seq![bag_pick(bag, randoms[0])] + bag_picks(bag_rest(bag, randoms[0]), randoms.drop_first())
    }
}

/// A removal leaves a sequence free of duplicates.
pub proof fn lemma_remove_keeps_distinct(bag: Seq<BlockKind>, index: int)
    requires
        bag.no_duplicates(),
        0 <= index < bag.len(),
    ensures
        bag.remove(index).no_duplicates(),
{
    let rest = bag.remove(index);
    assert forall|i: int, j: int| 0 <= i < rest.len() && 0 <= j < rest.len() && i != j implies rest[i]
        != rest[j] by {
        let from_i = if i < index { i } else { i + 1 };
        let from_j = if j < index { j } else { j + 1 };
        assert(rest[i] == bag[from_i]);
        assert(rest[j] == bag[from_j]);
    }
}

/// A draw takes one kind out of a bag that was filled up first if it was
/// empty, and leaves the bag free of duplicates.
pub proof fn lemma_draw(bag: Seq<BlockKind>, random: int)
    requires
        bag.no_duplicates(),
    ensures
        0 <= bag_index(bag, random) < bag_source(bag).len(),
        bag_rest(bag, random).len() == bag_source(bag).len() - 1,
        bag_rest(bag, random).no_duplicates(),
        bag.len() == 0 ==> bag_pick(bag, random) == BlockKind::all()[random % 7],
        bag.len() == 0 ==> bag_rest(bag, random).len() == 6,
{
    assert(BlockKind::all().len() == 7);
    assert(BlockKind::all().no_duplicates());
    lemma_remove_keeps_distinct(bag_source(bag), bag_index(bag, random));
}

/// A bag is empty after as many draws as it held kinds, whatever the random
/// numbers are: the draw after those fills it up again. A full bag lasts for
/// seven draws.
pub proof fn lemma_bag_runs_out(bag: Seq<BlockKind>, randoms: Seq<int>)
    requires
        randoms.len() == bag.len(),
    ensures
        bag_after(bag, randoms).len() == 0,
        bag_source(bag_after(bag, randoms)) == BlockKind::all(),
    decreases randoms.len(),
{
    if randoms.len() > 0 {
        lemma_bag_runs_out(bag_rest(bag, randoms[0]), randoms.drop_first());
    }
}

/// The draws that empty a bag give every kind of the bag once: as a multiset,
/// the kinds drawn are the kinds the bag held. Seven draws from a full bag
/// give each of the seven kinds once.
pub proof fn lemma_bag_is_fair(bag: Seq<BlockKind>, randoms: Seq<int>)
    requires
        randoms.len() == bag.len(),
    ensures
        bag_picks(bag, randoms).len() == bag.len(),
        bag_picks(bag, randoms).to_multiset() == bag.to_multiset(),
    decreases randoms.len(),
{
    broadcast use vstd::multiset::group_multiset_axioms;

    if randoms.len() == 0 {
        assert(bag =~= Seq::<BlockKind>::empty());
    } else {
        let index = bag_index(bag, randoms[0]);
        let pick = bag_pick(bag, randoms[0]);
        let rest = bag_rest(bag, randoms[0]);
        let later = bag_picks(rest, randoms.drop_first());
        lemma_bag_is_fair(rest, randoms.drop_first());
        vstd::seq_lib::to_multiset_remove(bag, index);
        vstd::seq_lib::lemma_multiset_commutative(seq![pick], later);
        bag.to_multiset_ensures();
        seq![pick].to_multiset_ensures();
        assert(bag.to_multiset().count(pick) > 0) by {
            assert(bag.contains(pick));
        }
        assert(seq![pick].to_multiset() =~= vstd::multiset::Multiset::<BlockKind>::empty().insert(pick)) by {
            vstd::seq_lib::to_multiset_build(Seq::<BlockKind>::empty(), pick);
            assert(Seq::<BlockKind>::empty().push(pick) =~= seq![pick]);
        }
        assert(bag_picks(bag, randoms).to_multiset() =~= bag.to_multiset());
    }
}

} // verus!
