//! Laws of amounts: what proofs are worth, and that every one of them counts.
use vstd::prelude::*;

use crate::token::{
    all_amounts, amounts_of, checked_total, total, ProofView, TokenGroupView,
};
use crate::validator::{
    after_swap, AwaitingSwapView, ValidatedPopView, ValidationErrorView,
};

verus! {

/// The sum of numbers, one after the other.
pub open spec fn sum_of(amounts: Seq<u64>) -> nat {
    amounts.fold_left(0nat, |sum: nat, amount: u64| sum + amount as nat)
}

/// Each amount adds itself to the total, however many there are: none counts for nothing with
/// nothing before it, and one more amount makes the total more by just that amount.
pub proof fn each_amount_adds_itself(amounts: Seq<u64>, more: u64)
    ensures
        total(Seq::empty()) == 0,
        total(amounts.push(more)) == total(amounts) + more,
{
    assert(amounts.push(more).drop_last() =~= amounts);
}

/// The total of amounts is their sum.
pub proof fn total_is_the_sum(amounts: Seq<u64>)
    ensures
        total(amounts) == sum_of(amounts),
    decreases amounts.len(),
{
    if amounts.len() > 0 {
        total_is_the_sum(amounts.drop_last());
        each_amount_adds_itself(amounts.drop_last(), amounts.last());
        assert(amounts.drop_last().push(amounts.last()) =~= amounts);
    }
}

/// The total of two lists is the total of the one and that of the other.
pub proof fn totals_add_up(one: Seq<u64>, other: Seq<u64>)
    ensures
        total(one + other) == total(one) + total(other),
    decreases other.len(),
{
    if other.len() == 0 {
        assert(one + other =~= one);
        assert(other =~= Seq::empty());
        each_amount_adds_itself(one, 0);
    } else {
        let before = other.drop_last();
        totals_add_up(one, before);
        each_amount_adds_itself(one + before, other.last());
        each_amount_adds_itself(before, other.last());
        assert((one + before).push(other.last()) =~= one + other);
        assert(before.push(other.last()) =~= other);
    }
}

/// Where an amount stands in a list does not matter to the total.
pub proof fn order_does_not_matter_to_the_total(before: Seq<u64>, a: u64, b: u64, after: Seq<u64>)
    ensures
        total(before + seq![a, b] + after) == total(before + seq![b, a] + after),
{
    totals_add_up(before + seq![a, b], after);
    totals_add_up(before + seq![b, a], after);
    totals_add_up(before, seq![a, b]);
    totals_add_up(before, seq![b, a]);
    each_amount_adds_itself(Seq::empty(), a);
    each_amount_adds_itself(Seq::empty(), b);
    each_amount_adds_itself(seq![a], b);
    each_amount_adds_itself(seq![b], a);
    assert(Seq::<u64>::empty().push(a) =~= seq![a]);
    assert(Seq::<u64>::empty().push(b) =~= seq![b]);
    assert(seq![a].push(b) =~= seq![a, b]);
    assert(seq![b].push(a) =~= seq![b, a]);
}

/// A total can be counted if and only if the sum fits in 64 bits, and then it is the sum.
pub proof fn totals_are_counted_where_they_fit(amounts: Seq<u64>)
    ensures
        checked_total(amounts) is Ok <==> sum_of(amounts) <= 0xffff_ffff_ffff_ffff,
        checked_total(amounts) matches Ok(n) ==> n == sum_of(amounts),
        checked_total(amounts) matches Err(m) ==> m == "Amount Overflow"@,
{
    total_is_the_sum(amounts);
}

/// The amounts of proofs are theirs, one for one and in order.
pub proof fn proofs_have_their_amounts(proofs: Seq<ProofView>)
    ensures
        amounts_of(proofs).len() == proofs.len(),
        forall|i: int| 0 <= i < proofs.len() ==> amounts_of(proofs)[i] == (#[trigger] proofs[i]).amount,
{
}

/// A token holds the amounts of all its groups: one more group adds its amounts behind the others.
pub proof fn each_group_adds_its_amounts(groups: Seq<TokenGroupView>, more: TokenGroupView)
    ensures
        all_amounts(Seq::empty()) == Seq::<u64>::empty(),
        all_amounts(groups.push(more)) == all_amounts(groups) + more.amounts,
{
    assert(groups.push(more).drop_last() =~= groups);
}

/// What a token is worth is what its groups are worth together.
pub proof fn each_group_adds_its_worth(groups: Seq<TokenGroupView>, more: TokenGroupView)
    ensures
        total(all_amounts(groups.push(more))) == total(all_amounts(groups)) + sum_of(more.amounts),
{
    each_group_adds_its_amounts(groups, more);
    totals_add_up(all_amounts(groups), more.amounts);
    total_is_the_sum(more.amounts);
}

/// What proofs are worth: the sum of their amounts.
pub open spec fn worth(proofs: Seq<ProofView>) -> nat {
    proofs.fold_left(0nat, |sum: nat, p: ProofView| sum + p.amount as nat)
}

proof fn lemma_worth(proofs: Seq<ProofView>)
    ensures
        worth(proofs) == sum_of(amounts_of(proofs)),
    decreases proofs.len(),
{
    proofs_have_their_amounts(proofs);
    if proofs.len() > 0 {
        lemma_worth(proofs.drop_last());
        proofs_have_their_amounts(proofs.drop_last());
        assert(amounts_of(proofs).drop_last() =~= amounts_of(proofs.drop_last()));
        assert(amounts_of(proofs).last() == proofs.last().amount);
    }
}

/// A successful swap ends in success, however the mint split the value: the verifier keeps all
/// proofs that the mint handed out, and counts what they are worth. Only a worth that does not fit
/// in 64 bits fails.
pub proof fn successful_swaps_succeed(step: AwaitingSwapView, new_proofs: Seq<ProofView>)
    ensures
        worth(new_proofs) <= 0xffff_ffff_ffff_ffff ==> after_swap(step, Ok(new_proofs)) == Ok::<
            _,
            ValidationErrorView,
        >(
            (ValidatedPopView {
                new_proofs,
                mint_url: step.mint_url,
                unit: step.unit,
                amount: worth(new_proofs) as u64,
            }),
        ),
        worth(new_proofs) > 0xffff_ffff_ffff_ffff ==> after_swap(step, Ok(new_proofs)) == Err::<
            ValidatedPopView,
            _,
        >(ValidationErrorView::MalformedToken("Amount Overflow"@)),
{
    lemma_worth(new_proofs);
    totals_are_counted_where_they_fit(amounts_of(new_proofs));
}

/// What the mint hands out decides how a swap ends, not what was sent: two steps at the same mint
/// and in the same unit end alike.
pub proof fn what_was_sent_does_not_matter_to_the_end(
    one: AwaitingSwapView,
    other: AwaitingSwapView,
    new_proofs: Seq<ProofView>,
)
    requires
        one.mint_url == other.mint_url,
        one.unit == other.unit,
    ensures
        after_swap(one, Ok(new_proofs)) == after_swap(other, Ok(new_proofs)),
{
    successful_swaps_succeed(one, new_proofs);
    successful_swaps_succeed(other, new_proofs);
}

} // verus!
