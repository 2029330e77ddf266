//! Laws of validation: which token fits, why another does not, and what the mint's answers mean.
use vstd::prelude::*;

use crate::amount_laws::{sum_of, total_is_the_sum};
use crate::challenge::RequirementView;
use crate::currency::UnitView;
use crate::mint_client::MintClientErrorView;
use crate::token::{
    all_amounts, cashu_token_groups, cashu_token_mint, cashu_token_proofs, cashu_token_unit,
    lookup, resolution, resolvable, TokenGroupView,
};
use crate::validator::{
    after_keysets, after_swap, allowed, answerable, begun, mint_failure, structural,
    AwaitingKeysetsView, AwaitingSwapView, ValidatedPopView, ValidationErrorView,
};

verus! {

/// Whether a mint is on a list, or the list is empty.
pub open spec fn is_accepted(mints: Seq<Seq<char>>, mint: Seq<char>) -> bool {
    mints.len() == 0 || exists|i: int| 0 <= i < mints.len() && #[trigger] mints[i] == mint
}

/// A mint is allowed where the list is empty or it stands anywhere on the list.
pub proof fn mints_on_the_list_are_allowed(mints: Seq<Seq<char>>, mint: Seq<char>)
    ensures
        allowed(mints, mint) <==> is_accepted(mints, mint),
{
    if mints.contains(mint) {
        let i = choose|i: int| 0 <= i < mints.len() && mints[i] == mint;
        assert(mints[i] == mint);
    }
}

/// A token fits if and only if it has the unit of the requirement and one mint, which is accepted;
/// it holds proofs, and their amounts add up to at least what is required, in 64 bits.
pub proof fn what_fits(
    unit: Option<UnitView>,
    mint: Result<Seq<char>, Seq<char>>,
    amounts: Seq<u64>,
    req: RequirementView,
    m: Seq<char>,
)
    ensures
        structural(unit, mint, amounts, req) == Ok::<_, ValidationErrorView>(m) <==> unit == Some(
            req.unit,
        ) && mint == Ok::<_, Seq<char>>(m) && is_accepted(req.mints, m) && amounts.len() > 0
            && req.amount <= sum_of(amounts) <= 0xffff_ffff_ffff_ffff,
{
    total_is_the_sum(amounts);
    mints_on_the_list_are_allowed(req.mints, m);
}

/// Another unit, or none, is a mismatch, and nothing else is: a missing unit counts as the custom
/// unit without a name.
pub proof fn other_units_do_not_match(
    unit: Option<UnitView>,
    mint: Result<Seq<char>, Seq<char>>,
    amounts: Seq<u64>,
    req: RequirementView,
    expected: UnitView,
    got: UnitView,
)
    ensures
        structural(unit, mint, amounts, req) == Err::<Seq<char>, _>(
            ValidationErrorView::UnitMismatch { expected, got },
        ) <==> expected == req.unit && (unit == Some(got) && got != req.unit || unit is None && got
            == UnitView::Custom(Seq::empty())),
{
}

/// A mint that is not on the list is refused, with the list, and no other mint is.
pub proof fn other_mints_are_not_allowed(
    unit: Option<UnitView>,
    mint: Result<Seq<char>, Seq<char>>,
    amounts: Seq<u64>,
    req: RequirementView,
    got: Seq<char>,
    list: Seq<Seq<char>>,
)
    ensures
        structural(unit, mint, amounts, req) == Err::<Seq<char>, _>(
            ValidationErrorView::MintNotAllowed { got, allowed: list },
        ) <==> unit == Some(req.unit) && mint == Ok::<_, Seq<char>>(got) && !is_accepted(
            req.mints,
            got,
        ) && list == req.mints,
{
    mints_on_the_list_are_allowed(req.mints, got);
}

/// A token without proofs is empty; one whose amounts add up to less than required is
/// insufficient; one without one mint, or with amounts that do not add up in 64 bits, malformed.
/// Each is refused for that alone.
pub proof fn empty_and_insufficient_tokens_are_refused(
    unit: Option<UnitView>,
    mint: Result<Seq<char>, Seq<char>>,
    amounts: Seq<u64>,
    req: RequirementView,
    required: u64,
    got: u64,
    message: Seq<char>,
)
    ensures
        structural(unit, mint, amounts, req) == Err::<Seq<char>, _>(
            ValidationErrorView::TokenEmpty,
        ) <==> unit == Some(req.unit) && (mint matches Ok(m) && is_accepted(req.mints, m))
            && amounts.len() == 0,
        structural(unit, mint, amounts, req) == Err::<Seq<char>, _>(
            ValidationErrorView::AmountInsufficient { required, got },
        ) <==> unit == Some(req.unit) && (mint matches Ok(m) && is_accepted(req.mints, m))
            && amounts.len() > 0 && required == req.amount && got == sum_of(amounts)
            && sum_of(amounts) < req.amount,
        structural(unit, mint, amounts, req) == Err::<Seq<char>, _>(
            ValidationErrorView::MalformedToken(message),
        ) <==> unit == Some(req.unit) && match mint {
            Err(m) => message == m,
            Ok(m) => is_accepted(req.mints, m) && amounts.len() > 0 && sum_of(amounts)
                > 0xffff_ffff_ffff_ffff && message == "Amount Overflow"@,
        },
{
    total_is_the_sum(amounts);
    if let Ok(m) = mint {
        mints_on_the_list_are_allowed(req.mints, m);
    }
}

/// Validation begins with the token's own unit, mint and amounts, and goes on with the token, its
/// mint and its unit.
pub proof fn validation_is_about_the_token(
    token: Seq<char>,
    req: RequirementView,
    e: ValidationErrorView,
)
    ensures
        begun(token, req) == Err::<AwaitingKeysetsView, _>(e) <==> structural(
            cashu_token_unit(token),
            cashu_token_mint(token),
            all_amounts(cashu_token_groups(token)),
            req,
        ) == Err::<Seq<char>, _>(e),
        begun(token, req) matches Ok(step) ==> step.token == token && cashu_token_mint(token)
            == Ok::<_, Seq<char>>(step.mint_url) && step.unit == req.unit,
{
    if let Ok(mint) = cashu_token_mint(token) {
        what_fits(
            cashu_token_unit(token),
            cashu_token_mint(token),
            all_amounts(cashu_token_groups(token)),
            req,
            mint,
        );
    }
}

/// Failures of the mint mean what they say, at either question.
pub proof fn mint_failures_keep_their_meaning(
    step: AwaitingKeysetsView,
    swap: AwaitingSwapView,
    message: Seq<char>,
)
    ensures
        mint_failure(MintClientErrorView::Unreachable(message))
            == ValidationErrorView::MintUnreachable(message),
        mint_failure(MintClientErrorView::RejectedSwap(message))
            == ValidationErrorView::MintRejectedSwap(message),
        after_keysets(step, Err(MintClientErrorView::Unreachable(message))) == Err::<
            AwaitingSwapView,
            _,
        >(ValidationErrorView::MintUnreachable(message)),
        after_keysets(step, Err(MintClientErrorView::RejectedSwap(message))) == Err::<
            AwaitingSwapView,
            _,
        >(ValidationErrorView::MintRejectedSwap(message)),
        after_swap(swap, Err(MintClientErrorView::Unreachable(message))) == Err::<
            ValidatedPopView,
            _,
        >(ValidationErrorView::MintUnreachable(message)),
        after_swap(swap, Err(MintClientErrorView::RejectedSwap(message))) == Err::<
            ValidatedPopView,
            _,
        >(ValidationErrorView::MintRejectedSwap(message)),
{
}

/// With keysets from the mint, all proofs that the token resolves to are sent to it, as they are;
/// a token that does not resolve is malformed.
pub proof fn all_proofs_are_sent(step: AwaitingKeysetsView, ids: Seq<Seq<u8>>)
    ensures
        cashu_token_proofs(step.token, ids) matches Ok(proofs) ==> after_keysets(step, Ok(ids))
            == Ok::<_, ValidationErrorView>(
            (AwaitingSwapView { mint_url: step.mint_url, unit: step.unit, proofs }),
        ),
        cashu_token_proofs(step.token, ids) matches Err(m) ==> after_keysets(step, Ok(ids))
            == Err::<AwaitingSwapView, _>(ValidationErrorView::MalformedToken(m)),
{
}

/// Whether an id goes on, after its version byte, as the short id does.
pub open spec fn goes_on_alike(id: Seq<u8>, short_id: Seq<u8>) -> bool {
    &&& id.len() >= short_id.len()
    &&& forall|k: int| 1 <= k < short_id.len() ==> #[trigger] id[k] == short_id[k]
}

/// Whether the `i`th id ends the search for a short id: it goes on alike, or it is too short to
/// tell.
pub open spec fn ends_search(short_id: Seq<u8>, ids: Seq<Seq<u8>>, i: int) -> bool {
    0 <= i < ids.len() && (ids[i].len() < short_id.len() || goes_on_alike(ids[i], short_id))
}

/// The search for a short id ends at the first id that goes on alike or is too short, wherever it
/// stands, and fails only where there is none.
pub proof fn the_search_ends_at_the_first(short_id: Seq<u8>, ids: Seq<Seq<u8>>)
    requires
        short_id.len() > 0,
    ensures
        lookup(short_id, ids) is Failed <==> forall|i: int| !#[trigger] ends_search(short_id, ids, i),
        forall|i: int| #[trigger]
            ends_search(short_id, ids, i) && (forall|j: int|
                0 <= j < i ==> !#[trigger] ends_search(short_id, ids, j)) ==> (lookup(short_id, ids)
                is Overrun <==> ids[i].len() < short_id.len()) && (lookup(short_id, ids) is Resolved
                <==> ids[i].len() >= short_id.len()),
    decreases ids.len(),
{
    if ids.len() > 0 {
        let tail = ids.skip(1);
        the_search_ends_at_the_first(short_id, tail);
        let have = ids[0].subrange(1, short_id.len() as int);
        let want = short_id.skip(1);
        if ids[0].len() >= short_id.len() {
            if have == want {
                assert forall|k: int| 1 <= k < short_id.len() implies #[trigger] ids[0][k]
                    == short_id[k] by {
                    assert(have[k - 1] == want[k - 1]);
                }
            } else if goes_on_alike(ids[0], short_id) {
                assert(have =~= want);
            }
        }
        assert forall|i: int| ends_search(short_id, tail, i) == #[trigger] ends_search(
            short_id,
            ids,
            i + 1,
        ) || i < 0 by {
            if 0 <= i < tail.len() {
                assert(tail[i] == ids[i + 1]);
            }
        }
        if ends_search(short_id, ids, 0) {
            assert forall|i: int| #[trigger]
                ends_search(short_id, ids, i) && (forall|j: int|
                    0 <= j < i ==> !#[trigger] ends_search(short_id, ids, j)) implies i == 0 by {
                if i > 0 {
                    assert(!ends_search(short_id, ids, 0));
                }
            }
        } else {
            assert(lookup(short_id, ids) == lookup(short_id, tail));
            if lookup(short_id, tail) is Failed {
                assert forall|i: int| !#[trigger] ends_search(short_id, ids, i) by {
                    if i > 0 {
                        assert(!ends_search(short_id, tail, i - 1));
                        assert(ends_search(short_id, tail, i - 1) == ends_search(
                            short_id,
                            ids,
                            i - 1 + 1,
                        ));
                    }
                }
            } else {
                let i = choose|i: int| ends_search(short_id, tail, i);
                assert(ends_search(short_id, ids, i + 1));
            }
            assert forall|i: int| #[trigger]
                ends_search(short_id, ids, i) && (forall|j: int|
                    0 <= j < i ==> !#[trigger] ends_search(short_id, ids, j)) implies (lookup(
                short_id,
                ids,
            ) is Overrun <==> ids[i].len() < short_id.len()) && (lookup(short_id, ids) is Resolved
                <==> ids[i].len() >= short_id.len()) by {
                assert(ends_search(short_id, tail, i - 1) == ends_search(short_id, ids, i - 1 + 1));
                assert forall|j: int| 0 <= j < i - 1 implies !#[trigger] ends_search(
                    short_id,
                    tail,
                    j,
                ) by {
                    assert(ends_search(short_id, tail, j) == ends_search(short_id, ids, j + 1));
                }
                assert(tail[i - 1] == ids[i]);
            }
        }
    }
}

/// Short ids of version 00 need no search; those that are too short or too long are refused; all
/// others are searched for.
pub proof fn short_ids_are_searched_for(short_id: Seq<u8>, ids: Seq<Seq<u8>>)
    requires
        short_id.len() > 0,
    ensures
        short_id.len() < 8 || short_id.len() > 33 ==> resolution(short_id, ids) is Failed,
        8 <= short_id.len() <= 33 && short_id[0] == 0 ==> resolution(short_id, ids) is Resolved,
        8 <= short_id.len() <= 33 && short_id[0] != 0 ==> resolution(short_id, ids) == lookup(
            short_id,
            ids,
        ),
{
}

/// The groups of a token are resolved one after the other, however many there are: one more in
/// front decides, or leaves it to the others.
pub proof fn groups_are_resolved_in_order(
    first: TokenGroupView,
    others: Seq<TokenGroupView>,
    ids: Seq<Seq<u8>>,
)
    ensures
        resolvable(Seq::empty(), ids),
        resolution(first.short_id, ids) is Failed ==> resolvable(seq![first] + others, ids),
        resolution(first.short_id, ids) is Overrun ==> !resolvable(seq![first] + others, ids),
        resolution(first.short_id, ids) is Resolved ==> resolvable(seq![first] + others, ids)
            == resolvable(others, ids),
{
    assert((seq![first] + others).skip(1) =~= others);
}

/// An answer of the mint can be taken unless it lists keysets in which a short id of the token
/// cannot be looked up; a failure can always be taken.
pub proof fn answers_can_be_taken(
    step: AwaitingKeysetsView,
    ids: Seq<Seq<u8>>,
    e: MintClientErrorView,
)
    ensures
        answerable(step, Err(e)),
        answerable(step, Ok(ids)) <==> resolvable(cashu_token_groups(step.token), ids),
{
}

} // verus!
