//! Laws of texts: what trimming leaves, and how numbers and lists are written.
use vstd::prelude::*;

use crate::currency::UnitView;
use crate::mint_url::{url_debug, urls_debug, urls_joined};
use crate::text::{
    decimal, is_white_space, str_debug, trimmed, trimmed_end, trimmed_start,
};

verus! {

/// Whether all characters are whitespace.
pub open spec fn is_blank_text(s: Seq<char>) -> bool {
    forall|i: int| 0 <= i < s.len() ==> is_white_space(#[trigger] s[i])
}

/// Trimming takes away the whitespace at both ends and nothing else, whatever stands between.
pub proof fn trimming_leaves_the_middle(before: Seq<char>, middle: Seq<char>, after: Seq<char>)
    requires
        is_blank_text(before),
        is_blank_text(after),
        middle.len() > 0 ==> !is_white_space(middle[0]) && !is_white_space(middle.last()),
    ensures
        trimmed(before + middle + after) == middle,
{
    if middle.len() == 0 {
        let all = before + middle + after;
        assert forall|i: int| 0 <= i < all.len() implies is_white_space(#[trigger] all[i]) by {
            if i < before.len() {
                assert(all[i] == before[i]);
            } else {
                assert(all[i] == after[i - before.len()]);
            }
        }
        lemma_start_of_blank(all);
        assert(middle =~= Seq::empty());
    } else {
        assert(before + middle + after =~= before + (middle + after));
        lemma_start(before, middle + after);
        lemma_end(middle, after);
    }
}

proof fn lemma_start_of_blank(s: Seq<char>)
    requires
        is_blank_text(s),
    ensures
        trimmed_start(s) == Seq::<char>::empty(),
        trimmed(s) == Seq::<char>::empty(),
    decreases s.len(),
{
    if s.len() > 0 {
        assert forall|i: int| 0 <= i < s.len() - 1 implies is_white_space(#[trigger] s.skip(1)[i]) by {
            assert(s.skip(1)[i] == s[i + 1]);
        }
        lemma_start_of_blank(s.skip(1));
    } else {
        assert(s =~= Seq::empty());
    }
}

proof fn lemma_start(pad: Seq<char>, s: Seq<char>)
    requires
        is_blank_text(pad),
        s.len() > 0,
        !is_white_space(s[0]),
    ensures
        trimmed_start(pad + s) == s,
    decreases pad.len(),
{
    if pad.len() == 0 {
        assert(pad + s =~= s);
    } else {
        assert((pad + s)[0] == pad[0]);
        assert((pad + s).skip(1) =~= pad.skip(1) + s);
        assert forall|i: int| 0 <= i < pad.len() - 1 implies is_white_space(
            #[trigger] pad.skip(1)[i],
        ) by {
            assert(pad.skip(1)[i] == pad[i + 1]);
        }
        lemma_start(pad.skip(1), s);
    }
}

proof fn lemma_end(s: Seq<char>, pad: Seq<char>)
    requires
        is_blank_text(pad),
        s.len() > 0,
        !is_white_space(s.last()),
    ensures
        trimmed_end(s + pad) == s,
    decreases pad.len(),
{
    if pad.len() == 0 {
        assert(s + pad =~= s);
    } else {
        assert((s + pad).last() == pad.last());
        assert((s + pad).drop_last() =~= s + pad.drop_last());
        lemma_end(s, pad.drop_last());
    }
}

/// A number is written digit by digit: ten times as much and a digit more is one digit more behind
/// it, however large the number.
pub proof fn numbers_are_written_digit_by_digit(n: nat, d: nat)
    requires
        d < 10,
    ensures
        decimal(d) == seq!["0123456789"@[d as int]],
        n > 0 ==> decimal(10 * n + d) == decimal(n).push("0123456789"@[d as int]),
{
    reveal_strlit("0123456789");
    assert((10 * n + d) / 10 == n && (10 * n + d) % 10 == d);
    assert(decimal(d) =~= seq!["0123456789"@[d as int]]);
}

/// A list of addresses is shown in brackets, each of them, with a comma and a space in between.
pub proof fn addresses_are_listed(urls: Seq<Seq<char>>, more: Seq<char>)
    ensures
        url_debug(more) == "MintUrl("@ + str_debug(more) + ")"@,
        urls_debug(urls) == "["@ + urls_joined(urls) + "]"@,
        urls_joined(Seq::empty()) == Seq::<char>::empty(),
        urls_joined(seq![more]) == url_debug(more),
        urls.len() > 0 ==> urls_joined(urls.push(more)) == urls_joined(urls) + ", "@ + url_debug(
            more,
        ),
{
    assert(urls.push(more).drop_last() =~= urls);
}

/// A unit is shown by its name, and a custom one with its own name quoted.
pub proof fn units_are_shown_by_name(name: Seq<char>)
    ensures
        UnitView::Sat.debug() == "Sat"@,
        UnitView::Msat.debug() == "Msat"@,
        UnitView::Usd.debug() == "Usd"@,
        UnitView::Eur.debug() == "Eur"@,
        UnitView::Auth.debug() == "Auth"@,
        UnitView::Custom(name).debug() == "Custom("@ + str_debug(name) + ")"@,
{
}

} // verus!
