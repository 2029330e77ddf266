//! Cashu tokens, their proofs, and the keyset ids that name who signed them.
//!
//! A [`Token`] keeps the wire form (`cashuA…` or `cashuB…`) of a token that is known to decode;
//! its parts are read out of that form by the `cashu` codec.
use std::str::FromStr;
use vstd::prelude::*;

use crate::currency::{CurrencyUnit, UnitView};
use crate::mint_url::{is_mint_url, text_result, url_result, MintUrl};

verus! {

/// A keyset id: seven bytes in version 00, thirty-two in version 01. Its view is the version byte
/// followed by those bytes.
#[derive(Debug, PartialEq, Eq, Clone, Copy)]
pub enum KeysetId {
    /// Version 00.
    V1([u8; 7]),
    /// Version 01.
    V2([u8; 32]),
}

impl View for KeysetId {
    type V = Seq<u8>;

    open spec fn view(&self) -> Seq<u8> {
        match *self {
            KeysetId::V1(bytes) => seq![0u8] + bytes@,
            KeysetId::V2(bytes) => seq![1u8] + bytes@,
        }
    }
}

/// Whether the bytes are a keyset id of version 00 or 01.
pub open spec fn is_keyset_id(bytes: Seq<u8>) -> bool {
    ||| bytes.len() == 8 && bytes[0] == 0
    ||| bytes.len() == 33 && bytes[0] == 1
}

/// The keyset ids, in order.
pub open spec fn ids_view(ids: Seq<KeysetId>) -> Seq<Seq<u8>> {
    ids.map_values(|id: KeysetId| id@)
}

impl KeysetId {
    /// The version byte and the bytes of the id.
    pub fn to_bytes(&self) -> (r: Vec<u8>)
        ensures
            r@ == self@,
            is_keyset_id(r@),
    {
        let mut out: Vec<u8> = Vec::new();
        match self {
            KeysetId::V1(bytes) => {
                out.push(0);
                out.extend_from_slice(bytes.as_slice());
            },
            KeysetId::V2(bytes) => {
                out.push(1);
                out.extend_from_slice(bytes.as_slice());
            },
        }
        assert(out@ =~= self@);
        out
    }
}

/// A proof: the amount it is worth, and its JSON wire form.
#[derive(Debug, PartialEq, Eq)]
pub struct Proof {
    /// Amount.
    pub amount: u64,
    /// The proof as JSON, all its fields included.
    pub wire: String,
}

/// [`Proof`] over sequences of characters.
pub struct ProofView {
    pub amount: u64,
    pub wire: Seq<char>,
}

impl View for Proof {
    type V = ProofView;

    open spec fn view(&self) -> ProofView {
        ProofView { amount: self.amount, wire: self.wire@ }
    }
}

impl Clone for Proof {
    fn clone(&self) -> (r: Self)
        ensures
            r@ == self@,
    {
        Proof { amount: self.amount, wire: self.wire.clone() }
    }
}

/// The proofs, in order.
pub open spec fn proofs_view(ps: Seq<Proof>) -> Seq<ProofView> {
    ps.map_values(|p: Proof| p@)
}

/// The amounts of proofs, in order.
pub open spec fn amounts_of(ps: Seq<ProofView>) -> Seq<u64> {
    ps.map_values(|p: ProofView| p.amount)
}

/// Proofs of a token that share a keyset: its short id, version byte first, and their amounts.
#[derive(Debug)]
pub struct TokenGroup {
    /// Version byte and prefix of the keyset id.
    pub short_id: Vec<u8>,
    /// Amounts of the proofs.
    pub amounts: Vec<u64>,
}

/// [`TokenGroup`] over sequences.
pub struct TokenGroupView {
    pub short_id: Seq<u8>,
    pub amounts: Seq<u64>,
}

impl View for TokenGroup {
    type V = TokenGroupView;

    open spec fn view(&self) -> TokenGroupView {
        TokenGroupView { short_id: self.short_id@, amounts: self.amounts@ }
    }
}

/// The groups, in order.
pub open spec fn groups_view(gs: Seq<TokenGroup>) -> Seq<TokenGroupView> {
    gs.map_values(|g: TokenGroup| g@)
}

/// All amounts of the groups, in order.
pub open spec fn all_amounts(gs: Seq<TokenGroupView>) -> Seq<u64>
    decreases gs.len(),
{
    if gs.len() == 0 {
        Seq::empty()
    } else {
        all_amounts(gs.drop_last()) + gs.last().amounts
    }
}

/// The sum of amounts.
pub open spec fn total(amounts: Seq<u64>) -> nat
    decreases amounts.len(),
{
    if amounts.len() == 0 {
        0
    } else {
        total(amounts.drop_last()) + amounts.last() as nat
    }
}

/// Whether `cashu::Token::from_str` decodes a text; if not, its error message.
pub uninterp spec fn cashu_token(text: Seq<char>) -> Result<(), Seq<char>>;

/// The unit of the token that a text decodes to; a version 3 token may have none.
pub uninterp spec fn cashu_token_unit(text: Seq<char>) -> Option<UnitView>;

/// The one mint of the token that a text decodes to, or why there is not exactly one.
pub uninterp spec fn cashu_token_mint(text: Seq<char>) -> Result<Seq<char>, Seq<char>>;

/// The short keyset ids and amounts of the token that a text decodes to, in wire order.
pub uninterp spec fn cashu_token_groups(text: Seq<char>) -> Seq<TokenGroupView>;

/// The proofs of the token that a text decodes to, with short keyset ids resolved among `ids`;
/// or why one cannot be resolved.
pub uninterp spec fn cashu_token_proofs(text: Seq<char>, ids: Seq<Seq<u8>>) -> Result<
    Seq<ProofView>,
    Seq<char>,
>;

/// Whether the text decodes to a token.
pub open spec fn decodes(text: Seq<char>) -> bool {
    cashu_token(text) is Ok
}

/// A decoding result taken by view.
pub open spec fn unit_or_message(r: Result<(), String>) -> Result<(), Seq<char>> {
    match r {
        Ok(()) => Ok(()),
        Err(m) => Err(m@),
    }
}

/// A proof list result taken by view.
pub open spec fn proofs_result(r: Result<Vec<Proof>, String>) -> Result<
    Seq<ProofView>,
    Seq<char>,
> {
    match r {
        Ok(ps) => Ok(proofs_view(ps@)),
        Err(m) => Err(m@),
    }
}

/// `cashu::Token::from_str`: decodes a `cashuA…` or `cashuB…` text. Whether it does, and the
/// message if not, is named by [`cashu_token`]: it is a function of the text alone.
#[verifier::external_body]
fn token_from_str(text: &str) -> (r: Result<(), String>)
    ensures
        unit_or_message(r) == cashu_token(text@),
{
    match cashu::Token::from_str(text) {
        Ok(_) => Ok(()),
        Err(e) => Err(e.to_string()),
    }
}

/// `cashu::Token::unit` of a decoded text, named by [`cashu_token_unit`]: it is a function of the
/// text alone.
#[verifier::external_body]
fn token_unit(text: &str) -> (r: Option<CurrencyUnit>)
    requires
        decodes(text@),
    ensures
        (match r {
            Some(unit) => Some(unit@),
            None => None,
        }) == cashu_token_unit(text@),
{
    match cashu::Token::from_str(text).expect("text decodes").unit()? {
        cashu::CurrencyUnit::Sat => Some(CurrencyUnit::Sat),
        cashu::CurrencyUnit::Msat => Some(CurrencyUnit::Msat),
        cashu::CurrencyUnit::Usd => Some(CurrencyUnit::Usd),
        cashu::CurrencyUnit::Eur => Some(CurrencyUnit::Eur),
        cashu::CurrencyUnit::Auth => Some(CurrencyUnit::Auth),
        cashu::CurrencyUnit::Custom(name) => Some(CurrencyUnit::Custom(name)),
        other => Some(CurrencyUnit::Custom(other.to_string())),
    }
}

/// `cashu::Token::mint_url` of a decoded text, named by [`cashu_token_mint`]: it is a function of
/// the text alone. An address in a token is always a normalised one.
#[verifier::external_body]
fn token_mint_url(text: &str) -> (r: Result<String, String>)
    requires
        decodes(text@),
    ensures
        text_result(r) == cashu_token_mint(text@),
        r matches Ok(url) ==> is_mint_url(url@),
{
    match cashu::Token::from_str(text).expect("text decodes").mint_url() {
        Ok(url) => Ok(url.to_string()),
        Err(e) => Err(e.to_string()),
    }
}

/// The keyset ids and amounts that `cashu::Token::from_str` reads from a decoded text: one group
/// per proof in version 3, one per keyset in version 4. They are named by
/// [`cashu_token_groups`]: a function of the text alone. Every short id starts with its version,
/// 0 or 1.
#[verifier::external_body]
fn token_groups(text: &str) -> (r: Vec<TokenGroup>)
    requires
        decodes(text@),
    ensures
        groups_view(r@) == cashu_token_groups(text@),
        forall|i: int|
            0 <= i < r@.len() ==> (#[trigger] r@[i]).short_id@.len() > 0 && r@[i].short_id@[0] <= 1,
{
    match cashu::Token::from_str(text).expect("text decodes") {
        cashu::Token::TokenV3(token) => token.token.iter().flat_map(|m| m.proofs.iter()).map(
            |p| TokenGroup { short_id: p.keyset_id.to_bytes(), amounts: vec![p.amount.into()] },
        ).collect(),
        cashu::Token::TokenV4(token) => token.token.iter().map(
            |g| TokenGroup {
                short_id: g.keyset_id.to_bytes(),
                amounts: g.proofs.iter().map(|p| p.amount.into()).collect(),
            },
        ).collect(),
    }
}

/// `cashu::Token::proofs` of a decoded text. It is named by [`cashu_token_proofs`]: a function of
/// the text and of the ids of the keysets, the only part of a keyset that it reads. The proofs
/// carry the amounts of the token, in order. Where [`resolvable`] fails, the call would index out
/// of range.
#[verifier::external_body]
fn token_proofs(text: &str, ids: &Vec<Vec<u8>>) -> (r: Result<Vec<Proof>, String>)
    requires
        decodes(text@),
        forall|i: int| 0 <= i < ids@.len() ==> is_keyset_id((#[trigger] ids@[i])@),
        resolvable(cashu_token_groups(text@), bytes_view(ids@)),
    ensures
        proofs_result(r) == cashu_token_proofs(text@, bytes_view(ids@)),
        r matches Ok(ps) ==> amounts_of(proofs_view(ps@)) == all_amounts(
            cashu_token_groups(text@),
        ),
{
    let infos: Vec<cashu::KeySetInfo> = ids.iter().map(|id| cashu::KeySetInfo {
        id: cashu::Id::from_bytes(id).expect("keyset id"),
        unit: cashu::CurrencyUnit::Sat,
        active: true,
        input_fee_ppk: 0,
        final_expiry: None,
    }).collect();
    match cashu::Token::from_str(text).expect("text decodes").proofs(&infos) {
        Ok(ps) => Ok(ps.iter().map(|p| Proof {
            amount: p.amount.into(),
            wire: serde_json::to_string(p).expect("proof is JSON"),
        }).collect()),
        Err(e) => Err(e.to_string()),
    }
}

/// The byte strings, in order.
pub open spec fn bytes_view(ids: Seq<Vec<u8>>) -> Seq<Seq<u8>> {
    ids.map_values(|id: Vec<u8>| id@)
}

/// How looking up a short keyset id ends.
pub enum Lookup {
    /// There is an id for it.
    Resolved,
    /// There is none, or the short id is ill-formed.
    Failed,
    /// An id shorter than the short id comes first.
    Overrun,
}

/// How looking up the short id among `ids`, first match first, ends.
pub open spec fn lookup(short_id: Seq<u8>, ids: Seq<Seq<u8>>) -> Lookup
    decreases ids.len(),
{
    if ids.len() == 0 {
        Lookup::Failed
    } else if ids[0].len() < short_id.len() {
        Lookup::Overrun
    } else if ids[0].subrange(1, short_id.len() as int) == short_id.skip(1) {
        Lookup::Resolved
    } else {
        lookup(short_id, ids.skip(1))
    }
}

/// How resolving a short id ends: one of version 00 stands for itself, one of version 01 is looked
/// up; the prefix must have seven to thirty-two bytes.
pub open spec fn resolution(short_id: Seq<u8>, ids: Seq<Seq<u8>>) -> Lookup {
    if short_id.len() < 8 || short_id.len() > 33 {
        Lookup::Failed
    } else if short_id[0] == 0 {
        Lookup::Resolved
    } else {
        lookup(short_id, ids)
    }
}

/// Whether resolving the groups in order ends, with ids for all or at the first failure, before
/// any lookup meets an id shorter than the short id.
pub open spec fn resolvable(groups: Seq<TokenGroupView>, ids: Seq<Seq<u8>>) -> bool
    decreases groups.len(),
{
    groups.len() == 0 || match resolution(groups[0].short_id, ids) {
        Lookup::Resolved => resolvable(groups.skip(1), ids),
        Lookup::Failed => true,
        Lookup::Overrun => false,
    }
}

/// Short ids of the usual length, a version byte and up to seven more, can always be looked up.
pub proof fn usual_short_ids_can_be_looked_up(groups: Seq<TokenGroupView>, ids: Seq<Seq<u8>>)
    requires
        forall|i: int| 0 <= i < groups.len() ==> (#[trigger] groups[i]).short_id.len() <= 8,
        forall|i: int| 0 <= i < ids.len() ==> is_keyset_id(#[trigger] ids[i]),
    ensures
        resolvable(groups, ids),
    decreases groups.len(),
{
    if groups.len() > 0 {
        lemma_no_overrun(groups[0].short_id, ids);
        usual_short_ids_can_be_looked_up(groups.skip(1), ids);
    }
}

proof fn lemma_no_overrun(short_id: Seq<u8>, ids: Seq<Seq<u8>>)
    requires
        short_id.len() <= 8,
        forall|i: int| 0 <= i < ids.len() ==> is_keyset_id(#[trigger] ids[i]),
    ensures
        !(lookup(short_id, ids) is Overrun),
    decreases ids.len(),
{
    if ids.len() > 0 {
        assert(is_keyset_id(ids[0]));
        lemma_no_overrun(short_id, ids.skip(1));
    }
}

/// Tells how looking up a short id ends.
fn look_up(short_id: &Vec<u8>, ids: &Vec<Vec<u8>>) -> (r: Lookup)
    requires
        short_id@.len() > 0,
    ensures
        r == resolution(short_id@, bytes_view(ids@)),
{
    let n: usize = short_id.len();
    let ghost all = bytes_view(ids@);
    if n < 8 || n > 33 {
        return Lookup::Failed;
    }
    if short_id[0] == 0 {
        return Lookup::Resolved;
    }
    let mut i: usize = 0;
    assert(all.skip(0) =~= all);
    while i < ids.len()
        invariant
            i <= ids@.len(),
            8 <= n == short_id@.len() <= 33,
            short_id@[0] != 0,
            all == bytes_view(ids@),
            lookup(short_id@, all) == lookup(short_id@, all.skip(i as int)),
        decreases ids@.len() - i,
    {
        let ghost id = all.skip(i as int)[0];
        assert(id == ids@[i as int]@);
        if ids[i].len() < n {
            return Lookup::Overrun;
        }
        if starts_alike(&ids[i], short_id) {
            return Lookup::Resolved;
        }
        assert(all.skip(i as int).skip(1) =~= all.skip(i + 1));
        i += 1;
    }
    Lookup::Failed
}

/// Whether the id goes on, after its version byte, as the short id does.
fn starts_alike(id: &Vec<u8>, short_id: &Vec<u8>) -> (r: bool)
    requires
        0 < short_id@.len() <= id@.len(),
    ensures
        r == (id@.subrange(1, short_id@.len() as int) == short_id@.skip(1)),
{
    let ghost want = short_id@.skip(1);
    let ghost have = id@.subrange(1, short_id@.len() as int);
    let mut j: usize = 1;
    while j < short_id.len()
        invariant
            1 <= j <= short_id@.len() <= id@.len(),
            want == short_id@.skip(1),
            have == id@.subrange(1, short_id@.len() as int),
            forall|k: int| 1 <= k < j ==> id@[k] == short_id@[k],
        decreases short_id@.len() - j,
    {
        if id[j] != short_id[j] {
            assert(have[j - 1] != want[j - 1]);
            return false;
        }
        j += 1;
    }
    assert(have =~= want);
    true
}

/// A token that is known to decode. Its view is its wire form.
#[derive(Debug)]
pub struct Token {
    text: String,
}

impl View for Token {
    type V = Seq<char>;

    closed spec fn view(&self) -> Seq<char> {
        self.text@
    }
}

/// A decoded token taken by view.
pub open spec fn token_result(r: Result<Token, String>) -> Result<Seq<char>, Seq<char>> {
    match r {
        Ok(token) => Ok(token@),
        Err(m) => Err(m@),
    }
}

impl Clone for Token {
    fn clone(&self) -> (r: Self)
        ensures
            r@ == self@,
    {
        proof {
            use_type_invariant(self);
        }
        Token { text: self.text.clone() }
    }
}

impl Token {
    /// The wire form decodes.
    #[verifier::type_invariant]
    spec fn valid(self) -> bool {
        decodes(self.text@)
    }

    /// Accepts a wire form that decodes.
    pub fn from_str(text: &str) -> (r: Result<Token, String>)
        ensures
            token_result(r) == match cashu_token(text@) {
                Ok(()) => Ok::<_, Seq<char>>(text@),
                Err(m) => Err(m),
            },
    {
        match token_from_str(text) {
            Ok(()) => Ok(Token { text: text.to_string() }),
            Err(m) => Err(m),
        }
    }

    /// The wire form.
    pub fn as_str(&self) -> (r: &str)
        ensures
            r@ == self@,
            decodes(r@),
    {
        proof {
            use_type_invariant(self);
        }
        self.text.as_str()
    }

    /// The unit, if the token names one.
    pub fn unit(&self) -> (r: Option<CurrencyUnit>)
        ensures
            (match r {
                Some(unit) => Some(unit@),
                None => None,
            }) == cashu_token_unit(self@),
    {
        token_unit(self.as_str())
    }

    /// The mint that issued the token; a message where it is not exactly one.
    pub fn mint_url(&self) -> (r: Result<MintUrl, String>)
        ensures
            url_result(r) == cashu_token_mint(self@),
    {
        match token_mint_url(self.as_str()) {
            Ok(url) => Ok(MintUrl::from_normalised(url)),
            Err(m) => Err(m),
        }
    }

    /// The amounts of the proofs, in order.
    pub fn amounts(&self) -> (r: Vec<u64>)
        ensures
            r@ == all_amounts(cashu_token_groups(self@)),
    {
        let groups = token_groups(self.as_str());
        let ghost all = groups_view(groups@);
        let mut out: Vec<u64> = Vec::new();
        let mut i: usize = 0;
        while i < groups.len()
            invariant
                i <= groups@.len(),
                all == groups_view(groups@),
                out@ == all_amounts(all.take(i as int)),
            decreases groups@.len() - i,
        {
            let ghost before = out@;
            out.extend_from_slice(groups[i].amounts.as_slice());
            assert(out@ =~= before + groups@[i as int].amounts@);
            assert(all.take(i + 1).drop_last() =~= all.take(i as int));
            i += 1;
        }
        assert(all.take(all.len() as int) =~= all);
        out
    }

    /// Whether the keyset ids of the token can be looked up among `ids`; see [`resolvable`].
    pub fn is_resolvable(&self, ids: &Vec<KeysetId>) -> (r: bool)
        ensures
            r == resolvable(cashu_token_groups(self@), ids_view(ids@)),
    {
        let groups = token_groups(self.as_str());
        let bytes = bytes_of_ids(ids);
        let ghost all = groups_view(groups@);
        let mut i: usize = 0;
        assert(all.skip(0) =~= all);
        while i < groups.len()
            invariant
                i <= groups@.len(),
                all == groups_view(groups@),
                all == cashu_token_groups(self@),
                bytes_view(bytes@) == ids_view(ids@),
                forall|j: int|
                    0 <= j < groups@.len() ==> (#[trigger] groups@[j]).short_id@.len() > 0,
                resolvable(all, bytes_view(bytes@)) == resolvable(
                    all.skip(i as int),
                    bytes_view(bytes@),
                ),
            decreases groups@.len() - i,
        {
            assert(all.skip(i as int)[0] == groups@[i as int]@);
            match look_up(&groups[i].short_id, &bytes) {
                Lookup::Resolved => {},
                Lookup::Failed => return true,
                Lookup::Overrun => return false,
            }
            assert(all.skip(i as int).skip(1) =~= all.skip(i + 1));
            i += 1;
        }
        true
    }

    /// The proofs, with short keyset ids resolved among `ids`.
    pub fn proofs(&self, ids: &Vec<KeysetId>) -> (r: Result<Vec<Proof>, String>)
        requires
            resolvable(cashu_token_groups(self@), ids_view(ids@)),
        ensures
            proofs_result(r) == cashu_token_proofs(self@, ids_view(ids@)),
            r matches Ok(ps) ==> amounts_of(proofs_view(ps@)) == all_amounts(
                cashu_token_groups(self@),
            ),
    {
        let bytes = bytes_of_ids(ids);
        token_proofs(self.as_str(), &bytes)
    }
}

/// The bytes of each keyset id.
fn bytes_of_ids(ids: &Vec<KeysetId>) -> (r: Vec<Vec<u8>>)
    ensures
        bytes_view(r@) == ids_view(ids@),
        forall|i: int| 0 <= i < r@.len() ==> is_keyset_id((#[trigger] r@[i])@),
{
    let mut out: Vec<Vec<u8>> = Vec::new();
    let mut i: usize = 0;
    while i < ids.len()
        invariant
            i == out@.len() <= ids@.len(),
            forall|j: int|
                0 <= j < i ==> (#[trigger] out@[j])@ == ids@[j]@ && is_keyset_id(out@[j]@),
        decreases ids@.len() - i,
    {
        out.push(ids[i].to_bytes());
        i += 1;
    }
    assert(bytes_view(out@) =~= ids_view(ids@));
    out
}

proof fn lemma_total_bound(amounts: Seq<u64>, n: int)
    requires
        0 <= n <= amounts.len(),
    ensures
        total(amounts.take(n)) <= total(amounts),
    decreases amounts.len() - n,
{
    if n < amounts.len() {
        assert(amounts.take(n + 1).drop_last() =~= amounts.take(n));
        lemma_total_bound(amounts, n + 1);
    } else {
        assert(amounts.take(n) =~= amounts);
    }
}

/// What a total is: the sum, or a message where it does not fit.
pub open spec fn checked_total(amounts: Seq<u64>) -> Result<u64, Seq<char>> {
    if total(amounts) <= u64::MAX {
        Ok(total(amounts) as u64)
    } else {
        Err("Amount Overflow"@)
    }
}

/// A number or a message, taken by view.
pub open spec fn number_result(r: Result<u64, String>) -> Result<u64, Seq<char>> {
    match r {
        Ok(n) => Ok(n),
        Err(m) => Err(m@),
    }
}

/// Adds up amounts.
pub fn sum_amounts(amounts: &Vec<u64>) -> (r: Result<u64, String>)
    ensures
        number_result(r) == checked_total(amounts@),
{
    let mut sum: u64 = 0;
    let mut i: usize = 0;
    while i < amounts.len()
        invariant
            i <= amounts@.len(),
            sum == total(amounts@.take(i as int)),
        decreases amounts@.len() - i,
    {
        assert(amounts@.take(i + 1).drop_last() =~= amounts@.take(i as int));
        proof {
            lemma_total_bound(amounts@, i + 1);
        }
        match sum.checked_add(amounts[i]) {
            Some(next) => {
                sum = next;
            },
            None => {
                return Err("Amount Overflow".to_string());
            },
        }
        i += 1;
    }
    assert(amounts@.take(i as int) =~= amounts@);
    Ok(sum)
}

/// Adds up the amounts of proofs.
pub fn total_amount(ps: &Vec<Proof>) -> (r: Result<u64, String>)
    ensures
        number_result(r) == checked_total(amounts_of(proofs_view(ps@))),
{
    let mut amounts: Vec<u64> = Vec::new();
    let mut i: usize = 0;
    while i < ps.len()
        invariant
            i == amounts@.len() <= ps@.len(),
            forall|j: int| 0 <= j < i ==> amounts@[j] == (#[trigger] ps@[j]).amount,
        decreases ps@.len() - i,
    {
        amounts.push(ps[i].amount);
        i += 1;
    }
    assert(amounts@ =~= amounts_of(proofs_view(ps@)));
    sum_amounts(&amounts)
}

} // verus!
