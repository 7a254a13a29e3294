//! The ledger in mathematical terms: its state, and what each operation
//! makes of it.

use vstd::prelude::*;

use crate::fuse::{any_satisfied, series_of_tokens};
use crate::ids::{
    decimal, edition_part, lemma_decimal_injective, lemma_decimal_no_colon, lemma_series_part_of_token_id,
    series_id_at, series_part, token_id_of, valid_account_id,
};
use crate::royalty::paid_bp;
use crate::strmap::StrMap;
use crate::types::{
    requirements_view, AccountId, Balance, ContractError, NFTContractMetadata, Token, TokenMetadata,
    TokenSeries, TokenSeriesId, TokenSeriesJson,
};

verus! {

/// The icon of the default ledger metadata.
pub const DATA_IMAGE_SVG_NEAR_ICON: &'static str = "data:image/svg+xml,%3Csvg xmlns='http://www.w3.org/2000/svg' viewBox='0 0 288 288'%3E%3Cg id='l' data-name='l'%3E%3Cpath d='M187.58,79.81l-30.1,44.69a3.2,3.2,0,0,0,4.75,4.2L191.86,103a1.2,1.2,0,0,1,2,.91v80.46a1.2,1.2,0,0,1-2.12.77L102.18,77.93A15.35,15.35,0,0,0,90.47,72.5H87.34A15.34,15.34,0,0,0,72,87.84V201.16A15.34,15.34,0,0,0,87.34,216.5h0a15.35,15.35,0,0,0,13.08-7.31l30.1-44.69a3.2,3.2,0,0,0-4.75-4.2L96.14,186a1.2,1.2,0,0,1-2-.91V104.61a1.2,1.2,0,0,1,2.12-.77l89.55,107.23a15.35,15.35,0,0,0,11.71,5.43h3.13A15.34,15.34,0,0,0,216,201.16V87.84A15.34,15.34,0,0,0,200.66,72.5h0A15.35,15.35,0,0,0,187.58,79.81Z'/%3E%3C/g%3E%3C/svg%3E";

/// The metadata standard that the ledger follows.
pub const NFT_METADATA_SPEC: &'static str = "nft-1.0.0";

/// Separates the series id from the edition in a token id.
pub const TOKEN_DELIMETER: char = ':';

/// Separates the series title from the edition in a token's display title.
pub const TITLE_DELIMETER: &'static str = " #";

/// Separates the edition from the number of copies in a display title.
pub const EDITION_DELIMETER: &'static str = "/";

/// The most named royalty accounts a series may have.
pub const MAX_ROYALTY_ACCOUNTS: usize = 10;

/// The most basis points that named royalty accounts may take together.
pub const MAX_ROYALTY_BASIS_POINTS: u64 = 9000;

/// The whole of a sale, in basis points.
pub const FULL_BASIS_POINTS: u32 = 10000;

/// The ledger's state in mathematical terms.
pub struct LedgerView {
    /// The registry owner.
    pub owner_id: Seq<char>,
    pub metadata: NFTContractMetadata,
    /// The series; the one at position `i` has id `series_id_at(i)`.
    pub series: Seq<TokenSeries>,
    /// The owner of each live token.
    pub owners: Map<Seq<char>, Seq<char>>,
    /// The approval table of each token that has one.
    pub approvals: Map<Seq<char>, Map<Seq<char>, u64>>,
    /// The next approval id of each token that has been approved.
    pub next_approval_ids: Map<Seq<char>, u64>,
    /// The time at which each live token was issued.
    pub issued_at: Map<Seq<char>, u64>,
    /// The two series that loot is drawn from, once configured.
    pub random_loot: Option<Seq<Seq<char>>>,
    /// The token that each account last obtained by fusing.
    pub last_token_by_owner: Map<Seq<char>, Seq<char>>,
}

/// The sum of the basis points of a royalty table's entries.
pub open spec fn bp_total(s: Seq<(String, u32)>) -> nat
    decreases s.len(),
{
    if s.len() == 0 {
        0
    } else {
        bp_total(s.drop_last()) + s.last().1 as nat
    }
}

/// The supply cap of a series: its `copies`, or the largest `u64`.
pub open spec fn cap(s: TokenSeries) -> nat {
    match s.metadata.copies {
        Some(c) => c as nat,
        None => u64::MAX as nat,
    }
}

/// A series can mint while it is open and under its cap.
pub open spec fn can_mint(s: TokenSeries) -> bool {
    s.is_mintable && s.minted < cap(s)
}

/// A series after one more mint: it closes at the mint that reaches its cap.
pub open spec fn after_mint(s: TokenSeries) -> TokenSeries {
    TokenSeries { minted: (s.minted + 1) as u64, is_mintable: s.is_mintable && s.minted + 1 < cap(s), ..s }
}

/// The position of the series with id `id` among `n` series.
pub open spec fn series_index(n: nat, id: Seq<char>) -> Option<int> {
    if exists|i: int| 0 <= i < n && series_id_at(i) == id {
        Some(choose|i: int| 0 <= i < n && series_id_at(i) == id)
    } else {
        None
    }
}

/// The id of the next token that series `idx` mints.
pub open spec fn next_token_id(v: LedgerView, idx: int) -> Seq<char> {
    token_id_of(series_id_at(idx), (v.series[idx].minted + 1) as nat)
}

/// The ledger after series `idx` mints its next token to `receiver` at time `now`.
pub open spec fn minted_view(v: LedgerView, idx: int, receiver: Seq<char>, now: u64) -> LedgerView {
    let t = next_token_id(v, idx);
    LedgerView {
        series: v.series.update(idx, after_mint(v.series[idx])),
        owners: v.owners.insert(t, receiver),
        issued_at: v.issued_at.insert(t, now),
        ..v
    }
}

/// Every account named in a royalty table is a valid account id.
pub open spec fn royalty_accounts_valid(m: Map<Seq<char>, u32>) -> bool {
    forall|k: Seq<char>| #[trigger] m.contains_key(k) ==> valid_account_id(k)
}

/// Why creating a series would fail, if it would.
pub open spec fn create_series_error(
    v: LedgerView,
    caller: Seq<char>,
    creator_id: Option<Seq<char>>,
    has_title: bool,
    royalty: Option<StrMap<u32>>,
) -> Option<ContractError> {
    if creator_id matches Some(c) && !valid_account_id(c) {
        Some(ContractError::InvalidAccountId)
    } else if caller != v.owner_id {
        Some(ContractError::Unauthorized)
    } else if creator_id matches Some(c) && c != caller {
        Some(ContractError::Unauthorized)
    } else if v.series.len() + 2 >= u64::MAX {
        Some(ContractError::CapacityExceeded)
    } else if !has_title {
        Some(ContractError::TitleRequired)
    } else if royalty matches Some(m) && !royalty_accounts_valid(m@) {
        Some(ContractError::InvalidAccountId)
    } else if royalty matches Some(m) && (m@.len() > MAX_ROYALTY_ACCOUNTS || bp_total(m.entry_seq())
        > MAX_ROYALTY_BASIS_POINTS) {
        Some(ContractError::InvalidRoyaltyConfig)
    } else {
        None
    }
}

/// The series that a successful creation registers.
pub open spec fn created_series(
    s: TokenSeries,
    caller: AccountId,
    metadata: TokenMetadata,
    price: Option<Balance>,
    royalty: Option<StrMap<u32>>,
    fuse_requirements: Option<Vec<Vec<TokenSeriesId>>>,
    fuse_cost: Option<(AccountId, u128)>,
) -> bool {
    &&& s.metadata == metadata
    &&& s.creator_id == caller
    &&& s.minted == 0
    &&& s.price == price
    &&& s.is_mintable
    &&& match royalty {
        Some(m) => s.royalty == m,
        None => s.royalty@ == Map::<Seq<char>, u32>::empty(),
    }
    &&& s.fuse_requirements == fuse_requirements
    &&& s.fuse_cost == fuse_cost
}

/// How a series is shown: its id and its configuration.
pub open spec fn shows_series(j: TokenSeriesJson, id: Seq<char>, s: TokenSeries) -> bool {
    &&& j.token_series_id@ == id
    &&& j.metadata == s.metadata
    &&& j.creator_id == s.creator_id
    &&& j.royalty.wf()
    &&& j.royalty@ == s.royalty@
    &&& requirements_view(j.fuse_requirements) == requirements_view(s.fuse_requirements)
    &&& j.fuse_cost == s.fuse_cost
}

/// The approval table of token `t`: empty where it has none.
pub open spec fn approvals_of(v: LedgerView, t: Seq<char>) -> Map<Seq<char>, u64> {
    if v.approvals.contains_key(t) {
        v.approvals[t]
    } else {
        Map::empty()
    }
}

/// The id that the next approval of token `t` gets: counting starts at one.
pub open spec fn next_approval_id(v: LedgerView, t: Seq<char>) -> u64 {
    if v.next_approval_ids.contains_key(t) {
        v.next_approval_ids[t]
    } else {
        1
    }
}

/// `sender` may move token `t`: it owns it, or holds an approval for it whose
/// id matches `approval_id` where one is given.
pub open spec fn may_transfer(v: LedgerView, sender: Seq<char>, t: Seq<char>, approval_id: Option<u64>) -> bool {
    ||| sender == v.owners[t]
    ||| approvals_of(v, t).contains_key(sender) && (approval_id matches Some(a) ==> approvals_of(v, t)[sender] == a)
}

/// Why a transfer would fail, if it would.
pub open spec fn transfer_error(
    v: LedgerView,
    sender: Seq<char>,
    receiver: Seq<char>,
    t: Seq<char>,
    approval_id: Option<u64>,
) -> Option<ContractError> {
    if !valid_account_id(receiver) {
        Some(ContractError::InvalidAccountId)
    } else if !v.owners.contains_key(t) {
        Some(ContractError::TokenNotFound)
    } else if !may_transfer(v, sender, t, approval_id) {
        Some(ContractError::Unauthorized)
    } else if v.owners[t] == receiver {
        Some(ContractError::SameOwner)
    } else {
        None
    }
}

/// The ledger after token `t` moves to `receiver`: its approvals are cleared.
pub open spec fn transferred_view(v: LedgerView, t: Seq<char>, receiver: Seq<char>) -> LedgerView {
    LedgerView { owners: v.owners.insert(t, receiver), approvals: v.approvals.remove(t), ..v }
}

/// The approval table that a transfer takes away, as handed back by it.
pub open spec fn is_snapshot(v: LedgerView, t: Seq<char>, snapshot: Option<StrMap<u64>>) -> bool {
    match snapshot {
        Some(m) => m.wf() && v.approvals.contains_key(t) && m@ == v.approvals[t],
        None => !v.approvals.contains_key(t),
    }
}

/// The ledger after the owner of `t` approves `account`.
pub open spec fn approved_view(v: LedgerView, t: Seq<char>, account: Seq<char>) -> LedgerView {
    let id = next_approval_id(v, t);
    LedgerView {
        approvals: v.approvals.insert(t, approvals_of(v, t).insert(account, id)),
        next_approval_ids: v.next_approval_ids.insert(t, (id + 1) as u64),
        ..v
    }
}

/// The ledger after token `t` is burnt: it leaves every table.
pub open spec fn burned_view(v: LedgerView, t: Seq<char>) -> LedgerView {
    LedgerView {
        owners: v.owners.remove(t),
        approvals: v.approvals.remove(t),
        next_approval_ids: v.next_approval_ids.remove(t),
        issued_at: v.issued_at.remove(t),
        ..v
    }
}

/// The ledger after a rejected or failed notification is resolved: where the
/// recipient still owns the token it goes back to `previous`, with the
/// approvals of `snapshot`; otherwise nothing changes.
pub open spec fn resolved_view(
    v: LedgerView,
    previous: Seq<char>,
    receiver: Seq<char>,
    t: Seq<char>,
    snapshot: Option<StrMap<u64>>,
) -> LedgerView {
    if v.owners.contains_key(t) && v.owners[t] == receiver {
        LedgerView {
            owners: v.owners.insert(t, previous),
            approvals: match snapshot {
                Some(m) => v.approvals.insert(t, m@),
                None => v.approvals.remove(t),
            },
            ..v
        }
    } else {
        v
    }
}

/// Why fusing the supplied tokens would fail for want of ownership, if it
/// would: the first token that does not exist, or that `receiver` does not own.
pub open spec fn ownership_error(v: LedgerView, tokens: Seq<Seq<char>>, receiver: Seq<char>) -> Option<ContractError>
    decreases tokens.len(),
{
    if tokens.len() == 0 {
        None
    } else if !v.owners.contains_key(tokens[0]) {
        Some(ContractError::TokenNotFound)
    } else if v.owners[tokens[0]] != receiver {
        Some(ContractError::Unauthorized)
    } else {
        ownership_error(v, tokens.drop_first(), receiver)
    }
}

/// The ledger after each of `tokens` is burnt, in order.
pub open spec fn burned_all(v: LedgerView, tokens: Seq<Seq<char>>) -> LedgerView
    decreases tokens.len(),
{
    if tokens.len() == 0 {
        v
    } else {
        burned_all(burned_view(v, tokens[0]), tokens.drop_first())
    }
}

/// The ledger after a successful fuse: every supplied token is burnt, then the
/// target series `idx` mints to `receiver`, and that token is recorded as the
/// receiver's latest fuse result.
pub open spec fn fused_view(v: LedgerView, tokens: Seq<Seq<char>>, idx: int, receiver: Seq<char>, now: u64) -> LedgerView {
    let m = minted_view(burned_all(v, tokens), idx, receiver, now);
    LedgerView {
        last_token_by_owner: m.last_token_by_owner.insert(receiver, next_token_id(v, idx)),
        ..m
    }
}

/// The outcome of a fuse of `tokens` into series `target` for `receiver`:
/// an error, no token (no recipe matched; nothing changes), or the new token.
pub open spec fn fuse_outcome(v: LedgerView, tokens: Seq<Seq<char>>, target: Seq<char>, receiver: Seq<char>) -> Result<
    Option<Seq<char>>,
    ContractError,
> {
    match series_index(v.series.len(), target) {
        None => Err(ContractError::SeriesNotFound),
        Some(idx) => match requirements_view(v.series[idx].fuse_requirements) {
            None => Err(ContractError::NoFuseRequirements),
            Some(alts) => if alts.len() > 0 && ownership_error(v, tokens, receiver) is Some {
                Err(ownership_error(v, tokens, receiver)->Some_0)
            } else if !any_satisfied(alts, series_of_tokens(tokens)) {
                Ok(None)
            } else if !can_mint(v.series[idx]) {
                Err(ContractError::NotMintable)
            } else {
                Ok(Some(next_token_id(v, idx)))
            },
        },
    }
}

/// The entries of the royalty table of series `idx`, in table order.
pub open spec fn royalty_entries(v: LedgerView, idx: int) -> Seq<(String, u32)> {
    v.series[idx].royalty.entry_seq()
}

/// Why computing the payout of a sale of token `t`, owned by `owner`, would
/// fail, if it would.
pub open spec fn payout_error(v: LedgerView, t: Seq<char>, owner: Seq<char>, max_len: Option<u32>) -> Option<ContractError> {
    match series_index(v.series.len(), series_part(t)) {
        None => Some(ContractError::SeriesNotFound),
        Some(idx) => if max_len is None || v.series[idx].royalty@.len() > max_len->Some_0 {
            Some(ContractError::PayoutRecipientsExceeded)
        } else if paid_bp(royalty_entries(v, idx), owner) > FULL_BASIS_POINTS {
            Some(ContractError::PayoutOverflow)
        } else {
            None
        },
    }
}

/// The ledger with series `idx` replaced by `s`.
pub open spec fn with_series(v: LedgerView, idx: int, s: TokenSeries) -> LedgerView {
    LedgerView { series: v.series.update(idx, s), ..v }
}

/// Series `s` with its copies cap lowered to `cap`: it closes where the cap
/// meets the number already minted.
pub open spec fn with_cap(s: TokenSeries, cap: u64) -> TokenSeries {
    TokenSeries {
        metadata: TokenMetadata { copies: Some(cap), ..s.metadata },
        is_mintable: if cap == s.minted { false } else { s.is_mintable },
        ..s
    }
}

/// Why a reconfiguration of series `id` by its creator would fail for want of
/// the series or of the right caller, if it would.
pub open spec fn creator_error(v: LedgerView, caller: Seq<char>, id: Seq<char>) -> Option<ContractError> {
    match series_index(v.series.len(), id) {
        None => Some(ContractError::SeriesNotFound),
        Some(i) => if caller != v.series[i].creator_id@ {
            Some(ContractError::Unauthorized)
        } else {
            None
        },
    }
}

/// How token `t` of series `idx` is shown: its owner and approvals, and
/// display metadata taken from the series, with the edition appended to the
/// series title.
pub open spec fn shows_token(tok: Token, v: LedgerView, t: Seq<char>, idx: int) -> bool {
    let s = v.series[idx].metadata;
    &&& tok.token_id@ == t
    &&& tok.owner_id@ == v.owners[t]
    &&& tok.approved_account_ids matches Some(a) && a.wf() && a@ == approvals_of(v, t)
    &&& tok.metadata matches Some(m) && {
        &&& m.title matches Some(x) && x@ == s.title->Some_0@ + " #"@ + edition_part(t)
        &&& m.media == s.media
        &&& m.reference == s.reference
        &&& m.copies == s.copies
        &&& v.issued_at.contains_key(t) ==> (m.issued_at matches Some(x) && x@ == decimal(v.issued_at[t] as nat))
        &&& !v.issued_at.contains_key(t) ==> m.issued_at is None
        &&& m.description is None && m.media_hash is None && m.expires_at is None && m.starts_at is None
        &&& m.updated_at is None && m.extra is None && m.reference_hash is None
    }
}

/// The basis points paid to named accounts other than `owner` are at most
/// the total of the table.
pub proof fn lemma_paid_le_total(s: Seq<(String, u32)>, owner: Seq<char>)
    ensures
        paid_bp(s, owner) <= bp_total(s),
    decreases s.len(),
{
    if s.len() > 0 {
        lemma_paid_le_total(s.drop_last(), owner);
    }
}

/// A series whose royalty table is well formed and within the limits.
pub open spec fn series_wf(s: TokenSeries) -> bool {
    &&& s.royalty.wf()
    &&& s.royalty@.len() <= MAX_ROYALTY_ACCOUNTS
    &&& bp_total(s.royalty.entry_seq()) <= MAX_ROYALTY_BASIS_POINTS
}

/// Token `t` is an edition that some series has minted: edition `e` of series
/// `i`, with `1 <= e <= minted`.
pub open spec fn issued(v: LedgerView, t: Seq<char>) -> bool {
    exists|i: int, e: nat|
        0 <= i < v.series.len() && 1 <= e <= v.series[i].minted && t == #[trigger] token_id_of(
            series_id_at(i),
            e,
        )
}

/// The token tables agree: every live token and every issue time belongs to
/// a minted edition, and only live tokens have approval tables or approval
/// counters.
pub open spec fn tables_consistent(v: LedgerView) -> bool {
    &&& forall|t: Seq<char>| #[trigger] v.owners.contains_key(t) ==> issued(v, t)
    &&& forall|t: Seq<char>| #[trigger] v.issued_at.contains_key(t) ==> issued(v, t)
    &&& forall|t: Seq<char>| #[trigger] v.approvals.contains_key(t) ==> v.owners.contains_key(t)
    &&& forall|t: Seq<char>| #[trigger] v.next_approval_ids.contains_key(t) ==> v.owners.contains_key(t)
}

/// A token id names one series and one edition.
pub proof fn lemma_token_id_parts(i: int, e: nat, j: int, f: nat)
    requires
        0 <= i,
        0 <= j,
        token_id_of(series_id_at(i), e) == token_id_of(series_id_at(j), f),
    ensures
        i == j,
        e == f,
{
    lemma_decimal_no_colon((i + 1) as nat);
    lemma_decimal_no_colon((j + 1) as nat);
    lemma_series_part_of_token_id(series_id_at(i), e);
    lemma_series_part_of_token_id(series_id_at(j), f);
    lemma_decimal_injective((i + 1) as nat, (j + 1) as nat);
    let t = token_id_of(series_id_at(i), e);
    let k = series_id_at(i).len() + 1;
    assert(t.subrange(k as int, t.len() as int) =~= decimal(e));
    assert(token_id_of(series_id_at(j), f).subrange(k as int, t.len() as int) =~= decimal(f));
    lemma_decimal_injective(e, f);
}

/// The next token of a series has never been minted.
pub proof fn lemma_next_not_issued(v: LedgerView, idx: int)
    requires
        0 <= idx < v.series.len(),
    ensures
        !issued(v, next_token_id(v, idx)),
{
    if issued(v, next_token_id(v, idx)) {
        let (i, e) = choose|i: int, e: nat|
            0 <= i < v.series.len() && 1 <= e <= v.series[i].minted && next_token_id(v, idx)
                == #[trigger] token_id_of(series_id_at(i), e);
        lemma_token_id_parts(i, e, idx, (v.series[idx].minted + 1) as nat);
    }
}

/// In a ledger whose tables agree, the next token of a series appears in none
/// of them.
pub proof fn lemma_next_token_fresh(v: LedgerView, idx: int)
    requires
        tables_consistent(v),
        0 <= idx < v.series.len(),
    ensures
        !v.owners.contains_key(next_token_id(v, idx)),
        !v.approvals.contains_key(next_token_id(v, idx)),
        !v.next_approval_ids.contains_key(next_token_id(v, idx)),
        !v.issued_at.contains_key(next_token_id(v, idx)),
        approvals_of(v, next_token_id(v, idx)) == Map::<Seq<char>, u64>::empty(),
        next_approval_id(v, next_token_id(v, idx)) == 1,
{
    lemma_next_not_issued(v, idx);
}

/// Editions stay minted while the registry only grows and counts only rise.
pub proof fn lemma_issued_grows(v: LedgerView, w: LedgerView)
    requires
        v.series.len() <= w.series.len(),
        forall|i: int| 0 <= i < v.series.len() ==> v.series[i].minted <= w.series[i].minted,
    ensures
        forall|t: Seq<char>| issued(v, t) ==> issued(w, t),
{
    assert forall|t: Seq<char>| issued(v, t) implies issued(w, t) by {
        let (i, e) = choose|i: int, e: nat|
            0 <= i < v.series.len() && 1 <= e <= v.series[i].minted && t == #[trigger] token_id_of(
                series_id_at(i),
                e,
            );
        assert(0 <= i < w.series.len() && 1 <= e <= w.series[i].minted && t == token_id_of(series_id_at(i), e));
    }
}

/// Minting keeps the tables in agreement.
pub proof fn lemma_mint_consistent(v: LedgerView, idx: int, receiver: Seq<char>, now: u64)
    requires
        tables_consistent(v),
        0 <= idx < v.series.len(),
        v.series[idx].minted < u64::MAX,
    ensures
        tables_consistent(minted_view(v, idx, receiver, now)),
{
    let w = minted_view(v, idx, receiver, now);
    assert forall|i: int| 0 <= i < v.series.len() implies v.series[i].minted <= w.series[i].minted by {
        if i != idx {
            assert(w.series[i] == v.series[i]);
        }
    }
    lemma_issued_grows(v, w);
    let t = next_token_id(v, idx);
    let e = (v.series[idx].minted + 1) as nat;
    assert(w.series[idx].minted == e);
    assert(0 <= idx < w.series.len() && 1 <= e <= w.series[idx].minted && t == token_id_of(series_id_at(idx), e));
    assert(issued(w, t));
}

/// A change to the registry that lowers no minted count keeps the tables in
/// agreement.
pub proof fn lemma_registry_change_consistent(v: LedgerView, w: LedgerView)
    requires
        tables_consistent(v),
        v.series.len() <= w.series.len(),
        forall|i: int| 0 <= i < v.series.len() ==> v.series[i].minted <= w.series[i].minted,
        w.owners == v.owners,
        w.issued_at == v.issued_at,
        w.approvals == v.approvals,
        w.next_approval_ids == v.next_approval_ids,
    ensures
        tables_consistent(w),
{
    lemma_issued_grows(v, w);
}

/// None of `tokens` is a live token of `v`.
pub open spec fn all_burnt(v: LedgerView, tokens: Seq<Seq<char>>) -> bool {
    forall|j: int| 0 <= j < tokens.len() ==> !v.owners.contains_key(#[trigger] tokens[j])
}

/// Where no supplied token fails the ownership check, each is live.
pub proof fn lemma_all_owned(v: LedgerView, tokens: Seq<Seq<char>>, receiver: Seq<char>)
    requires
        ownership_error(v, tokens, receiver) is None,
    ensures
        forall|j: int| 0 <= j < tokens.len() ==> v.owners.contains_key(#[trigger] tokens[j]),
    decreases tokens.len(),
{
    if tokens.len() > 0 {
        lemma_all_owned(v, tokens.drop_first(), receiver);
        assert forall|j: int| 0 <= j < tokens.len() implies v.owners.contains_key(#[trigger] tokens[j]) by {
            if j > 0 {
                assert(tokens[j] == tokens.drop_first()[j - 1]);
            }
        }
    }
}

/// Burning `tokens` leaves none of them live and makes no token live.
pub proof fn lemma_burned_all_owners(v: LedgerView, tokens: Seq<Seq<char>>)
    ensures
        all_burnt(burned_all(v, tokens), tokens),
        forall|t: Seq<char>| #[trigger] burned_all(v, tokens).owners.contains_key(t) ==> v.owners.contains_key(t),
    decreases tokens.len(),
{
    if tokens.len() > 0 {
        let b = burned_view(v, tokens[0]);
        lemma_burned_all_owners(b, tokens.drop_first());
        let w = burned_all(v, tokens);
        assert forall|j: int| 0 <= j < tokens.len() implies !w.owners.contains_key(#[trigger] tokens[j]) by {
            if j > 0 {
                assert(tokens[j] == tokens.drop_first()[j - 1]);
            } else {
                assert(!b.owners.contains_key(tokens[0]));
            }
        }
    }
}

/// Token `t` can be shown: its series exists and has a title, and its id has
/// an edition part after a `:`.
pub open spec fn displayable(v: LedgerView, t: Seq<char>) -> bool {
    &&& series_index(v.series.len(), series_part(t)) is Some
    &&& v.series[series_index(v.series.len(), series_part(t))->Some_0].metadata.title is Some
    &&& crate::ids::colon_from(t, 0) < t.len()
}

/// Every token of the page from position `start` of `ids`, of at most
/// `limit` items, can be shown.
#[verifier::opaque]
pub open spec fn page_displayable(v: LedgerView, ids: Seq<Seq<char>>, start: int, limit: Option<u64>) -> bool {
    forall|j: int| 0 <= j < page_len(ids.len() as int, start, limit) ==> displayable(v, #[trigger] ids[start + j])
}

/// Every live token among editions `start + 1` onwards of the series with id
/// `series_id`, for a page of at most `limit` of its `n` editions, can be shown.
#[verifier::opaque]
pub open spec fn editions_displayable(v: LedgerView, series_id: Seq<char>, n: int, start: int, limit: Option<u64>) -> bool {
    forall|j: int| 0 <= j < page_len(n, start, limit) ==> {
        let t = #[trigger] token_id_of(series_id, (start + j + 1) as nat);
        v.owners.contains_key(t) ==> displayable(v, t)
    }
}

/// The length of a page of at most `limit` items (all where no limit is
/// given) from position `start` of `n` items.
pub open spec fn page_len(n: int, start: int, limit: Option<u64>) -> int {
    match limit {
        Some(l) => if l < n - start { l as int } else { n - start },
        None => n - start,
    }
}

} // verus!
