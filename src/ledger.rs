//! The ledger: series registry, ownership and approval tables.

use vstd::prelude::*;

use crate::fuse::{any_requirement_met, token_series_list};
use crate::ids::{
    is_valid_account, series_id_at, series_part, token_edition_part, token_id_of, token_series_part,
    u64_to_decimal, valid_account_id,
};
use crate::model::{
    after_mint, approvals_of, approved_view, bp_total, burned_all, burned_view, can_mint,
    create_series_error, created_series, creator_error, fuse_outcome, fused_view, is_snapshot,
    lemma_paid_le_total, may_transfer, minted_view, next_approval_id, next_token_id, ownership_error,
    page_len, payout_error, resolved_view, royalty_accounts_valid, royalty_entries, series_index,
    series_wf, shows_series, shows_token, tables_consistent, lemma_mint_consistent,
    lemma_registry_change_consistent, lemma_next_token_fresh, issued, transfer_error, all_burnt,
    lemma_all_owned, lemma_burned_all_owners, lemma_next_not_issued, displayable, page_displayable,
    editions_displayable, transferred_view, with_cap, with_series,
    LedgerView,
    DATA_IMAGE_SVG_NEAR_ICON, EDITION_DELIMETER, MAX_ROYALTY_ACCOUNTS, MAX_ROYALTY_BASIS_POINTS,
    NFT_METADATA_SPEC, TITLE_DELIMETER, TOKEN_DELIMETER,
};
use crate::royalty::{
    compute_payout, holds_shares, payout_map, lemma_payout_within_sale, paid_bp, payout_shares, total,
};
use crate::strmap::StrMap;
use crate::types::{
    copy_fuse_cost, copy_opt_string, copy_requirements, AccountId, ApprovalNotification, Balance,
    ContractError, FuseArgs, NFTContractMetadata, NotificationOutcome, Payout, PaymentTransfer, Token,
    TokenId, TokenMetadata, TokenSeries, TokenSeriesId, TokenSeriesJson, TransferNotification,
};

verus! {

/// The ledger's whole state.
pub struct Contract {
    owner_id: AccountId,
    metadata: NFTContractMetadata,
    token_series_by_id: Vec<TokenSeries>,
    owner_by_id: StrMap<AccountId>,
    approvals_by_id: StrMap<StrMap<u64>>,
    next_approval_id_by_id: StrMap<u64>,
    token_issued_at: StrMap<u64>,
    random_loot: Option<Vec<TokenSeriesId>>,
    last_token_by_owner: StrMap<TokenId>,
}

impl View for Contract {
    type V = LedgerView;

    closed spec fn view(&self) -> LedgerView {
        LedgerView {
            owner_id: self.owner_id@,
            metadata: self.metadata,
            series: self.token_series_by_id@,
            owners: self.owner_by_id@.map_values(|a: String| a@),
            approvals: self.approvals_by_id@.map_values(|m: StrMap<u64>| m@),
            next_approval_ids: self.next_approval_id_by_id@,
            issued_at: self.token_issued_at@,
            random_loot: match self.random_loot {
                Some(v) => Some(v.deep_view()),
                None => None,
            },
            last_token_by_owner: self.last_token_by_owner@.map_values(|t: String| t@),
        }
    }
}

impl Contract {
    /// The tables are well formed and agree with each other, and every series
    /// is within its royalty limits.
    pub closed spec fn wf(&self) -> bool {
        &&& self.owner_by_id.wf()
        &&& self.approvals_by_id.wf()
        &&& self.next_approval_id_by_id.wf()
        &&& self.token_issued_at.wf()
        &&& self.last_token_by_owner.wf()
        &&& forall|k: Seq<char>| #[trigger]
            self.approvals_by_id@.contains_key(k) ==> self.approvals_by_id@[k].wf()
        &&& forall|i: int|
            0 <= i < self.token_series_by_id@.len() ==> series_wf(#[trigger] self.token_series_by_id@[i])
        &&& self.token_series_by_id@.len() < u64::MAX
        &&& self.random_loot matches Some(v) ==> v@.len() == 2
        &&& tables_consistent(self@)
    }

    /// In a well-formed ledger the royalty table of any series names at most
    /// 9000 basis points for the accounts other than any owner, so a payout
    /// never fails with `PayoutOverflow`.
    pub proof fn lemma_series_royalty(&self, idx: int, owner: Seq<char>)
        requires
            self.wf(),
            0 <= idx < self@.series.len(),
        ensures
            self@.series[idx].royalty.wf(),
            paid_bp(royalty_entries(self@, idx), owner) <= MAX_ROYALTY_BASIS_POINTS,
            forall|t: Seq<char>, m: Option<u32>|
                series_index(self@.series.len(), series_part(t)) == Some(idx) ==> payout_error(self@, t, owner, m)
                    != Some(ContractError::PayoutOverflow),
    {
        assert(series_wf(self.token_series_by_id@[idx]));
        lemma_paid_le_total(royalty_entries(self@, idx), owner);
    }

    /// A ledger owned by `owner_id`, with no series and no tokens.
    pub fn new(owner_id: AccountId, metadata: NFTContractMetadata) -> (r: Result<Contract, ContractError>)
        ensures
            !valid_account_id(owner_id@) ==> r == Err::<Contract, ContractError>(ContractError::InvalidAccountId),
            valid_account_id(owner_id@) ==> (r matches Ok(c) && c.wf() && c@ == (LedgerView {
                owner_id: owner_id@,
                metadata: metadata,
                series: Seq::empty(),
                owners: Map::empty(),
                approvals: Map::empty(),
                next_approval_ids: Map::empty(),
                issued_at: Map::empty(),
                random_loot: None,
                last_token_by_owner: Map::empty(),
            })),
    {
        if !is_valid_account(&owner_id) {
            return Err(ContractError::InvalidAccountId);
        }
        let c = Contract {
            owner_id,
            metadata,
            token_series_by_id: Vec::new(),
            owner_by_id: StrMap::new(),
            approvals_by_id: StrMap::new(),
            next_approval_id_by_id: StrMap::new(),
            token_issued_at: StrMap::new(),
            random_loot: None,
            last_token_by_owner: StrMap::new(),
        };
        proof {
            assert(c@.owners =~= Map::empty());
            assert(c@.approvals =~= Map::empty());
            assert(c@.last_token_by_owner =~= Map::empty());
        }
        Ok(c)
    }

    /// Finds the series with id `id`.
    fn find_series(&self, id: &String) -> (r: Option<usize>)
        requires
            self.wf(),
        ensures
            match r {
                Some(i) => i < self@.series.len() && series_index(self@.series.len(), id@) == Some(i as int),
                None => series_index(self@.series.len(), id@) is None,
            },
    {
        let n = self.token_series_by_id.len();
        let mut i: usize = 0;
        while i < n
            invariant
                n == self@.series.len(),
                n < u64::MAX,
                i <= n,
                forall|j: int| 0 <= j < i ==> series_id_at(j) != id@,
            decreases n - i,
        {
            let candidate = u64_to_decimal((i + 1) as u64);
            if candidate == *id {
                proof {
                    assert(0 <= i < n && series_id_at(i as int) == id@);
                    let j = choose|j: int| 0 <= j < n && series_id_at(j) == id@;
                    crate::ids::lemma_decimal_injective((j + 1) as nat, (i + 1) as nat);
                }
                return Some(i);
            }
            i = i + 1;
        }
        None
    }

    /// Mints the next token of series `idx` to `receiver_id`.
    fn internal_mint(&mut self, idx: usize, receiver_id: AccountId, now: u64) -> (r: Result<TokenId, ContractError>)
        requires
            old(self).wf(),
            idx < old(self)@.series.len(),
        ensures
            final(self).wf(),
            can_mint(old(self)@.series[idx as int]) ==> (r matches Ok(t) && t@ == next_token_id(old(self)@, idx as int)
                && final(self)@ == minted_view(old(self)@, idx as int, receiver_id@, now)),
            !can_mint(old(self)@.series[idx as int]) ==> r == Err::<TokenId, ContractError>(ContractError::NotMintable)
                && final(self)@ == old(self)@,
    {
        let ghost pre = self@;
        let num_tokens = self.token_series_by_id[idx].minted;
        let max_copies = match self.token_series_by_id[idx].metadata.copies {
            Some(c) => c,
            None => u64::MAX,
        };
        if !self.token_series_by_id[idx].is_mintable || num_tokens >= max_copies {
            return Err(ContractError::NotMintable);
        }
        let closes = num_tokens + 1 >= max_copies;
        let token_id = self.next_token_id_string(idx);
        let mut series = self.token_series_by_id.remove(idx);
        series.minted = num_tokens + 1;
        if closes {
            series.is_mintable = false;
        }
        self.token_series_by_id.insert(idx, series);
        self.owner_by_id.insert(token_id.clone(), receiver_id);
        self.token_issued_at.insert(token_id.clone(), now);
        proof {
            assert(self.token_series_by_id@ =~= pre.series.update(idx as int, after_mint(pre.series[idx as int])));
            assert(self@.owners =~= pre.owners.insert(token_id@, receiver_id@));
            assert forall|i: int| 0 <= i < self.token_series_by_id@.len() implies series_wf(
                #[trigger] self.token_series_by_id@[i]) by {
                assert(series_wf(old(self).token_series_by_id@[i]));
            }
        }
        Ok(token_id)
    }

    /// Whether every account of `m` is valid.
    fn royalty_accounts_are_valid(m: &StrMap<u32>) -> (r: bool)
        requires
            m.wf(),
        ensures
            r == royalty_accounts_valid(m@),
    {
        proof {
            m.lemma_entries();
        }
        let n = m.len();
        let mut i: usize = 0;
        while i < n
            invariant
                m.wf(),
                n == m.entry_seq().len(),
                i <= n,
                forall|j: int| 0 <= j < i ==> valid_account_id(#[trigger] m.entry_seq()[j].0@),
                forall|j: int| 0 <= j < n ==> m@.contains_key(#[trigger] m.entry_seq()[j].0@),
                forall|k: Seq<char>| #[trigger] m@.contains_key(k) ==> exists|j: int|
                    0 <= j < n && m.entry_seq()[j].0@ == k,
            decreases n - i,
        {
            let (k, _) = m.entry_at(i);
            if !is_valid_account(k) {
                return false;
            }
            i = i + 1;
        }
        true
    }

    /// The total basis points of a royalty table of at most ten accounts.
    fn royalty_total(m: &StrMap<u32>) -> (r: u64)
        requires
            m.wf(),
            m@.len() <= MAX_ROYALTY_ACCOUNTS,
        ensures
            r == bp_total(m.entry_seq()),
    {
        let n = m.len();
        let mut i: usize = 0;
        let mut total: u64 = 0;
        while i < n
            invariant
                m.wf(),
                n == m.entry_seq().len(),
                n <= MAX_ROYALTY_ACCOUNTS,
                i <= n,
                total == bp_total(m.entry_seq().subrange(0, i as int)),
                total <= i * 0x1_0000_0000,
            decreases n - i,
        {
            let (_, v) = m.entry_at(i);
            proof {
                assert(m.entry_seq().subrange(0, i + 1).drop_last() =~= m.entry_seq().subrange(0, i as int));
            }
            total = total + *v as u64;
            i = i + 1;
        }
        proof {
            assert(m.entry_seq().subrange(0, n as int) =~= m.entry_seq());
        }
        total
    }

    /// Creates a series of `caller`, who must be the registry owner.
    /// The new series gets the next id, `series count + 1`, and is open for minting.
    pub fn nft_create_series(
        &mut self,
        caller: &AccountId,
        creator_id: Option<AccountId>,
        token_metadata: TokenMetadata,
        price: Option<Balance>,
        royalty: Option<StrMap<u32>>,
        fuse_requirements: Option<Vec<Vec<TokenSeriesId>>>,
        fuse_cost: Option<(AccountId, u128)>,
    ) -> (r: Result<TokenSeriesJson, ContractError>)
        requires
            old(self).wf(),
            royalty matches Some(m) ==> m.wf(),
        ensures
            final(self).wf(),
            ({
                let e = create_series_error(
                    old(self)@,
                    caller@,
                    match creator_id {
                        Some(c) => Some(c@),
                        None => None,
                    },
                    token_metadata.title is Some,
                    royalty,
                );
                &&& e matches Some(err) ==> r == Err::<TokenSeriesJson, ContractError>(err)
                    && final(self)@ == old(self)@
                &&& e is None ==> (r matches Ok(j) && {
                    let n = old(self)@.series.len();
                    &&& final(self)@ == LedgerView { series: final(self)@.series, ..old(self)@ }
                    &&& final(self)@.series.len() == n + 1
                    &&& final(self)@.series.subrange(0, n as int) == old(self)@.series
                    &&& created_series(
                        final(self)@.series[n as int],
                        *caller,
                        token_metadata,
                        price,
                        royalty,
                        fuse_requirements,
                        fuse_cost,
                    )
                    &&& shows_series(j, series_id_at(n as int), final(self)@.series[n as int])
                })
            }),
    {
        if let Some(c) = &creator_id {
            if !is_valid_account(c) {
                return Err(ContractError::InvalidAccountId);
            }
        }
        if *caller != self.owner_id {
            return Err(ContractError::Unauthorized);
        }
        if let Some(c) = &creator_id {
            if *c != *caller {
                return Err(ContractError::Unauthorized);
            }
        }
        let n = self.token_series_by_id.len();
        if n as u64 >= u64::MAX - 2 {
            return Err(ContractError::CapacityExceeded);
        }
        if token_metadata.title.is_none() {
            return Err(ContractError::TitleRequired);
        }
        let royalty_res = match royalty {
            Some(m) => {
                if !Self::royalty_accounts_are_valid(&m) {
                    return Err(ContractError::InvalidAccountId);
                }
                if m.len() > MAX_ROYALTY_ACCOUNTS {
                    return Err(ContractError::InvalidRoyaltyConfig);
                }
                if Self::royalty_total(&m) > MAX_ROYALTY_BASIS_POINTS {
                    return Err(ContractError::InvalidRoyaltyConfig);
                }
                m
            },
            None => StrMap::new(),
        };
        let token_series_id = u64_to_decimal(n as u64 + 1);
        let json = TokenSeriesJson {
            token_series_id,
            metadata: token_metadata.copy(),
            creator_id: caller.clone(),
            royalty: royalty_res.copy(),
            fuse_requirements: copy_requirements(&fuse_requirements),
            fuse_cost: copy_fuse_cost(&fuse_cost),
        };
        let series = TokenSeries {
            metadata: token_metadata,
            creator_id: caller.clone(),
            minted: 0,
            price,
            is_mintable: true,
            royalty: royalty_res,
            fuse_requirements,
            fuse_cost,
        };
        let ghost pre = self@;
        self.token_series_by_id.push(series);
        proof {
            assert(self@.series.subrange(0, n as int) =~= pre.series);
            assert forall|i: int| 0 <= i < self.token_series_by_id@.len() implies series_wf(
                #[trigger] self.token_series_by_id@[i]) by {
                if i < n {
                    assert(series_wf(old(self).token_series_by_id@[i]));
                }
            }
        }
        Ok(json)
    }

    /// Mints the next token of a series to `receiver_id`; only the series creator may.
    pub fn nft_mint(
        &mut self,
        caller: &AccountId,
        token_series_id: TokenSeriesId,
        receiver_id: AccountId,
        now: u64,
    ) -> (r: Result<TokenId, ContractError>)
        requires
            old(self).wf(),
        ensures
            final(self).wf(),
            r is Err ==> final(self)@ == old(self)@,
            !valid_account_id(receiver_id@) ==> r == Err::<TokenId, ContractError>(ContractError::InvalidAccountId),
            valid_account_id(receiver_id@) ==> match series_index(old(self)@.series.len(), token_series_id@) {
                None => r == Err::<TokenId, ContractError>(ContractError::SeriesNotFound),
                Some(i) => if caller@ != old(self)@.series[i].creator_id@ {
                    r == Err::<TokenId, ContractError>(ContractError::Unauthorized)
                } else if !can_mint(old(self)@.series[i]) {
                    r == Err::<TokenId, ContractError>(ContractError::NotMintable)
                } else {
                    r matches Ok(t) && t@ == next_token_id(old(self)@, i)
                        && final(self)@ == minted_view(old(self)@, i, receiver_id@, now)
                },
            },
    {
        if !is_valid_account(&receiver_id) {
            return Err(ContractError::InvalidAccountId);
        }
        let idx = match self.find_series(&token_series_id) {
            Some(i) => i,
            None => return Err(ContractError::SeriesNotFound),
        };
        if *caller != self.token_series_by_id[idx].creator_id {
            return Err(ContractError::Unauthorized);
        }
        self.internal_mint(idx, receiver_id, now)
    }

    /// Sells the next token of a series to `receiver_id` for `attached_deposit`,
    /// which must cover the series price. Hands back the token id and the
    /// payment to forward: the whole deposit, to the series creator.
    pub fn nft_buy(
        &mut self,
        token_series_id: TokenSeriesId,
        receiver_id: AccountId,
        attached_deposit: Balance,
        now: u64,
    ) -> (r: Result<(TokenId, PaymentTransfer), ContractError>)
        requires
            old(self).wf(),
        ensures
            final(self).wf(),
            r is Err ==> final(self)@ == old(self)@,
            !valid_account_id(receiver_id@) ==> r == Err::<(TokenId, PaymentTransfer), ContractError>(
                ContractError::InvalidAccountId),
            valid_account_id(receiver_id@) ==> match series_index(old(self)@.series.len(), token_series_id@) {
                None => r == Err::<(TokenId, PaymentTransfer), ContractError>(ContractError::SeriesNotFound),
                Some(i) => match old(self)@.series[i].price {
                    None => r == Err::<(TokenId, PaymentTransfer), ContractError>(ContractError::NotForSale),
                    Some(price) => if attached_deposit < price {
                        r == Err::<(TokenId, PaymentTransfer), ContractError>(
                            ContractError::InsufficientPayment)
                    } else if !can_mint(old(self)@.series[i]) {
                        r == Err::<(TokenId, PaymentTransfer), ContractError>(ContractError::NotMintable)
                    } else {
                        r matches Ok((t, pay)) && t@ == next_token_id(old(self)@, i)
                            && final(self)@ == minted_view(old(self)@, i, receiver_id@, now)
                            && pay.receiver_id == old(self)@.series[i].creator_id && pay.amount == attached_deposit
                    },
                },
            },
    {
        if !is_valid_account(&receiver_id) {
            return Err(ContractError::InvalidAccountId);
        }
        let idx = match self.find_series(&token_series_id) {
            Some(i) => i,
            None => return Err(ContractError::SeriesNotFound),
        };
        let price = match self.token_series_by_id[idx].price {
            Some(p) => p,
            None => return Err(ContractError::NotForSale),
        };
        if attached_deposit < price {
            return Err(ContractError::InsufficientPayment);
        }
        let creator = self.token_series_by_id[idx].creator_id.clone();
        let token_id = self.internal_mint(idx, receiver_id, now)?;
        Ok((token_id, PaymentTransfer { receiver_id: creator, amount: attached_deposit }))
    }

    /// Whether `sender` may move token `token_id`, whose owner is `owner`.
    fn sender_may_transfer(&self, sender: &AccountId, owner: &AccountId, token_id: &TokenId, approval_id: Option<u64>) -> (r: bool)
        requires
            self.wf(),
            self@.owners.contains_key(token_id@),
            self@.owners[token_id@] == owner@,
        ensures
            r == may_transfer(self@, sender@, token_id@, approval_id),
    {
        if *sender == *owner {
            return true;
        }
        match self.approvals_by_id.get(token_id) {
            None => false,
            Some(m) => match m.get(sender) {
                None => false,
                Some(actual) => match approval_id {
                    Some(a) => *actual == a,
                    None => true,
                },
            },
        }
    }

    /// Moves `token_id` to `receiver_id` on behalf of `sender`. Hands back the
    /// previous owner and the approval table that the move cleared.
    fn internal_transfer(
        &mut self,
        sender: &AccountId,
        receiver_id: &AccountId,
        token_id: &TokenId,
        approval_id: Option<u64>,
    ) -> (r: Result<(AccountId, Option<StrMap<u64>>), ContractError>)
        requires
            old(self).wf(),
        ensures
            final(self).wf(),
            transfer_error(old(self)@, sender@, receiver_id@, token_id@, approval_id) matches Some(e)
                ==> r == Err::<(AccountId, Option<StrMap<u64>>), ContractError>(e) && final(self)@ == old(self)@,
            transfer_error(old(self)@, sender@, receiver_id@, token_id@, approval_id) is None ==> (r matches Ok((
                prev,
                snap,
            )) && prev@ == old(self)@.owners[token_id@] && is_snapshot(old(self)@, token_id@, snap)
                && final(self)@ == transferred_view(old(self)@, token_id@, receiver_id@)),
    {
        if !is_valid_account(receiver_id) {
            return Err(ContractError::InvalidAccountId);
        }
        let owner = match self.owner_by_id.get(token_id) {
            Some(o) => o.clone(),
            None => return Err(ContractError::TokenNotFound),
        };
        proof {
            assert(self@.owners[token_id@] == owner@);
        }
        if !self.sender_may_transfer(sender, &owner, token_id, approval_id) {
            return Err(ContractError::Unauthorized);
        }
        if owner == *receiver_id {
            return Err(ContractError::SameOwner);
        }
        let ghost pre = self@;
        let snapshot = self.approvals_by_id.remove(token_id);
        self.owner_by_id.insert(token_id.clone(), receiver_id.clone());
        proof {
            assert(self@.owners =~= pre.owners.insert(token_id@, receiver_id@));
            assert(self@.approvals =~= pre.approvals.remove(token_id@));
            assert forall|k: Seq<char>| #[trigger] self.approvals_by_id@.contains_key(k) implies self.approvals_by_id@[k].wf() by {
                assert(old(self).approvals_by_id@.contains_key(k));
            }
        }
        Ok((owner, snapshot))
    }

    /// Moves `token_id` to `receiver_id`. `sender` must own it or hold an
    /// approval for it (with id `approval_id` where one is given). Clears the
    /// token's approvals and hands back its previous owner.
    pub fn nft_transfer(
        &mut self,
        sender: &AccountId,
        receiver_id: AccountId,
        token_id: TokenId,
        approval_id: Option<u64>,
        memo: Option<String>,
    ) -> (r: Result<AccountId, ContractError>)
        requires
            old(self).wf(),
        ensures
            final(self).wf(),
            transfer_error(old(self)@, sender@, receiver_id@, token_id@, approval_id) matches Some(e)
                ==> r == Err::<AccountId, ContractError>(e) && final(self)@ == old(self)@,
            transfer_error(old(self)@, sender@, receiver_id@, token_id@, approval_id) is None ==> (r matches Ok(prev)
                && prev@ == old(self)@.owners[token_id@]
                && final(self)@ == transferred_view(old(self)@, token_id@, receiver_id@)),
    {
        let (prev, _) = self.internal_transfer(sender, &receiver_id, &token_id, approval_id)?;
        Ok(prev)
    }

    /// The same move as `nft_transfer`, for callers that attach no deposit.
    pub fn nft_transfer_unsafe(
        &mut self,
        sender: &AccountId,
        receiver_id: AccountId,
        token_id: TokenId,
        approval_id: Option<u64>,
        memo: Option<String>,
    ) -> (r: Result<AccountId, ContractError>)
        requires
            old(self).wf(),
        ensures
            final(self).wf(),
            transfer_error(old(self)@, sender@, receiver_id@, token_id@, approval_id) matches Some(e)
                ==> r == Err::<AccountId, ContractError>(e) && final(self)@ == old(self)@,
            transfer_error(old(self)@, sender@, receiver_id@, token_id@, approval_id) is None ==> (r matches Ok(prev)
                && prev@ == old(self)@.owners[token_id@]
                && final(self)@ == transferred_view(old(self)@, token_id@, receiver_id@)),
    {
        self.nft_transfer(sender, receiver_id, token_id, approval_id, memo)
    }

    /// Moves `token_id` to `receiver_id` as `nft_transfer` does, at once, and
    /// hands back the notification to send to the recipient. It carries the
    /// previous owner and the cleared approvals, which `nft_resolve_transfer`
    /// needs should the recipient refuse the token.
    pub fn nft_transfer_call(
        &mut self,
        sender: &AccountId,
        receiver_id: AccountId,
        token_id: TokenId,
        approval_id: Option<u64>,
        memo: Option<String>,
        msg: String,
    ) -> (r: Result<TransferNotification, ContractError>)
        requires
            old(self).wf(),
        ensures
            final(self).wf(),
            transfer_error(old(self)@, sender@, receiver_id@, token_id@, approval_id) matches Some(e)
                ==> r == Err::<TransferNotification, ContractError>(e) && final(self)@ == old(self)@,
            transfer_error(old(self)@, sender@, receiver_id@, token_id@, approval_id) is None ==> (r matches Ok(n)
                && final(self)@ == transferred_view(old(self)@, token_id@, receiver_id@)
                && n.receiver_id == receiver_id && n.sender_id == *sender && n.token_id == token_id
                && n.msg == msg && n.previous_owner_id@ == old(self)@.owners[token_id@]
                && is_snapshot(old(self)@, token_id@, n.approved_account_ids)),
    {
        let (prev, snapshot) = self.internal_transfer(sender, &receiver_id, &token_id, approval_id)?;
        Ok(
            TransferNotification {
                receiver_id,
                sender_id: sender.clone(),
                previous_owner_id: prev,
                token_id,
                msg,
                approved_account_ids: snapshot,
            },
        )
    }

    /// Settles a transfer whose recipient was notified. Where the recipient
    /// accepted, the transfer stands and the result is `true`. Otherwise the
    /// result is `false`, and the token goes back to `previous_owner_id` with
    /// the approvals of the snapshot, but only if `receiver_id` still owns it:
    /// a token that moved on or was burnt meanwhile is left where it is.
    pub fn nft_resolve_transfer(
        &mut self,
        previous_owner_id: AccountId,
        receiver_id: AccountId,
        token_id: TokenId,
        approved_account_ids: Option<StrMap<u64>>,
        outcome: NotificationOutcome,
    ) -> (r: bool)
        requires
            old(self).wf(),
            approved_account_ids matches Some(m) ==> m.wf(),
        ensures
            final(self).wf(),
            r == (outcome == NotificationOutcome::Accepted),
            r ==> final(self)@ == old(self)@,
            !r ==> final(self)@ == resolved_view(old(self)@, previous_owner_id@, receiver_id@, token_id@, approved_account_ids),
    {
        if outcome == NotificationOutcome::Accepted {
            return true;
        }
        let still_held = match self.owner_by_id.get(&token_id) {
            Some(o) => *o == receiver_id,
            None => false,
        };
        if !still_held {
            return false;
        }
        let ghost pre = self@;
        self.owner_by_id.insert(token_id.clone(), previous_owner_id);
        match approved_account_ids {
            Some(m) => {
                self.approvals_by_id.insert(token_id, m);
            },
            None => {
                self.approvals_by_id.remove(&token_id);
            },
        }
        proof {
            assert(self@.owners =~= resolved_view(pre, previous_owner_id@, receiver_id@, token_id@, approved_account_ids).owners);
            assert(self@.approvals =~= resolved_view(pre, previous_owner_id@, receiver_id@, token_id@, approved_account_ids).approvals);
            assert forall|k: Seq<char>| #[trigger] self.approvals_by_id@.contains_key(k) implies self.approvals_by_id@[k].wf() by {
                if k != token_id@ {
                    assert(old(self).approvals_by_id@.contains_key(k));
                }
            }
        }
        false
    }

    /// Approves `account_id` to move `token_id`, whose owner `caller` must be.
    /// The approval gets the token's next approval id. Where `msg` is given,
    /// hands back the notification to send to the approved account.
    pub fn nft_approve(
        &mut self,
        caller: &AccountId,
        token_id: TokenId,
        account_id: AccountId,
        msg: Option<String>,
    ) -> (r: Result<Option<ApprovalNotification>, ContractError>)
        requires
            old(self).wf(),
        ensures
            final(self).wf(),
            r is Err ==> final(self)@ == old(self)@,
            !valid_account_id(account_id@) ==> r == Err::<Option<ApprovalNotification>, ContractError>(
                ContractError::InvalidAccountId),
            valid_account_id(account_id@) && !old(self)@.owners.contains_key(token_id@)
                ==> r == Err::<Option<ApprovalNotification>, ContractError>(ContractError::TokenNotFound),
            valid_account_id(account_id@) && old(self)@.owners.contains_key(token_id@) ==> if caller@
                != old(self)@.owners[token_id@] {
                r == Err::<Option<ApprovalNotification>, ContractError>(ContractError::Unauthorized)
            } else if next_approval_id(old(self)@, token_id@) == u64::MAX {
                r == Err::<Option<ApprovalNotification>, ContractError>(ContractError::CapacityExceeded)
            } else {
                r matches Ok(n) && final(self)@ == approved_view(old(self)@, token_id@, account_id@)
                    && (msg is None ==> n is None)
                    && (msg matches Some(m) ==> n matches Some(a) && a.account_id == account_id
                        && a.token_id == token_id && a.owner_id == *caller && a.msg == m
                        && a.approval_id == next_approval_id(old(self)@, token_id@))
            },
    {
        if !is_valid_account(&account_id) {
            return Err(ContractError::InvalidAccountId);
        }
        let owner = match self.owner_by_id.get(&token_id) {
            Some(o) => o,
            None => return Err(ContractError::TokenNotFound),
        };
        if *caller != *owner {
            return Err(ContractError::Unauthorized);
        }
        let approval_id = self.add_approval(&token_id, account_id.clone())?;
        match msg {
            Some(m) => Ok(
                Some(
                    ApprovalNotification {
                        account_id,
                        token_id,
                        owner_id: caller.clone(),
                        approval_id,
                        msg: m,
                    },
                ),
            ),
            None => Ok(None),
        }
    }

    /// Records an approval of `account_id` for `token_id` under the token's
    /// next approval id, which it hands back.
    fn add_approval(&mut self, token_id: &TokenId, account_id: AccountId) -> (r: Result<u64, ContractError>)
        requires
            old(self).wf(),
            old(self)@.owners.contains_key(token_id@),
        ensures
            final(self).wf(),
            next_approval_id(old(self)@, token_id@) == u64::MAX ==> r == Err::<u64, ContractError>(
                ContractError::CapacityExceeded) && final(self)@ == old(self)@,
            next_approval_id(old(self)@, token_id@) < u64::MAX ==> r == Ok::<u64, ContractError>(
                next_approval_id(old(self)@, token_id@))
                && final(self)@ == approved_view(old(self)@, token_id@, account_id@),
    {
        let approval_id: u64 = match self.next_approval_id_by_id.get(token_id) {
            Some(n) => *n,
            None => 1,
        };
        if approval_id == u64::MAX {
            return Err(ContractError::CapacityExceeded);
        }
        let ghost pre = self@;
        let mut table = match self.approvals_by_id.remove(token_id) {
            Some(m) => m,
            None => StrMap::new(),
        };
        table.insert(account_id, approval_id);
        self.approvals_by_id.insert(token_id.clone(), table);
        self.next_approval_id_by_id.insert(token_id.clone(), approval_id + 1);
        proof {
            assert(self@.approvals =~= approved_view(pre, token_id@, account_id@).approvals);
            assert forall|k: Seq<char>| #[trigger] self.approvals_by_id@.contains_key(k) implies self.approvals_by_id@[k].wf() by {
                if k != token_id@ {
                    assert(old(self).approvals_by_id@.contains_key(k));
                }
            }
        }
        Ok(approval_id)
    }

    /// Withdraws the approval of `account_id` for `token_id`, whose owner
    /// `caller` must be.
    pub fn nft_revoke(&mut self, caller: &AccountId, token_id: TokenId, account_id: AccountId) -> (r: Result<(), ContractError>)
        requires
            old(self).wf(),
        ensures
            final(self).wf(),
            r is Err ==> final(self)@ == old(self)@,
            !valid_account_id(account_id@) ==> r == Err::<(), ContractError>(ContractError::InvalidAccountId),
            valid_account_id(account_id@) && !old(self)@.owners.contains_key(token_id@) ==> r == Err::<(), ContractError>(
                ContractError::TokenNotFound),
            valid_account_id(account_id@) && old(self)@.owners.contains_key(token_id@) ==> if caller@
                != old(self)@.owners[token_id@] {
                r == Err::<(), ContractError>(ContractError::Unauthorized)
            } else {
                r is Ok && approvals_of(final(self)@, token_id@) == approvals_of(old(self)@, token_id@).remove(account_id@)
                    && final(self)@ == LedgerView { approvals: final(self)@.approvals, ..old(self)@ }
                    && (forall|k: Seq<char>| k != token_id@ ==> approvals_of(final(self)@, k) == approvals_of(old(self)@, k))
            },
    {
        if !is_valid_account(&account_id) {
            return Err(ContractError::InvalidAccountId);
        }
        let owner = match self.owner_by_id.get(&token_id) {
            Some(o) => o,
            None => return Err(ContractError::TokenNotFound),
        };
        if *caller != *owner {
            return Err(ContractError::Unauthorized);
        }
        let ghost pre = self@;
        match self.approvals_by_id.remove(&token_id) {
            None => {},
            Some(mut table) => {
                table.remove(&account_id);
                if table.len() > 0 {
                    self.approvals_by_id.insert(token_id, table);
                } else {
                    proof {
                        table.lemma_entries();
                        table@.dom().lemma_len0_is_empty();
                        assert(table@ =~= Map::<Seq<char>, u64>::empty());
                    }
                }
            },
        }
        proof {
            assert(approvals_of(self@, token_id@) =~= approvals_of(pre, token_id@).remove(account_id@));
            assert forall|k: Seq<char>| k != token_id@ implies approvals_of(self@, k) == approvals_of(pre, k) by {
                assert(self.approvals_by_id@.contains_key(k) == old(self).approvals_by_id@.contains_key(k));
            }
            assert forall|k: Seq<char>| #[trigger] self.approvals_by_id@.contains_key(k) implies self.approvals_by_id@[k].wf() by {
                if k != token_id@ {
                    assert(old(self).approvals_by_id@.contains_key(k));
                }
            }
            assert forall|k: Seq<char>| #[trigger] self@.approvals.contains_key(k) implies self@.owners.contains_key(k) by {
                if k != token_id@ {
                    assert(pre.approvals.contains_key(k));
                }
            }
            assert(self@.owners == pre.owners);
            assert(self@.issued_at == pre.issued_at);
            assert(self@.next_approval_ids == pre.next_approval_ids);
            assert(self@.series == pre.series);
        }
        Ok(())
    }

    /// Withdraws every approval for `token_id`, whose owner `caller` must be.
    pub fn nft_revoke_all(&mut self, caller: &AccountId, token_id: TokenId) -> (r: Result<(), ContractError>)
        requires
            old(self).wf(),
        ensures
            final(self).wf(),
            r is Err ==> final(self)@ == old(self)@,
            !old(self)@.owners.contains_key(token_id@) ==> r == Err::<(), ContractError>(ContractError::TokenNotFound),
            old(self)@.owners.contains_key(token_id@) ==> if caller@ != old(self)@.owners[token_id@] {
                r == Err::<(), ContractError>(ContractError::Unauthorized)
            } else {
                r is Ok && final(self)@ == LedgerView { approvals: old(self)@.approvals.remove(token_id@), ..old(self)@ }
            },
    {
        let owner = match self.owner_by_id.get(&token_id) {
            Some(o) => o,
            None => return Err(ContractError::TokenNotFound),
        };
        if *caller != *owner {
            return Err(ContractError::Unauthorized);
        }
        let ghost pre = self@;
        self.approvals_by_id.remove(&token_id);
        proof {
            assert(self@.approvals =~= pre.approvals.remove(token_id@));
            assert forall|k: Seq<char>| #[trigger] self.approvals_by_id@.contains_key(k) implies self.approvals_by_id@[k].wf() by {
                assert(old(self).approvals_by_id@.contains_key(k));
            }
        }
        Ok(())
    }

    /// Whether `approved_account_id` holds an approval for `token_id`, with id
    /// `approval_id` where one is given.
    pub fn nft_is_approved(&self, token_id: TokenId, approved_account_id: AccountId, approval_id: Option<u64>) -> (r: Result<bool, ContractError>)
        requires
            self.wf(),
        ensures
            !self@.owners.contains_key(token_id@) ==> r == Err::<bool, ContractError>(ContractError::TokenNotFound),
            self@.owners.contains_key(token_id@) ==> r == Ok::<bool, ContractError>(
                approvals_of(self@, token_id@).contains_key(approved_account_id@) && (approval_id matches Some(a)
                    ==> approvals_of(self@, token_id@)[approved_account_id@] == a)),
    {
        if !self.owner_by_id.contains_key(&token_id) {
            return Err(ContractError::TokenNotFound);
        }
        match self.approvals_by_id.get(&token_id) {
            None => Ok(false),
            Some(m) => match m.get(&approved_account_id) {
                None => Ok(false),
                Some(actual) => match approval_id {
                    Some(a) => Ok(*actual == a),
                    None => Ok(true),
                },
            },
        }
    }

    /// Removes token `token_id` from every table.
    fn internal_burn(&mut self, token_id: &TokenId)
        requires
            old(self).wf(),
        ensures
            final(self).wf(),
            final(self)@ == burned_view(old(self)@, token_id@),
    {
        let ghost pre = self@;
        self.next_approval_id_by_id.remove(token_id);
        self.approvals_by_id.remove(token_id);
        self.token_issued_at.remove(token_id);
        self.owner_by_id.remove(token_id);
        proof {
            assert(self@.owners =~= pre.owners.remove(token_id@));
            assert(self@.approvals =~= pre.approvals.remove(token_id@));
            assert forall|k: Seq<char>| #[trigger] self.approvals_by_id@.contains_key(k) implies self.approvals_by_id@[k].wf() by {
                assert(old(self).approvals_by_id@.contains_key(k));
            }
        }
    }

    /// Burns `token_id`, whose owner `caller` must be.
    pub fn nft_burn(&mut self, caller: &AccountId, token_id: TokenId) -> (r: Result<(), ContractError>)
        requires
            old(self).wf(),
        ensures
            final(self).wf(),
            !old(self)@.owners.contains_key(token_id@) ==> r == Err::<(), ContractError>(ContractError::TokenNotFound)
                && final(self)@ == old(self)@,
            old(self)@.owners.contains_key(token_id@) && caller@ != old(self)@.owners[token_id@] ==> r == Err::<
                (),
                ContractError,
            >(ContractError::Unauthorized) && final(self)@ == old(self)@,
            old(self)@.owners.contains_key(token_id@) && caller@ == old(self)@.owners[token_id@] ==> r is Ok
                && final(self)@ == burned_view(old(self)@, token_id@),
    {
        match self.owner_by_id.get(&token_id) {
            None => return Err(ContractError::TokenNotFound),
            Some(o) => {
                if *o != *caller {
                    return Err(ContractError::Unauthorized);
                }
            },
        }
        self.internal_burn(&token_id);
        Ok(())
    }

    /// The first ownership failure among `token_ids` for `receiver`, if any.
    fn check_ownership(&self, token_ids: &Vec<TokenId>, receiver: &AccountId) -> (r: Option<ContractError>)
        requires
            self.wf(),
        ensures
            r == ownership_error(self@, token_ids.deep_view(), receiver@),
    {
        let ghost all = token_ids.deep_view();
        let n = token_ids.len();
        let mut i: usize = 0;
        proof {
            assert(all.subrange(0, n as int) =~= all);
        }
        while i < n
            invariant
                self.wf(),
                n == token_ids@.len(),
                all == token_ids.deep_view(),
                i <= n,
                ownership_error(self@, all, receiver@) == ownership_error(self@, all.subrange(i as int, n as int), receiver@),
            decreases n - i,
        {
            let ghost rest = all.subrange(i as int, n as int);
            proof {
                assert(rest[0] == token_ids@[i as int]@);
                assert(rest.drop_first() =~= all.subrange(i + 1, n as int));
            }
            match self.owner_by_id.get(&token_ids[i]) {
                None => return Some(ContractError::TokenNotFound),
                Some(o) => {
                    if *o != *receiver {
                        return Some(ContractError::Unauthorized);
                    }
                },
            }
            i = i + 1;
        }
        None
    }

    /// Burns each of `token_ids`, in order.
    fn burn_all(&mut self, token_ids: &Vec<TokenId>)
        requires
            old(self).wf(),
        ensures
            final(self).wf(),
            final(self)@ == burned_all(old(self)@, token_ids.deep_view()),
    {
        let ghost all = token_ids.deep_view();
        let n = token_ids.len();
        let mut i: usize = 0;
        proof {
            assert(all.subrange(0, n as int) =~= all);
        }
        while i < n
            invariant
                self.wf(),
                n == token_ids@.len(),
                all == token_ids.deep_view(),
                i <= n,
                burned_all(self@, all.subrange(i as int, n as int)) == burned_all(old(self)@, all),
            decreases n - i,
        {
            let ghost rest = all.subrange(i as int, n as int);
            proof {
                assert(rest[0] == token_ids@[i as int]@);
                assert(rest.drop_first() =~= all.subrange(i + 1, n as int));
            }
            self.internal_burn(&token_ids[i]);
            i = i + 1;
        }
        proof {
            assert(all.subrange(n as int, n as int) =~= Seq::<Seq<char>>::empty());
        }
    }

    /// Fuses `token_ids` into a new token of series `target_token_series_id`
    /// for `receiver_id`. Recipes are tried in order; each supplied token
    /// counts for the first unused recipe entry of its series. Where a recipe
    /// is covered, every supplied token is burnt, also those the recipe did not
    /// need, and one token of the target series is minted to the receiver.
    /// Where none is, nothing changes and no token comes back.
    fn internal_fuse(
        &mut self,
        token_ids: Vec<TokenId>,
        target_token_series_id: TokenSeriesId,
        receiver_id: AccountId,
        now: u64,
    ) -> (r: Result<Option<TokenId>, ContractError>)
        requires
            old(self).wf(),
        ensures
            final(self).wf(),
            ({
                let o = fuse_outcome(old(self)@, token_ids.deep_view(), target_token_series_id@, receiver_id@);
                &&& o matches Err(e) ==> r == Err::<Option<TokenId>, ContractError>(e) && final(self)@ == old(self)@
                &&& o == Ok::<Option<Seq<char>>, ContractError>(None) ==> r == Ok::<Option<TokenId>, ContractError>(None)
                    && final(self)@ == old(self)@
                &&& o matches Ok(Some(t)) ==> (r matches Ok(Some(x)) && x@ == t && final(self)@ == fused_view(
                    old(self)@,
                    token_ids.deep_view(),
                    series_index(old(self)@.series.len(), target_token_series_id@)->Some_0,
                    receiver_id@,
                    now,
                ) && all_burnt(final(self)@, token_ids.deep_view()) && final(self)@.owners.contains_key(t)
                    && final(self)@.owners[t] == receiver_id@ && final(self)@.last_token_by_owner[receiver_id@] == t)
            }),
    {
        let idx = match self.find_series(&target_token_series_id) {
            Some(i) => i,
            None => return Err(ContractError::SeriesNotFound),
        };
        let satisfied = match &self.token_series_by_id[idx].fuse_requirements {
            None => return Err(ContractError::NoFuseRequirements),
            Some(alternatives) => {
                if alternatives.len() > 0 {
                    if let Some(e) = self.check_ownership(&token_ids, &receiver_id) {
                        return Err(e);
                    }
                }
                let supplied = token_series_list(&token_ids);
                any_requirement_met(alternatives, &supplied)
            },
        };
        if !satisfied {
            return Ok(None);
        }
        let series = &self.token_series_by_id[idx];
        let max_copies = match series.metadata.copies {
            Some(c) => c,
            None => u64::MAX,
        };
        if !series.is_mintable || series.minted >= max_copies {
            return Err(ContractError::NotMintable);
        }
        let ghost pre = self@;
        self.burn_all(&token_ids);
        let ghost burnt = self@;
        assert(burnt.series == pre.series) by {
            lemma_burned_all_series(pre, token_ids.deep_view());
        }
        let token_id = match self.internal_mint(idx, receiver_id.clone(), now) {
            Ok(t) => t,
            Err(e) => return Err(e),
        };
        let ghost minted = self@;
        self.last_token_by_owner.insert(receiver_id, token_id.clone());
        proof {
            assert(self@.last_token_by_owner =~= minted.last_token_by_owner.insert(receiver_id@, token_id@));
            let tokens = token_ids.deep_view();
            lemma_all_owned(pre, tokens, receiver_id@);
            lemma_burned_all_owners(pre, tokens);
            lemma_next_not_issued(pre, idx as int);
            assert forall|j: int| 0 <= j < tokens.len() implies !self@.owners.contains_key(#[trigger] tokens[j]) by {
                assert(pre.owners.contains_key(tokens[j]));
                assert(issued(pre, tokens[j]));
                assert(tokens[j] != token_id@);
                assert(!burnt.owners.contains_key(tokens[j]));
            }
        }
        Ok(Some(token_id))
    }

    /// Fuses `token_ids`, owned by `caller`, into a new token of series
    /// `target_token_series_id` for `caller` (see `internal_fuse`).
    pub fn nft_fuse(
        &mut self,
        caller: &AccountId,
        token_ids: Vec<TokenId>,
        target_token_series_id: TokenSeriesId,
        now: u64,
    ) -> (r: Result<Option<TokenId>, ContractError>)
        requires
            old(self).wf(),
        ensures
            final(self).wf(),
            ({
                let o = fuse_outcome(old(self)@, token_ids.deep_view(), target_token_series_id@, caller@);
                &&& o matches Err(e) ==> r == Err::<Option<TokenId>, ContractError>(e) && final(self)@ == old(self)@
                &&& o == Ok::<Option<Seq<char>>, ContractError>(None) ==> r == Ok::<Option<TokenId>, ContractError>(None)
                    && final(self)@ == old(self)@
                &&& o matches Ok(Some(t)) ==> (r matches Ok(Some(x)) && x@ == t && final(self)@ == fused_view(
                    old(self)@,
                    token_ids.deep_view(),
                    series_index(old(self)@.series.len(), target_token_series_id@)->Some_0,
                    caller@,
                    now,
                ) && all_burnt(final(self)@, token_ids.deep_view()) && final(self)@.owners.contains_key(t)
                    && final(self)@.owners[t] == caller@ && final(self)@.last_token_by_owner[caller@] == t)
            }),
    {
        self.internal_fuse(token_ids, target_token_series_id, caller.clone(), now)
    }

    /// Handles a payment of `amount` from the asset contract `ft_contract_id`
    /// by `sender_id` that asks for a fuse. The asset must be the one that the
    /// target series' fuse price names, and the amount must cover that price.
    /// The fuse must mint: a fuse that matches no recipe fails the call, so
    /// that the payment goes back. On success nothing of the payment is
    /// returned (the result is zero).
    pub fn ft_on_transfer(
        &mut self,
        ft_contract_id: &AccountId,
        signer_id: &AccountId,
        sender_id: AccountId,
        amount: u128,
        args: FuseArgs,
        now: u64,
    ) -> (r: Result<u128, ContractError>)
        requires
            old(self).wf(),
        ensures
            final(self).wf(),
            r is Err ==> final(self)@ == old(self)@,
            r is Ok ==> r == Ok::<u128, ContractError>(0),
            !valid_account_id(sender_id@) ==> r == Err::<u128, ContractError>(ContractError::InvalidAccountId),
            valid_account_id(sender_id@) && ft_contract_id@ == signer_id@ ==> r == Err::<u128, ContractError>(
                ContractError::NotCrossContractCall),
            valid_account_id(sender_id@) && ft_contract_id@ != signer_id@ ==> match series_index(
                old(self)@.series.len(),
                args.target_token_series_id@,
            ) {
                None => r == Err::<u128, ContractError>(ContractError::SeriesNotFound),
                Some(i) => match old(self)@.series[i].fuse_cost {
                    None => r == Err::<u128, ContractError>(ContractError::NoFuseCost),
                    Some(cost) => if cost.0@ != ft_contract_id@ {
                        r == Err::<u128, ContractError>(ContractError::PaymentAssetMismatch)
                    } else if amount < cost.1 {
                        r == Err::<u128, ContractError>(ContractError::InsufficientPayment)
                    } else {
                        match fuse_outcome(old(self)@, args.token_ids.deep_view(), args.target_token_series_id@, sender_id@) {
                            Err(e) => r == Err::<u128, ContractError>(e),
                            Ok(None) => r == Err::<u128, ContractError>(ContractError::FuseNotSatisfied),
                            Ok(Some(t)) => r is Ok && final(self)@ == fused_view(
                                old(self)@,
                                args.token_ids.deep_view(),
                                i,
                                sender_id@,
                                now,
                            ) && all_burnt(final(self)@, args.token_ids.deep_view())
                                && final(self)@.owners.contains_key(t) && final(self)@.owners[t] == sender_id@,
                        }
                    },
                },
            },
    {
        if !is_valid_account(&sender_id) {
            return Err(ContractError::InvalidAccountId);
        }
        if *ft_contract_id == *signer_id {
            return Err(ContractError::NotCrossContractCall);
        }
        let FuseArgs { token_ids, target_token_series_id } = args;
        let idx = match self.find_series(&target_token_series_id) {
            Some(i) => i,
            None => return Err(ContractError::SeriesNotFound),
        };
        match &self.token_series_by_id[idx].fuse_cost {
            None => return Err(ContractError::NoFuseCost),
            Some(cost) => {
                if cost.0 != *ft_contract_id {
                    return Err(ContractError::PaymentAssetMismatch);
                }
                if amount < cost.1 {
                    return Err(ContractError::InsufficientPayment);
                }
            },
        }
        match self.internal_fuse(token_ids, target_token_series_id, sender_id, now)? {
            Some(_) => Ok(0),
            None => Err(ContractError::FuseNotSatisfied),
        }
    }

    /// The token that `account_id` last obtained by fusing.
    pub fn get_last_token_by_owner(&self, account_id: AccountId) -> (r: Option<TokenId>)
        requires
            self.wf(),
        ensures
            match r {
                Some(t) => self@.last_token_by_owner.contains_key(account_id@) && t@ == self@.last_token_by_owner[account_id@],
                None => !self@.last_token_by_owner.contains_key(account_id@),
            },
    {
        match self.last_token_by_owner.get(&account_id) {
            Some(t) => Some(t.clone()),
            None => None,
        }
    }

    /// The payout table of a sale of `token_id` for `balance`, owned by `owner`.
    fn payout_for(&self, token_id: &TokenId, owner: &AccountId, balance: u128, max_len_payout: Option<u32>) -> (r: Result<Payout, ContractError>)
        requires
            self.wf(),
        ensures
            payout_error(self@, token_id@, owner@, max_len_payout) matches Some(e) ==> r == Err::<Payout, ContractError>(e),
            payout_error(self@, token_id@, owner@, max_len_payout) is None ==> (r matches Ok(p) && p.payout.wf()
                && holds_shares(p.payout.entry_seq(), payout_shares(
                    royalty_entries(self@, series_index(self@.series.len(), series_part(token_id@))->Some_0),
                    owner@,
                    balance as nat,
                )) && payout_map(
                    p.payout@,
                    self@.series[series_index(self@.series.len(), series_part(token_id@))->Some_0].royalty@,
                    royalty_entries(self@, series_index(self@.series.len(), series_part(token_id@))->Some_0),
                    owner@,
                    balance as nat,
                )),
    {
        let series_id = token_series_part(token_id);
        let idx = match self.find_series(&series_id) {
            Some(i) => i,
            None => return Err(ContractError::SeriesNotFound),
        };
        let royalty = &self.token_series_by_id[idx].royalty;
        proof {
            self.lemma_series_royalty(idx as int, owner@);
        }
        let max_len = match max_len_payout {
            Some(m) => m,
            None => return Err(ContractError::PayoutRecipientsExceeded),
        };
        if royalty.len() as u64 > max_len as u64 {
            return Err(ContractError::PayoutRecipientsExceeded);
        }
        Ok(Payout { payout: compute_payout(royalty, owner, balance) })
    }

    /// The payout of a sale of `token_id` for `balance`: every named royalty
    /// account other than the owner gets its basis points of the sale, the
    /// owner the basis points that are left, each rounded down. The royalty
    /// table may name at most `max_len_payout` accounts.
    pub fn nft_payout(&self, token_id: TokenId, balance: u128, max_len_payout: u32) -> (r: Result<Payout, ContractError>)
        requires
            self.wf(),
        ensures
            !self@.owners.contains_key(token_id@) ==> r == Err::<Payout, ContractError>(ContractError::TokenNotFound),
            self@.owners.contains_key(token_id@) ==> {
                let owner = self@.owners[token_id@];
                &&& payout_error(self@, token_id@, owner, Some(max_len_payout)) matches Some(e)
                    ==> r == Err::<Payout, ContractError>(e)
                &&& payout_error(self@, token_id@, owner, Some(max_len_payout)) is None ==> (r matches Ok(p)
                    && p.payout.wf() && holds_shares(p.payout.entry_seq(), payout_shares(
                        royalty_entries(self@, series_index(self@.series.len(), series_part(token_id@))->Some_0),
                        owner,
                        balance as nat,
                    )) && payout_map(
                        p.payout@,
                        self@.series[series_index(self@.series.len(), series_part(token_id@))->Some_0].royalty@,
                        royalty_entries(self@, series_index(self@.series.len(), series_part(token_id@))->Some_0),
                        owner,
                        balance as nat,
                    ))
            },
    {
        let owner = match self.owner_by_id.get(&token_id) {
            Some(o) => o,
            None => return Err(ContractError::TokenNotFound),
        };
        self.payout_for(&token_id, owner, balance, Some(max_len_payout))
    }

    /// Why the transfer of `token_id` by `sender` to `receiver_id` would fail,
    /// if it would; else its current owner.
    fn check_transfer(&self, sender: &AccountId, receiver_id: &AccountId, token_id: &TokenId, approval_id: Option<u64>) -> (r: Result<AccountId, ContractError>)
        requires
            self.wf(),
        ensures
            transfer_error(self@, sender@, receiver_id@, token_id@, approval_id) matches Some(e) ==> r == Err::<AccountId, ContractError>(e),
            transfer_error(self@, sender@, receiver_id@, token_id@, approval_id) is None ==> (r matches Ok(o) && o@ == self@.owners[token_id@]),
    {
        if !is_valid_account(receiver_id) {
            return Err(ContractError::InvalidAccountId);
        }
        let owner = match self.owner_by_id.get(token_id) {
            Some(o) => o.clone(),
            None => return Err(ContractError::TokenNotFound),
        };
        if !self.sender_may_transfer(sender, &owner, token_id, approval_id) {
            return Err(ContractError::Unauthorized);
        }
        if owner == *receiver_id {
            return Err(ContractError::SameOwner);
        }
        Ok(owner)
    }

    /// Moves `token_id` to `receiver_id` as `nft_transfer` does and, where a
    /// sale `balance` is given, hands back its payout computed for the
    /// previous owner. No funds move here. Fails as a whole where the payout
    /// cannot be computed.
    pub fn nft_transfer_payout(
        &mut self,
        sender: &AccountId,
        receiver_id: AccountId,
        token_id: TokenId,
        approval_id: Option<u64>,
        balance: Option<u128>,
        max_len_payout: Option<u32>,
    ) -> (r: Result<Option<Payout>, ContractError>)
        requires
            old(self).wf(),
        ensures
            final(self).wf(),
            r is Err ==> final(self)@ == old(self)@,
            transfer_error(old(self)@, sender@, receiver_id@, token_id@, approval_id) matches Some(e)
                ==> r == Err::<Option<Payout>, ContractError>(e),
            transfer_error(old(self)@, sender@, receiver_id@, token_id@, approval_id) is None ==> {
                let owner = old(self)@.owners[token_id@];
                match balance {
                    None => r matches Ok(None) && final(self)@ == transferred_view(old(self)@, token_id@, receiver_id@),
                    Some(b) => {
                        &&& payout_error(old(self)@, token_id@, owner, max_len_payout) matches Some(e)
                            ==> r == Err::<Option<Payout>, ContractError>(e)
                        &&& payout_error(old(self)@, token_id@, owner, max_len_payout) is None ==> (r matches Ok(Some(p))
                            && final(self)@ == transferred_view(old(self)@, token_id@, receiver_id@)
                            && p.payout.wf() && holds_shares(p.payout.entry_seq(), payout_shares(
                                royalty_entries(old(self)@, series_index(old(self)@.series.len(), series_part(token_id@))->Some_0),
                                owner,
                                b as nat,
                            )) && payout_map(
                                p.payout@,
                                old(self)@.series[series_index(old(self)@.series.len(), series_part(token_id@))->Some_0].royalty@,
                                royalty_entries(old(self)@, series_index(old(self)@.series.len(), series_part(token_id@))->Some_0),
                                owner,
                                b as nat,
                            ))
                    },
                }
            },
    {
        let owner = self.check_transfer(sender, &receiver_id, &token_id, approval_id)?;
        let payout = match balance {
            None => None,
            Some(b) => Some(self.payout_for(&token_id, &owner, b, max_len_payout)?),
        };
        let _ = self.internal_transfer(sender, &receiver_id, &token_id, approval_id);
        Ok(payout)
    }

    /// Finds series `id` for a change that only its creator may make.
    fn creator_series(&self, caller: &AccountId, id: &TokenSeriesId) -> (r: Result<usize, ContractError>)
        requires
            self.wf(),
        ensures
            creator_error(self@, caller@, id@) matches Some(e) ==> r == Err::<usize, ContractError>(e),
            creator_error(self@, caller@, id@) is None ==> (r matches Ok(i) && i < self@.series.len()
                && series_index(self@.series.len(), id@) == Some(i as int)),
    {
        let idx = match self.find_series(id) {
            Some(i) => i,
            None => return Err(ContractError::SeriesNotFound),
        };
        if *caller != self.token_series_by_id[idx].creator_id {
            return Err(ContractError::Unauthorized);
        }
        Ok(idx)
    }

    /// Replaces the metadata of a series; only the registry owner may.
    pub fn nft_set_metadata(&mut self, caller: &AccountId, token_series_id: TokenSeriesId, token_metadata: TokenMetadata) -> (r: Result<(), ContractError>)
        requires
            old(self).wf(),
        ensures
            final(self).wf(),
            r is Err ==> final(self)@ == old(self)@,
            caller@ != old(self)@.owner_id ==> r == Err::<(), ContractError>(ContractError::Unauthorized),
            caller@ == old(self)@.owner_id ==> match series_index(old(self)@.series.len(), token_series_id@) {
                None => r == Err::<(), ContractError>(ContractError::SeriesNotFound),
                Some(i) => r is Ok && final(self)@ == with_series(old(self)@, i, TokenSeries {
                    metadata: token_metadata,
                    ..old(self)@.series[i]
                }),
            },
    {
        if *caller != self.owner_id {
            return Err(ContractError::Unauthorized);
        }
        let idx = match self.find_series(&token_series_id) {
            Some(i) => i,
            None => return Err(ContractError::SeriesNotFound),
        };
        let mut series = self.token_series_by_id.remove(idx);
        series.metadata = token_metadata;
        self.token_series_by_id.insert(idx, series);
        proof {
            assert forall|i: int| 0 <= i < self.token_series_by_id@.len() implies series_wf(
                #[trigger] self.token_series_by_id@[i]) by {
                assert(series_wf(old(self).token_series_by_id@[i]));
            }
            assert(self.token_series_by_id@ =~= old(self).token_series_by_id@.update(idx as int, series));
        }
        Ok(())
    }

    /// Closes a series without a copies cap; only its creator may.
    pub fn nft_set_series_non_mintable(&mut self, caller: &AccountId, token_series_id: TokenSeriesId) -> (r: Result<(), ContractError>)
        requires
            old(self).wf(),
        ensures
            final(self).wf(),
            r is Err ==> final(self)@ == old(self)@,
            creator_error(old(self)@, caller@, token_series_id@) matches Some(e) ==> r == Err::<(), ContractError>(e),
            creator_error(old(self)@, caller@, token_series_id@) is None ==> {
                let i = series_index(old(self)@.series.len(), token_series_id@)->Some_0;
                let s = old(self)@.series[i];
                if !s.is_mintable {
                    r == Err::<(), ContractError>(ContractError::AlreadyNonMintable)
                } else if s.metadata.copies is Some {
                    r == Err::<(), ContractError>(ContractError::CopiesSet)
                } else {
                    r is Ok && final(self)@ == with_series(old(self)@, i, TokenSeries { is_mintable: false, ..s })
                }
            },
    {
        let idx = self.creator_series(caller, &token_series_id)?;
        if !self.token_series_by_id[idx].is_mintable {
            return Err(ContractError::AlreadyNonMintable);
        }
        if self.token_series_by_id[idx].metadata.copies.is_some() {
            return Err(ContractError::CopiesSet);
        }
        let mut series = self.token_series_by_id.remove(idx);
        series.is_mintable = false;
        self.token_series_by_id.insert(idx, series);
        proof {
            assert forall|i: int| 0 <= i < self.token_series_by_id@.len() implies series_wf(
                #[trigger] self.token_series_by_id@[i]) by {
                assert(series_wf(old(self).token_series_by_id@[i]));
            }
            assert(self.token_series_by_id@ =~= old(self).token_series_by_id@.update(idx as int, series));
        }
        Ok(())
    }

    /// Lowers the copies cap of a series by `decrease_copies`; only its creator
    /// may. The cap may not fall below the number already minted; where it
    /// comes to equal it, the series closes. Hands back the new cap.
    pub fn nft_decrease_series_copies(&mut self, caller: &AccountId, token_series_id: TokenSeriesId, decrease_copies: u64) -> (r: Result<u64, ContractError>)
        requires
            old(self).wf(),
        ensures
            final(self).wf(),
            r is Err ==> final(self)@ == old(self)@,
            creator_error(old(self)@, caller@, token_series_id@) matches Some(e) ==> r == Err::<u64, ContractError>(e),
            creator_error(old(self)@, caller@, token_series_id@) is None ==> {
                let i = series_index(old(self)@.series.len(), token_series_id@)->Some_0;
                let s = old(self)@.series[i];
                match s.metadata.copies {
                    None => r == Err::<u64, ContractError>(ContractError::CopiesNotSet),
                    Some(copies) => if decrease_copies > copies || copies - decrease_copies < s.minted {
                        r == Err::<u64, ContractError>(ContractError::CopiesBelowMinted)
                    } else {
                        let cap = (copies - decrease_copies) as u64;
                        r == Ok::<u64, ContractError>(cap) && final(self)@ == with_series(old(self)@, i, with_cap(s, cap))
                    },
                }
            },
    {
        let idx = self.creator_series(caller, &token_series_id)?;
        let copies = match self.token_series_by_id[idx].metadata.copies {
            Some(c) => c,
            None => return Err(ContractError::CopiesNotSet),
        };
        let minted = self.token_series_by_id[idx].minted;
        if decrease_copies > copies || copies - decrease_copies < minted {
            return Err(ContractError::CopiesBelowMinted);
        }
        let cap = copies - decrease_copies;
        let mut series = self.token_series_by_id.remove(idx);
        if cap == minted {
            series.is_mintable = false;
        }
        series.metadata.copies = Some(cap);
        self.token_series_by_id.insert(idx, series);
        proof {
            assert forall|i: int| 0 <= i < self.token_series_by_id@.len() implies series_wf(
                #[trigger] self.token_series_by_id@[i]) by {
                assert(series_wf(old(self).token_series_by_id@[i]));
            }
            assert(self.token_series_by_id@ =~= old(self).token_series_by_id@.update(idx as int, series));
        }
        Ok(cap)
    }

    /// Sets or clears the price of an open series; only its creator may.
    /// Hands back the new price.
    pub fn nft_set_series_price(&mut self, caller: &AccountId, token_series_id: TokenSeriesId, price: Option<Balance>) -> (r: Result<Option<Balance>, ContractError>)
        requires
            old(self).wf(),
        ensures
            final(self).wf(),
            r is Err ==> final(self)@ == old(self)@,
            creator_error(old(self)@, caller@, token_series_id@) matches Some(e) ==> r == Err::<Option<Balance>, ContractError>(e),
            creator_error(old(self)@, caller@, token_series_id@) is None ==> {
                let i = series_index(old(self)@.series.len(), token_series_id@)->Some_0;
                let s = old(self)@.series[i];
                if !s.is_mintable {
                    r == Err::<Option<Balance>, ContractError>(ContractError::NotMintable)
                } else {
                    r == Ok::<Option<Balance>, ContractError>(price) && final(self)@ == with_series(old(self)@, i, TokenSeries { price: price, ..s })
                }
            },
    {
        let idx = self.creator_series(caller, &token_series_id)?;
        if !self.token_series_by_id[idx].is_mintable {
            return Err(ContractError::NotMintable);
        }
        let mut series = self.token_series_by_id.remove(idx);
        series.price = price;
        self.token_series_by_id.insert(idx, series);
        proof {
            assert forall|i: int| 0 <= i < self.token_series_by_id@.len() implies series_wf(
                #[trigger] self.token_series_by_id@[i]) by {
                assert(series_wf(old(self).token_series_by_id@[i]));
            }
            assert(self.token_series_by_id@ =~= old(self).token_series_by_id@.update(idx as int, series));
        }
        Ok(price)
    }

    /// Replaces the fuse recipes and fuse price of a series; only the registry
    /// owner may.
    pub fn change_fuse_requirements(
        &mut self,
        caller: &AccountId,
        token_series_id: TokenSeriesId,
        fuse_requirements: Option<Vec<Vec<TokenSeriesId>>>,
        fuse_cost: Option<(AccountId, u128)>,
    ) -> (r: Result<(), ContractError>)
        requires
            old(self).wf(),
        ensures
            final(self).wf(),
            r is Err ==> final(self)@ == old(self)@,
            match series_index(old(self)@.series.len(), token_series_id@) {
                None => r == Err::<(), ContractError>(ContractError::SeriesNotFound),
                Some(i) => if caller@ != old(self)@.owner_id {
                    r == Err::<(), ContractError>(ContractError::Unauthorized)
                } else {
                    r is Ok && final(self)@ == with_series(old(self)@, i, TokenSeries {
                        fuse_requirements: fuse_requirements,
                        fuse_cost: fuse_cost,
                        ..old(self)@.series[i]
                    })
                },
            },
    {
        let idx = match self.find_series(&token_series_id) {
            Some(i) => i,
            None => return Err(ContractError::SeriesNotFound),
        };
        if *caller != self.owner_id {
            return Err(ContractError::Unauthorized);
        }
        let mut series = self.token_series_by_id.remove(idx);
        series.fuse_requirements = fuse_requirements;
        series.fuse_cost = fuse_cost;
        self.token_series_by_id.insert(idx, series);
        proof {
            assert forall|i: int| 0 <= i < self.token_series_by_id@.len() implies series_wf(
                #[trigger] self.token_series_by_id@[i]) by {
                assert(series_wf(old(self).token_series_by_id@[i]));
            }
            assert(self.token_series_by_id@ =~= old(self).token_series_by_id@.update(idx as int, series));
        }
        Ok(())
    }

    /// Configures the two series that loot is drawn from; only the registry
    /// owner may. Replaces any earlier pair.
    pub fn set_nft_random_loot(&mut self, caller: &AccountId, token_series_ids: Vec<TokenSeriesId>) -> (r: Result<(), ContractError>)
        requires
            old(self).wf(),
        ensures
            final(self).wf(),
            r is Err ==> final(self)@ == old(self)@,
            caller@ != old(self)@.owner_id ==> r == Err::<(), ContractError>(ContractError::Unauthorized),
            caller@ == old(self)@.owner_id && token_series_ids@.len() != 2 ==> r == Err::<(), ContractError>(
                ContractError::RandomLootSize),
            caller@ == old(self)@.owner_id && token_series_ids@.len() == 2 ==> r is Ok && final(self)@ == (LedgerView {
                random_loot: Some(token_series_ids.deep_view()),
                ..old(self)@
            }),
    {
        if *caller != self.owner_id {
            return Err(ContractError::Unauthorized);
        }
        if token_series_ids.len() != 2 {
            return Err(ContractError::RandomLootSize);
        }
        self.random_loot = Some(token_series_ids);
        Ok(())
    }

    /// Mints a loot token to `caller` from one of the two configured series:
    /// the first where `random_byte` is below 128, else the second.
    pub fn nft_random_loot(&mut self, caller: &AccountId, random_byte: u8, now: u64) -> (r: Result<TokenId, ContractError>)
        requires
            old(self).wf(),
        ensures
            final(self).wf(),
            r is Err ==> final(self)@ == old(self)@,
            match old(self)@.random_loot {
                None => r == Err::<TokenId, ContractError>(ContractError::RandomLootNotSet),
                Some(loot) => {
                    let id = if random_byte < 128 { loot[0] } else { loot[1] };
                    match series_index(old(self)@.series.len(), id) {
                        None => r == Err::<TokenId, ContractError>(ContractError::SeriesNotFound),
                        Some(i) => if !can_mint(old(self)@.series[i]) {
                            r == Err::<TokenId, ContractError>(ContractError::NotMintable)
                        } else {
                            r matches Ok(t) && t@ == next_token_id(old(self)@, i)
                                && final(self)@ == minted_view(old(self)@, i, caller@, now)
                        },
                    }
                },
            },
    {
        let series_id = match &self.random_loot {
            None => return Err(ContractError::RandomLootNotSet),
            Some(loot) => {
                proof {
                    assert(old(self)@.random_loot == Some(loot.deep_view()));
                }
                if random_byte < 128 {
                    loot[0].clone()
                } else {
                    loot[1].clone()
                }
            },
        };
        let idx = match self.find_series(&series_id) {
            Some(i) => i,
            None => return Err(ContractError::SeriesNotFound),
        };
        self.internal_mint(idx, caller.clone(), now)
    }

    /// The id of edition `edition` of series `idx`.
    fn edition_token_id(idx: usize, edition: u64) -> (r: TokenId)
        requires
            idx < u64::MAX,
        ensures
            r@ == token_id_of(series_id_at(idx as int), edition as nat),
    {
        let series_id = u64_to_decimal(idx as u64 + 1);
        let edition_text = u64_to_decimal(edition);
        let token_id = series_id.concat(":").concat(edition_text.as_str());
        proof {
            reveal_strlit(":");
            assert(token_id@ =~= token_id_of(series_id_at(idx as int), edition as nat));
        }
        token_id
    }

    /// The id of the next token that series `idx` mints.
    fn next_token_id_string(&self, idx: usize) -> (r: TokenId)
        requires
            self.wf(),
            idx < self@.series.len(),
            self@.series[idx as int].minted < u64::MAX,
        ensures
            r@ == next_token_id(self@, idx as int),
    {
        Self::edition_token_id(idx, self.token_series_by_id[idx].minted + 1)
    }

    /// Mints the next token of a series to its creator, who must be `caller`,
    /// and approves `account_id` for it at once. Where `msg` is given, hands
    /// back the notification to send to the approved account.
    pub fn nft_mint_and_approve(
        &mut self,
        caller: &AccountId,
        token_series_id: TokenSeriesId,
        account_id: AccountId,
        msg: Option<String>,
        now: u64,
    ) -> (r: Result<Option<ApprovalNotification>, ContractError>)
        requires
            old(self).wf(),
        ensures
            final(self).wf(),
            r is Err ==> final(self)@ == old(self)@,
            !valid_account_id(account_id@) ==> r == Err::<Option<ApprovalNotification>, ContractError>(
                ContractError::InvalidAccountId),
            valid_account_id(account_id@) ==> match series_index(old(self)@.series.len(), token_series_id@) {
                None => r == Err::<Option<ApprovalNotification>, ContractError>(ContractError::SeriesNotFound),
                Some(i) => {
                    let t = next_token_id(old(self)@, i);
                    if caller@ != old(self)@.series[i].creator_id@ {
                        r == Err::<Option<ApprovalNotification>, ContractError>(ContractError::Unauthorized)
                    } else if !can_mint(old(self)@.series[i]) {
                        r == Err::<Option<ApprovalNotification>, ContractError>(ContractError::NotMintable)
                    } else {
                        r matches Ok(n) && final(self)@ == approved_view(
                            minted_view(old(self)@, i, caller@, now),
                            t,
                            account_id@,
                        ) && final(self)@.owners[t] == caller@
                            && final(self)@.approvals[t] == Map::<Seq<char>, u64>::empty().insert(account_id@, 1u64)
                            && final(self)@.next_approval_ids[t] == 2
                            && (msg is None ==> n is None) && (msg matches Some(m) ==> n matches Some(a)
                            && a.account_id == account_id && a.token_id@ == t && a.owner_id@ == caller@
                            && a.msg == m && a.approval_id == 1)
                    }
                },
            },
    {
        if !is_valid_account(&account_id) {
            return Err(ContractError::InvalidAccountId);
        }
        let idx = match self.find_series(&token_series_id) {
            Some(i) => i,
            None => return Err(ContractError::SeriesNotFound),
        };
        if *caller != self.token_series_by_id[idx].creator_id {
            return Err(ContractError::Unauthorized);
        }
        let series = &self.token_series_by_id[idx];
        let max_copies = match series.metadata.copies {
            Some(c) => c,
            None => u64::MAX,
        };
        if !series.is_mintable || series.minted >= max_copies {
            return Err(ContractError::NotMintable);
        }
        proof {
            lemma_next_token_fresh(self@, idx as int);
        }
        let ghost pre = self@;
        let token_id = self.internal_mint(idx, caller.clone(), now)?;
        proof {
            assert(approvals_of(self@, token_id@) == approvals_of(pre, token_id@));
            assert(next_approval_id(self@, token_id@) == 1);
            assert(Map::<Seq<char>, u64>::empty().insert(account_id@, 1u64) =~= approvals_of(self@, token_id@).insert(account_id@, 1u64));
        }
        let approval_id = self.add_approval(&token_id, account_id.clone())?;
        match msg {
            Some(m) => Ok(
                Some(
                    ApprovalNotification {
                        account_id,
                        token_id,
                        owner_id: caller.clone(),
                        approval_id,
                        msg: m,
                    },
                ),
            ),
            None => Ok(None),
        }
    }

    /// A ledger owned by `owner_id`, with the default ledger metadata.
    pub fn new_default_meta(owner_id: AccountId) -> (r: Result<Contract, ContractError>)
        ensures
            !valid_account_id(owner_id@) ==> r == Err::<Contract, ContractError>(ContractError::InvalidAccountId),
            valid_account_id(owner_id@) ==> (r matches Ok(c) && {
                &&& c.wf()
                &&& c@.owner_id == owner_id@
                &&& c@.series.len() == 0
                &&& c@.owners == Map::<Seq<char>, Seq<char>>::empty()
                &&& c@.metadata.spec@ == NFT_METADATA_SPEC@
                &&& c@.metadata.name@ == "Skins Collectible"@
                &&& c@.metadata.symbol@ == "SKINS"@
                &&& (c@.metadata.icon matches Some(i) && i@ == DATA_IMAGE_SVG_NEAR_ICON@)
                &&& (c@.metadata.base_uri matches Some(b) && b@ == "https://ipfs.io/ipfs"@)
                &&& c@.metadata.reference is None
                &&& c@.metadata.reference_hash is None
            }),
    {
        Contract::new(
            owner_id,
            NFTContractMetadata {
                spec: String::from_str(NFT_METADATA_SPEC),
                name: String::from_str("Skins Collectible"),
                symbol: String::from_str("SKINS"),
                icon: Some(String::from_str(DATA_IMAGE_SVG_NEAR_ICON)),
                base_uri: Some(String::from_str("https://ipfs.io/ipfs")),
                reference: None,
                reference_hash: None,
            },
        )
    }

    /// The registry owner.
    pub fn get_owner(&self) -> (r: AccountId)
        ensures
            r@ == self@.owner_id,
    {
        self.owner_id.clone()
    }

    /// The ledger's metadata.
    pub fn nft_metadata(&self) -> (r: NFTContractMetadata)
        ensures
            r == self@.metadata,
    {
        self.metadata.copy()
    }

    /// The separators of token ids and display titles.
    pub fn nft_get_series_format(&self) -> (r: (char, &'static str, &'static str))
        ensures
            r.0 == ':' && r.1@ == TITLE_DELIMETER@ && r.2@ == EDITION_DELIMETER@,
    {
        (TOKEN_DELIMETER, TITLE_DELIMETER, EDITION_DELIMETER)
    }

    /// Series `idx` as it is shown.
    fn show_series(&self, idx: usize) -> (r: TokenSeriesJson)
        requires
            self.wf(),
            idx < self@.series.len(),
        ensures
            shows_series(r, series_id_at(idx as int), self@.series[idx as int]),
    {
        let s = &self.token_series_by_id[idx];
        proof {
            assert(series_wf(self.token_series_by_id@[idx as int]));
        }
        TokenSeriesJson {
            token_series_id: u64_to_decimal(idx as u64 + 1),
            metadata: s.metadata.copy(),
            creator_id: s.creator_id.clone(),
            royalty: s.royalty.copy(),
            fuse_requirements: copy_requirements(&s.fuse_requirements),
            fuse_cost: copy_fuse_cost(&s.fuse_cost),
        }
    }

    /// The series with id `token_series_id`.
    pub fn nft_get_series_single(&self, token_series_id: TokenSeriesId) -> (r: Result<TokenSeriesJson, ContractError>)
        requires
            self.wf(),
        ensures
            match series_index(self@.series.len(), token_series_id@) {
                None => r == Err::<TokenSeriesJson, ContractError>(ContractError::SeriesNotFound),
                Some(i) => r matches Ok(j) && shows_series(j, token_series_id@, self@.series[i]),
            },
    {
        match self.find_series(&token_series_id) {
            Some(i) => Ok(self.show_series(i)),
            None => Err(ContractError::SeriesNotFound),
        }
    }

    /// The price of the series with id `token_series_id`.
    pub fn nft_get_series_price(&self, token_series_id: TokenSeriesId) -> (r: Result<Option<Balance>, ContractError>)
        requires
            self.wf(),
        ensures
            match series_index(self@.series.len(), token_series_id@) {
                None => r == Err::<Option<Balance>, ContractError>(ContractError::SeriesNotFound),
                Some(i) => r == Ok::<Option<Balance>, ContractError>(self@.series[i].price),
            },
    {
        match self.find_series(&token_series_id) {
            Some(i) => Ok(self.token_series_by_id[i].price),
            None => Err(ContractError::SeriesNotFound),
        }
    }

    /// How many tokens the series with id `token_series_id` has minted.
    pub fn nft_supply_for_series(&self, token_series_id: TokenSeriesId) -> (r: Result<u64, ContractError>)
        requires
            self.wf(),
        ensures
            match series_index(self@.series.len(), token_series_id@) {
                None => r == Err::<u64, ContractError>(ContractError::SeriesNotFound),
                Some(i) => r == Ok::<u64, ContractError>(self@.series[i].minted),
            },
    {
        match self.find_series(&token_series_id) {
            Some(i) => Ok(self.token_series_by_id[i].minted),
            None => Err(ContractError::SeriesNotFound),
        }
    }

    /// The token `token_id` with its display metadata, or `None` where no
    /// such token exists.
    pub fn nft_token(&self, token_id: TokenId) -> (r: Result<Option<Token>, ContractError>)
        requires
            self.wf(),
        ensures
            !self@.owners.contains_key(token_id@) ==> r == Ok::<Option<Token>, ContractError>(None),
            self@.owners.contains_key(token_id@) ==> match series_index(self@.series.len(), series_part(token_id@)) {
                None => r == Err::<Option<Token>, ContractError>(ContractError::SeriesNotFound),
                Some(i) => if self@.series[i].metadata.title is None {
                    r == Err::<Option<Token>, ContractError>(ContractError::TitleRequired)
                } else if crate::ids::colon_from(token_id@, 0) == token_id@.len() {
                    r == Err::<Option<Token>, ContractError>(ContractError::TokenNotFound)
                } else {
                    r matches Ok(Some(tok)) && shows_token(tok, self@, token_id@, i)
                },
            },
    {
        let owner_id = match self.owner_by_id.get(&token_id) {
            Some(o) => o.clone(),
            None => return Ok(None),
        };
        let approvals = match self.approvals_by_id.get(&token_id) {
            Some(m) => m.copy(),
            None => StrMap::new(),
        };
        let series_id = token_series_part(&token_id);
        let idx = match self.find_series(&series_id) {
            Some(i) => i,
            None => return Err(ContractError::SeriesNotFound),
        };
        let series_metadata = &self.token_series_by_id[idx].metadata;
        let title = match &series_metadata.title {
            Some(t) => t,
            None => return Err(ContractError::TitleRequired),
        };
        let edition = match token_edition_part(&token_id) {
            Some(e) => e,
            None => return Err(ContractError::TokenNotFound),
        };
        let display_title = title.clone().concat(TITLE_DELIMETER).concat(edition.as_str());
        let issued_at = match self.token_issued_at.get(&token_id) {
            Some(ts) => Some(u64_to_decimal(*ts)),
            None => None,
        };
        let metadata = TokenMetadata {
            title: Some(display_title),
            description: None,
            media: copy_opt_string(&series_metadata.media),
            media_hash: None,
            copies: series_metadata.copies,
            issued_at,
            expires_at: None,
            starts_at: None,
            updated_at: None,
            extra: None,
            reference: copy_opt_string(&series_metadata.reference),
            reference_hash: None,
        };
        Ok(
            Some(
                Token {
                    token_id,
                    owner_id,
                    metadata: Some(metadata),
                    approved_account_ids: Some(approvals),
                },
            ),
        )
    }

    /// How many tokens exist.
    pub fn nft_total_supply(&self) -> (r: u128)
        requires
            self.wf(),
        ensures
            r == self@.owners.len(),
    {
        proof {
            self.owner_by_id.lemma_entries();
            assert(self@.owners.dom() =~= self.owner_by_id@.dom());
        }
        self.owner_by_id.len() as u128
    }

    /// Token ids are never reused: the next token of any series of a
    /// well-formed ledger has never been minted, so it is not live, has no
    /// approvals, no approval counter and no issue time.
    pub proof fn lemma_next_token_unused(&self, idx: int)
        requires
            self.wf(),
            0 <= idx < self@.series.len(),
        ensures
            !issued(self@, next_token_id(self@, idx)),
            !self@.owners.contains_key(next_token_id(self@, idx)),
            !self@.approvals.contains_key(next_token_id(self@, idx)),
            !self@.next_approval_ids.contains_key(next_token_id(self@, idx)),
            !self@.issued_at.contains_key(next_token_id(self@, idx)),
    {
        lemma_next_not_issued(self@, idx);
        lemma_next_token_fresh(self@, idx);
    }

    /// The payouts that this ledger computes never hand out more than the
    /// sale: under the royalty table of any of its series and for any owner,
    /// the shares sum to at most `balance`, and the basis points paid to named
    /// accounts and those left to the owner make up exactly ten thousand.
    pub proof fn lemma_payouts_within_sale(&self, idx: int, owner: Seq<char>, balance: nat)
        requires
            self.wf(),
            0 <= idx < self@.series.len(),
        ensures
            total(payout_shares(royalty_entries(self@, idx), owner, balance)) <= balance,
            paid_bp(royalty_entries(self@, idx), owner) + (10000 - paid_bp(royalty_entries(self@, idx), owner))
                == 10000,
    {
        self.lemma_series_royalty(idx, owner);
        lemma_payout_within_sale(royalty_entries(self@, idx), owner, balance);
    }

    /// The ids of the live tokens, in the order in which the ledger holds them.
    pub closed spec fn token_order(&self) -> Seq<Seq<char>> {
        self.owner_by_id.key_seq()
    }

    /// The token order lists each live token once.
    pub proof fn lemma_token_order(&self)
        requires
            self.wf(),
        ensures
            self.token_order().len() == self@.owners.len(),
            forall|i: int| 0 <= i < self.token_order().len() ==> self@.owners.contains_key(#[trigger] self.token_order()[i]),
            forall|t: Seq<char>| #[trigger] self@.owners.contains_key(t) ==> self.token_order().contains(t),
            self.token_order().no_duplicates(),
    {
        self.owner_by_id.lemma_entries();
        assert(self@.owners.dom() =~= self.owner_by_id@.dom());
        assert forall|i: int| 0 <= i < self.token_order().len() implies self@.owners.contains_key(
            #[trigger] self.token_order()[i]) by {
            assert(self.owner_by_id.entry_seq()[i].0@ == self.token_order()[i]);
        }
        assert forall|t: Seq<char>| #[trigger] self@.owners.contains_key(t) implies self.token_order().contains(t) by {
            let i = choose|i: int| 0 <= i < self.owner_by_id.entry_seq().len() && self.owner_by_id.entry_seq()[i].0@ == t;
            assert(self.token_order()[i] == t);
        }
    }

    /// The ids of the tokens that `account` owns, in token order.
    pub open spec fn tokens_of(&self, account: Seq<char>) -> Seq<Seq<char>> {
        self.token_order().filter(self.owned_by(account))
    }

    /// Whether a token is owned by `account`.
    pub open spec fn owned_by(&self, account: Seq<char>) -> spec_fn(Seq<char>) -> bool {
        |t: Seq<char>| self@.owners.contains_key(t) && self@.owners[t] == account
    }

    /// How many tokens `account_id` owns.
    pub fn nft_supply_for_owner(&self, account_id: AccountId) -> (r: u128)
        requires
            self.wf(),
        ensures
            r == self.tokens_of(account_id@).len(),
    {
        let ids = self.owned_ids(&account_id);
        ids.len() as u128
    }

    /// The ids of the tokens that `account` owns, in token order.
    fn owned_ids(&self, account: &AccountId) -> (r: Vec<TokenId>)
        requires
            self.wf(),
        ensures
            r.deep_view() == self.tokens_of(account@),
    {
        let n = self.owner_by_id.len();
        let mut out: Vec<TokenId> = Vec::new();
        let mut i: usize = 0;
        let ghost order = self.token_order();
        let ghost pred = self.owned_by(account@);
        proof {
            self.owner_by_id.lemma_entries();
        }
        while i < n
            invariant
                self.wf(),
                order == self.token_order(),
                n == order.len(),
                n == self.owner_by_id.entry_seq().len(),
                i <= n,
                pred == self.owned_by(account@),
                out.deep_view() == order.subrange(0, i as int).filter(pred),
                forall|j: int| 0 <= j < n ==> order[j] == (#[trigger] self.owner_by_id.entry_seq()[j]).0@
                    && self.owner_by_id@[order[j]] == self.owner_by_id.entry_seq()[j].1
                    && self.owner_by_id@.contains_key(order[j]),
            decreases n - i,
        {
            let (k, o) = self.owner_by_id.entry_at(i);
            proof {
                assert(order.subrange(0, i + 1).drop_last() =~= order.subrange(0, i as int));
                assert(order.subrange(0, i + 1).last() == order[i as int]);
                assert(self@.owners[order[i as int]] == o@);
                assert(pred(order[i as int]) == (o@ == account@));
            }
            let ghost before = out.deep_view();
            if *o == *account {
                out.push(k.clone());
                proof {
                    assert(out.deep_view() =~= before.push(k@));
                }
            }
            proof {
                reveal(Seq::filter);
                let sub1 = order.subrange(0, i + 1);
                assert(sub1.filter(pred) == (if pred(sub1.last()) {
                    sub1.drop_last().filter(pred).push(sub1.last())
                } else {
                    sub1.drop_last().filter(pred)
                }));
            }
            i = i + 1;
        }
        proof {
            assert(order.subrange(0, n as int) =~= order);
        }
        out
    }

    /// How token `t`, which exists, is shown.
    pub open spec fn token_shown(&self, tok: Token, t: Seq<char>) -> bool {
        &&& series_index(self@.series.len(), series_part(t)) is Some
        &&& shows_token(tok, self@, t, series_index(self@.series.len(), series_part(t))->Some_0)
    }

    /// Token `t`, which exists, as it is shown.
    fn shown_token(&self, t: &TokenId) -> (r: Result<Token, ContractError>)
        requires
            self.wf(),
            self@.owners.contains_key(t@),
        ensures
            r matches Ok(tok) ==> self.token_shown(tok, t@),
            displayable(self@, t@) ==> r is Ok,
    {
        match self.nft_token(t.clone()) {
            Ok(Some(tok)) => Ok(tok),
            Ok(None) => Err(ContractError::TokenNotFound),
            Err(e) => Err(e),
        }
    }

    /// A page of at most `limit` tokens of `account_id` (all where no limit is
    /// given), from position `from_index` (zero where not given) of its tokens
    /// in token order.
    pub fn nft_tokens_for_owner(&self, account_id: AccountId, from_index: Option<u128>, limit: Option<u64>) -> (r: Result<Vec<Option<Token>>, ContractError>)
        requires
            self.wf(),
        ensures
            ({
                let ids = self.tokens_of(account_id@);
                let start = match from_index { Some(f) => f as int, None => 0 };
                &&& ids.len() == 0 ==> (r matches Ok(v) && v@.len() == 0)
                &&& ids.len() > 0 && limit == Some(0u64) ==> r == Err::<Vec<Option<Token>>, ContractError>(ContractError::ZeroLimit)
                &&& ids.len() > 0 && limit != Some(0u64) && ids.len() <= start ==> r == Err::<Vec<Option<Token>>, ContractError>(ContractError::OutOfBounds)
                &&& ids.len() > 0 ==> (r matches Ok(v) ==> {
                    &&& v@.len() == page_len(ids.len() as int, start, limit)
                    &&& forall|j: int| 0 <= j < v@.len() ==> ((#[trigger] v@[j]) matches Some(tok)
                        && self.token_shown(tok, ids[start + j]))
                })
                &&& ids.len() > start && limit != Some(0u64) && page_displayable(self@, ids, start, limit)
                    ==> r is Ok
            }),
    {
        let ids = self.owned_ids(&account_id);
        let ghost gids = self.tokens_of(account_id@);
        if ids.len() == 0 {
            return Ok(Vec::new());
        }
        if limit == Some(0u64) {
            return Err(ContractError::ZeroLimit);
        }
        let start: u128 = match from_index { Some(f) => f, None => 0 };
        if ids.len() as u128 <= start {
            return Err(ContractError::OutOfBounds);
        }
        proof {
            self.lemma_token_order();
            assert forall|j: int| 0 <= j < gids.len() implies self@.owners.contains_key(#[trigger] gids[j]) by {
                let order = self.token_order();
                order.lemma_filter_pred(self.owned_by(account_id@), j);
                assert(self.owned_by(account_id@)(gids[j]));
            }
        }
        let mut out: Vec<Option<Token>> = Vec::new();
        let first: usize = start as usize;
        let mut i: usize = first;
        while i < ids.len() && (limit.is_none() || ((i - first) as u64) < limit.unwrap())
            invariant
                self.wf(),
                gids == ids.deep_view(),
                gids.len() == ids@.len(),
                gids == self.tokens_of(account_id@),
                forall|j: int| 0 <= j < gids.len() ==> self@.owners.contains_key(#[trigger] gids[j]),
                first == start,
                start as int == (match from_index { Some(f) => f as int, None => 0 }),
                first < ids@.len(),
                limit != Some(0u64),
                first <= i <= ids@.len(),
                out@.len() == i - first,
                limit matches Some(l) ==> i - first <= l,
                forall|j: int| 0 <= j < out@.len() ==> ((#[trigger] out@[j]) matches Some(tok)
                    && self.token_shown(tok, gids[first + j])),
            decreases ids@.len() - i,
        {
            proof {
                assert(gids[i as int] == ids@[i as int]@);
            }
            let tok = match self.shown_token(&ids[i]) {
                Ok(tok) => tok,
                Err(e) => {
                    proof {
                        let j = i - first;
                        assert(0 <= j < page_len(gids.len() as int, start as int, limit));
                        assert(gids[start as int + j] == gids[i as int]);
                        assert(!displayable(self@, gids[start as int + j]));
                        assert(!page_displayable(self@, gids, start as int, limit)) by {
                            reveal(page_displayable);
                        }
                    }
                    return Err(e);
                },
            };
            out.push(Some(tok));
            i = i + 1;
        }
        Ok(out)
    }

    /// A page of at most `limit` tokens (all where no limit is given), from
    /// position `from_index` (zero where not given) of the token order.
    pub fn nft_tokens(&self, from_index: Option<u128>, limit: Option<u64>) -> (r: Result<Vec<Token>, ContractError>)
        requires
            self.wf(),
        ensures
            ({
                let ids = self.token_order();
                let start = match from_index { Some(f) => f as int, None => 0 };
                &&& ids.len() <= start ==> r == Err::<Vec<Token>, ContractError>(ContractError::OutOfBounds)
                &&& ids.len() > start && limit == Some(0u64) ==> r == Err::<Vec<Token>, ContractError>(ContractError::ZeroLimit)
                &&& r matches Ok(v) ==> {
                    &&& v@.len() == page_len(ids.len() as int, start, limit)
                    &&& forall|j: int| 0 <= j < v@.len() ==> self.token_shown(#[trigger] v@[j], ids[start + j])
                }
                &&& ids.len() > start && limit != Some(0u64) && page_displayable(self@, ids, start, limit)
                    ==> r is Ok
            }),
    {
        let start: u128 = match from_index { Some(f) => f, None => 0 };
        let n = self.owner_by_id.len();
        proof {
            self.lemma_token_order();
            self.owner_by_id.lemma_entries();
        }
        if n as u128 <= start {
            return Err(ContractError::OutOfBounds);
        }
        if limit == Some(0u64) {
            return Err(ContractError::ZeroLimit);
        }
        let mut out: Vec<Token> = Vec::new();
        let first: usize = start as usize;
        let mut i: usize = first;
        let ghost ids = self.token_order();
        while i < n && (limit.is_none() || ((i - first) as u64) < limit.unwrap())
            invariant
                self.wf(),
                ids == self.token_order(),
                n == ids.len(),
                n == self.owner_by_id.entry_seq().len(),
                forall|j: int| 0 <= j < n ==> ids[j] == (#[trigger] self.owner_by_id.entry_seq()[j]).0@,
                forall|j: int| 0 <= j < ids.len() ==> self@.owners.contains_key(#[trigger] ids[j]),
                first == start,
                start as int == (match from_index { Some(f) => f as int, None => 0 }),
                first < n,
                limit != Some(0u64),
                first <= i <= n,
                out@.len() == i - first,
                limit matches Some(l) ==> i - first <= l,
                forall|j: int| 0 <= j < out@.len() ==> self.token_shown(#[trigger] out@[j], ids[first + j]),
            decreases n - i,
        {
            let (k, _) = self.owner_by_id.entry_at(i);
            proof {
                assert(ids[i as int] == self.owner_by_id.entry_seq()[i as int].0@);
            }
            let tok = match self.shown_token(k) {
                Ok(tok) => tok,
                Err(e) => {
                    proof {
                        let j = i - first;
                        assert(0 <= j < page_len(ids.len() as int, start as int, limit));
                        assert(ids[start as int + j] == ids[i as int]);
                        assert(!displayable(self@, ids[start as int + j]));
                        assert(!page_displayable(self@, ids, start as int, limit)) by {
                            reveal(page_displayable);
                        }
                    }
                    return Err(e);
                },
            };
            out.push(tok);
            i = i + 1;
        }
        Ok(out)
    }

    /// A page of at most `limit` series (all where no limit is given), from
    /// position `from_index` (zero where not given) of the registry.
    pub fn nft_get_series(&self, from_index: Option<u128>, limit: Option<u64>) -> (r: Result<Vec<TokenSeriesJson>, ContractError>)
        requires
            self.wf(),
        ensures
            ({
                let n = self@.series.len() as int;
                let start = match from_index { Some(f) => f as int, None => 0 };
                &&& n <= start ==> r == Err::<Vec<TokenSeriesJson>, ContractError>(ContractError::OutOfBounds)
                &&& n > start && limit == Some(0u64) ==> r == Err::<Vec<TokenSeriesJson>, ContractError>(ContractError::ZeroLimit)
                &&& n > start && limit != Some(0u64) ==> (r matches Ok(v) && {
                    &&& v@.len() == page_len(n, start, limit)
                    &&& forall|j: int| 0 <= j < v@.len() ==> shows_series(#[trigger] v@[j], series_id_at(start + j), self@.series[start + j])
                })
            }),
    {
        let start: u128 = match from_index { Some(f) => f, None => 0 };
        let n = self.token_series_by_id.len();
        if n as u128 <= start {
            return Err(ContractError::OutOfBounds);
        }
        if limit == Some(0u64) {
            return Err(ContractError::ZeroLimit);
        }
        let mut out: Vec<TokenSeriesJson> = Vec::new();
        let first: usize = start as usize;
        let mut i: usize = first;
        while i < n && (limit.is_none() || ((i - first) as u64) < limit.unwrap())
            invariant
                self.wf(),
                n == self@.series.len(),
                first == start,
                first < n,
                first <= i <= n,
                out@.len() == i - first,
                limit matches Some(l) ==> i - first <= l,
                forall|j: int| 0 <= j < out@.len() ==> shows_series(#[trigger] out@[j], series_id_at(first + j), self@.series[first + j]),
            decreases n - i,
        {
            out.push(self.show_series(i));
            i = i + 1;
        }
        Ok(out)
    }

    /// A page of at most `limit` editions (all where no limit is given) of the
    /// series `token_series_id`, from position `from_index` (zero where not
    /// given) of its minted editions; `None` stands for a burnt edition.
    pub fn nft_tokens_by_series(&self, token_series_id: TokenSeriesId, from_index: Option<u128>, limit: Option<u64>) -> (r: Result<Vec<Option<Token>>, ContractError>)
        requires
            self.wf(),
        ensures
            ({
                let start = match from_index { Some(f) => f as int, None => 0 };
                match series_index(self@.series.len(), token_series_id@) {
                    None => r == Err::<Vec<Option<Token>>, ContractError>(ContractError::SeriesNotFound),
                    Some(i) => {
                        let n = self@.series[i].minted as int;
                        &&& n <= start ==> r == Err::<Vec<Option<Token>>, ContractError>(ContractError::OutOfBounds)
                        &&& n > start && limit == Some(0u64) ==> r == Err::<Vec<Option<Token>>, ContractError>(ContractError::ZeroLimit)
                        &&& n > start && limit != Some(0u64) && editions_displayable(self@, token_series_id@, n, start, limit)
                            ==> r is Ok
                        &&& r matches Ok(v) ==> {
                            &&& v@.len() == page_len(n, start, limit)
                            &&& forall|j: int| 0 <= j < v@.len() ==> {
                                let t = token_id_of(token_series_id@, (start + j + 1) as nat);
                                &&& !self@.owners.contains_key(t) ==> (#[trigger] v@[j]) is None
                                &&& self@.owners.contains_key(t) ==> (v@[j] matches Some(tok) && self.token_shown(tok, t))
                            }
                        }
                    },
                }
            }),
    {
        let idx = match self.find_series(&token_series_id) {
            Some(i) => i,
            None => return Err(ContractError::SeriesNotFound),
        };
        let start: u128 = match from_index { Some(f) => f, None => 0 };
        let n = self.token_series_by_id[idx].minted;
        if n as u128 <= start {
            return Err(ContractError::OutOfBounds);
        }
        if limit == Some(0u64) {
            return Err(ContractError::ZeroLimit);
        }
        proof {
            assert(series_id_at(idx as int) == token_series_id@);
        }
        let mut out: Vec<Option<Token>> = Vec::new();
        let first: u64 = start as u64;
        let mut e: u64 = first;
        while e < n && (limit.is_none() || (e - first) < limit.unwrap())
            invariant
                self.wf(),
                idx < self@.series.len(),
                idx < u64::MAX,
                series_id_at(idx as int) == token_series_id@,
                series_index(self@.series.len(), token_series_id@) == Some(idx as int),
                n == self@.series[idx as int].minted,
                first == start,
                start as int == (match from_index { Some(f) => f as int, None => 0 }),
                first < n,
                limit != Some(0u64),
                first <= e <= n,
                out@.len() == e - first,
                limit matches Some(l) ==> e - first <= l,
                forall|j: int| 0 <= j < out@.len() ==> {
                    let t = token_id_of(token_series_id@, (first + j + 1) as nat);
                    &&& !self@.owners.contains_key(t) ==> (#[trigger] out@[j]) is None
                    &&& self@.owners.contains_key(t) ==> (out@[j] matches Some(tok) && self.token_shown(tok, t))
                },
            decreases n - e,
        {
            let t = Self::edition_token_id(idx, e + 1);
            if self.owner_by_id.contains_key(&t) {
                let tok = match self.shown_token(&t) {
                    Ok(tok) => tok,
                    Err(err) => {
                        proof {
                            let j = (e - first) as int;
                            assert(0 <= j < page_len(n as int, start as int, limit));
                            assert(token_id_of(token_series_id@, (start as int + j + 1) as nat) == t@);
                            assert(self@.owners.contains_key(t@));
                            assert(!displayable(self@, t@));
                            assert(!editions_displayable(self@, token_series_id@, n as int, start as int, limit)) by {
                                reveal(editions_displayable);
                            }
                        }
                        return Err(err);
                    },
                };
                out.push(Some(tok));
            } else {
                out.push(None);
            }
            e = e + 1;
        }
        Ok(out)
    }
}

/// Burning leaves the series registry as it is.
pub proof fn lemma_burned_all_series(v: LedgerView, tokens: Seq<Seq<char>>)
    ensures
        burned_all(v, tokens).series == v.series,
        burned_all(v, tokens).owner_id == v.owner_id,
    decreases tokens.len(),
{
    if tokens.len() > 0 {
        lemma_burned_all_series(burned_view(v, tokens[0]), tokens.drop_first());
    }
}

} // verus!
