//! The values that the ledger takes and hands back.

use vstd::prelude::*;

use crate::strmap::StrMap;

verus! {

pub type AccountId = String;

pub type TokenId = String;

pub type TokenSeriesId = String;

pub type Balance = u128;

/// Descriptive data of a series. Hashes are held in their base64 text form.
#[derive(Debug)]
pub struct TokenMetadata {
    pub title: Option<String>,
    pub description: Option<String>,
    pub media: Option<String>,
    pub media_hash: Option<String>,
    pub copies: Option<u64>,
    pub issued_at: Option<String>,
    pub expires_at: Option<String>,
    pub starts_at: Option<String>,
    pub updated_at: Option<String>,
    pub extra: Option<String>,
    pub reference: Option<String>,
    pub reference_hash: Option<String>,
}

/// Descriptive data of the whole ledger.
#[derive(Debug)]
pub struct NFTContractMetadata {
    pub spec: String,
    pub name: String,
    pub symbol: String,
    pub icon: Option<String>,
    pub base_uri: Option<String>,
    pub reference: Option<String>,
    pub reference_hash: Option<String>,
}

/// A series: the template that tokens are minted from.
/// `minted` counts the tokens ever issued from it; edition `e` of the series,
/// for `1 <= e <= minted`, is the token `<series id>:<e>`. Burning a token
/// does not lower the count.
#[derive(Debug)]
pub struct TokenSeries {
    pub metadata: TokenMetadata,
    pub creator_id: AccountId,
    pub minted: u64,
    pub price: Option<Balance>,
    pub is_mintable: bool,
    pub royalty: StrMap<u32>,
    pub fuse_requirements: Option<Vec<Vec<TokenSeriesId>>>,
    pub fuse_cost: Option<(AccountId, u128)>,
}

/// A series as it is shown to callers.
#[derive(Debug)]
pub struct TokenSeriesJson {
    pub token_series_id: TokenSeriesId,
    pub metadata: TokenMetadata,
    pub creator_id: AccountId,
    pub royalty: StrMap<u32>,
    pub fuse_requirements: Option<Vec<Vec<TokenSeriesId>>>,
    pub fuse_cost: Option<(AccountId, u128)>,
}

/// A token as it is shown to callers, with its display metadata.
#[derive(Debug)]
pub struct Token {
    pub token_id: TokenId,
    pub owner_id: AccountId,
    pub metadata: Option<TokenMetadata>,
    pub approved_account_ids: Option<StrMap<u64>>,
}

/// The amounts that a sale pays to each account.
#[derive(Debug)]
pub struct Payout {
    pub payout: StrMap<u128>,
}

/// A fuse request carried by a payment.
#[derive(Debug)]
pub struct FuseArgs {
    pub token_ids: Vec<TokenId>,
    pub target_token_series_id: TokenSeriesId,
}

/// Why a call failed. A failed call changes nothing.
#[derive(Debug, Clone, Copy, PartialEq, Eq, Structural)]
pub enum ContractError {
    /// The caller may not do this.
    Unauthorized,
    /// No series has this id.
    SeriesNotFound,
    /// No token has this id.
    TokenNotFound,
    /// The series is closed or its supply is used up.
    NotMintable,
    /// The series has no price.
    NotForSale,
    /// The payment is below the price.
    InsufficientPayment,
    /// Too many royalty accounts, or too many basis points.
    InvalidRoyaltyConfig,
    /// The royalty table has more accounts than the buyer will pay.
    PayoutRecipientsExceeded,
    /// An account id is malformed.
    InvalidAccountId,
    /// A series needs a title.
    TitleRequired,
    /// A token cannot be transferred to its own owner.
    SameOwner,
    /// The series is already closed.
    AlreadyNonMintable,
    /// A series with a copies cap is closed by lowering the cap.
    CopiesSet,
    /// The series has no copies cap to lower.
    CopiesNotSet,
    /// The cap would fall below the number already minted.
    CopiesBelowMinted,
    /// The series has no fuse recipe.
    NoFuseRequirements,
    /// The series has no fuse price.
    NoFuseCost,
    /// The payment came from another asset than the fuse price names.
    PaymentAssetMismatch,
    /// A payment callback must come from another contract.
    NotCrossContractCall,
    /// The supplied tokens match no recipe.
    FuseNotSatisfied,
    /// No pair of loot series is configured.
    RandomLootNotSet,
    /// Loot is drawn from exactly two series.
    RandomLootSize,
    /// The named royalty shares exceed the whole sale.
    PayoutOverflow,
    /// A counter of the ledger would overflow.
    CapacityExceeded,
    /// A page starts past the end.
    OutOfBounds,
    /// A page of no items was asked for.
    ZeroLimit,
}

impl ContractError {
    /// A short description of the failure, for the caller.
    pub fn message(&self) -> &'static str {
        match self {
            ContractError::Unauthorized => "caller is not allowed to do this",
            ContractError::SeriesNotFound => "token series does not exist",
            ContractError::TokenNotFound => "token not found",
            ContractError::NotMintable => "token series is not mintable",
            ContractError::NotForSale => "not for sale",
            ContractError::InsufficientPayment => "attached deposit is too small",
            ContractError::InvalidRoyaltyConfig => "royalty exceeds 10 accounts or 9000 basis points",
            ContractError::PayoutRecipientsExceeded => "market cannot payout to that many receivers",
            ContractError::InvalidAccountId => "not a valid account id",
            ContractError::TitleRequired => "token metadata title is required",
            ContractError::SameOwner => "current and next owner must differ",
            ContractError::AlreadyNonMintable => "already non-mintable",
            ContractError::CopiesSet => "decrease supply if copies not null",
            ContractError::CopiesNotSet => "series has no copies cap",
            ContractError::CopiesBelowMinted => "cannot decrease supply below the minted count",
            ContractError::NoFuseRequirements => "series has no fuse requirements",
            ContractError::NoFuseCost => "series has no fuse cost",
            ContractError::PaymentAssetMismatch => "fungible token contract does not match",
            ContractError::NotCrossContractCall => "must be called via cross-contract call",
            ContractError::FuseNotSatisfied => "not minted",
            ContractError::RandomLootNotSet => "random loot is not configured",
            ContractError::RandomLootSize => "only support 2 token series ids",
            ContractError::PayoutOverflow => "total payout overflow",
            ContractError::CapacityExceeded => "a ledger counter would overflow",
            ContractError::OutOfBounds => "out of bounds, please use a smaller from_index",
            ContractError::ZeroLimit => "cannot provide limit of 0",
        }
    }
}

/// What became of a notification sent to another contract.
#[derive(Debug, Clone, Copy, PartialEq, Eq, Structural)]
pub enum NotificationOutcome {
    /// The recipient keeps the token.
    Accepted,
    /// The recipient asks for the token to be returned.
    Rejected,
    /// The call failed or ran out of its budget.
    Failed,
}

/// A notification to send to the recipient of a transfer, after which the
/// ledger's `nft_resolve_transfer` is to be called with its outcome and the
/// snapshot it carries.
#[derive(Debug)]
pub struct TransferNotification {
    pub receiver_id: AccountId,
    pub sender_id: AccountId,
    pub previous_owner_id: AccountId,
    pub token_id: TokenId,
    pub msg: String,
    pub approved_account_ids: Option<StrMap<u64>>,
}

/// A notification to send to an account that was approved for a token.
#[derive(Debug)]
pub struct ApprovalNotification {
    pub account_id: AccountId,
    pub token_id: TokenId,
    pub owner_id: AccountId,
    pub approval_id: u64,
    pub msg: String,
}

/// A payment to forward.
#[derive(Debug)]
pub struct PaymentTransfer {
    pub receiver_id: AccountId,
    pub amount: Balance,
}

/// Copies an optional string.
pub fn copy_opt_string(s: &Option<String>) -> (r: Option<String>)
    ensures
        r == *s,
{
    match s {
        Some(x) => Some(x.clone()),
        None => None,
    }
}

impl TokenMetadata {
    /// A copy of these metadata.
    pub fn copy(&self) -> (r: TokenMetadata)
        ensures
            r == *self,
    {
        TokenMetadata {
            title: copy_opt_string(&self.title),
            description: copy_opt_string(&self.description),
            media: copy_opt_string(&self.media),
            media_hash: copy_opt_string(&self.media_hash),
            copies: self.copies,
            issued_at: copy_opt_string(&self.issued_at),
            expires_at: copy_opt_string(&self.expires_at),
            starts_at: copy_opt_string(&self.starts_at),
            updated_at: copy_opt_string(&self.updated_at),
            extra: copy_opt_string(&self.extra),
            reference: copy_opt_string(&self.reference),
            reference_hash: copy_opt_string(&self.reference_hash),
        }
    }
}

impl NFTContractMetadata {
    /// A copy of these metadata.
    pub fn copy(&self) -> (r: NFTContractMetadata)
        ensures
            r == *self,
    {
        NFTContractMetadata {
            spec: self.spec.clone(),
            name: self.name.clone(),
            symbol: self.symbol.clone(),
            icon: copy_opt_string(&self.icon),
            base_uri: copy_opt_string(&self.base_uri),
            reference: copy_opt_string(&self.reference),
            reference_hash: copy_opt_string(&self.reference_hash),
        }
    }
}

/// The fuse recipes as sequences of series ids.
pub open spec fn requirements_view(r: Option<Vec<Vec<TokenSeriesId>>>) -> Option<
    Seq<Seq<Seq<char>>>,
> {
    match r {
        Some(v) => Some(v.deep_view()),
        None => None,
    }
}

/// A copy of a list of series ids.
pub fn copy_ids(v: &Vec<String>) -> (r: Vec<String>)
    ensures
        r@ == v@,
        r.deep_view() == v.deep_view(),
{
    let mut r: Vec<String> = Vec::new();
    let mut i: usize = 0;
    while i < v.len()
        invariant
            i <= v@.len(),
            r@ == v@.subrange(0, i as int),
        decreases v@.len() - i,
    {
        r.push(v[i].clone());
        i = i + 1;
    }
    assert(r@ =~= v@);
    assert(r.deep_view() =~= v.deep_view());
    r
}

/// A copy of a set of fuse recipes.
pub fn copy_requirements(r: &Option<Vec<Vec<TokenSeriesId>>>) -> (c: Option<
    Vec<Vec<TokenSeriesId>>,
>)
    ensures
        requirements_view(c) == requirements_view(*r),
{
    match r {
        None => None,
        Some(v) => {
            let mut out: Vec<Vec<String>> = Vec::new();
            let mut i: usize = 0;
            while i < v.len()
                invariant
                    i <= v@.len(),
                    out@.len() == i,
                    forall|j: int| 0 <= j < i ==> #[trigger] out@[j].deep_view() == v@[j].deep_view(),
                decreases v@.len() - i,
            {
                out.push(copy_ids(&v[i]));
                i = i + 1;
            }
            assert(out.deep_view() =~= v.deep_view());
            Some(out)
        },
    }
}

/// Copies an optional fuse price.
pub fn copy_fuse_cost(c: &Option<(AccountId, u128)>) -> (r: Option<(AccountId, u128)>)
    ensures
        r == *c,
{
    match c {
        Some(p) => Some((p.0.clone(), p.1)),
        None => None,
    }
}

impl<V: Copy> StrMap<V> {
    /// A copy of this map.
    pub fn copy(&self) -> (r: StrMap<V>)
        requires
            self.wf(),
        ensures
            r.wf(),
            r@ == self@,
    {
        let mut r: StrMap<V> = StrMap::new();
        let mut i: usize = 0;
        proof {
            self.lemma_entries();
        }
        let n = self.len();
        while i < n
            invariant
                self.wf(),
                r.wf(),
                n == self.entry_seq().len(),
                i <= n,
                forall|k: Seq<char>| #[trigger] r@.contains_key(k) ==> self@.contains_key(k) && r@[k] == self@[k],
                forall|j: int| 0 <= j < i ==> #[trigger] r@.contains_key(self.entry_seq()[j].0@),
                forall|j: int| 0 <= j < n ==> self@.contains_key(#[trigger] self.entry_seq()[j].0@)
                    && self@[self.entry_seq()[j].0@] == self.entry_seq()[j].1,
                forall|k: Seq<char>| #[trigger] self@.contains_key(k) ==> exists|j: int|
                    0 <= j < n && self.entry_seq()[j].0@ == k,
            decreases n - i,
        {
            let (k, v) = self.entry_at(i);
            r.insert(k.clone(), *v);
            i = i + 1;
        }
        assert(r@ =~= self@);
        r
    }
}

} // verus!
