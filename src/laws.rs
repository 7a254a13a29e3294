//! What holds of the ledger across its operations.

use vstd::prelude::*;

use crate::ids::{decimal, lemma_decimal_injective, token_id_of};
use crate::model::{
    approvals_of, approved_view, burned_all, cap, can_mint, is_snapshot, minted_view, next_approval_id,
    next_token_id, resolved_view, transfer_error, transferred_view, with_cap, with_series, LedgerView,
};
use crate::strmap::StrMap;

verus! {

/// Every series of `v` has minted no more than its cap.
pub open spec fn supply_within_cap(v: LedgerView) -> bool {
    forall|i: int| 0 <= i < v.series.len() ==> (#[trigger] v.series[i]).minted <= cap(v.series[i])
}

/// A mint never takes its series past the cap, and the mint that reaches the
/// cap leaves the series closed.
pub proof fn lemma_mint_within_cap(v: LedgerView, idx: int, receiver: Seq<char>, now: u64)
    requires
        0 <= idx < v.series.len(),
        can_mint(v.series[idx]),
    ensures
        ({
            let s = minted_view(v, idx, receiver, now).series[idx];
            &&& s.minted <= cap(s)
            &&& s.minted == cap(s) ==> !s.is_mintable
        }),
        supply_within_cap(v) ==> supply_within_cap(minted_view(v, idx, receiver, now)),
{
    let w = minted_view(v, idx, receiver, now);
    if supply_within_cap(v) {
        assert forall|i: int| 0 <= i < w.series.len() implies (#[trigger] w.series[i]).minted <= cap(w.series[i]) by {
            if i != idx {
                assert(w.series[i] == v.series[i]);
            }
        }
    }
}

/// Lowering a copies cap as far as `nft_decrease_series_copies` allows, that
/// is not below the minted count, keeps every series within its cap.
pub proof fn lemma_lowered_cap_within_supply(v: LedgerView, idx: int, cap_value: u64)
    requires
        supply_within_cap(v),
        0 <= idx < v.series.len(),
        v.series[idx].minted <= cap_value,
    ensures
        supply_within_cap(with_series(v, idx, with_cap(v.series[idx], cap_value))),
        cap_value == v.series[idx].minted ==> !with_cap(v.series[idx], cap_value).is_mintable,
{
    let w = with_series(v, idx, with_cap(v.series[idx], cap_value));
    assert forall|i: int| 0 <= i < w.series.len() implies (#[trigger] w.series[i]).minted <= cap(w.series[i]) by {
        if i != idx {
            assert(w.series[i] == v.series[i]);
        }
    }
}

/// Burning never lowers a series' minted count, so editions are never reused:
/// a mint, any burns, then another mint of the same series give a strictly
/// larger edition and a different token id.
pub proof fn lemma_editions_increase(
    v: LedgerView,
    idx: int,
    first_receiver: Seq<char>,
    first_now: u64,
    burnt: Seq<Seq<char>>,
    second_receiver: Seq<char>,
    second_now: u64,
)
    requires
        0 <= idx < v.series.len(),
        can_mint(v.series[idx]),
        can_mint(burned_all(minted_view(v, idx, first_receiver, first_now), burnt).series[idx]),
    ensures
        ({
            let w = burned_all(minted_view(v, idx, first_receiver, first_now), burnt);
            &&& w.series[idx].minted + 1 > v.series[idx].minted + 1
            &&& next_token_id(w, idx) != next_token_id(v, idx)
        }),
{
    let u = minted_view(v, idx, first_receiver, first_now);
    let w = burned_all(u, burnt);
    crate::ledger::lemma_burned_all_series(u, burnt);
    let sid = crate::ids::series_id_at(idx);
    let e1 = (v.series[idx].minted + 1) as nat;
    let e2 = (w.series[idx].minted + 1) as nat;
    assert(e2 == e1 + 1);
    lemma_token_ids_distinct(sid, e1, e2);
}

/// Two editions of one series have different token ids.
pub proof fn lemma_token_ids_distinct(series_id: Seq<char>, e1: nat, e2: nat)
    requires
        e1 != e2,
    ensures
        token_id_of(series_id, e1) != token_id_of(series_id, e2),
{
    let t1 = token_id_of(series_id, e1);
    let t2 = token_id_of(series_id, e2);
    let k = series_id.len() + 1;
    if t1 == t2 {
        assert(t1.subrange(k as int, t1.len() as int) =~= decimal(e1));
        assert(t2.subrange(k as int, t2.len() as int) =~= decimal(e2));
        lemma_decimal_injective(e1, e2);
    }
}

/// A transfer whose recipient rejects the token, or whose notification fails,
/// and which no other transfer followed, leaves the ledger as it was before
/// the transfer: the previous owner owns the token again, with exactly the
/// approvals it had.
pub proof fn lemma_rejected_transfer_restores(
    v: LedgerView,
    sender: Seq<char>,
    receiver: Seq<char>,
    t: Seq<char>,
    approval_id: Option<u64>,
    snapshot: Option<StrMap<u64>>,
)
    requires
        transfer_error(v, sender, receiver, t, approval_id) is None,
        is_snapshot(v, t, snapshot),
    ensures
        resolved_view(transferred_view(v, t, receiver), v.owners[t], receiver, t, snapshot) == v,
{
    let w = transferred_view(v, t, receiver);
    let u = resolved_view(w, v.owners[t], receiver, t, snapshot);
    assert(u.owners =~= v.owners);
    assert(u.approvals =~= v.approvals);
}

/// Where the recipient passed the token on to a third account before the
/// resolution, a rejection changes nothing: the token stays with the third
/// account.
pub proof fn lemma_moved_token_stays(
    v: LedgerView,
    sender: Seq<char>,
    receiver: Seq<char>,
    third: Seq<char>,
    t: Seq<char>,
    approval_id: Option<u64>,
    second_sender: Seq<char>,
    second_approval_id: Option<u64>,
    snapshot: Option<StrMap<u64>>,
)
    requires
        transfer_error(v, sender, receiver, t, approval_id) is None,
        transfer_error(transferred_view(v, t, receiver), second_sender, third, t, second_approval_id) is None,
    ensures
        ({
            let w = transferred_view(transferred_view(v, t, receiver), t, third);
            &&& resolved_view(w, v.owners[t], receiver, t, snapshot) == w
            &&& w.owners[t] == third
        }),
{
}

/// Successive approvals of a token get strictly increasing ids, also across
/// transfers, and a transfer withdraws every approval of the token.
pub proof fn lemma_approval_ids_increase(
    v: LedgerView,
    t: Seq<char>,
    first: Seq<char>,
    receiver: Seq<char>,
    second: Seq<char>,
)
    requires
        next_approval_id(v, t) < u64::MAX,
    ensures
        ({
            let a = approved_view(v, t, first);
            let b = transferred_view(a, t, receiver);
            &&& approvals_of(a, t)[first] == next_approval_id(v, t)
            &&& approvals_of(b, t) == Map::<Seq<char>, u64>::empty()
            &&& next_approval_id(b, t) > next_approval_id(v, t)
            &&& next_approval_id(a, t) > next_approval_id(v, t)
            &&& next_approval_id(b, t) < u64::MAX ==> approvals_of(approved_view(b, t, second), t)[second]
                > approvals_of(a, t)[first]
        }),
{
}

} // verus!
