//! Splitting a sale between royalty accounts and the seller.

use vstd::prelude::*;

use crate::strmap::StrMap;

verus! {

/// `bp` basis points of `balance`, rounded down.
pub open spec fn share(bp: nat, balance: nat) -> nat {
    (bp * balance) / 10000
}

/// The basis points of the entries of `s` whose account is not `owner`.
pub open spec fn paid_bp(s: Seq<(String, u32)>, owner: Seq<char>) -> nat
    decreases s.len(),
{
    if s.len() == 0 {
        0
    } else if s.last().0@ != owner {
        paid_bp(s.drop_last(), owner) + s.last().1 as nat
    } else {
        paid_bp(s.drop_last(), owner)
    }
}

/// The shares of the named royalty accounts other than `owner`, in table order.
pub open spec fn named_shares(s: Seq<(String, u32)>, owner: Seq<char>, balance: nat) -> Seq<(Seq<char>, nat)>
    decreases s.len(),
{
    if s.len() == 0 {
        Seq::empty()
    } else if s.last().0@ != owner {
        named_shares(s.drop_last(), owner, balance).push((s.last().0@, share(s.last().1 as nat, balance)))
    } else {
        named_shares(s.drop_last(), owner, balance)
    }
}

/// The whole payout of a sale of `balance`: the named shares, then the
/// owner's share of the basis points that are left.
pub open spec fn payout_shares(s: Seq<(String, u32)>, owner: Seq<char>, balance: nat) -> Seq<(Seq<char>, nat)> {
    named_shares(s, owner, balance).push((owner, share((10000 - paid_bp(s, owner)) as nat, balance)))
}

/// The sum of the amounts of `p`.
pub open spec fn total(p: Seq<(Seq<char>, nat)>) -> nat
    decreases p.len(),
{
    if p.len() == 0 {
        0
    } else {
        total(p.drop_last()) + p.last().1
    }
}

/// The entries of a payout table are the shares `p`, in order.
pub open spec fn holds_shares(e: Seq<(String, u128)>, p: Seq<(Seq<char>, nat)>) -> bool {
    &&& e.len() == p.len()
    &&& forall|i: int| 0 <= i < e.len() ==> (#[trigger] e[i]).0@ == p[i].0 && e[i].1 as nat == p[i].1
}

/// The payout as a map: every named account other than `owner` gets its
/// share of its basis points, the owner the share of the basis points left,
/// and no other account appears.
pub open spec fn payout_map(
    p: Map<Seq<char>, u128>,
    royalty: Map<Seq<char>, u32>,
    s: Seq<(String, u32)>,
    owner: Seq<char>,
    balance: nat,
) -> bool {
    &&& p.contains_key(owner)
    &&& p[owner] as nat == share((10000 - paid_bp(s, owner)) as nat, balance)
    &&& forall|k: Seq<char>| #[trigger] royalty.contains_key(k) && k != owner ==> p.contains_key(k)
        && p[k] as nat == share(royalty[k] as nat, balance)
    &&& forall|k: Seq<char>| #[trigger] p.contains_key(k) ==> k == owner || royalty.contains_key(k)
}

/// `bp` basis points of `balance`, rounded down, for `bp` up to the whole.
pub fn royalty_to_payout(bp: u32, balance: u128) -> (r: u128)
    requires
        bp <= 10000,
    ensures
        r == share(bp as nat, balance as nat),
{
    let q = balance / 10000;
    let rem = balance % 10000;
    proof {
        let a = bp as int;
        let b = balance as int;
        assert(b == q * 10000 + rem) by (nonlinear_arith)
            requires q == b / 10000, rem == b % 10000;
        assert(a * b == (a * q) * 10000 + a * rem) by (nonlinear_arith)
            requires b == q * 10000 + rem;
        assert(0 <= a * rem <= 10000 * 10000) by (nonlinear_arith)
            requires 0 <= a <= 10000, 0 <= rem < 10000;
        assert((a * b) / 10000 == a * q + (a * rem) / 10000) by (nonlinear_arith)
            requires a * b == (a * q) * 10000 + a * rem, 0 <= a * rem;
        assert(a * q <= b) by (nonlinear_arith)
            requires 0 <= a <= 10000, b == q * 10000 + rem, 0 <= rem, 0 <= q;
        assert((a * b) / 10000 <= b) by (nonlinear_arith)
            requires 0 <= a <= 10000, 0 <= b;
        assert(q * a == a * q) by (nonlinear_arith);
        assert(rem * a == a * rem) by (nonlinear_arith);
        assert(q * a + (rem * a) / 10000 == (a * b) / 10000);
        assert(q * a + (rem * a) / 10000 <= u128::MAX);
    }
    let whole = q * bp as u128;
    let part = (rem * bp as u128) / 10000;
    whole + part
}

/// The shares of `a` and `b` basis points together are at most the share of
/// `a + b` basis points.
pub proof fn lemma_share_add(a: nat, b: nat, balance: nat)
    ensures
        share(a, balance) + share(b, balance) <= share(a + b, balance),
{
    assert((a * balance) / 10000 + (b * balance) / 10000 <= (a * balance + b * balance) / 10000)
        by (nonlinear_arith);
    assert((a + b) * balance == a * balance + b * balance) by (nonlinear_arith);
}

/// The named shares together are at most the share of the basis points paid
/// to named accounts.
pub proof fn lemma_named_total(s: Seq<(String, u32)>, owner: Seq<char>, balance: nat)
    ensures
        total(named_shares(s, owner, balance)) <= share(paid_bp(s, owner), balance),
    decreases s.len(),
{
    if s.len() > 0 {
        lemma_named_total(s.drop_last(), owner, balance);
        if s.last().0@ != owner {
            lemma_share_add(paid_bp(s.drop_last(), owner), s.last().1 as nat, balance);
            let p = named_shares(s, owner, balance);
            assert(p.drop_last() == named_shares(s.drop_last(), owner, balance));
        }
    }
}

/// A payout never hands out more than the sale: the named shares and the
/// owner's share sum to at most `balance`, and the basis points paid to
/// named accounts and those left to the owner make up the whole ten thousand.
pub proof fn lemma_payout_within_sale(s: Seq<(String, u32)>, owner: Seq<char>, balance: nat)
    requires
        paid_bp(s, owner) <= 10000,
    ensures
        total(payout_shares(s, owner, balance)) <= balance,
        paid_bp(s, owner) + (10000 - paid_bp(s, owner)) == 10000,
{
    let paid = paid_bp(s, owner);
    lemma_named_total(s, owner, balance);
    lemma_share_add(paid, (10000 - paid) as nat, balance);
    let p = payout_shares(s, owner, balance);
    assert(p.drop_last() == named_shares(s, owner, balance));
    assert(share(10000, balance) == balance) by (nonlinear_arith);
}

proof fn lemma_paid_prefix(s: Seq<(String, u32)>, owner: Seq<char>, i: int)
    requires
        0 <= i <= s.len(),
    ensures
        paid_bp(s.subrange(0, i), owner) <= paid_bp(s, owner),
    decreases s.len(),
{
    if i < s.len() {
        lemma_paid_prefix(s.drop_last(), owner, i);
        assert(s.drop_last().subrange(0, i) =~= s.subrange(0, i));
    } else {
        assert(s.subrange(0, i) =~= s);
    }
}

/// The payout of a sale of `balance` by `owner` under the royalty table
/// `royalty`: each named account other than the owner gets its basis points
/// of the sale, and the owner gets what basis points are left.
pub fn compute_payout(royalty: &StrMap<u32>, owner: &String, balance: u128) -> (r: StrMap<u128>)
    requires
        royalty.wf(),
        paid_bp(royalty.entry_seq(), owner@) <= 10000,
    ensures
        r.wf(),
        holds_shares(r.entry_seq(), payout_shares(royalty.entry_seq(), owner@, balance as nat)),
        payout_map(r@, royalty@, royalty.entry_seq(), owner@, balance as nat),
{
    let mut payout: StrMap<u128> = StrMap::new();
    let n = royalty.len();
    let mut i: usize = 0;
    let mut paid: u32 = 0;
    let ghost s = royalty.entry_seq();
    proof {
        royalty.lemma_entries();
    }
    while i < n
        invariant
            royalty.wf(),
            s == royalty.entry_seq(),
            n == s.len(),
            i <= n,
            payout.wf(),
            paid_bp(s, owner@) <= 10000,
            paid as nat == paid_bp(s.subrange(0, i as int), owner@),
            holds_shares(payout.entry_seq(), named_shares(s.subrange(0, i as int), owner@, balance as nat)),
            forall|k: Seq<char>| #[trigger] payout@.contains_key(k) ==> exists|j: int| 0 <= j < i && s[j].0@ == k,
            !payout@.contains_key(owner@),
            forall|k: Seq<char>| #[trigger] payout@.contains_key(k) ==> royalty@.contains_key(k)
                && payout@[k] as nat == share(royalty@[k] as nat, balance as nat),
            forall|j: int| 0 <= j < i && (#[trigger] s[j]).0@ != owner@ ==> payout@.contains_key(s[j].0@),
            forall|j: int| 0 <= j < n ==> royalty@.contains_key(#[trigger] s[j].0@) && royalty@[s[j].0@] == s[j].1,
            forall|k: Seq<char>| #[trigger] royalty@.contains_key(k) ==> exists|j: int| 0 <= j < n && s[j].0@ == k,
            forall|a: int, b: int| 0 <= a < b < n ==> royalty.key_seq()[a] != royalty.key_seq()[b],
            forall|j: int| 0 <= j < n ==> royalty.key_seq()[j] == (#[trigger] s[j]).0@,
        decreases n - i,
    {
        let (k, v) = royalty.entry_at(i);
        let ghost pre = s.subrange(0, i as int);
        let ghost next = s.subrange(0, i + 1);
        proof {
            assert(next.drop_last() =~= pre);
            assert(next.last() == s[i as int]);
            lemma_paid_prefix(s, owner@, i + 1);
        }
        if *k != *owner {
            proof {
                assert(!payout@.contains_key(k@)) by {
                    if payout@.contains_key(k@) {
                        let j = choose|j: int| 0 <= j < i && s[j].0@ == k@;
                        assert(royalty.key_seq()[j] != royalty.key_seq()[i as int]);
                    }
                }
            }
            let amount = royalty_to_payout(*v, balance);
            payout.insert(k.clone(), amount);
            paid = paid + *v;
            proof {
                assert forall|key: Seq<char>| #[trigger] payout@.contains_key(key) implies exists|j: int|
                    0 <= j < i + 1 && s[j].0@ == key by {
                    if key == k@ {
                        assert(s[i as int].0@ == key);
                    } else {
                        let j = choose|j: int| 0 <= j < i && s[j].0@ == key;
                        assert(s[j].0@ == key);
                    }
                }
                assert(royalty@[k@] == *v);
            }
        }
        i = i + 1;
    }
    proof {
        assert(s.subrange(0, n as int) =~= s);
    }
    let rest = royalty_to_payout(10000 - paid, balance);
    payout.insert(owner.clone(), rest);
    proof {
        assert forall|k: Seq<char>| #[trigger] royalty@.contains_key(k) && k != owner@ implies payout@.contains_key(k)
            && payout@[k] as nat == share(royalty@[k] as nat, balance as nat) by {
            let j = choose|j: int| 0 <= j < n && s[j].0@ == k;
            assert(s[j].0@ != owner@);
        }
    }
    payout
}

} // verus!
