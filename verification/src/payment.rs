use vstd::prelude::*;
use crate::error::ContractError;
use crate::matching::REWARD_THRESHOLD;
use crate::orderbook::{bytes_eq, clone_bytes, other_side, CoinSide, Executor};

verus! {

/// An amount owed to an address, in the asset of the list it stands in.
#[derive(Clone, Debug, PartialEq, Eq)]
pub struct Payment {
    pub address: Vec<u8>,
    pub amount: u128,
}

/// A transfer out of custody that the host is to perform.
#[derive(Clone, Debug, PartialEq, Eq)]
pub struct Transfer {
    pub address: Vec<u8>,
    pub asset: CoinSide,
    pub amount: u128,
}

/// A list of payments as a mathematical value: the payees and the amounts.
pub open spec fn payment_views(list: Seq<Payment>) -> Seq<(Seq<u8>, u128)> {
    Seq::new(list.len(), |i: int| (list[i].address@, list[i].amount))
}

/// A list of transfers as a mathematical value.
pub open spec fn transfer_views(list: Seq<Transfer>) -> Seq<(Seq<u8>, CoinSide, u128)> {
    Seq::new(list.len(), |i: int| (list[i].address@, list[i].asset, list[i].amount))
}

/// The transfers that pay out a list of payments in `asset`, in order.
pub open spec fn as_transfers(list: Seq<(Seq<u8>, u128)>, asset: CoinSide) -> Seq<(Seq<u8>, CoinSide, u128)> {
    Seq::new(list.len(), |i: int| (list[i].0, asset, list[i].1))
}

/// The transfer that pays out a reward balance: the whole balance once it
/// has reached the threshold, and none before.
pub open spec fn payout_of(address: Seq<u8>, asset: CoinSide, balance: u128) -> Seq<(Seq<u8>, CoinSide, u128)> {
    if balance >= REWARD_THRESHOLD {
        seq![(address, asset, balance)]
    } else {
        Seq::empty()
    }
}

/// `i` is where the payment to `address` stands in the list, or the
/// length of the list when there is none.
pub open spec fn is_payee_slot(list: Seq<(Seq<u8>, u128)>, address: Seq<u8>, i: int) -> bool {
    &&& 0 <= i <= list.len()
    &&& forall|j: int| 0 <= j < i ==> list[j].0 != address
    &&& i < list.len() ==> list[i].0 == address
}

pub open spec fn payee_slot(list: Seq<(Seq<u8>, u128)>, address: Seq<u8>) -> int {
    choose|i: int| is_payee_slot(list, address, i)
}

proof fn lemma_payee_slot(list: Seq<(Seq<u8>, u128)>, address: Seq<u8>, i: int)
    requires
        is_payee_slot(list, address, i),
    ensures
        payee_slot(list, address) == i,
{
    let c = payee_slot(list, address);
    assert(is_payee_slot(list, address, c));
    if c < i {
        assert(list[c].0 != address);
    }
    if i < c {
        assert(list[i].0 != address);
    }
}

/// A merged list with one more payment: added to what its payee is
/// already owed, or put at the end for a new payee.
pub open spec fn absorbed(list: Seq<(Seq<u8>, u128)>, p: (Seq<u8>, u128)) -> Seq<(Seq<u8>, u128)> {
    let k = payee_slot(list, p.0);
    if 0 <= k < list.len() {
        list.update(k, (p.0, (list[k].1 + p.1) as u128))
    } else {
        list.push(p)
    }
}

/// The payments of a list merged so that each payee is paid once, in the
/// order in which the payees first occur.
pub open spec fn merged(list: Seq<(Seq<u8>, u128)>) -> Seq<(Seq<u8>, u128)>
    decreases list.len(),
{
    if list.len() == 0 {
        Seq::empty()
    } else {
        absorbed(merged(list.drop_last()), list.last())
    }
}

/// What a list of payments owes to `address` in all.
pub open spec fn owed_to(list: Seq<Payment>, address: Seq<u8>) -> int
    decreases list.len(),
{
    if list.len() == 0 {
        0
    } else {
        owed_to(list.drop_last(), address) + if list.last().address@ == address {
            list.last().amount as int
        } else {
            0
        }
    }
}

/// The sum of all payments of a list.
pub open spec fn payments_total(list: Seq<Payment>) -> int
    decreases list.len(),
{
    if list.len() == 0 {
        0
    } else {
        payments_total(list.drop_last()) + list.last().amount
    }
}

/// The sum of the transfers of a list that are made in `asset`.
pub open spec fn transfers_total(list: Seq<Transfer>, asset: CoinSide) -> int
    decreases list.len(),
{
    if list.len() == 0 {
        0
    } else {
        transfers_total(list.drop_last(), asset) + if list.last().asset == asset {
            list.last().amount as int
        } else {
            0
        }
    }
}

/// No two payments of the list go to the same address.
pub open spec fn distinct_payees(list: Seq<Payment>) -> bool {
    forall|i: int, j: int| 0 <= i < j < list.len() ==> list[i].address@ != list[j].address@
}

proof fn lemma_owed_update(list: Seq<Payment>, k: int, p: Payment, address: Seq<u8>)
    requires
        0 <= k < list.len(),
        p.address@ == list[k].address@,
    ensures
        owed_to(list.update(k, p), address) == owed_to(list, address) + if p.address@ == address {
            p.amount - list[k].amount
        } else {
            0
        },
        payments_total(list.update(k, p)) == payments_total(list) + p.amount - list[k].amount,
    decreases list.len(),
{
    let u = list.update(k, p);
    if k == list.len() - 1 {
        assert(u.drop_last() =~= list.drop_last());
    } else {
        assert(u.drop_last() =~= list.drop_last().update(k, p));
        lemma_owed_update(list.drop_last(), k, p, address);
    }
}

/// Where the payment to `address` stands in the list, if there is one.
pub fn find_payee(list: &Vec<Payment>, address: &Vec<u8>) -> (r: Option<usize>)
    ensures
        match r {
            Some(k) => k < list@.len() && list@[k as int].address@ == address@ && forall|i: int|
                0 <= i < k ==> list@[i].address@ != address@,
            None => forall|i: int| 0 <= i < list@.len() ==> list@[i].address@ != address@,
        },
{
    let mut i: usize = 0;
    while i < list.len()
        invariant
            i <= list.len(),
            forall|j: int| 0 <= j < i ==> list@[j].address@ != address@,
        decreases list.len() - i,
    {
        if bytes_eq(&list[i].address, address) {
            return Some(i);
        }
        i += 1;
    }
    None
}

/// Merges the payments of a list so that each address is paid once: the
/// result owes every address what the list owed it, names no address
/// twice, and keeps the addresses in the order in which they first occur.
/// Fails when the sum owed to one address does not fit in 128 bits.
pub fn coalesce(list: Vec<Payment>) -> (r: Result<Vec<Payment>, ContractError>)
    ensures
        r matches Ok(out) ==> {
            &&& payment_views(out@) == merged(payment_views(list@))
            &&& distinct_payees(out@)
            &&& forall|a: Seq<u8>| owed_to(out@, a) == owed_to(list@, a)
            &&& payments_total(out@) == payments_total(list@)
            &&& out@.len() <= list@.len()
            &&& forall|k: int| 0 <= k < out@.len() ==> exists|i: int| 0 <= i < list@.len() && list@[i].address@ == (#[trigger] out@[k]).address@
        },
        r matches Err(e) ==> e == ContractError::Overflow && exists|a: Seq<u8>| owed_to(list@, a) > u128::MAX,
        r is Ok <==> (forall|a: Seq<u8>| owed_to(list@, a) <= u128::MAX),
{
    let mut out: Vec<Payment> = Vec::new();
    let mut i: usize = 0;
    while i < list.len()
        invariant
            i <= list.len(),
            distinct_payees(out@),
            payment_views(out@) == merged(payment_views(list@.take(i as int))),
            forall|a: Seq<u8>| owed_to(out@, a) == owed_to(list@.take(i as int), a),
            payments_total(out@) == payments_total(list@.take(i as int)),
            out@.len() <= i,
            forall|k: int| 0 <= k < out@.len() ==> exists|n: int| 0 <= n < i && list@[n].address@ == (#[trigger] out@[k]).address@,
        decreases list.len() - i,
    {
        let ghost before = out@;
        let ghost prefix = list@.take(i as int);
        let ghost next = list@.take(i + 1);
        proof {
            assert(next.drop_last() =~= prefix);
            assert(next.last() == list@[i as int]);
            assert(payment_views(next).drop_last() =~= payment_views(prefix));
        }
        let address = clone_bytes(&list[i].address);
        let amount = list[i].amount;
        match find_payee(&out, &address) {
            Some(k) => {
                let sum = match out[k].amount.checked_add(amount) {
                    Some(v) => v,
                    None => {
                        proof {
                            lemma_owed_monotone(out@, k as int);
                            lemma_owed_prefix(list@, i + 1, address@);
                            assert(owed_to(next, address@) == owed_to(prefix, address@) + amount);
                        }
                        return Err(ContractError::Overflow);
                    },
                };
                let joined = Payment { address, amount: sum };
                out[k] = joined;
                proof {
                    lemma_payee_slot(payment_views(before), address@, k as int);
                    assert(payment_views(out@) =~= payment_views(before).update(k as int, (address@, sum)));
                    assert forall|a: Seq<u8>| owed_to(out@, a) == owed_to(next, a) by {
                        lemma_owed_update(before, k as int, out@[k as int], a);
                    }
                    lemma_owed_update(before, k as int, out@[k as int], address@);
                    assert forall|x: int, y: int| 0 <= x < y < out@.len() implies out@[x].address@ != out@[y].address@ by {
                        assert(before[x].address@ != before[y].address@);
                    }
                    assert forall|m: int| 0 <= m < out@.len() implies exists|n: int| 0 <= n < i + 1 && list@[n].address@ == (#[trigger] out@[m]).address@ by {
                        let n = choose|n: int| 0 <= n < i && list@[n].address@ == before[m].address@;
                        assert(list@[n].address@ == out@[m].address@);
                    }
                }
            },
            None => {
                out.push(Payment { address, amount });
                proof {
                    lemma_payee_slot(payment_views(before), address@, before.len() as int);
                    assert(payment_views(out@) =~= payment_views(before).push((address@, amount)));
                    assert(out@.drop_last() =~= before);
                    assert forall|a: Seq<u8>| owed_to(out@, a) == owed_to(next, a) by {
                        assert(owed_to(before, a) == owed_to(prefix, a));
                        assert(out@.last().address@ == next.last().address@);
                        assert(out@.last().amount == next.last().amount);
                        assert(owed_to(out@, a) == owed_to(out@.drop_last(), a) + if out@.last().address@ == a {
                            out@.last().amount as int
                        } else {
                            0
                        });
                    }
                    assert forall|m: int| 0 <= m < out@.len() implies exists|n: int| 0 <= n < i + 1 && list@[n].address@ == (#[trigger] out@[m]).address@ by {
                        if m < before.len() {
                            let n = choose|n: int| 0 <= n < i && list@[n].address@ == before[m].address@;
                            assert(list@[n].address@ == out@[m].address@);
                        } else {
                            assert(list@[i as int].address@ == out@[m].address@);
                        }
                    }
                }
            },
        }
        i += 1;
    }
    proof {
        assert(list@.take(list@.len() as int) =~= list@);
        assert forall|a: Seq<u8>| owed_to(list@, a) <= u128::MAX by {
            if exists|k: int| 0 <= k < out@.len() && out@[k].address@ == a {
                let k = choose|k: int| 0 <= k < out@.len() && out@[k].address@ == a;
                lemma_owed_distinct(out@, k);
            } else {
                lemma_owed_none(out@, a);
            }
        }
    }
    Ok(out)
}

/// What is owed to the payee of one payment is at least that payment.
proof fn lemma_owed_monotone(list: Seq<Payment>, k: int)
    requires
        0 <= k < list.len(),
    ensures
        owed_to(list, list[k].address@) >= list[k].amount,
    decreases list.len(),
{
    lemma_owed_nonneg(list.drop_last(), list[k].address@);
    if k < list.len() - 1 {
        lemma_owed_monotone(list.drop_last(), k);
    }
}

proof fn lemma_owed_nonneg(list: Seq<Payment>, address: Seq<u8>)
    ensures
        owed_to(list, address) >= 0,
    decreases list.len(),
{
    if list.len() > 0 {
        lemma_owed_nonneg(list.drop_last(), address);
    }
}

/// A longer part of a list owes an address no less than a shorter one.
proof fn lemma_owed_prefix(list: Seq<Payment>, n: int, address: Seq<u8>)
    requires
        0 <= n <= list.len(),
    ensures
        owed_to(list.take(n), address) <= owed_to(list, address),
    decreases list.len() - n,
{
    if n < list.len() {
        lemma_owed_prefix(list, n + 1, address);
        assert(list.take(n + 1).drop_last() =~= list.take(n));
    } else {
        assert(list.take(n) =~= list);
    }
}

/// `t` pays out `p` in `asset`.
pub open spec fn pays(t: Transfer, p: Payment, asset: CoinSide) -> bool {
    t.address@ == p.address@ && t.asset == asset && t.amount == p.amount
}

/// Appends one transfer in `asset` for each payment of the list, in order.
pub fn push_transfers(messages: &mut Vec<Transfer>, payments: &Vec<Payment>, asset: CoinSide)
    ensures
        final(messages)@.len() == old(messages)@.len() + payments@.len(),
        transfer_views(final(messages)@) == transfer_views(old(messages)@) + as_transfers(payment_views(payments@), asset),
        forall|i: int| 0 <= i < old(messages)@.len() ==> final(messages)@[i] == old(messages)@[i],
        forall|k: int| 0 <= k < payments@.len() ==> pays(#[trigger] final(messages)@[old(messages)@.len() + k], payments@[k], asset),
        transfers_total(final(messages)@, asset) == transfers_total(old(messages)@, asset) + payments_total(payments@),
        transfers_total(final(messages)@, other_side(asset)) == transfers_total(old(messages)@, other_side(asset)),
{
    let mut i: usize = 0;
    while i < payments.len()
        invariant
            i <= payments.len(),
            messages@.len() == old(messages)@.len() + i,
            forall|n: int| 0 <= n < old(messages)@.len() ==> messages@[n] == old(messages)@[n],
            forall|k: int| 0 <= k < i ==> pays(#[trigger] messages@[old(messages)@.len() + k], payments@[k], asset),
            transfers_total(messages@, asset) == transfers_total(old(messages)@, asset) + payments_total(payments@.take(i as int)),
            transfers_total(messages@, other_side(asset)) == transfers_total(old(messages)@, other_side(asset)),
        decreases payments.len() - i,
    {
        let ghost before = messages@;
        messages.push(Transfer { address: clone_bytes(&payments[i].address), asset, amount: payments[i].amount });
        proof {
            assert(messages@.drop_last() =~= before);
            assert(payments@.take(i + 1).drop_last() =~= payments@.take(i as int));
            assert(payments@.take(i + 1).last() == payments@[i as int]);
        }
        i += 1;
    }
    proof {
        assert(payments@.take(payments@.len() as int) =~= payments@);
        let fin = transfer_views(messages@);
        let want = transfer_views(old(messages)@) + as_transfers(payment_views(payments@), asset);
        assert(fin.len() == want.len());
        assert forall|n: int| 0 <= n < fin.len() implies fin[n] == want[n] by {
            if n >= old(messages)@.len() {
                assert(pays(messages@[old(messages)@.len() + (n - old(messages)@.len())], payments@[n - old(messages)@.len()], asset));
            }
        }
        assert(fin =~= want);
    }
}

/// Turns the payments collected in one matcher call into transfers, one
/// for each address and asset: first the quote payments to the sellers,
/// then the base payments to the buyers. Each transfer carries all that
/// its list owes to its address. Fails, appending nothing, when what is
/// owed to one address in one asset does not fit in 128 bits.
pub fn transfer_to_trader(list_bidder: Vec<Payment>, list_asker: Vec<Payment>, messages: &mut Vec<Transfer>) -> (r: Result<(), ContractError>)
    ensures
        forall|i: int| 0 <= i < old(messages)@.len() ==> final(messages)@[i] == old(messages)@[i],
        r is Err ==> final(messages)@ == old(messages)@ && r->Err_0 == ContractError::Overflow,
        r is Ok <==> (forall|a: Seq<u8>| owed_to(list_bidder@, a) <= u128::MAX && owed_to(list_asker@, a) <= u128::MAX),
        r is Ok ==> {
            let start = old(messages)@.len() as int;
            let end = final(messages)@.len() as int;
            &&& transfer_views(final(messages)@) == transfer_views(old(messages)@) + as_transfers(
                merged(payment_views(list_asker@)),
                CoinSide::Quote,
            ) + as_transfers(merged(payment_views(list_bidder@)), CoinSide::Base)
            &&& start <= end <= start + list_asker@.len() + list_bidder@.len()
            &&& transfers_total(final(messages)@, CoinSide::Base) == transfers_total(old(messages)@, CoinSide::Base) + payments_total(list_bidder@)
            &&& transfers_total(final(messages)@, CoinSide::Quote) == transfers_total(old(messages)@, CoinSide::Quote) + payments_total(list_asker@)
            &&& forall|i: int, j: int| start <= i < j < end ==> !(final(messages)@[i].address@ == final(messages)@[j].address@ && final(messages)@[i].asset == final(messages)@[j].asset)
            &&& forall|k: int| start <= k < end ==> (#[trigger] final(messages)@[k]).amount == owed_to(
                if final(messages)@[k].asset == CoinSide::Base { list_bidder@ } else { list_asker@ },
                final(messages)@[k].address@,
            )
        },
{
    let askers = match coalesce(list_asker) {
        Ok(v) => v,
        Err(e) => { return Err(e); },
    };
    let bidders = match coalesce(list_bidder) {
        Ok(v) => v,
        Err(e) => { return Err(e); },
    };
    let ghost start = messages@.len() as int;
    push_transfers(messages, &askers, CoinSide::Quote);
    let ghost mid = messages@;
    push_transfers(messages, &bidders, CoinSide::Base);
    proof {
        let fin = messages@;
        let na = askers@.len() as int;
        assert forall|k: int| start <= k < fin.len() implies (#[trigger] fin[k]).amount == owed_to(
            if fin[k].asset == CoinSide::Base { list_bidder@ } else { list_asker@ },
            fin[k].address@,
        ) by {
            if k < start + na {
                assert(fin[k] == mid[k]);
                assert(pays(mid[start + (k - start)], askers@[k - start], CoinSide::Quote));
                lemma_owed_distinct(askers@, k - start);
            } else {
                assert(pays(fin[mid.len() + (k - start - na)], bidders@[k - start - na], CoinSide::Base));
                lemma_owed_distinct(bidders@, k - start - na);
            }
        }
        assert forall|i: int, j: int| start <= i < j < fin.len() implies !(fin[i].address@ == fin[j].address@ && fin[i].asset == fin[j].asset) by {
            if j < start + na {
                assert(fin[i] == mid[i] && fin[j] == mid[j]);
                assert(pays(mid[start + (i - start)], askers@[i - start], CoinSide::Quote));
                assert(pays(mid[start + (j - start)], askers@[j - start], CoinSide::Quote));
            } else if i >= start + na {
                assert(pays(fin[mid.len() + (i - start - na)], bidders@[i - start - na], CoinSide::Base));
                assert(pays(fin[mid.len() + (j - start - na)], bidders@[j - start - na], CoinSide::Base));
            } else {
                assert(fin[i] == mid[i]);
                assert(pays(mid[start + (i - start)], askers@[i - start], CoinSide::Quote));
                assert(pays(fin[mid.len() + (j - start - na)], bidders@[j - start - na], CoinSide::Base));
            }
        }
    }
    Ok(())
}

/// In a list that names no address twice, what is owed to the payee of a
/// payment is that payment.
proof fn lemma_owed_distinct(list: Seq<Payment>, k: int)
    requires
        0 <= k < list.len(),
        distinct_payees(list),
    ensures
        owed_to(list, list[k].address@) == list[k].amount,
    decreases list.len(),
{
    let a = list[k].address@;
    if k < list.len() - 1 {
        assert(list[k].address@ != list.last().address@);
        lemma_owed_distinct(list.drop_last(), k);
    } else {
        lemma_owed_none(list.drop_last(), a);
    }
}

proof fn lemma_owed_none(list: Seq<Payment>, address: Seq<u8>)
    requires
        forall|i: int| 0 <= i < list.len() ==> list[i].address@ != address,
    ensures
        owed_to(list, address) == 0,
    decreases list.len(),
{
    if list.len() > 0 {
        lemma_owed_none(list.drop_last(), address);
    }
}

/// Pays out one balance of a reward account if it has reached the
/// threshold: the whole balance goes into one transfer and the balance
/// is set to zero. A smaller balance is carried over.
pub fn pay_out(executor: &mut Executor, side: CoinSide, messages: &mut Vec<Transfer>)
    ensures
        final(executor).address == old(executor).address,
        final(executor).balance(other_side(side)) == old(executor).balance(other_side(side)),
        transfer_views(final(messages)@) == transfer_views(old(messages)@) + payout_of(
            old(executor).address@,
            side,
            old(executor).balance(side),
        ),
        forall|i: int| 0 <= i < old(messages)@.len() ==> final(messages)@[i] == old(messages)@[i],
        old(executor).balance(side) < REWARD_THRESHOLD ==> *final(executor) == *old(executor) && final(messages)@ == old(messages)@,
        old(executor).balance(side) >= REWARD_THRESHOLD ==> {
            &&& final(executor).balance(side) == 0
            &&& final(messages)@.len() == old(messages)@.len() + 1
            &&& final(messages)@.last().address@ == old(executor).address@
            &&& final(messages)@.last().asset == side
            &&& final(messages)@.last().amount == old(executor).balance(side)
        },
        transfers_total(final(messages)@, side) + final(executor).balance(side) == transfers_total(old(messages)@, side) + old(executor).balance(side),
        transfers_total(final(messages)@, other_side(side)) == transfers_total(old(messages)@, other_side(side)),
{
    let amount = match side {
        CoinSide::Base => executor.base_amount,
        CoinSide::Quote => executor.quote_amount,
    };
    if amount >= REWARD_THRESHOLD {
        let ghost before = messages@;
        messages.push(Transfer { address: clone_bytes(&executor.address), asset: side, amount });
        proof {
            assert(messages@.drop_last() =~= before);
            assert(transfer_views(messages@) =~= transfer_views(before) + payout_of(executor.address@, side, amount));
        }
        match side {
            CoinSide::Base => { executor.base_amount = 0; },
            CoinSide::Quote => { executor.quote_amount = 0; },
        }
    } else {
        proof {
            assert(transfer_views(messages@) =~= transfer_views(messages@) + payout_of(executor.address@, side, amount));
        }
    }
}

/// Pays out the balances of the reward wallet and of the relayer that have
/// reached the threshold: the base balances first, the reward wallet
/// before the relayer. Nothing is lost: for each asset, what is
/// transferred and what stays in the two accounts add up to what the
/// accounts held.
pub fn transfer_reward(reward: &mut Executor, relayer: &mut Executor, messages: &mut Vec<Transfer>)
    ensures
        final(reward).address == old(reward).address,
        final(relayer).address == old(relayer).address,
        transfer_views(final(messages)@) == transfer_views(old(messages)@) + payout_of(
            old(reward).address@,
            CoinSide::Base,
            old(reward).base_amount,
        ) + payout_of(old(relayer).address@, CoinSide::Base, old(relayer).base_amount) + payout_of(
            old(reward).address@,
            CoinSide::Quote,
            old(reward).quote_amount,
        ) + payout_of(old(relayer).address@, CoinSide::Quote, old(relayer).quote_amount),
        forall|i: int| 0 <= i < old(messages)@.len() ==> final(messages)@[i] == old(messages)@[i],
        forall|side: CoinSide| #![trigger final(reward).balance(side)] {
            &&& final(reward).balance(side) == if old(reward).balance(side) >= REWARD_THRESHOLD { 0 } else { old(reward).balance(side) }
            &&& final(relayer).balance(side) == if old(relayer).balance(side) >= REWARD_THRESHOLD { 0 } else { old(relayer).balance(side) }
            &&& transfers_total(final(messages)@, side) + final(reward).balance(side) + final(relayer).balance(side)
                == transfers_total(old(messages)@, side) + old(reward).balance(side) + old(relayer).balance(side)
        },
        final(messages)@.len() == old(messages)@.len()
            + (if old(reward).base_amount >= REWARD_THRESHOLD { 1int } else { 0 })
            + (if old(relayer).base_amount >= REWARD_THRESHOLD { 1int } else { 0 })
            + (if old(reward).quote_amount >= REWARD_THRESHOLD { 1int } else { 0 })
            + (if old(relayer).quote_amount >= REWARD_THRESHOLD { 1int } else { 0 }),
{
    pay_out(reward, CoinSide::Base, messages);
    pay_out(relayer, CoinSide::Base, messages);
    pay_out(reward, CoinSide::Quote, messages);
    pay_out(relayer, CoinSide::Quote, messages);
}

} // verus!
