use vstd::prelude::*;
use vstd::multiset::Multiset;
use crate::pubkey::Pubkey;

verus! {

/// Where a lottery round stands.
#[derive(Clone, Copy, Debug, PartialEq, Eq, Structural)]
pub enum LotteryStatus {
    Unresolved,
    Running,
    Ended,
}

/// A participant drawn as a winner of a round.
#[derive(Clone, Copy, Debug)]
pub struct Winner {
    pub participant: Pubkey,
    pub claimed: bool,
    pub claimed_amount: u64,
}

/// A participant and the ticket numbers that they hold.
#[derive(Debug)]
pub struct Buyer {
    pub participant: Pubkey,
    pub tickets: Vec<u8>,
}

/// The mathematical value of a `Buyer`.
pub struct BuyerView {
    pub participant: Pubkey,
    pub tickets: Seq<u8>,
}

impl View for Buyer {
    type V = BuyerView;

    open spec fn view(&self) -> BuyerView {
        BuyerView { participant: self.participant, tickets: self.tickets@ }
    }
}

/// The values of a list of buyers.
pub open spec fn buyer_views(bs: Seq<Buyer>) -> Seq<BuyerView> {
    bs.map_values(|b: Buyer| b@)
}

/// One lottery round.
#[derive(Debug)]
pub struct Lottery {
    pub creator: Pubkey,
    pub start: i64,
    pub end: i64,
    pub winners: Vec<Winner>,
    pub ticket_price: u64,
    pub ticket_amount: u8,
    pub prize_token: Pubkey,
    pub claimed_amount: u64,
    pub buyers: Vec<Buyer>,
    pub left_tickets: Vec<u8>,
    pub prize_bump: u8,
    pub proceeds_bump: u8,
    pub collected: u64,
    pub max_tickets_per_buyer: u8,
    pub status: LotteryStatus,
}

/// The mathematical value of a `Lottery`.
pub struct LotteryView {
    pub creator: Pubkey,
    pub start: i64,
    pub end: i64,
    pub winners: Seq<Winner>,
    pub ticket_price: u64,
    pub ticket_amount: u8,
    pub prize_token: Pubkey,
    pub claimed_amount: u64,
    pub buyers: Seq<BuyerView>,
    pub left_tickets: Seq<u8>,
    pub prize_bump: u8,
    pub proceeds_bump: u8,
    pub collected: u64,
    pub max_tickets_per_buyer: u8,
    pub status: LotteryStatus,
}

impl View for Lottery {
    type V = LotteryView;

    open spec fn view(&self) -> LotteryView {
        LotteryView {
            creator: self.creator,
            start: self.start,
            end: self.end,
            winners: self.winners@,
            ticket_price: self.ticket_price,
            ticket_amount: self.ticket_amount,
            prize_token: self.prize_token,
            claimed_amount: self.claimed_amount,
            buyers: buyer_views(self.buyers@),
            left_tickets: self.left_tickets@,
            prize_bump: self.prize_bump,
            proceeds_bump: self.proceeds_bump,
            collected: self.collected,
            max_tickets_per_buyer: self.max_tickets_per_buyer,
            status: self.status,
        }
    }
}

/// The application-wide settings and the list of lottery rounds.
#[derive(Debug)]
pub struct AppStats {
    pub fee_account: Pubkey,
    pub fee_percent: u8,
    pub owner: Pubkey,
    pub admin: Pubkey,
    pub rounds: Vec<Pubkey>,
    pub bump: u8,
}

/// The mathematical value of an `AppStats`.
pub struct AppStatsView {
    pub fee_account: Pubkey,
    pub fee_percent: u8,
    pub owner: Pubkey,
    pub admin: Pubkey,
    pub rounds: Seq<Pubkey>,
    pub bump: u8,
}

impl View for AppStats {
    type V = AppStatsView;

    open spec fn view(&self) -> AppStatsView {
        AppStatsView {
            fee_account: self.fee_account,
            fee_percent: self.fee_percent,
            owner: self.owner,
            admin: self.admin,
            rounds: self.rounds@,
            bump: self.bump,
        }
    }
}

/// The ticket numbers of a round with `n` tickets: 1, 2, ..., n.
pub open spec fn ticket_range(n: u8) -> Seq<u8> {
    Seq::new(n as nat, |i: int| (i + 1) as u8)
}

/// All ticket numbers that the buyers hold, counted with multiplicity.
pub open spec fn held_tickets(bs: Seq<BuyerView>) -> Multiset<u8>
    decreases bs.len(),
{
    if bs.len() == 0 {
        Multiset::empty()
    } else {
        held_tickets(bs.drop_last()).add(bs.last().tickets.to_multiset())
    }
}

/// `i` is the first position in `bs` of a buyer with address `key`.
pub open spec fn is_first_match(bs: Seq<BuyerView>, key: Pubkey, i: int) -> bool {
    &&& 0 <= i < bs.len()
    &&& bs[i].participant == key
    &&& forall|j: int| 0 <= j < i ==> bs[j].participant != key
}

/// The position of the first buyer with address `key`, if any.
pub open spec fn buyer_position(bs: Seq<BuyerView>, key: Pubkey) -> Option<int> {
    if exists|i: int| is_first_match(bs, key, i) {
        Some(choose|i: int| is_first_match(bs, key, i))
    } else {
        None
    }
}

/// How many tickets the buyer with address `key` holds (0 for a newcomer).
pub open spec fn held_by(bs: Seq<BuyerView>, key: Pubkey) -> nat {
    match buyer_position(bs, key) {
        Some(i) => bs[i].tickets.len(),
        None => 0,
    }
}

impl LotteryView {
    /// Every ticket number, whether still for sale or held by a buyer.
    pub open spec fn ticket_pool(self) -> Multiset<u8> {
        self.left_tickets.to_multiset().add(held_tickets(self.buyers))
    }

    /// The invariant of a round:
    /// - each ticket 1..=ticket_amount is either for sale or held, exactly once;
    /// - no participant appears twice among the buyers;
    /// - every buyer holds at least one ticket and fewer than the cap;
    /// - every winner is one of the buyers.
    pub open spec fn wf(self) -> bool {
        &&& self.ticket_pool() =~= ticket_range(self.ticket_amount).to_multiset()
        &&& buyers_distinct(self.buyers)
        &&& buyers_capped(self.buyers, self.max_tickets_per_buyer)
        &&& winners_are_buyers(self.winners, self.buyers)
    }
}

/// No participant appears twice among `bs`.
pub open spec fn buyers_distinct(bs: Seq<BuyerView>) -> bool {
    forall|i: int, j: int|
        0 <= i < bs.len() && 0 <= j < bs.len() && i != j ==> #[trigger] bs[i].participant
            != #[trigger] bs[j].participant
}

/// Every buyer in `bs` holds at least one ticket and fewer than `max`.
pub open spec fn buyers_capped(bs: Seq<BuyerView>, max: u8) -> bool {
    forall|i: int| 0 <= i < bs.len() ==> 0 < #[trigger] bs[i].tickets.len() < max
}

/// Some buyer in `bs` has address `key`.
pub open spec fn is_participant(bs: Seq<BuyerView>, key: Pubkey) -> bool {
    exists|i: int| 0 <= i < bs.len() && #[trigger] bs[i].participant == key
}

/// Every winner in `ws` is one of the buyers in `bs`.
pub open spec fn winners_are_buyers(ws: Seq<Winner>, bs: Seq<BuyerView>) -> bool {
    forall|w: int| 0 <= w < ws.len() ==> is_participant(bs, #[trigger] ws[w].participant)
}

/// Adding a buyer adds their tickets to those held.
pub(crate) proof fn lemma_held_push(bs: Seq<BuyerView>, b: BuyerView)
    ensures
        held_tickets(bs.push(b)) == held_tickets(bs).add(b.tickets.to_multiset()),
{
    assert(bs.push(b).drop_last() =~= bs);
}

/// Replacing the buyer at `i` swaps their tickets in those held.
pub(crate) proof fn lemma_held_update(bs: Seq<BuyerView>, i: int, b: BuyerView)
    requires
        0 <= i < bs.len(),
    ensures
        held_tickets(bs.update(i, b)).add(bs[i].tickets.to_multiset())
            =~= held_tickets(bs).add(b.tickets.to_multiset()),
    decreases bs.len(),
{
    broadcast use vstd::multiset::group_multiset_axioms;

    let u = bs.update(i, b);
    let rest = held_tickets(bs.drop_last());
    assert(held_tickets(bs) == rest.add(bs.last().tickets.to_multiset()));
    if i == bs.len() - 1 {
        assert(u.drop_last() =~= bs.drop_last());
        assert(held_tickets(u) == rest.add(b.tickets.to_multiset()));
        assert(bs[i] == bs.last());
        assert(held_tickets(u).add(bs[i].tickets.to_multiset())
            =~= held_tickets(bs).add(b.tickets.to_multiset()));
    } else {
        assert(u.drop_last() =~= bs.drop_last().update(i, b));
        assert(u.last() == bs.last());
        lemma_held_update(bs.drop_last(), i, b);
        assert(bs.drop_last()[i] == bs[i]);
        let rest_u = held_tickets(bs.drop_last().update(i, b));
        assert(held_tickets(u) == rest_u.add(bs.last().tickets.to_multiset()));
        assert(rest_u.add(bs[i].tickets.to_multiset()) =~= rest.add(b.tickets.to_multiset()));
        assert forall|v: u8|
            #[trigger] held_tickets(u).add(bs[i].tickets.to_multiset()).count(v)
                == held_tickets(bs).add(b.tickets.to_multiset()).count(v) by {
            assert(rest_u.add(bs[i].tickets.to_multiset()).count(v)
                == rest.add(b.tickets.to_multiset()).count(v));
        }
        assert(held_tickets(u).add(bs[i].tickets.to_multiset())
            =~= held_tickets(bs).add(b.tickets.to_multiset()));
    }
}

/// Two first matches of the same address are the same position.
pub(crate) proof fn lemma_first_match_unique(bs: Seq<BuyerView>, key: Pubkey, i: int, j: int)
    requires
        is_first_match(bs, key, i),
        is_first_match(bs, key, j),
    ensures
        i == j,
{
}

/// A first match is the position of the buyer.
pub(crate) proof fn lemma_position_of_first_match(bs: Seq<BuyerView>, key: Pubkey, i: int)
    requires
        is_first_match(bs, key, i),
    ensures
        buyer_position(bs, key) == Some(i),
{
    let c = choose|c: int| is_first_match(bs, key, c);
    lemma_first_match_unique(bs, key, c, i);
}

/// The position of a buyer is a first match; with none, nobody has the address.
pub(crate) proof fn lemma_position_facts(bs: Seq<BuyerView>, key: Pubkey)
    ensures
        buyer_position(bs, key) matches Some(i) ==> is_first_match(bs, key, i),
        buyer_position(bs, key) is None ==> !is_participant(bs, key),
{
    if buyer_position(bs, key) is None && is_participant(bs, key) {
        let k = choose|k: int| 0 <= k < bs.len() && #[trigger] bs[k].participant == key;
        lemma_first_match_exists(bs, key, k);
    }
}

/// If some buyer has the address, a first one does.
pub(crate) proof fn lemma_first_match_exists(bs: Seq<BuyerView>, key: Pubkey, k: int)
    requires
        0 <= k < bs.len(),
        bs[k].participant == key,
    ensures
        exists|i: int| is_first_match(bs, key, i),
    decreases k,
{
    if exists|j: int| 0 <= j < k && bs[j].participant == key {
        let j = choose|j: int| 0 <= j < k && bs[j].participant == key;
        lemma_first_match_exists(bs, key, j);
    } else {
        assert(is_first_match(bs, key, k));
    }
}

/// Each number 1..=n occurs once among the first n ticket numbers, and no
/// other number occurs.
pub(crate) proof fn lemma_ticket_range_counts(n: u8)
    ensures
        forall|t: u8| #[trigger] ticket_range(n).to_multiset().count(t) == if 1 <= t <= n {
            1nat
        } else {
            0nat
        },
        ticket_range(n).to_multiset().len() == n,
    decreases n,
{
    broadcast use vstd::seq_lib::group_to_multiset_ensures, vstd::multiset::group_multiset_axioms;

    if n == 0 {
        assert(ticket_range(0).to_multiset() =~= Multiset::<u8>::empty()) by {
            assert(ticket_range(0) =~= Seq::<u8>::empty());
        }
    } else {
        let m = (n - 1) as u8;
        lemma_ticket_range_counts(m);
        assert(ticket_range(n) =~= ticket_range(m).push(n));
    }
}

/// In a well-formed round every ticket number 1..=ticket_amount is accounted
/// for exactly once, either for sale or held by one buyer, and no other number
/// appears; hence no more tickets are for sale than the round has.
pub proof fn lemma_wf_ticket_counts(l: LotteryView)
    requires
        l.wf(),
    ensures
        forall|t: u8| #[trigger] l.ticket_pool().count(t) == if 1 <= t <= l.ticket_amount {
            1nat
        } else {
            0nat
        },
        l.left_tickets.len() <= l.ticket_amount,
{
    broadcast use vstd::seq_lib::group_to_multiset_ensures, vstd::multiset::group_multiset_axioms;

    lemma_ticket_range_counts(l.ticket_amount);
    assert(l.ticket_pool() == ticket_range(l.ticket_amount).to_multiset());
    assert(l.ticket_pool().len() == l.left_tickets.len() + held_tickets(l.buyers).len());
}

} // verus!
