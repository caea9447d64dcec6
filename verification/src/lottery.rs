use crate::error::ErrCode;
use crate::pubkey::Pubkey;
use crate::randomness_tools::{get_sha256_hashed_random, spec_hashed_random};
use crate::state::{
    buyer_position, buyer_views, buyers_capped, buyers_distinct, held_by, held_tickets,
    is_first_match, is_participant, lemma_held_push, lemma_held_update, lemma_position_facts,
    lemma_position_of_first_match, ticket_range, winners_are_buyers, AppStats, AppStatsView, Buyer,
    BuyerView, Lottery, LotteryStatus, LotteryView, Winner,
};
use vstd::multiset::Multiset;
use vstd::prelude::*;

verus! {

broadcast use vstd::seq_lib::group_to_multiset_ensures, vstd::multiset::group_multiset_axioms;

/// How many tickets one participant may hold in a round, bound excluded.
pub const MAX_TICKETS_PER_BUYER: u8 = 5;

/// The ticket holding `buyer` after receiving ticket `t`.
pub open spec fn with_ticket(buyer: BuyerView, t: u8) -> BuyerView {
    BuyerView { participant: buyer.participant, tickets: buyer.tickets.push(t) }
}

/// Every buyer of `before` other than `key` is still at the same position in
/// `after`, holding the same tickets.
pub open spec fn others_unchanged(before: Seq<BuyerView>, after: Seq<BuyerView>, key: Pubkey) -> bool {
    &&& before.len() <= after.len()
    &&& forall|i: int|
        0 <= i < before.len() && before[i].participant != key ==> #[trigger] after[i] == before[i]
}

/// The buyers after `key` receives ticket `t`: their entry grows, or a new
/// entry holding only `t` is appended.
pub open spec fn give_ticket(bs: Seq<BuyerView>, key: Pubkey, t: u8) -> Seq<BuyerView> {
    match buyer_position(bs, key) {
        Some(i) => bs.update(i, with_ticket(bs[i], t)),
        None => bs.push(BuyerView { participant: key, tickets: seq![t] }),
    }
}

/// The round after the ticket at position `idx` of those for sale goes to `key`.
pub open spec fn assign_result(l: LotteryView, key: Pubkey, idx: int) -> LotteryView {
    LotteryView {
        left_tickets: l.left_tickets.remove(idx),
        buyers: give_ticket(l.buyers, key, l.left_tickets[idx]),
        ..l
    }
}

/// Whether `key`, asking for `ticket_amount` tickets, may take one more.
pub open spec fn may_take_ticket(l: LotteryView, key: Pubkey, ticket_amount: u64) -> bool {
    held_by(l.buyers, key) + ticket_amount < l.max_tickets_per_buyer
}

/// The position of the next ticket drawn when `len` tickets are for sale.
pub open spec fn ticket_draw_index(slot: u64, len: nat) -> int {
    (spec_hashed_random(slot, len as u64) % (len as u64)) as int
}

/// The round after `n` tickets were drawn for `key`, each at the position
/// that the hash of the slot and the number of tickets left picks.
pub open spec fn draw_steps(l: LotteryView, key: Pubkey, slot: u64, n: nat) -> LotteryView
    decreases n,
{
    if n == 0 {
        l
    } else {
        let prev = draw_steps(l, key, slot, (n - 1) as nat);
        assign_result(prev, key, ticket_draw_index(slot, prev.left_tickets.len()))
    }
}

/// The error with which a purchase is refused before any ticket is drawn.
pub open spec fn purchase_error(l: LotteryView, now: i64, ticket_amount: u64) -> Option<ErrCode> {
    if now > l.end {
        Some(ErrCode::RoundEnded)
    } else if ticket_amount == 0 || ticket_amount > l.left_tickets.len() {
        Some(ErrCode::InvalidArgus)
    } else {
        None
    }
}

/// The round after a successful purchase of `ticket_amount` tickets by `key`.
pub open spec fn purchase_result(l: LotteryView, key: Pubkey, now: i64, ticket_amount: u64) -> LotteryView {
    LotteryView {
        collected: (l.collected + l.ticket_price * ticket_amount) as u64,
        ..draw_steps(l, key, now as u64, ticket_amount as nat)
    }
}

/// The position of the first buyer with address `key`.
fn find_buyer(buyers: &Vec<Buyer>, key: &Pubkey) -> (r: Option<usize>)
    ensures
        r matches Some(i) ==> buyer_position(buyer_views(buyers@), *key) == Some(i as int),
        r is None ==> buyer_position(buyer_views(buyers@), *key) is None,
{
    let ghost bs = buyer_views(buyers@);
    let mut i: usize = 0;
    while i < buyers.len()
        invariant
            i <= buyers.len(),
            bs == buyer_views(buyers@),
            forall|j: int| 0 <= j < i ==> bs[j].participant != *key,
        decreases buyers.len() - i,
    {
        if buyers[i].participant.key_eq(key) {
            proof {
                assert(is_first_match(bs, *key, i as int));
                lemma_position_of_first_match(bs, *key, i as int);
            }
            return Some(i);
        }
        i = i + 1;
    }
    proof {
        lemma_position_facts(bs, *key);
        if let Some(p) = buyer_position(bs, *key) {
            assert(bs[p].participant == *key);
        }
    }
    None
}

/// Buyers whose addresses agree position by position have their first
/// matches at the same positions.
proof fn lemma_same_participants_position(bs1: Seq<BuyerView>, bs2: Seq<BuyerView>, key: Pubkey)
    requires
        bs1.len() == bs2.len(),
        forall|j: int| 0 <= j < bs1.len() ==> bs1[j].participant == bs2[j].participant,
    ensures
        buyer_position(bs1, key) == buyer_position(bs2, key),
{
    lemma_position_facts(bs1, key);
    lemma_position_facts(bs2, key);
    if let Some(i) = buyer_position(bs1, key) {
        assert(is_first_match(bs2, key, i));
        lemma_position_of_first_match(bs2, key, i);
    } else if let Some(i) = buyer_position(bs2, key) {
        assert(is_first_match(bs1, key, i));
        lemma_position_of_first_match(bs1, key, i);
    }
}

/// What giving one ticket to `key` does to the buyers and the round.
proof fn lemma_assign_step(l: LotteryView, key: Pubkey, idx: int)
    requires
        0 <= idx < l.left_tickets.len(),
    ensures
        ({
            let r = assign_result(l, key, idx);
            &&& r.left_tickets.len() == l.left_tickets.len() - 1
            &&& held_by(r.buyers, key) == held_by(l.buyers, key) + 1
            &&& buyer_position(r.buyers, key) is Some
            &&& r.buyers[buyer_position(r.buyers, key)->0].tickets.last() == l.left_tickets[idx]
            &&& others_unchanged(l.buyers, r.buyers, key)
            &&& r.ticket_pool() =~= l.ticket_pool()
            &&& (buyers_distinct(l.buyers) ==> buyers_distinct(r.buyers))
            &&& (winners_are_buyers(l.winners, l.buyers) ==> winners_are_buyers(r.winners, r.buyers))
            &&& (buyers_capped(l.buyers, l.max_tickets_per_buyer)
                && held_by(l.buyers, key) + 1 < l.max_tickets_per_buyer
                ==> buyers_capped(r.buyers, r.max_tickets_per_buyer))
        }),
{
    let r = assign_result(l, key, idx);
    let bs = l.buyers;
    let t = l.left_tickets[idx];
    lemma_position_facts(bs, key);
    assert(l.left_tickets.remove(idx).to_multiset() =~= l.left_tickets.to_multiset().remove(t));
    match buyer_position(bs, key) {
        Some(i) => {
            let nb = with_ticket(bs[i], t);
            assert(r.buyers == bs.update(i, nb));
            lemma_same_participants_position(bs, r.buyers, key);
            lemma_held_update(bs, i, nb);
            assert(nb.tickets.to_multiset() =~= bs[i].tickets.to_multiset().insert(t));
            assert forall|v: u8| #[trigger] r.ticket_pool().count(v) == l.ticket_pool().count(v) by {
                assert(held_tickets(r.buyers).add(bs[i].tickets.to_multiset()).count(v)
                    == held_tickets(bs).add(nb.tickets.to_multiset()).count(v));
            }
            if winners_are_buyers(l.winners, l.buyers) {
                assert forall|w: int| 0 <= w < r.winners.len() implies is_participant(
                    r.buyers,
                    #[trigger] r.winners[w].participant,
                ) by {
                    let k = choose|k: int|
                        0 <= k < bs.len() && #[trigger] bs[k].participant == l.winners[w].participant;
                    assert(r.buyers[k].participant == bs[k].participant);
                }
            }
            if buyers_distinct(bs) {
                assert forall|a: int, b: int|
                    0 <= a < r.buyers.len() && 0 <= b < r.buyers.len() && a != b implies
                    #[trigger] r.buyers[a].participant != #[trigger] r.buyers[b].participant by {
                    assert(r.buyers[a].participant == bs[a].participant);
                    assert(r.buyers[b].participant == bs[b].participant);
                }
            }
        },
        None => {
            let nb = BuyerView { participant: key, tickets: seq![t] };
            assert(r.buyers == bs.push(nb));
            assert(is_first_match(r.buyers, key, bs.len() as int));
            lemma_position_of_first_match(r.buyers, key, bs.len() as int);
            lemma_held_push(bs, nb);
            assert(seq![t] =~= Seq::<u8>::empty().push(t));
            assert(nb.tickets.to_multiset() =~= Multiset::<u8>::empty().insert(t));
            assert forall|v: u8| #[trigger] r.ticket_pool().count(v) == l.ticket_pool().count(v) by {
            }
            if winners_are_buyers(l.winners, l.buyers) {
                assert forall|w: int| 0 <= w < r.winners.len() implies is_participant(
                    r.buyers,
                    #[trigger] r.winners[w].participant,
                ) by {
                    let k = choose|k: int|
                        0 <= k < bs.len() && #[trigger] bs[k].participant == l.winners[w].participant;
                    assert(r.buyers[k].participant == bs[k].participant);
                }
            }
            if buyers_distinct(bs) {
                assert forall|a: int, b: int|
                    0 <= a < r.buyers.len() && 0 <= b < r.buyers.len() && a != b implies
                    #[trigger] r.buyers[a].participant != #[trigger] r.buyers[b].participant by {
                    if a == bs.len() {
                        assert(r.buyers[b] == bs[b]);
                    } else if b == bs.len() {
                        assert(r.buyers[a] == bs[a]);
                    } else {
                        assert(r.buyers[a] == bs[a]);
                        assert(r.buyers[b] == bs[b]);
                    }
                }
            }
        },
    }
}

/// Gives one ticket to `signer`: the ticket at position `random` modulo the
/// number of tickets left moves from those for sale to the signer's entry.
/// Refused when the signer, asking for `ticket_amount` tickets in all, would
/// reach the per-buyer cap.
pub fn assign_ticket(lottery: &mut Lottery, signer: Pubkey, random: u64, ticket_amount: u64) -> (r:
    Result<(), ErrCode>)
    requires
        old(lottery).left_tickets.len() > 0,
    ensures
        r is Ok <==> may_take_ticket(old(lottery)@, signer, ticket_amount),
        r is Err ==> r == Err::<(), ErrCode>(ErrCode::MaxTicketsPerBuyer) && final(lottery)@ == old(
            lottery,
        )@,
        r is Ok ==> final(lottery)@ == assign_result(
            old(lottery)@,
            signer,
            (random % (old(lottery).left_tickets.len() as u64)) as int,
        ),
        // the ticket at position random mod (tickets left) leaves the sale and
        // is the signer's newest ticket
        r is Ok ==> ({
            let idx = (random % (old(lottery).left_tickets.len() as u64)) as int;
            let pos = buyer_position(final(lottery)@.buyers, signer);
            &&& final(lottery).left_tickets@ == old(lottery).left_tickets@.remove(idx)
            &&& held_by(final(lottery)@.buyers, signer) == held_by(old(lottery)@.buyers, signer) + 1
            &&& pos is Some
            &&& final(lottery)@.buyers[pos->0].tickets.last() == old(lottery).left_tickets@[idx]
            &&& others_unchanged(old(lottery)@.buyers, final(lottery)@.buyers, signer)
        }),
{
    let ghost old_l = lottery@;
    proof {
        lemma_assign_step(
            old_l,
            signer,
            (random % (old_l.left_tickets.len() as u64)) as int,
        );
    }
    let len = lottery.left_tickets.len();
    let random_number = (random % (len as u64)) as usize;
    let buyer_index = find_buyer(&lottery.buyers, &signer);
    let ticket_to_add = lottery.left_tickets[random_number];
    match buyer_index {
        Some(index) => {
            if (lottery.buyers[index].tickets.len() as u128) + (ticket_amount as u128)
                >= lottery.max_tickets_per_buyer as u128 {
                return Err(ErrCode::MaxTicketsPerBuyer);
            }
            let mut buyer = lottery.buyers.remove(index);
            buyer.tickets.push(ticket_to_add);
            lottery.buyers.insert(index, buyer);
            proof {
                assert(buyer_views(lottery.buyers@) =~= old_l.buyers.update(
                    index as int,
                    with_ticket(old_l.buyers[index as int], ticket_to_add),
                ));
            }
        },
        None => {
            if (ticket_amount as u128) >= lottery.max_tickets_per_buyer as u128 {
                return Err(ErrCode::MaxTicketsPerBuyer);
            }
            let mut tickets: Vec<u8> = Vec::new();
            tickets.push(ticket_to_add);
            lottery.buyers.push(Buyer { participant: signer, tickets });
            proof {
                assert(buyer_views(lottery.buyers@) =~= old_l.buyers.push(
                    BuyerView { participant: signer, tickets: seq![ticket_to_add] },
                ));
            }
        },
    }
    lottery.left_tickets.remove(random_number);
    Ok(())
}

/// The price of `ticket_amount` tickets at `ticket_price` each.
pub open spec fn purchase_total(ticket_price: u64, ticket_amount: u64) -> int {
    ticket_amount * ticket_price
}

/// The fee, in percent of the price, rounded down.
pub open spec fn purchase_fee(ticket_price: u64, ticket_amount: u64, fee_percent: u8) -> int {
    (ticket_amount * ticket_price * fee_percent) / 100
}

/// The arithmetic of a payment stays within `u64` and the fee does not
/// exceed the price.
pub open spec fn payment_fits(ticket_price: u64, ticket_amount: u64, fee_percent: u8) -> bool {
    &&& ticket_amount * ticket_price <= u64::MAX
    &&& ticket_amount * ticket_price * fee_percent <= u64::MAX
    &&& purchase_fee(ticket_price, ticket_amount, fee_percent) <= purchase_total(
        ticket_price,
        ticket_amount,
    )
}

/// Checks a purchase of `ticket_amount` tickets at time `now` and returns the
/// amount, net of the fee, that the buyer pays into the prize account.
pub fn buy_tickets_payment(lottery: &Lottery, now: i64, ticket_amount: u64, fee_percent: u8) -> (r:
    Result<u64, ErrCode>)
    requires
        purchase_error(lottery@, now, ticket_amount) is None ==> payment_fits(
            lottery.ticket_price,
            ticket_amount,
            fee_percent,
        ),
    ensures
        purchase_error(lottery@, now, ticket_amount) matches Some(e) ==> r == Err::<u64, ErrCode>(e),
        purchase_error(lottery@, now, ticket_amount) is None ==> r == Ok::<u64, ErrCode>(
            (purchase_total(lottery.ticket_price, ticket_amount) - purchase_fee(
                lottery.ticket_price,
                ticket_amount,
                fee_percent,
            )) as u64,
        ),
        // refusals over the fields: after the end, then for no or too many tickets
        now > lottery.end ==> r == Err::<u64, ErrCode>(ErrCode::RoundEnded),
        now <= lottery.end && (ticket_amount == 0 || ticket_amount > lottery.left_tickets.len())
            ==> r == Err::<u64, ErrCode>(ErrCode::InvalidArgus),
        // otherwise the price less the fee, the fee rounded down
        r matches Ok(paid) ==> paid + (ticket_amount * lottery.ticket_price * fee_percent) / 100
            == ticket_amount * lottery.ticket_price,
{
    let ticket_price: u64 = lottery.ticket_price;
    if now > lottery.end {
        return Err(ErrCode::RoundEnded);
    }
    if ticket_amount == 0 || ticket_amount > (lottery.left_tickets.len() as u64) {
        return Err(ErrCode::InvalidArgus);
    }
    let fee_amount: u64 = (ticket_amount * ticket_price * (fee_percent as u64)) / 100;
    let real_amount: u64 = ticket_amount * ticket_price - fee_amount;
    Ok(real_amount)
}

/// The tickets drawn, in order, and those still for sale, after `n` draws
/// from `left`, each at the position that the hash of the slot and the number
/// of tickets left picks.
pub open spec fn draw_tickets(left: Seq<u8>, slot: u64, n: nat) -> (Seq<u8>, Seq<u8>)
    decreases n,
{
    if n == 0 {
        (Seq::empty(), left)
    } else {
        let prev = draw_tickets(left, slot, (n - 1) as nat);
        let i = ticket_draw_index(slot, prev.1.len());
        (prev.0.push(prev.1[i]), prev.1.remove(i))
    }
}

/// The buyers after `key` receives the tickets `d`, in order: their entry keeps
/// its place and grows, or a new entry holding `d` is appended at the end.
pub open spec fn give_tickets(bs: Seq<BuyerView>, key: Pubkey, d: Seq<u8>) -> Seq<BuyerView> {
    match buyer_position(bs, key) {
        Some(i) => bs.update(
            i,
            BuyerView { participant: bs[i].participant, tickets: bs[i].tickets + d },
        ),
        None => bs.push(BuyerView { participant: key, tickets: d }),
    }
}

/// Each element of `s` is smaller than the next.
pub open spec fn strictly_increasing(s: Seq<u8>) -> bool {
    forall|i: int, j: int| 0 <= i < j < s.len() ==> s[i] < s[j]
}

/// A purchase of `ticket_amount` tickets by `key` at time `now` is accepted:
/// the early checks pass and the per-buyer cap is never reached while drawing.
pub open spec fn purchase_accepted(l: LotteryView, key: Pubkey, now: i64, ticket_amount: u64) -> bool {
    &&& purchase_error(l, now, ticket_amount) is None
    &&& held_by(l.buyers, key) + 2 * ticket_amount - 1 < l.max_tickets_per_buyer
}

/// The cap check of one draw: a buyer already holding `held` tickets, at draw
/// `d` of a purchase of `ticket_amount`, must stay below `max`.
pub open spec fn draw_under_cap(held: nat, d: int, ticket_amount: u64, max: u8) -> bool {
    held + d + ticket_amount < max
}

/// A purchase is accepted exactly when the round is still open, the amount is
/// between one and the number of tickets left, and every one of its draws
/// passes the per-buyer cap check.
pub proof fn lemma_purchase_accepted_per_draw(l: LotteryView, key: Pubkey, now: i64, ticket_amount: u64)
    ensures
        purchase_accepted(l, key, now, ticket_amount) <==> {
            &&& now <= l.end
            &&& 0 < ticket_amount <= l.left_tickets.len()
            &&& forall|d: int|
                0 <= d < ticket_amount ==> #[trigger] draw_under_cap(
                    held_by(l.buyers, key),
                    d,
                    ticket_amount,
                    l.max_tickets_per_buyer,
                )
        },
{
    if 0 < ticket_amount {
        assert(draw_under_cap(
            held_by(l.buyers, key),
            ticket_amount - 1,
            ticket_amount,
            l.max_tickets_per_buyer,
        ) ==> held_by(l.buyers, key) + 2 * ticket_amount - 1 < l.max_tickets_per_buyer);
    }
}

/// Giving one more ticket after a first one extends the same entry.
proof fn lemma_give_tickets_step(bs: Seq<BuyerView>, key: Pubkey, d: Seq<u8>, t: u8)
    ensures
        give_ticket(bs, key, t) =~= give_tickets(bs, key, seq![t]),
        d.len() > 0 ==> give_ticket(give_tickets(bs, key, d), key, t) =~= give_tickets(
            bs,
            key,
            d.push(t),
        ),
{
    lemma_position_facts(bs, key);
    match buyer_position(bs, key) {
        Some(i) => {
            assert(bs[i].tickets.push(t) =~= bs[i].tickets + seq![t]);
            let g = give_tickets(bs, key, d);
            lemma_same_participants_position(bs, g, key);
            assert(g[i].tickets.push(t) =~= bs[i].tickets + d.push(t));
            assert(g.update(i, with_ticket(g[i], t)) =~= give_tickets(bs, key, d.push(t)));
        },
        None => {
            if d.len() > 0 {
                let g = give_tickets(bs, key, d);
                assert(is_first_match(g, key, bs.len() as int));
                lemma_position_of_first_match(g, key, bs.len() as int);
                assert(g.update(bs.len() as int, with_ticket(g[bs.len() as int], t))
                    =~= give_tickets(bs, key, d.push(t)));
            }
        },
    }
}

/// Removing an element keeps a strictly increasing sequence strictly increasing.
proof fn lemma_remove_keeps_increasing(s: Seq<u8>, i: int)
    requires
        0 <= i < s.len(),
        strictly_increasing(s),
    ensures
        strictly_increasing(s.remove(i)),
{
    let r = s.remove(i);
    assert forall|a: int, b: int| 0 <= a < b < r.len() implies r[a] < r[b] by {
        let sa = if a < i { a } else { a + 1 };
        let sb = if b < i { b } else { b + 1 };
        assert(r[a] == s[sa] && r[b] == s[sb]);
    }
}

/// Parts that together make up a sequence without duplicates have none either.
proof fn lemma_parts_no_duplicates(a: Seq<u8>, b: Seq<u8>, s: Seq<u8>)
    requires
        a.to_multiset().add(b.to_multiset()) =~= s.to_multiset(),
        s.no_duplicates(),
    ensures
        a.no_duplicates(),
        b.no_duplicates(),
{
    s.lemma_multiset_has_no_duplicates();
    assert forall|x: u8| a.to_multiset().contains(x) implies a.to_multiset().count(x) == 1 by {
        assert(s.to_multiset().count(x) == a.to_multiset().count(x) + b.to_multiset().count(x));
    }
    assert forall|x: u8| b.to_multiset().contains(x) implies b.to_multiset().count(x) == 1 by {
        assert(s.to_multiset().count(x) == a.to_multiset().count(x) + b.to_multiset().count(x));
    }
    a.lemma_multiset_has_no_duplicates_conv();
    b.lemma_multiset_has_no_duplicates_conv();
}

/// How many tickets the buyer with address `key` holds (0 for a newcomer).
pub fn tickets_held(lottery: &Lottery, key: &Pubkey) -> (n: usize)
    ensures
        n == held_by(lottery@.buyers, *key),
{
    match find_buyer(&lottery.buyers, key) {
        Some(i) => lottery.buyers[i].tickets.len(),
        None => 0,
    }
}

/// Sells `ticket_amount` tickets to `signer`: one at a time, a ticket is drawn
/// among those left by hashing the time and the number left, and handed to the
/// signer; then the round's takings grow by the full price. A refused purchase
/// changes nothing.
pub fn buy_tickets(lottery: &mut Lottery, signer: Pubkey, now: i64, ticket_amount: u64) -> (r:
    Result<(), ErrCode>)
    requires
        purchase_accepted(old(lottery)@, signer, now, ticket_amount) ==> old(lottery).collected
            + old(lottery).ticket_price * ticket_amount <= u64::MAX,
    ensures
        r is Ok <==> purchase_accepted(old(lottery)@, signer, now, ticket_amount),
        // accepted exactly when the round is open, the amount is available, and
        // every draw d passes the cap check: held + d + ticket_amount < cap
        r is Ok <==> {
            &&& now <= old(lottery).end
            &&& 0 < ticket_amount <= old(lottery).left_tickets.len()
            &&& forall|d: int|
                0 <= d < ticket_amount ==> #[trigger] draw_under_cap(
                    held_by(old(lottery)@.buyers, signer),
                    d,
                    ticket_amount,
                    old(lottery).max_tickets_per_buyer,
                )
        },
        purchase_error(old(lottery)@, now, ticket_amount) matches Some(e) ==> r == Err::<(), ErrCode>(
            e,
        ),
        purchase_error(old(lottery)@, now, ticket_amount) is None && r is Err ==> r == Err::<
            (),
            ErrCode,
        >(ErrCode::MaxTicketsPerBuyer),
        r is Err ==> final(lottery)@ == old(lottery)@,
        r is Ok ==> final(lottery)@ == purchase_result(old(lottery)@, signer, now, ticket_amount),
        // the drawn tickets, in order, leave those for sale and go to the signer
        r is Ok ==> ({
            let draws = draw_tickets(
                old(lottery).left_tickets@,
                now as u64,
                ticket_amount as nat,
            );
            &&& draws.0.len() == ticket_amount
            &&& final(lottery).left_tickets@ == draws.1
            &&& final(lottery)@.buyers == give_tickets(old(lottery)@.buyers, signer, draws.0)
            &&& draws.0.to_multiset().add(draws.1.to_multiset()) =~= old(
                lottery,
            ).left_tickets@.to_multiset()
            &&& (old(lottery).left_tickets@.no_duplicates() ==> draws.0.no_duplicates()
                && draws.1.no_duplicates())
        }),
        r is Ok ==> final(lottery).left_tickets.len() == old(lottery).left_tickets.len()
            - ticket_amount,
        r is Ok && strictly_increasing(old(lottery).left_tickets@) ==> strictly_increasing(
            final(lottery).left_tickets@,
        ),
        r is Ok ==> held_by(final(lottery)@.buyers, signer) == held_by(old(lottery)@.buyers, signer)
            + ticket_amount,
        r is Ok ==> final(lottery)@.ticket_pool() =~= old(lottery)@.ticket_pool(),
        r is Ok ==> others_unchanged(old(lottery)@.buyers, final(lottery)@.buyers, signer),
        r is Ok ==> final(lottery).status == old(lottery).status,
        r is Ok && buyers_distinct(old(lottery)@.buyers) ==> buyers_distinct(final(lottery)@.buyers),
        r is Ok && winners_are_buyers(old(lottery)@.winners, old(lottery)@.buyers)
            ==> winners_are_buyers(final(lottery)@.winners, final(lottery)@.buyers),
        r is Ok && old(lottery)@.wf() ==> final(lottery)@.wf(),
{
    let ghost old_l = lottery@;
    let ghost c = held_by(old_l.buyers, signer);
    proof {
        lemma_purchase_accepted_per_draw(old_l, signer, now, ticket_amount);
    }
    if now > lottery.end {
        return Err(ErrCode::RoundEnded);
    }
    if ticket_amount == 0 || ticket_amount > (lottery.left_tickets.len() as u64) {
        return Err(ErrCode::InvalidArgus);
    }
    // Each draw refuses a buyer who would reach the cap; the last draw is the
    // strictest, so the refusal is decided here, before anything changes.
    let held = tickets_held(lottery, &signer);
    if (held as u128) + 2 * (ticket_amount as u128) - 1 >= lottery.max_tickets_per_buyer as u128 {
        return Err(ErrCode::MaxTicketsPerBuyer);
    }
    let slot = #[verifier::truncate] (now as u64);
    let mut j: u64 = 0;
    while j < ticket_amount
        invariant
            0 <= j <= ticket_amount,
            0 < ticket_amount <= old_l.left_tickets.len(),
            old_l == old(lottery)@,
            purchase_accepted(old_l, signer, now, ticket_amount),
            old_l.collected + old_l.ticket_price * ticket_amount <= u64::MAX,
            lottery.collected == old_l.collected,
            lottery.ticket_price == old_l.ticket_price,
            lottery.ticket_amount == old_l.ticket_amount,
            lottery.status == old_l.status,
            slot == now as u64,
            c == held_by(old_l.buyers, signer),
            lottery@ == draw_steps(old_l, signer, slot, j as nat),
            lottery.left_tickets.len() == old_l.left_tickets.len() - j,
            held_by(lottery@.buyers, signer) == c + j,
            lottery@.ticket_pool() =~= old_l.ticket_pool(),
            others_unchanged(old_l.buyers, lottery@.buyers, signer),
            lottery.max_tickets_per_buyer == old_l.max_tickets_per_buyer,
            lottery.winners@ == old_l.winners,
            draw_tickets(old_l.left_tickets, slot, j as nat).0.len() == j,
            lottery.left_tickets@ == draw_tickets(old_l.left_tickets, slot, j as nat).1,
            j > 0 ==> lottery@.buyers == give_tickets(
                old_l.buyers,
                signer,
                draw_tickets(old_l.left_tickets, slot, j as nat).0,
            ),
            draw_tickets(old_l.left_tickets, slot, j as nat).0.to_multiset().add(
                lottery.left_tickets@.to_multiset(),
            ) =~= old_l.left_tickets.to_multiset(),
            strictly_increasing(old_l.left_tickets) ==> strictly_increasing(lottery.left_tickets@),
            buyers_distinct(old_l.buyers) ==> buyers_distinct(lottery@.buyers),
            winners_are_buyers(old_l.winners, old_l.buyers) ==> winners_are_buyers(
                lottery@.winners,
                lottery@.buyers,
            ),
            buyers_capped(old_l.buyers, old_l.max_tickets_per_buyer) ==> buyers_capped(
                lottery@.buyers,
                old_l.max_tickets_per_buyer,
            ),
        decreases ticket_amount - j,
    {
        let ghost cur = lottery@;
        let ghost prev = draw_tickets(old_l.left_tickets, slot, j as nat);
        let ghost idx = ticket_draw_index(slot, cur.left_tickets.len());
        let n = get_sha256_hashed_random(slot, lottery.left_tickets.len() as u64);
        proof {
            lemma_assign_step(cur, signer, idx);
            lemma_give_tickets_step(old_l.buyers, signer, prev.0, cur.left_tickets[idx]);
            if strictly_increasing(old_l.left_tickets) {
                lemma_remove_keeps_increasing(cur.left_tickets, idx);
            }
        }
        match assign_ticket(lottery, signer, n, ticket_amount) {
            Ok(()) => {},
            Err(e) => {
                return Err(e);
            },
        }
        proof {
            let next = draw_tickets(old_l.left_tickets, slot, (j + 1) as nat);
            assert(next == (prev.0.push(prev.1[idx]), prev.1.remove(idx)));
            assert(next.0.to_multiset() =~= prev.0.to_multiset().insert(prev.1[idx]));
            assert(next.1.to_multiset() =~= prev.1.to_multiset().remove(prev.1[idx]));
        }
        j = j + 1;
    }
    lottery.collected = lottery.collected + lottery.ticket_price * ticket_amount;
    proof {
        let draws = draw_tickets(old_l.left_tickets, slot, ticket_amount as nat);
        if old_l.left_tickets.no_duplicates() {
            lemma_parts_no_duplicates(draws.0, draws.1, old_l.left_tickets);
        }
    }
    Ok(())
}

/// How long a round stays open for sales, in seconds.
pub const ROUND_DURATION: i64 = 60 * 60 * 24;

/// Fewer tickets sold than this by the end leave a round unresolved.
pub const MIN_TICKETS_SOLD: usize = 10;

/// The settings of a new application, owned by `signer`; no round exists yet
/// and the admin address is still all zeros.
pub fn create_app_stats(signer: Pubkey, fee_account: Pubkey, fee_percent: u8, bump: u8) -> (s:
    AppStats)
    ensures
        s.owner == signer,
        s.fee_account == fee_account,
        s.fee_percent == fee_percent,
        s.rounds@ == Seq::<Pubkey>::empty(),
        s.bump == bump,
        forall|i: int| 0 <= i < 32 ==> s.admin@[i] == 0u8,
{
    AppStats {
        fee_account,
        fee_percent,
        owner: signer,
        admin: Pubkey::zeroed(),
        rounds: Vec::new(),
        bump,
    }
}

/// Sets the fee account and the fee percentage.
pub fn update_app_stats(app_stats: &mut AppStats, fee_account: Pubkey, fee_percent: u8)
    ensures
        final(app_stats)@ == (AppStatsView { fee_account, fee_percent, ..old(app_stats)@ }),
{
    app_stats.fee_account = fee_account;
    app_stats.fee_percent = fee_percent;
}

/// The error with which the creation of a round is refused, if any.
pub open spec fn create_error(owner: Pubkey, signer: Pubkey, ticket_price: u64, ticket_amount: u8) -> Option<ErrCode> {
    if owner != signer {
        Some(ErrCode::CallerIsNotAdmin)
    } else if ticket_price == 0 {
        Some(ErrCode::InvalidTicketPrice)
    } else if ticket_amount == 0 {
        Some(ErrCode::InvalidTicketAmount)
    } else {
        None
    }
}

/// A fresh round: every ticket 1..=ticket_amount for sale, no buyer, no
/// winner, open from `now` for `ROUND_DURATION` seconds.
pub open spec fn new_lottery(
    signer: Pubkey,
    mint: Pubkey,
    now: i64,
    ticket_price: u64,
    ticket_amount: u8,
    prize_bump: u8,
    proceeds_bump: u8,
) -> LotteryView {
    LotteryView {
        creator: signer,
        start: now,
        end: (now + ROUND_DURATION) as i64,
        winners: Seq::empty(),
        ticket_price,
        ticket_amount,
        prize_token: mint,
        claimed_amount: 0,
        buyers: Seq::empty(),
        left_tickets: ticket_range(ticket_amount),
        prize_bump,
        proceeds_bump,
        collected: 0,
        max_tickets_per_buyer: MAX_TICKETS_PER_BUYER,
        status: LotteryStatus::Running,
    }
}

/// Opens a new round at address `lottery_key`, selling `ticket_amount`
/// tickets of `mint` at `ticket_price` each, and records it among the rounds.
/// Only the owner of the application may do so.
pub fn create_lottery(
    app_stats: &mut AppStats,
    signer: Pubkey,
    lottery_key: Pubkey,
    mint: Pubkey,
    now: i64,
    ticket_price: u64,
    ticket_amount: u8,
    prize_bump: u8,
    proceeds_bump: u8,
) -> (r: Result<Lottery, ErrCode>)
    requires
        create_error(old(app_stats).owner, signer, ticket_price, ticket_amount) is None ==> now
            + ROUND_DURATION <= i64::MAX,
    ensures
        create_error(old(app_stats).owner, signer, ticket_price, ticket_amount) matches Some(e)
            ==> r is Err && r->Err_0 == e && final(app_stats)@ == old(app_stats)@,
        create_error(old(app_stats).owner, signer, ticket_price, ticket_amount) is None ==> r is Ok
            && r->Ok_0@ == new_lottery(
            signer,
            mint,
            now,
            ticket_price,
            ticket_amount,
            prize_bump,
            proceeds_bump,
        ) && final(app_stats)@ == (AppStatsView {
            rounds: old(app_stats)@.rounds.push(lottery_key),
            ..old(app_stats)@
        }),
        r matches Ok(l) ==> l@.wf(),
        r matches Ok(l) ==> strictly_increasing(l.left_tickets@) && l.left_tickets@.len()
            == ticket_amount,
        // refused exactly when the signer is not the owner, or the price or the
        // number of tickets is zero
        r is Err <==> (old(app_stats).owner != signer || ticket_price == 0 || ticket_amount == 0),
        // the new round over its fields: tickets 1, 2, ..., ticket_amount for
        // sale, open for a day from now, capped at five tickets per buyer
        r matches Ok(l) ==> {
            &&& forall|i: int| 0 <= i < l.left_tickets@.len() ==> #[trigger] l.left_tickets@[i] == i + 1
            &&& l.start == now && l.end == now + 86400
            &&& l.creator == signer && l.prize_token == mint
            &&& l.ticket_price == ticket_price && l.ticket_amount == ticket_amount
            &&& l.buyers@.len() == 0 && l.winners@.len() == 0
            &&& l.collected == 0 && l.claimed_amount == 0
            &&& l.max_tickets_per_buyer == 5
            &&& l.status == LotteryStatus::Running
            &&& l.prize_bump == prize_bump && l.proceeds_bump == proceeds_bump
        },
        r is Ok ==> final(app_stats).rounds@ == old(app_stats).rounds@.push(lottery_key),
{
    if !app_stats.owner.key_eq(&signer) {
        return Err(ErrCode::CallerIsNotAdmin);
    }
    if ticket_price == 0 {
        return Err(ErrCode::InvalidTicketPrice);
    }
    if ticket_amount == 0 {
        return Err(ErrCode::InvalidTicketAmount);
    }
    let mut left_tickets: Vec<u8> = Vec::new();
    let mut t: u8 = 0;
    while t < ticket_amount
        invariant
            t <= ticket_amount,
            left_tickets@ == ticket_range(t),
        decreases ticket_amount - t,
    {
        t = t + 1;
        left_tickets.push(t);
        assert(left_tickets@ =~= ticket_range(t));
    }
    let lottery = Lottery {
        creator: signer,
        start: now,
        end: now + ROUND_DURATION,
        winners: Vec::new(),
        ticket_price,
        ticket_amount,
        prize_token: mint,
        claimed_amount: 0,
        buyers: Vec::new(),
        left_tickets,
        prize_bump,
        proceeds_bump,
        collected: 0,
        max_tickets_per_buyer: MAX_TICKETS_PER_BUYER,
        status: LotteryStatus::Running,
    };
    app_stats.rounds.push(lottery_key);
    proof {
        assert(buyer_views(lottery.buyers@) =~= Seq::<BuyerView>::empty());
        assert(held_tickets(Seq::<BuyerView>::empty()) =~= Multiset::<u8>::empty());
        assert(lottery@.ticket_pool() =~= ticket_range(ticket_amount).to_multiset());
    }
    Ok(lottery)
}

/// The status of a round after winners are revealed at time `now`.
pub open spec fn reveal_status(l: LotteryView, now: i64) -> LotteryStatus {
    if l.buyers.len() == 0 {
        LotteryStatus::Unresolved
    } else if now > l.end {
        if l.ticket_amount - l.left_tickets.len() < MIN_TICKETS_SOLD {
            LotteryStatus::Unresolved
        } else {
            LotteryStatus::Ended
        }
    } else {
        l.status
    }
}

/// The winner drawn at time `now`: the buyer at position `now` modulo the
/// number of buyers, prize not yet claimed.
pub open spec fn drawn_winner(l: LotteryView, now: i64) -> Winner {
    Winner {
        participant: l.buyers[((now as u64) % (l.buyers.len() as u64)) as int].participant,
        claimed: false,
        claimed_amount: 0,
    }
}

/// The round after winners are revealed at time `now`: half as many winner
/// entries as buyers (rounded down) are appended, all for the drawn winner.
pub open spec fn reveal_result(l: LotteryView, now: i64) -> LotteryView {
    if l.buyers.len() == 0 {
        LotteryView { status: LotteryStatus::Unresolved, ..l }
    } else {
        LotteryView {
            status: reveal_status(l, now),
            winners: l.winners + Seq::new(l.buyers.len() / 2, |_i: int| drawn_winner(l, now)),
            ..l
        }
    }
}

/// Settles the status of a round and draws its winners at time `now`.
pub fn reveal_winners(lottery: &mut Lottery, now: i64) -> (r: Result<(), ErrCode>)
    requires
        now > old(lottery).end ==> old(lottery).left_tickets.len() <= old(lottery).ticket_amount,
    ensures
        r is Ok,
        final(lottery)@ == reveal_result(old(lottery)@, now),
        final(lottery)@.buyers == old(lottery)@.buyers,
        // earlier winners stay; each appended one is an unclaimed buyer
        final(lottery)@.winners.len() == old(lottery)@.winners.len() + old(lottery)@.buyers.len() / 2,
        final(lottery)@.winners.subrange(0, old(lottery)@.winners.len() as int) == old(
            lottery,
        )@.winners,
        // each appended winner is the buyer at position now mod (number of buyers)
        forall|w: int|
            old(lottery)@.winners.len() <= w < final(lottery)@.winners.len() ==> (
            #[trigger] final(lottery)@.winners[w]).participant == old(lottery)@.buyers[(
            (now as u64) % (old(lottery)@.buyers.len() as u64)) as int].participant,
        forall|w: int|
            old(lottery)@.winners.len() <= w < final(lottery)@.winners.len() ==> {
                &&& is_participant(old(lottery)@.buyers, #[trigger] final(lottery)@.winners[w].participant)
                &&& !final(lottery)@.winners[w].claimed
                &&& final(lottery)@.winners[w].claimed_amount == 0
            },
        winners_are_buyers(old(lottery)@.winners, old(lottery)@.buyers) ==> winners_are_buyers(
            final(lottery)@.winners,
            final(lottery)@.buyers,
        ),
        // a round that has stopped running never runs again
        // after the end, with buyers, the round is unresolved exactly when fewer
        // than MIN_TICKETS_SOLD tickets were sold, and has ended otherwise
        old(lottery).buyers.len() > 0 && now > old(lottery).end ==> (final(lottery).status
            == LotteryStatus::Unresolved <==> old(lottery).ticket_amount - old(
            lottery,
        ).left_tickets.len() < MIN_TICKETS_SOLD),
        old(lottery).buyers.len() > 0 && now > old(lottery).end ==> (final(lottery).status
            == LotteryStatus::Ended <==> old(lottery).ticket_amount - old(
            lottery,
        ).left_tickets.len() >= MIN_TICKETS_SOLD),
        old(lottery).buyers.len() > 0 && now <= old(lottery).end ==> final(lottery).status == old(
            lottery,
        ).status,
        old(lottery).buyers.len() == 0 ==> final(lottery).status == LotteryStatus::Unresolved,
        old(lottery).status != LotteryStatus::Running ==> final(lottery).status
            != LotteryStatus::Running,
        old(lottery)@.wf() ==> final(lottery)@.wf(),
{
    let ghost old_l = lottery@;
    if now > lottery.end {
        if (lottery.ticket_amount as usize) - lottery.left_tickets.len() < MIN_TICKETS_SOLD {
            lottery.status = LotteryStatus::Unresolved;
        } else {
            lottery.status = LotteryStatus::Ended;
        }
    }
    let buyers_len = lottery.buyers.len();
    if buyers_len == 0 {
        lottery.status = LotteryStatus::Unresolved;
        return Ok(());
    }
    let slot = #[verifier::truncate] (now as u64);
    let mut temp_winners: Vec<Winner> = Vec::new();
    let mut j: usize = 0;
    while j < buyers_len / 2
        invariant
            j <= buyers_len / 2,
            buyers_len == lottery.buyers.len(),
            buyers_len > 0,
            slot == now as u64,
            buyer_views(lottery.buyers@) == old_l.buyers,
            temp_winners@ == Seq::new(j as nat, |_i: int| drawn_winner(old_l, now)),
        decreases buyers_len / 2 - j,
    {
        let random_number = slot % (buyers_len as u64);
        let winner = Winner {
            participant: lottery.buyers[random_number as usize].participant,
            claimed: false,
            claimed_amount: 0,
        };
        temp_winners.push(winner);
        j = j + 1;
        proof {
            assert(old_l.buyers[random_number as int].participant
                == lottery.buyers@[random_number as int].participant);
            assert(temp_winners@ =~= Seq::new(j as nat, |_i: int| drawn_winner(old_l, now)));
        }
    }
    lottery.winners.append(&mut temp_winners);
    proof {
        let w = drawn_winner(old_l, now);
        let idx = ((now as u64) % (buyers_len as u64)) as int;
        assert(lottery.winners@ =~= old_l.winners + Seq::new(
            old_l.buyers.len() / 2,
            |_i: int| drawn_winner(old_l, now),
        ));
        assert(lottery.winners@.subrange(0, old_l.winners.len() as int) =~= old_l.winners);
        assert(is_participant(old_l.buyers, w.participant)) by {
            assert(old_l.buyers[idx].participant == w.participant);
        }
        assert forall|k: int|
            old_l.winners.len() <= k < lottery.winners@.len() implies lottery.winners@[k] == w by {
        }
        if winners_are_buyers(old_l.winners, old_l.buyers) {
            assert forall|k: int| 0 <= k < lottery.winners@.len() implies is_participant(
                old_l.buyers,
                #[trigger] lottery.winners@[k].participant,
            ) by {
                if k >= old_l.winners.len() {
                    assert(lottery.winners@[k] == w);
                }
            }
        }
        if old_l.wf() {
            assert(is_participant(old_l.buyers, w.participant)) by {
                assert(old_l.buyers[idx].participant == w.participant);
            }
            assert forall|k: int| 0 <= k < lottery.winners@.len() implies is_participant(
                old_l.buyers,
                #[trigger] lottery.winners@[k].participant,
            ) by {
                if k >= old_l.winners.len() {
                    assert(lottery.winners@[k] == w);
                }
            }
        }
    }
    Ok(())
}

/// Revealing winners twice at the same time, with nothing in between, is not
/// idempotent: the second call appends as many winners again and keeps the
/// status that the first call set.
pub proof fn lemma_reveal_twice(l: LotteryView, now: i64)
    requires
        l.buyers.len() > 0,
    ensures
        reveal_result(reveal_result(l, now), now).winners.len() == l.winners.len() + 2 * (
        l.buyers.len() / 2),
        reveal_result(reveal_result(l, now), now).status == reveal_result(l, now).status,
{
}

/// No step of a round brings a stopped round back to running: revealing keeps
/// or settles the status, and selling tickets leaves it unchanged.
pub proof fn lemma_never_reopens(l: LotteryView, key: Pubkey, now: i64, ticket_amount: u64)
    requires
        l.status != LotteryStatus::Running,
    ensures
        reveal_result(l, now).status != LotteryStatus::Running,
        purchase_result(l, key, now, ticket_amount).status != LotteryStatus::Running,
{
    lemma_draw_steps_keeps_status(l, key, now as u64, ticket_amount as nat);
}

/// Drawing tickets leaves the status of a round as it was.
proof fn lemma_draw_steps_keeps_status(l: LotteryView, key: Pubkey, slot: u64, n: nat)
    ensures
        draw_steps(l, key, slot, n).status == l.status,
    decreases n,
{
    if n > 0 {
        lemma_draw_steps_keeps_status(l, key, slot, (n - 1) as nat);
    }
}

/// Creating a round is refused exactly when the signer is not the owner, the
/// price is zero or the number of tickets is zero; any other request succeeds.
pub proof fn lemma_create_refusals(owner: Pubkey, signer: Pubkey, ticket_price: u64, ticket_amount: u8)
    ensures
        create_error(owner, signer, ticket_price, ticket_amount) is Some <==> (owner != signer
            || ticket_price == 0 || ticket_amount == 0),
        owner == signer && ticket_price != 0 && ticket_amount != 0 ==> create_error(
            owner,
            signer,
            ticket_price,
            ticket_amount,
        ) is None,
{
}

/// After the end, a round with buyers is unresolved exactly when fewer than
/// MIN_TICKETS_SOLD of its tickets were sold, and has ended otherwise; before
/// the end its status is kept; a round without buyers is unresolved.
pub proof fn lemma_reveal_status_by_tickets_sold(l: LotteryView, now: i64)
    ensures
        l.buyers.len() > 0 && now > l.end ==> (reveal_result(l, now).status
            == LotteryStatus::Unresolved <==> l.ticket_amount - l.left_tickets.len()
            < MIN_TICKETS_SOLD),
        l.buyers.len() > 0 && now > l.end ==> (reveal_result(l, now).status == LotteryStatus::Ended
            <==> l.ticket_amount - l.left_tickets.len() >= MIN_TICKETS_SOLD),
        l.buyers.len() > 0 && now <= l.end ==> reveal_result(l, now).status == l.status,
        l.buyers.len() == 0 ==> reveal_result(l, now).status == LotteryStatus::Unresolved,
{
}

} // verus!
