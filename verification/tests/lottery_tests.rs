use lottery::{
    assign_ticket, buy_tickets, buy_tickets_payment, claim_prize, create_app_stats,
    create_lottery, get_sha256_hashed_random, locate_lottery_account, random_from_digest,
    reveal_winners, tickets_held, update_app_stats, AppStats, Buyer, ClaimError, ClaimStep, ErrCode, HashStruct,
    Lottery, LotteryStatus, Pubkey, Winner,
};
use sha2::{Digest, Sha256};

fn key(b: u8) -> Pubkey {
    Pubkey::new_from_array([b; 32])
}

fn app(owner: Pubkey) -> AppStats {
    create_app_stats(owner, key(9), 10, 254)
}

fn round(price: u64, amount: u8, now: i64) -> Lottery {
    let mut stats = app(key(1));
    create_lottery(&mut stats, key(1), key(2), key(3), now, price, amount, 7, 8).unwrap()
}

fn all_tickets(l: &Lottery) -> Vec<u8> {
    let mut all: Vec<u8> = l.left_tickets.clone();
    for b in &l.buyers {
        all.extend(b.tickets.iter().copied());
    }
    all.sort();
    all
}

fn expected_random(seed: u64, nonce: u64) -> u64 {
    let mut input = nonce.to_le_bytes().to_vec();
    input.extend_from_slice(&seed.to_le_bytes());
    let digest = Sha256::new().chain_update(&input).finalize();
    u64::from_le_bytes(digest[..8].try_into().unwrap())
}

#[test]
fn create_app_stats_sets_owner_and_fees() {
    let s = create_app_stats(key(1), key(2), 15, 200);
    assert_eq!(s.owner.bytes, [1u8; 32]);
    assert_eq!(s.fee_account.bytes, [2u8; 32]);
    assert_eq!(s.admin.bytes, [0u8; 32]);
    assert_eq!(s.fee_percent, 15);
    assert_eq!(s.bump, 200);
    assert!(s.rounds.is_empty());
}

#[test]
fn update_app_stats_changes_fee_only() {
    let mut s = create_app_stats(key(1), key(2), 15, 200);
    update_app_stats(&mut s, key(4), 3);
    assert_eq!(s.fee_account.bytes, [4u8; 32]);
    assert_eq!(s.fee_percent, 3);
    assert_eq!(s.owner.bytes, [1u8; 32]);
    assert_eq!(s.bump, 200);
}

#[test]
fn create_lottery_by_non_owner_is_refused() {
    let mut s = app(key(1));
    let r = create_lottery(&mut s, key(5), key(2), key(3), 1000, 100, 3, 7, 8);
    assert_eq!(r.unwrap_err(), ErrCode::CallerIsNotAdmin);
    assert!(s.rounds.is_empty());
}

#[test]
fn create_lottery_with_zero_price_is_refused() {
    let mut s = app(key(1));
    let r = create_lottery(&mut s, key(1), key(2), key(3), 1000, 0, 3, 7, 8);
    assert_eq!(r.unwrap_err(), ErrCode::InvalidTicketPrice);
}

#[test]
fn create_lottery_with_zero_tickets_is_refused() {
    let mut s = app(key(1));
    let r = create_lottery(&mut s, key(1), key(2), key(3), 1000, 100, 0, 7, 8);
    assert_eq!(r.unwrap_err(), ErrCode::InvalidTicketAmount);
}

#[test]
fn create_lottery_opens_a_day_long_round() {
    let mut s = app(key(1));
    let l = create_lottery(&mut s, key(1), key(2), key(3), 1000, 100, 4, 7, 8).unwrap();
    assert_eq!(l.left_tickets, vec![1, 2, 3, 4]);
    assert_eq!(l.start, 1000);
    assert_eq!(l.end, 1000 + 86400);
    assert_eq!(l.creator.bytes, [1u8; 32]);
    assert_eq!(l.prize_token.bytes, [3u8; 32]);
    assert_eq!(l.ticket_price, 100);
    assert_eq!(l.ticket_amount, 4);
    assert_eq!(l.max_tickets_per_buyer, 5);
    assert_eq!(l.prize_bump, 7);
    assert_eq!(l.proceeds_bump, 8);
    assert_eq!(l.collected, 0);
    assert_eq!(l.status, LotteryStatus::Running);
    assert!(l.buyers.is_empty() && l.winners.is_empty());
    assert_eq!(s.rounds.len(), 1);
    assert_eq!(s.rounds[0].bytes, [2u8; 32]);
}

#[test]
fn payment_is_price_less_fee() {
    let l = round(100, 3, 1000);
    assert_eq!(buy_tickets_payment(&l, 1000, 2, 10), Ok(180));
    assert_eq!(buy_tickets_payment(&l, 1000, 3, 0), Ok(300));
    // the fee rounds down: 1 * 33 * 10 / 100 = 3
    let l2 = round(33, 3, 1000);
    assert_eq!(buy_tickets_payment(&l2, 1000, 1, 10), Ok(30));
}

#[test]
fn payment_after_the_end_is_refused() {
    let l = round(100, 3, 1000);
    assert_eq!(buy_tickets_payment(&l, 1000 + 86401, 1, 10), Err(ErrCode::RoundEnded));
    assert_eq!(buy_tickets_payment(&l, 1000 + 86400, 1, 10), Ok(90));
}

#[test]
fn payment_for_no_or_too_many_tickets_is_refused() {
    let l = round(100, 3, 1000);
    assert_eq!(buy_tickets_payment(&l, 1000, 0, 10), Err(ErrCode::InvalidArgus));
    assert_eq!(buy_tickets_payment(&l, 1000, 4, 10), Err(ErrCode::InvalidArgus));
}

#[test]
fn assign_ticket_takes_the_ticket_at_the_drawn_position() {
    let mut l = round(100, 3, 1000);
    assert_eq!(assign_ticket(&mut l, key(6), 7, 1), Ok(()));
    // 7 % 3 == 1: the second ticket, number 2
    assert_eq!(l.left_tickets, vec![1, 3]);
    assert_eq!(l.buyers.len(), 1);
    assert_eq!(l.buyers[0].participant.bytes, [6u8; 32]);
    assert_eq!(l.buyers[0].tickets, vec![2]);
    assert_eq!(assign_ticket(&mut l, key(6), 4, 1), Ok(()));
    // 4 % 2 == 0: ticket 1 goes to the same buyer
    assert_eq!(l.left_tickets, vec![3]);
    assert_eq!(l.buyers[0].tickets, vec![2, 1]);
}

#[test]
fn assign_ticket_refuses_at_the_cap() {
    let mut l = round(100, 10, 1000);
    assert_eq!(assign_ticket(&mut l, key(6), 0, 5), Err(ErrCode::MaxTicketsPerBuyer));
    assert_eq!(l.left_tickets.len(), 10);
    assert!(l.buyers.is_empty());
}

#[test]
fn buy_tickets_draws_with_the_hash_of_time_and_count() {
    let mut l = round(100, 3, 1000);
    assert_eq!(buy_tickets(&mut l, key(6), 1234, 2), Ok(()));
    let first = (expected_random(1234, 3) % 3) as usize;
    let mut left: Vec<u8> = vec![1, 2, 3];
    let t1 = left.remove(first);
    let second = (expected_random(1234, 2) % 2) as usize;
    let t2 = left.remove(second);
    assert_eq!(l.left_tickets, left);
    assert_eq!(l.buyers.len(), 1);
    assert_eq!(l.buyers[0].tickets, vec![t1, t2]);
    assert_eq!(l.collected, 200);
}

#[test]
fn buy_tickets_keeps_every_ticket_exactly_once() {
    let mut l = round(100, 12, 1000);
    assert_eq!(buy_tickets(&mut l, key(6), 1000, 2), Ok(()));
    assert_eq!(buy_tickets(&mut l, key(7), 1001, 1), Ok(()));
    assert_eq!(buy_tickets(&mut l, key(6), 1002, 1), Ok(()));
    assert_eq!(all_tickets(&l), (1..=12).collect::<Vec<u8>>());
    assert_eq!(l.left_tickets.len(), 8);
    assert_eq!(l.buyers.len(), 2);
    assert_eq!(l.buyers[0].tickets.len(), 3);
    assert_eq!(l.buyers[1].tickets.len(), 1);
    assert_eq!(l.collected, 400);
}

#[test]
fn buy_tickets_refuses_past_the_cap() {
    // a newcomer asking for 3 would pass 5 on the third draw: 0 + 2 * 3 - 1 >= 5
    let mut l = round(100, 12, 1000);
    assert_eq!(buy_tickets(&mut l, key(6), 1000, 3), Err(ErrCode::MaxTicketsPerBuyer));
    // asking for 2 is accepted: 0 + 2 * 2 - 1 < 5
    let mut l2 = round(100, 12, 1000);
    assert_eq!(buy_tickets(&mut l2, key(6), 1000, 2), Ok(()));
    // holding 2, asking for 2 more: 2 + 2 * 2 - 1 >= 5
    assert_eq!(buy_tickets(&mut l2, key(6), 1000, 2), Err(ErrCode::MaxTicketsPerBuyer));
}

#[test]
fn buy_tickets_checks_time_and_amount_first() {
    let mut l = round(100, 3, 1000);
    assert_eq!(buy_tickets(&mut l, key(6), 1000 + 86401, 1), Err(ErrCode::RoundEnded));
    assert_eq!(buy_tickets(&mut l, key(6), 1000, 0), Err(ErrCode::InvalidArgus));
    assert_eq!(buy_tickets(&mut l, key(6), 1000, 4), Err(ErrCode::InvalidArgus));
    assert_eq!(l.left_tickets, vec![1, 2, 3]);
    assert!(l.buyers.is_empty());
}

fn with_buyers(n: u8, amount: u8) -> Lottery {
    let mut l = round(100, amount, 1000);
    for b in 0..n {
        l.left_tickets.pop();
        l.buyers.push(Buyer { participant: key(20 + b), tickets: vec![amount - b] });
    }
    l
}

#[test]
fn reveal_winners_without_buyers_leaves_round_unresolved() {
    let mut l = round(100, 3, 1000);
    assert_eq!(reveal_winners(&mut l, 1000), Ok(()));
    assert_eq!(l.status, LotteryStatus::Unresolved);
    assert!(l.winners.is_empty());
}

#[test]
fn reveal_winners_draws_half_as_many_as_buyers() {
    let mut l = with_buyers(5, 20);
    assert_eq!(reveal_winners(&mut l, 1007), Ok(()));
    // still running: status untouched; 5 / 2 winners, all buyer 1007 % 5 == 2
    assert_eq!(l.status, LotteryStatus::Running);
    assert_eq!(l.winners.len(), 2);
    for w in &l.winners {
        assert_eq!(w.participant.bytes, [22u8; 32]);
        assert!(!w.claimed);
        assert_eq!(w.claimed_amount, 0);
    }
}

#[test]
fn reveal_winners_after_the_end_with_few_sales_is_unresolved() {
    let mut l = with_buyers(3, 20);
    assert_eq!(reveal_winners(&mut l, 1000 + 86401), Ok(()));
    assert_eq!(l.status, LotteryStatus::Unresolved);
    assert_eq!(l.winners.len(), 1);
}

#[test]
fn reveal_winners_after_the_end_with_enough_sales_has_ended() {
    let mut l = with_buyers(10, 20);
    assert_eq!(reveal_winners(&mut l, 1000 + 86401), Ok(()));
    assert_eq!(l.status, LotteryStatus::Ended);
    assert_eq!(l.winners.len(), 5);
}

#[test]
fn reveal_winners_appends_to_earlier_winners() {
    let mut l = with_buyers(2, 20);
    l.winners.push(Winner { participant: key(20), claimed: true, claimed_amount: 3 });
    assert_eq!(reveal_winners(&mut l, 1001), Ok(()));
    assert_eq!(l.winners.len(), 2);
    assert!(l.winners[0].claimed);
    assert_eq!(l.winners[1].participant.bytes, [21u8; 32]);
}

#[test]
fn hashed_random_matches_sha256_of_nonce_then_seed() {
    assert_eq!(get_sha256_hashed_random(1234, 3), expected_random(1234, 3));
    assert_eq!(get_sha256_hashed_random(0, 0), expected_random(0, 0));
    assert_ne!(get_sha256_hashed_random(1, 2), get_sha256_hashed_random(2, 1));
}

#[test]
fn hash_struct_bytes_are_nonce_then_seed() {
    let h = HashStruct { nonce: 1, initial_seed: 0x0203 };
    assert_eq!(h.to_bytes(), vec![1, 0, 0, 0, 0, 0, 0, 0, 3, 2, 0, 0, 0, 0, 0, 0]);
}

#[test]
fn random_from_digest_reads_little_endian() {
    assert_eq!(random_from_digest(&[1, 0, 0, 0, 0, 0, 0, 0, 9, 9]), 1);
    assert_eq!(random_from_digest(&[0, 1, 0, 0, 0, 0, 0, 0]), 256);
    assert_eq!(random_from_digest(&[0, 0, 0, 0, 0, 0, 0, 0x80]), 1u64 << 63);
}

fn pda(round_key: &Pubkey, program_id: &Pubkey) -> Pubkey {
    let (k, _) = anchor_lang::prelude::Pubkey::find_program_address(
        &[b"lottery", &round_key.bytes],
        &anchor_lang::prelude::Pubkey::new_from_array(program_id.bytes),
    );
    Pubkey::new_from_array(k.to_bytes())
}

#[test]
fn locate_finds_the_derived_address() {
    let program = key(40);
    let addr = pda(&key(2), &program);
    let remaining = vec![key(1), addr, addr];
    assert_eq!(locate_lottery_account(&key(2), &program, &remaining), Ok(1));
    let other = vec![key(1), key(2)];
    assert_eq!(
        locate_lottery_account(&key(2), &program, &other),
        Err(ClaimError::InvalidAccountData)
    );
    // the address depends on the round key
    let addr3 = pda(&key(3), &program);
    assert!(!addr3.key_eq(&addr));
    assert_eq!(
        locate_lottery_account(&key(3), &program, &remaining),
        Err(ClaimError::InvalidAccountData)
    );
}

#[test]
fn claim_prize_walks_the_rounds_then_succeeds() {
    let program = key(40);
    let mut s = app(key(1));
    s.rounds.push(key(2));
    s.rounds.push(key(3));
    let remaining = vec![pda(&key(3), &program), pda(&key(2), &program)];
    assert!(matches!(claim_prize(&s, &program, &remaining, 0), ClaimStep::Load(1)));
    assert!(matches!(claim_prize(&s, &program, &remaining, 1), ClaimStep::Load(0)));
    assert!(matches!(claim_prize(&s, &program, &remaining, 2), ClaimStep::Finish(Ok(()))));
    let missing = vec![pda(&key(2), &program)];
    assert!(matches!(
        claim_prize(&s, &program, &missing, 1),
        ClaimStep::Fail(ClaimError::InvalidAccountData)
    ));
}

#[test]
fn claim_prize_with_no_rounds_succeeds() {
    let s = app(key(1));
    assert!(matches!(claim_prize(&s, &key(40), &vec![], 0), ClaimStep::Finish(Ok(()))));
}

#[test]
fn key_eq_compares_all_bytes() {
    let mut a = [5u8; 32];
    let b = a;
    assert!(Pubkey::new_from_array(a).key_eq(&Pubkey::new_from_array(b)));
    a[31] = 6;
    assert!(!Pubkey::new_from_array(a).key_eq(&Pubkey::new_from_array(b)));
}

#[test]
fn refused_purchase_changes_nothing() {
    let mut l = round(100, 12, 1000);
    assert_eq!(buy_tickets(&mut l, key(6), 1000, 2), Ok(()));
    let left = l.left_tickets.clone();
    let held = l.buyers[0].tickets.clone();
    assert_eq!(buy_tickets(&mut l, key(6), 1000, 2), Err(ErrCode::MaxTicketsPerBuyer));
    assert_eq!(l.left_tickets, left);
    assert_eq!(l.buyers.len(), 1);
    assert_eq!(l.buyers[0].tickets, held);
    assert_eq!(l.collected, 200);
}

#[test]
fn purchase_keeps_tickets_for_sale_in_order() {
    let mut l = round(100, 20, 1000);
    assert_eq!(buy_tickets(&mut l, key(6), 1000, 2), Ok(()));
    assert_eq!(buy_tickets(&mut l, key(7), 2000, 2), Ok(()));
    assert!(l.left_tickets.windows(2).all(|w| w[0] < w[1]));
    assert_eq!(l.left_tickets.len(), 16);
}

#[test]
fn tickets_held_counts_the_buyers_tickets() {
    let mut l = round(100, 12, 1000);
    assert_eq!(tickets_held(&l, &key(6)), 0);
    assert_eq!(buy_tickets(&mut l, key(6), 1000, 2), Ok(()));
    assert_eq!(tickets_held(&l, &key(6)), 2);
    assert_eq!(tickets_held(&l, &key(7)), 0);
}

#[test]
fn reveal_winners_twice_appends_again() {
    let mut l = with_buyers(5, 20);
    assert_eq!(reveal_winners(&mut l, 1000 + 86401), Ok(()));
    let status = l.status.clone();
    assert_eq!(reveal_winners(&mut l, 1000 + 86401), Ok(()));
    assert_eq!(l.winners.len(), 4);
    assert_eq!(l.status, status);
}

#[test]
fn stopped_round_does_not_run_again() {
    let mut l = with_buyers(3, 20);
    l.status = LotteryStatus::Ended;
    assert_eq!(reveal_winners(&mut l, 1000), Ok(()));
    assert_eq!(l.status, LotteryStatus::Ended);
}
