use vstd::prelude::*;
use crate::error::{ClaimError, ErrCode};
use crate::pubkey::Pubkey;
use crate::state::AppStats;

verus! {

/// The program-derived address and bump seed that
/// `Pubkey::try_find_program_address` finds for `seeds` under `program_id`,
/// or `None` when it finds none.
pub uninterp spec fn spec_try_find_program_address(seeds: Seq<Seq<u8>>, program_id: Seq<u8>) -> Option<(Seq<u8>, u8)>;

/// The address and bump of a search result, by value.
pub open spec fn address_view(found: Option<(Pubkey, u8)>) -> Option<(Seq<u8>, u8)> {
    match found {
        Some((key, bump)) => Some((key@, bump)),
        None => None,
    }
}

/// Calls `solana_program::pubkey::Pubkey::try_find_program_address` (as
/// re-exported by `anchor_lang`). Trusted: the result, by value, is the one
/// named `spec_try_find_program_address` of the seeds and the program id.
/// The search itself (bump seeds from 255 down, first off-curve hash) is left
/// unsaid.
#[verifier::external_body]
fn try_find_program_address(seeds: &Vec<Vec<u8>>, program_id: &Pubkey) -> (found: Option<
    (Pubkey, u8),
>)
    ensures
        address_view(found) == spec_try_find_program_address(seeds.deep_view(), program_id@),
{
    let seed_slices: Vec<&[u8]> = seeds.iter().map(|seed| seed.as_slice()).collect();
    anchor_lang::prelude::Pubkey::try_find_program_address(
        &seed_slices,
        &anchor_lang::prelude::Pubkey::new_from_array(program_id.bytes),
    ).map(|(key, bump)| (Pubkey { bytes: key.to_bytes() }, bump))
}

/// The bytes of the word "lottery", the first seed of a round's address.
pub open spec fn lottery_seed() -> Seq<u8> {
    seq![108u8, 111u8, 116u8, 116u8, 101u8, 114u8, 121u8]
}

/// The seeds of the address of the round recorded as `round_key`.
pub open spec fn lottery_seeds(round_key: Pubkey) -> Seq<Seq<u8>> {
    seq![lottery_seed(), round_key@]
}

/// `i` is the first position in `keys` of the address `a`.
pub open spec fn is_first_key(keys: Seq<Pubkey>, a: Seq<u8>, i: int) -> bool {
    &&& 0 <= i < keys.len()
    &&& keys[i]@ == a
    &&& forall|j: int| 0 <= j < i ==> keys[j]@ != a
}

/// Where the account of the round recorded as `round_key` lies among the
/// accounts `remaining`, or why it cannot be found.
pub open spec fn locate_spec(round_key: Pubkey, program_id: Pubkey, remaining: Seq<Pubkey>) -> Result<int, ClaimError> {
    match spec_try_find_program_address(lottery_seeds(round_key), program_id@) {
        None => Err(ClaimError::BumpSeedNotFound),
        Some((a, _bump)) => match key_position(remaining, a) {
            Some(i) => Ok(i),
            None => Err(ClaimError::InvalidAccountData),
        },
    }
}

/// The first position in `keys` of the address `a`, if any.
pub open spec fn key_position(keys: Seq<Pubkey>, a: Seq<u8>) -> Option<int> {
    if exists|i: int| is_first_key(keys, a, i) {
        Some(choose|i: int| is_first_key(keys, a, i))
    } else {
        None
    }
}

/// Finds, among the accounts `remaining`, the first one whose address is the
/// one derived from the seeds "lottery" and `round_key` under `program_id`.
pub fn locate_lottery_account(round_key: &Pubkey, program_id: &Pubkey, remaining: &Vec<Pubkey>) -> (r:
    Result<usize, ClaimError>)
    ensures
        r matches Ok(i) ==> locate_spec(*round_key, *program_id, remaining@) == Ok::<int, ClaimError>(
            i as int,
        ),
        r matches Err(e) ==> locate_spec(*round_key, *program_id, remaining@) == Err::<
            int,
            ClaimError,
        >(e),
{
    let mut seed: Vec<u8> = Vec::new();
    seed.push(108u8);
    seed.push(111u8);
    seed.push(116u8);
    seed.push(116u8);
    seed.push(101u8);
    seed.push(114u8);
    seed.push(121u8);
    let key_seed: Vec<u8> = round_key.to_bytes_vec();
    proof {
        assert(seed.deep_view() =~= lottery_seed());
        assert(key_seed.deep_view() =~= round_key@);
    }
    let ghost seed_view = seed.deep_view();
    let ghost key_view = key_seed.deep_view();
    let mut seeds: Vec<Vec<u8>> = Vec::new();
    seeds.push(seed);
    seeds.push(key_seed);
    proof {
        assert(seeds@[0].deep_view() == seed_view);
        assert(seeds@[1].deep_view() == key_view);
        assert(seeds.deep_view() =~= lottery_seeds(*round_key));
    }
    let found = try_find_program_address(&seeds, program_id);
    match found {
        None => Err(ClaimError::BumpSeedNotFound),
        Some((lottery_pda, bump_seed)) => {
            let mut i: usize = 0;
            while i < remaining.len()
                invariant
                    i <= remaining.len(),
                    spec_try_find_program_address(lottery_seeds(*round_key), program_id@) == Some(
                        (lottery_pda@, bump_seed),
                    ),
                    forall|j: int| 0 <= j < i ==> remaining@[j]@ != lottery_pda@,
                decreases remaining.len() - i,
            {
                if remaining[i].key_eq(&lottery_pda) {
                    proof {
                        let a = lottery_pda@;
                        assert(is_first_key(remaining@, a, i as int));
                        let c = choose|c: int| is_first_key(remaining@, a, c);
                        assert(c == i);
                        assert(key_position(remaining@, a) == Some(i as int));
                    }
                    return Ok(i);
                }
                i = i + 1;
            }
            Err(ClaimError::InvalidAccountData)
        },
    }
}

/// The amount that a claim pays out.
pub const CLAIMABLE_AMOUNT: u64 = 10;

/// What a prize claim does next, given how many rounds were already read.
#[derive(Debug)]
pub enum ClaimStep {
    /// Read the lottery account at this position among those passed in.
    Load(usize),
    /// Stop: a round's account cannot be found.
    Fail(ClaimError),
    /// Stop with this outcome: every round was read.
    Finish(Result<(), ErrCode>),
}

/// One step of a prize claim: the round after the `loaded` rounds already
/// read is located among the accounts `remaining`; once all are read, the
/// claim succeeds unless the claimable amount is zero.
pub fn claim_prize(app_stats: &AppStats, program_id: &Pubkey, remaining: &Vec<Pubkey>, loaded: usize) -> (s:
    ClaimStep)
    ensures
        loaded < app_stats.rounds.len() ==> match s {
            ClaimStep::Load(i) => locate_spec(app_stats.rounds@[loaded as int], *program_id, remaining@)
                == Ok::<int, ClaimError>(i as int),
            ClaimStep::Fail(e) => locate_spec(app_stats.rounds@[loaded as int], *program_id, remaining@)
                == Err::<int, ClaimError>(e),
            ClaimStep::Finish(_) => false,
        },
        loaded >= app_stats.rounds.len() ==> (s matches ClaimStep::Finish(res) && res is Ok),
{
    if loaded < app_stats.rounds.len() {
        let round_key = app_stats.rounds[loaded];
        match locate_lottery_account(&round_key, program_id, remaining) {
            Ok(i) => ClaimStep::Load(i),
            Err(e) => ClaimStep::Fail(e),
        }
    } else {
        let claimable_amount: u64 = CLAIMABLE_AMOUNT;
        if claimable_amount == 0 {
            ClaimStep::Finish(Err(ErrCode::ClaimableAmountIsZero))
        } else {
            ClaimStep::Finish(Ok(()))
        }
    }
}

} // verus!
