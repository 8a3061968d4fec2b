//! The reward schedule: how much is minted per block in each epoch.
//!
//! All amounts are in base units, of which 10^9 make one token. Shares are
//! whole percentages, and every division rounds down.

use crate::encoding::{append_decimal, ascii_text, decimal, decimal_padded};
use vstd::prelude::*;

verus! {

/// Hard cap on the number of base units that may ever be minted.
pub const TOTAL_SUPPLY: u64 = 33_000_000_000_000_000;

/// Number of decimal places of one whole token.
pub const DECIMALS: u8 = 9;

pub const TOKEN_SYMBOL: &'static str = "VLid";

pub const TOKEN_NAME: &'static str = "Valid";

/// Slots per reward epoch.
pub const BLOCKS_PER_EPOCH: u64 = 22_050_000;

/// Number of reward epochs; later epochs pay nothing.
pub const EPOCH_COUNT: usize = 3;

/// Share of the total supply released in each epoch, in percent.
pub const EPOCH_PERCENTAGES: [u64; 3] = [60, 30, 10];

/// Shares of each epoch's supply by purpose, in percent.
pub const L1_VALIDATORS_PCT: u64 = 15;

pub const L2_VALIDATORS_PCT: u64 = 20;

pub const P2P_REWARDS_PCT: u64 = 40;

pub const DEV_GRANTS_PCT: u64 = 25;

/// Shares of the layer-one validators' budget by kind of work, in percent.
pub const BLOCK_REWARD_PCT: u64 = 60;

pub const RACER_REWARD_PCT: u64 = 25;

pub const TPI_REWARD_PCT: u64 = 10;

pub const SNAPSHOT_REWARD_PCT: u64 = 5;

/// What is paid per block in one epoch.
#[derive(Debug, Clone, Copy, PartialEq, Eq)]
pub struct EpochRewards {
    pub block_reward: u64,
    pub tpi_reward_per_validator: u64,
    pub racer_reward: u64,
    pub snapshot_reward: u64,
}

/// Share of the total supply released in an epoch, in percent.
pub open spec fn epoch_percentage(epoch: int) -> int {
    if epoch == 0 {
        60
    } else if epoch == 1 {
        30
    } else if epoch == 2 {
        10
    } else {
        0
    }
}

/// The layer-one validators' budget of an epoch: 15% of the epoch's share
/// of the total supply.
pub open spec fn validator_budget(epoch: int) -> int {
    (TOTAL_SUPPLY as int * epoch_percentage(epoch) / 100) * 15 / 100
}

/// The rewards of an epoch. Each kind of work has its percentage of the
/// validators' budget, spread over the epoch's blocks; the committee's share
/// is further split in three, and the racer's reward per block is
/// multiplied by one hundred.
pub open spec fn epoch_rewards(epoch: int) -> EpochRewards {
    if 0 <= epoch < 3 {
        let budget = validator_budget(epoch);
        EpochRewards {
            block_reward: ((budget * 60 / 100) / BLOCKS_PER_EPOCH as int) as u64,
            tpi_reward_per_validator: ((budget * 10 / 100) / (BLOCKS_PER_EPOCH as int * 3)) as u64,
            racer_reward: (((budget * 25 / 100) / BLOCKS_PER_EPOCH as int) * 100) as u64,
            snapshot_reward: ((budget * 5 / 100) / BLOCKS_PER_EPOCH as int) as u64,
        }
    } else {
        EpochRewards { block_reward: 0, tpi_reward_per_validator: 0, racer_reward: 0, snapshot_reward: 0 }
    }
}

/// Computes the rewards of an epoch; epochs from the third on pay nothing.
pub fn calculate_epoch_rewards(epoch: usize) -> (r: EpochRewards)
    ensures
        r == epoch_rewards(epoch as int),
        r.block_reward <= 80_816_326,
        epoch == 0 ==> r.block_reward == 80_816_326,
        epoch == 1 ==> r.block_reward == 40_408_163,
        epoch == 2 ==> r.block_reward == 13_469_387,
{
    if epoch >= EPOCH_COUNT {
        return EpochRewards {
            block_reward: 0,
            tpi_reward_per_validator: 0,
            racer_reward: 0,
            snapshot_reward: 0,
        };
    }
    let percentage: u64 = EPOCH_PERCENTAGES[epoch];
    assert(percentage == epoch_percentage(epoch as int));
    let epoch_supply: u64 = TOTAL_SUPPLY * percentage / 100;
    let budget: u64 = epoch_supply * L1_VALIDATORS_PCT / 100;
    let block_budget: u64 = budget * BLOCK_REWARD_PCT / 100;
    let tpi_budget: u64 = budget * TPI_REWARD_PCT / 100;
    let racer_budget: u64 = budget * RACER_REWARD_PCT / 100;
    let snapshot_budget: u64 = budget * SNAPSHOT_REWARD_PCT / 100;
    EpochRewards {
        block_reward: block_budget / BLOCKS_PER_EPOCH,
        tpi_reward_per_validator: tpi_budget / (BLOCKS_PER_EPOCH * 3),
        racer_reward: (racer_budget / BLOCKS_PER_EPOCH) * 100,
        snapshot_reward: snapshot_budget / BLOCKS_PER_EPOCH,
    }
}

/// The text of an amount of base units in whole tokens: the whole part, a
/// point, nine decimals, and the token's symbol.
pub open spec fn vlid_text(nano_vlid: u64) -> Seq<char> {
    ascii_text(decimal(nano_vlid as nat / 1_000_000_000))
        + seq!['.'] + ascii_text(decimal_padded(nano_vlid as nat % 1_000_000_000, 9)) + seq![' ', 'V', 'L', 'i', 'd']
}

/// The one-character text of a decimal digit.
fn digit_text(digit: u8) -> (r: &'static str)
    requires
        48 <= digit <= 57,
    ensures
        r@ == seq![digit as char],
{
    proof {
        reveal_strlit("0");
        reveal_strlit("1");
        reveal_strlit("2");
        reveal_strlit("3");
        reveal_strlit("4");
        reveal_strlit("5");
        reveal_strlit("6");
        reveal_strlit("7");
        reveal_strlit("8");
        reveal_strlit("9");
    }
    let r = if digit == 48 {
        "0"
    } else if digit == 49 {
        "1"
    } else if digit == 50 {
        "2"
    } else if digit == 51 {
        "3"
    } else if digit == 52 {
        "4"
    } else if digit == 53 {
        "5"
    } else if digit == 54 {
        "6"
    } else if digit == 55 {
        "7"
    } else if digit == 56 {
        "8"
    } else {
        "9"
    };
    assert(r@ =~= seq![digit as char]);
    r
}

/// Whether every byte is a decimal digit.
pub open spec fn all_digits(bytes: Seq<u8>) -> bool {
    forall|i: int| 0 <= i < bytes.len() ==> 48 <= #[trigger] bytes[i] <= 57
}

pub proof fn lemma_decimal_digits(n: nat)
    ensures
        all_digits(decimal(n)),
    decreases n,
{
    if n >= 10 {
        lemma_decimal_digits(n / 10);
    }
}

pub proof fn lemma_decimal_padded_digits(n: nat, width: nat)
    ensures
        all_digits(decimal_padded(n, width)),
        decimal_padded(n, width).len() == width,
    decreases width,
{
    if width > 0 {
        lemma_decimal_padded_digits(n / 10, (width - 1) as nat);
    }
}

/// Appends a run of decimal digits to a text.
fn append_digits(out: &mut String, digits: &[u8])
    requires
        all_digits(digits@),
    ensures
        final(out)@ == old(out)@ + ascii_text(digits@),
{
    let mut i: usize = 0;
    while i < digits.len()
        invariant
            i <= digits.len(),
            all_digits(digits@),
            out@ == old(out)@ + ascii_text(digits@.subrange(0, i as int)),
        decreases digits.len() - i,
    {
        let ghost before = out@;
        out.append(digit_text(digits[i]));
        proof {
            assert(out@ == before + seq![digits[i as int] as char]);
            assert(ascii_text(digits@.subrange(0, i + 1)) =~= ascii_text(digits@.subrange(0, i as int))
                + seq![digits[i as int] as char]);
            assert(before + seq![digits[i as int] as char] =~= old(out)@ + (ascii_text(
                digits@.subrange(0, i as int),
            ) + seq![digits[i as int] as char]));
        }
        i = i + 1;
    }
    assert(digits@.subrange(0, i as int) =~= digits@);
}

/// Appends the low `width` decimal digits of `n`, zero-padded.
fn append_decimal_padded(out: &mut Vec<u8>, n: u64, width: u8)
    ensures
        final(out)@ == old(out)@ + decimal_padded(n as nat, width as nat),
    decreases width,
{
    if width > 0 {
        append_decimal_padded(out, n / 10, width - 1);
        let digit: u8 = 48 + (n % 10) as u8;
        out.push(digit);
        assert(final(out)@ =~= old(out)@ + decimal_padded(n as nat, width as nat));
    } else {
        assert(final(out)@ =~= old(out)@ + decimal_padded(n as nat, width as nat));
    }
}

/// Writes an amount of base units as whole tokens with nine decimals, as in
/// `1.500000000 VLid`.
pub fn format_vlid(nano_vlid: u64) -> (r: String)
    ensures
        r@ == vlid_text(nano_vlid),
{
    let mut whole: Vec<u8> = Vec::new();
    append_decimal(&mut whole, nano_vlid / 1_000_000_000);
    let mut fraction: Vec<u8> = Vec::new();
    append_decimal_padded(&mut fraction, nano_vlid % 1_000_000_000, DECIMALS);
    proof {
        lemma_decimal_digits(nano_vlid as nat / 1_000_000_000);
        lemma_decimal_padded_digits(nano_vlid as nat % 1_000_000_000, 9);
        assert(whole@ =~= decimal(nano_vlid as nat / 1_000_000_000));
        assert(fraction@ =~= decimal_padded(nano_vlid as nat % 1_000_000_000, 9));
        reveal_strlit(".");
        reveal_strlit(" VLid");
    }
    let mut out = String::new();
    append_digits(&mut out, whole.as_slice());
    out.append(".");
    append_digits(&mut out, fraction.as_slice());
    out.append(" VLid");
    assert(out@ =~= vlid_text(nano_vlid));
    out
}

} // verus!
