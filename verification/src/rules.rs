use vstd::prelude::*;
use vstd::arithmetic::power2::pow2;
use crate::u256::{Uint256, limb, limb2, limb3, limb4};

verus! {

/// The fork rule sets, in height order.
#[derive(Clone, Copy, Debug, PartialEq, Eq, Structural)]
pub enum RuleSet {
    Frontier,
    Homestead,
    Eip150,
    Eip160,
    Ecip1017,
}

/// Difficulty never drops below this floor.
pub const MIN_DIFFICULTY: u64 = 125000;

/// Base block reward of the pre-era schedules, in wei.
pub const BASE_REWARD: u64 = 5_000_000_000_000_000_000;

/// The rule set that governs a block of the given height.
pub open spec fn spec_rule_set_for(number: int) -> RuleSet {
    if number < 1_150_000 {
        RuleSet::Frontier
    } else if number < 2_500_000 {
        RuleSet::Homestead
    } else if number < 3_000_000 {
        RuleSet::Eip150
    } else if number < 5_000_001 {
        RuleSet::Eip160
    } else {
        RuleSet::Ecip1017
    }
}

pub fn rule_set_for(number: &Uint256) -> (r: RuleSet)
    ensures
        r == spec_rule_set_for(number.val()),
{
    if number.lt_val(&Uint256::from_u64(1_150_000)) {
        RuleSet::Frontier
    } else if number.lt_val(&Uint256::from_u64(2_500_000)) {
        RuleSet::Homestead
    } else if number.lt_val(&Uint256::from_u64(3_000_000)) {
        RuleSet::Eip150
    } else if number.lt_val(&Uint256::from_u64(5_000_001)) {
        RuleSet::Eip160
    } else {
        RuleSet::Ecip1017
    }
}

/// How many blocks the rule set postpones the difficulty bomb.
pub open spec fn spec_bomb_delay(rs: RuleSet) -> int {
    if rs == RuleSet::Ecip1017 {
        2_000_000
    } else {
        0
    }
}

/// The bomb exponent: each 100 000 blocks past the delay add one.
pub open spec fn spec_bomb_exponent(rs: RuleSet, number: int) -> int {
    if number >= spec_bomb_delay(rs) {
        (number - spec_bomb_delay(rs)) / 100_000
    } else {
        0
    }
}

/// The difficulty bomb: floor(2^(exponent - 2)), zero below exponent 2.
pub open spec fn spec_bomb(rs: RuleSet, number: int) -> int {
    let e = spec_bomb_exponent(rs, number);
    if e < 2 {
        0
    } else {
        pow2((e - 2) as nat) as int
    }
}

/// The rule set's base retarget. Frontier steps by parent/2048 around a
/// 13-second duration threshold; the later sets use the canonical
/// max(1 - (ts - pts)/10, -99) multiplier on parent/2048.
pub open spec fn spec_base_target(rs: RuleSet, parent_difficulty: int, delta: int) -> int {
    let adj = parent_difficulty / 2048;
    if rs == RuleSet::Frontier {
        if delta < 13 {
            parent_difficulty + adj
        } else {
            parent_difficulty - adj
        }
    } else {
        let d10 = delta / 10;
        if d10 == 0 {
            parent_difficulty + adj
        } else if d10 == 1 {
            parent_difficulty
        } else {
            let factor = if d10 - 1 < 99 { d10 - 1 } else { 99 };
            parent_difficulty - adj * factor
        }
    }
}

/// The full retarget: the base target plus the bomb, never below the floor.
pub open spec fn spec_calculate_difficulty(
    rs: RuleSet,
    parent_difficulty: int,
    delta: int,
    number: int,
) -> int {
    let with_bomb = spec_base_target(rs, parent_difficulty, delta) + spec_bomb(rs, number);
    if with_bomb >= MIN_DIFFICULTY {
        with_bomb
    } else {
        MIN_DIFFICULTY as int
    }
}

/// parent/2048 times a factor of at most 2048 never exceeds the parent.
proof fn lemma_adjustment_bounded(p: int, f: int)
    requires
        p >= 0,
        0 <= f <= 2048,
    ensures
        0 <= (p / 2048) * f <= p,
{
    vstd::arithmetic::div_mod::lemma_fundamental_div_mod(p, 2048);
    assert(0 <= (p / 2048) * f <= (p / 2048) * 2048) by (nonlinear_arith)
        requires
            p / 2048 >= 0,
            0 <= f <= 2048,
    ;
    assert((p / 2048) * 2048 <= p);
}

/// The difficulty retarget of the selected rule set.
///
/// The timestamp order and the two size bounds keep every intermediate
/// 256-bit operation from overflowing; outside them the arithmetic has no
/// defined 256-bit result.
pub fn calculate_difficulty(
    rs: RuleSet,
    last_difficulty: &Uint256,
    last_timestamp: u64,
    this_number: &Uint256,
    this_timestamp: u64,
) -> (r: Uint256)
    requires
        last_timestamp <= this_timestamp,
        last_difficulty.val() < limb4() / 4,
        this_number.val() < spec_bomb_delay(rs) + 25_600_000,
    ensures
        r.val() == spec_calculate_difficulty(
            rs,
            last_difficulty.val(),
            this_timestamp - last_timestamp,
            this_number.val(),
        ),
{
    let delta: u64 = this_timestamp - last_timestamp;
    let adj = last_difficulty.div_u64(2048);
    proof {
        lemma_adjustment_bounded(last_difficulty.val(), 2048);
        lemma_adjustment_bounded(last_difficulty.val(), 99);
    }
    let base: Uint256 = if matches!(rs, RuleSet::Frontier) {
        if delta < 13 {
            last_difficulty.checked_add(&adj)
        } else {
            last_difficulty.checked_sub(&adj)
        }
    } else {
        let d10: u64 = delta / 10;
        if d10 == 0 {
            last_difficulty.checked_add(&adj)
        } else if d10 == 1 {
            last_difficulty.clone()
        } else {
            let factor: u64 = if d10 - 1 < 99 {
                d10 - 1
            } else {
                99
            };
            proof {
                lemma_adjustment_bounded(last_difficulty.val(), factor as int);
                assert(adj.val() * factor == (last_difficulty.val() / 2048) * factor);
            }
            last_difficulty.checked_sub(&adj.mul_u64(factor))
        }
    };
    let min_d = Uint256::from_u64(MIN_DIFFICULTY);
    let bomb = bomb_value(rs, this_number);
    proof {
        lemma_limb_fracs();
        assert(bomb.val() <= pow2(254)) by {
            if spec_bomb(rs, this_number.val()) != 0 {
                let e = spec_bomb_exponent(rs, this_number.val());
                assert(e <= 255) by {
                    assert((this_number.val() - spec_bomb_delay(rs)) / 100_000 < 256);
                }
                vstd::arithmetic::power2::lemma_pow2_adds((e - 2) as nat, (256 - e) as nat);
                vstd::arithmetic::power2::lemma_pow2_pos((256 - e) as nat);
                assert(pow2((e - 2) as nat) * pow2((256 - e) as nat) == pow2(254));
                assert(pow2((e - 2) as nat) <= pow2((e - 2) as nat) * pow2((256 - e) as nat))
                    by (nonlinear_arith)
                    requires
                        pow2((e - 2) as nat) >= 0,
                        pow2((256 - e) as nat) >= 1,
                ;
            }
        }
    }
    let with_bomb = base.checked_add(&bomb);
    Uint256::max_val(min_d, with_bomb)
}

/// 2^254 and 2^256/4 + 2^254 stay inside 256 bits.
proof fn lemma_limb_fracs()
    ensures
        limb4() / 4 + limb4() / 4 + pow2(254) < limb4(),
        pow2(254) * 4 == limb4(),
{
    vstd::arithmetic::power2::lemma2_to64();
    vstd::arithmetic::power2::lemma_pow2_adds(64, 64);
    vstd::arithmetic::power2::lemma_pow2_adds(128, 64);
    vstd::arithmetic::power2::lemma_pow2_adds(192, 62);
    vstd::arithmetic::power2::lemma_pow2_adds(254, 2);
    assert(pow2(2) == 4);
    assert(pow2(254) * 4 == pow2(256));
    assert(pow2(192) * pow2(62) == pow2(254));
    assert(limb4() == pow2(256)) by {
        vstd::arithmetic::power2::lemma_pow2_adds(192, 64);
    }
}

/// The full limb weight 2^256 is positive, for callers.
pub proof fn lemma_limb4_pos_pub()
    ensures
        limb4() > 0,
{
    crate::u256::lemma_limb4_pos();
}

/// A quarter of 2^256 is 2^254.
pub proof fn lemma_limb4_quarter()
    ensures
        limb4() / 4 == pow2(254) as int,
        limb4() > 0,
{
    lemma_limb_fracs();
    crate::u256::lemma_limb4_pos();
    assert(limb4() / 4 == pow2(254) as int) by (nonlinear_arith)
        requires
            pow2(254) * 4 == limb4(),
    ;
}

/// The bomb of the selected rule set at the given height.
pub fn bomb_value(rs: RuleSet, number: &Uint256) -> (r: Uint256)
    requires
        number.val() < spec_bomb_delay(rs) + 25_600_000,
    ensures
        r.val() == spec_bomb(rs, number.val()),
{
    let delay: u64 = if matches!(rs, RuleSet::Ecip1017) {
        2_000_000
    } else {
        0
    };
    let delay_u = Uint256::from_u64(delay);
    if number.lt_val(&delay_u) {
        Uint256::zero()
    } else {
        let past = number.checked_sub(&delay_u);
        let e_wide = past.div_u64(100_000);
        proof {
            assert(e_wide.val() < 256) by {
                assert(past.val() < 25_600_000);
                assert(past.val() / 100_000 < 256);
            }
            assert(e_wide.val() < limb());
        }
        let e: u64 = e_wide.as_u64();
        if e < 2 {
            Uint256::zero()
        } else {
            Uint256::pow2(e - 2)
        }
    }
}

/// The base block reward of the rule set, in wei: five ether, halving
/// every five million blocks under the era schedule.
pub open spec fn spec_base_reward(rs: RuleSet, number: int) -> int {
    if rs == RuleSet::Ecip1017 {
        let era = if number >= 1 { (number - 1) / 5_000_000 } else { 0 };
        (BASE_REWARD as int) / (pow2(era as nat) as int)
    } else {
        BASE_REWARD as int
    }
}

/// The miner's reward: the base plus one thirty-second of it per ommer.
pub open spec fn spec_block_reward(rs: RuleSet, number: int, ommer_count: int) -> int {
    spec_base_reward(rs, number) + ommer_count * (spec_base_reward(rs, number) / 32)
}

/// An ommer miner's reward: an eighth of the base per step of closeness
/// under the pre-era schedules, one thirty-second of the base under the
/// era schedule, and nothing eight or more blocks away.
pub open spec fn spec_uncle_reward(rs: RuleSet, number: int, distance: int) -> int {
    if rs == RuleSet::Ecip1017 {
        spec_base_reward(rs, number) / 32
    } else if distance < 8 {
        (spec_base_reward(rs, number) * (8 - distance)) / 8
    } else {
        0
    }
}

pub fn base_reward(rs: RuleSet, number: &Uint256) -> (r: u64)
    ensures
        r == spec_base_reward(rs, number.val()),
{
    if matches!(rs, RuleSet::Ecip1017) {
        let one = Uint256::from_u64(1);
        let era_wide = if number.lt_val(&one) {
            Uint256::zero()
        } else {
            number.checked_sub(&one).div_u64(5_000_000)
        };
        let ghost era = if number.val() >= 1 {
            (number.val() - 1) / 5_000_000
        } else {
            0
        };
        if era_wide.lt_val(&Uint256::from_u64(63)) {
            let e = era_wide.as_u64();
            proof {
                vstd::bits::lemma_u64_shr_is_div(BASE_REWARD, e);
            }
            BASE_REWARD >> e
        } else {
            proof {
                vstd::arithmetic::power2::lemma2_to64();
                vstd::arithmetic::power2::lemma2_to64_rest();
                if era > 63 {
                    vstd::arithmetic::power2::lemma_pow2_strictly_increases(63, era as nat);
                }
                assert(BASE_REWARD < pow2(era as nat));
                assert((BASE_REWARD as int) / (pow2(era as nat) as int) == 0) by (nonlinear_arith)
                    requires
                        0 <= (BASE_REWARD as int) < pow2(era as nat) as int,
                ;
            }
            0
        }
    } else {
        BASE_REWARD
    }
}

/// The miner's total reward for a block with the given ommer count.
pub fn block_reward(rs: RuleSet, number: &Uint256, ommer_count: u64) -> (r: Uint256)
    requires
        ommer_count <= 32,
    ensures
        r.val() == spec_block_reward(rs, number.val(), ommer_count as int),
{
    let base = base_reward(rs, number);
    let per_ommer: u64 = base / 32;
    proof {
        lemma_small_products(per_ommer as int, ommer_count as int);
    }
    let bonus = Uint256::from_u64(per_ommer).mul_u64(ommer_count);
    proof {
        assert(per_ommer * ommer_count == ommer_count * per_ommer) by (nonlinear_arith);
    }
    Uint256::from_u64(base).checked_add(&bonus)
}

/// An ommer miner's reward at the given distance from its including block.
pub fn uncle_reward(rs: RuleSet, number: &Uint256, distance: u64) -> (r: Uint256)
    ensures
        r.val() == spec_uncle_reward(rs, number.val(), distance as int),
{
    let base = base_reward(rs, number);
    if matches!(rs, RuleSet::Ecip1017) {
        Uint256::from_u64(base / 32)
    } else if distance < 8 {
        proof {
            lemma_small_products(base as int, (8 - distance) as int);
        }
        let scaled = Uint256::from_u64(base).mul_u64(8 - distance);
        scaled.div_u64(8)
    } else {
        Uint256::zero()
    }
}

/// Products of two 64-bit factors stay far below 2^256.
proof fn lemma_small_products(a: int, b: int)
    requires
        0 <= a < limb(),
        0 <= b < limb(),
    ensures
        0 <= a * b < limb2(),
        limb2() + limb() < limb4(),
{
    assert(0 <= a * b && a * b < limb() * limb()) by (nonlinear_arith)
        requires
            0 <= a < limb(),
            0 <= b < limb(),
    ;
    assert(limb() * limb() == limb2());
    assert(limb2() + limb() < limb4()) by (nonlinear_arith)
        requires
            limb2() >= limb() >= 2,
            limb3() == limb2() * limb(),
            limb4() == limb3() * limb(),
    ;
}

} // verus!
