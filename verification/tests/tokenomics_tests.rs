use pos_chain::tokenomics::{
    calculate_epoch_rewards, format_vlid, BLOCKS_PER_EPOCH, BLOCK_REWARD_PCT, DECIMALS,
    DEV_GRANTS_PCT, EPOCH_COUNT, EPOCH_PERCENTAGES, L1_VALIDATORS_PCT, L2_VALIDATORS_PCT,
    P2P_REWARDS_PCT, RACER_REWARD_PCT, SNAPSHOT_REWARD_PCT, TOKEN_NAME, TOKEN_SYMBOL,
    TOTAL_SUPPLY, TPI_REWARD_PCT,
};

fn share(percent: u64) -> f64 {
    percent as f64 / 100.0
}

#[test]
fn test_total_supply_fits_u64() {
    assert!(TOTAL_SUPPLY <= u64::MAX);
}

#[test]
fn test_epoch_0_rewards() {
    let rewards = calculate_epoch_rewards(0);
    assert!(rewards.block_reward > 0);
    println!("Epoch 0 block reward: {} ({})", rewards.block_reward, format_vlid(rewards.block_reward));
    println!("Epoch 0 TPI reward: {} ({})", rewards.tpi_reward_per_validator, format_vlid(rewards.tpi_reward_per_validator));
    println!("Epoch 0 Racer reward: {} ({})", rewards.racer_reward, format_vlid(rewards.racer_reward));
    println!("Epoch 0 Snapshot reward: {} ({})", rewards.snapshot_reward, format_vlid(rewards.snapshot_reward));
}

#[test]
fn test_epoch_percentages_sum() {
    let sum: f64 = EPOCH_PERCENTAGES.iter().map(|p| share(*p)).sum();
    assert!((sum - 1.0).abs() < 0.0001);
}

#[test]
fn test_category_percentages_sum() {
    let sum = share(L1_VALIDATORS_PCT) + share(L2_VALIDATORS_PCT) + share(P2P_REWARDS_PCT) + share(DEV_GRANTS_PCT);
    assert!((sum - 1.0).abs() < 0.0001);
}

#[test]
fn test_all_epochs() {
    for epoch in 0..EPOCH_COUNT {
        let rewards = calculate_epoch_rewards(epoch);
        assert!(rewards.block_reward > 0, "Epoch {} block reward is zero", epoch);
        println!("Epoch {}: block={}", epoch, format_vlid(rewards.block_reward));
    }
}

#[test]
fn test_epoch_decay() {
    let epoch0 = calculate_epoch_rewards(0);
    let epoch1 = calculate_epoch_rewards(1);
    let epoch2 = calculate_epoch_rewards(2);

    assert!(epoch1.block_reward < epoch0.block_reward);
    assert!(epoch2.block_reward < epoch1.block_reward);

    let ratio1 = epoch1.block_reward as f64 / epoch0.block_reward as f64;
    let ratio2 = epoch2.block_reward as f64 / epoch1.block_reward as f64;

    assert!((ratio1 - 0.5).abs() < 0.01, "Epoch 1 should be ~50% of Epoch 0");
    assert!((ratio2 - 0.333).abs() < 0.01, "Epoch 2 should be ~33% of Epoch 1");
}

#[test]
fn test_total_supply_is_33_million() {
    assert_eq!(TOTAL_SUPPLY, 33_000_000_000_000_000);
}

#[test]
fn test_epoch_percentages_sum_to_100() {
    let sum: f64 = EPOCH_PERCENTAGES.iter().map(|p| share(*p)).sum();
    assert!((sum - 1.0).abs() < 0.0001, "Epoch percentages should sum to 1.0");
}

#[test]
fn test_category_percentages_sum_to_100() {
    let sum = share(L1_VALIDATORS_PCT) + share(L2_VALIDATORS_PCT) + share(P2P_REWARDS_PCT) + share(DEV_GRANTS_PCT);
    assert!((sum - 1.0).abs() < 0.0001, "Category percentages should sum to 1.0");
}

#[test]
fn test_l1_internal_percentages_sum_to_100() {
    let sum = share(BLOCK_REWARD_PCT) + share(RACER_REWARD_PCT) + share(TPI_REWARD_PCT) + share(SNAPSHOT_REWARD_PCT);
    assert!((sum - 1.0).abs() < 0.0001, "L1 internal percentages should sum to 1.0");
}

#[test]
fn test_epoch_0_rewards_are_positive() {
    let rewards = calculate_epoch_rewards(0);
    assert!(rewards.block_reward > 0, "Block reward should be positive");
    assert!(rewards.tpi_reward_per_validator > 0, "TPI reward should be positive");
    assert!(rewards.racer_reward > 0, "Racer reward should be positive");
    assert!(rewards.snapshot_reward > 0, "Snapshot reward should be positive");
}

#[test]
fn test_epoch_rewards_follow_percentage_split() {
    let epoch_0 = calculate_epoch_rewards(0);
    let epoch_1 = calculate_epoch_rewards(1);
    let epoch_2 = calculate_epoch_rewards(2);

    let ratio_0_to_1 = epoch_0.block_reward as f64 / epoch_1.block_reward as f64;
    let ratio_1_to_2 = epoch_1.block_reward as f64 / epoch_2.block_reward as f64;

    assert!((ratio_0_to_1 - 2.0).abs() < 0.1, "Epoch 0→1 should be ÷2 (60%→30%), got {}", ratio_0_to_1);
    assert!((ratio_1_to_2 - 3.0).abs() < 0.1, "Epoch 1→2 should be ÷3 (30%→10%), got {}", ratio_1_to_2);
}

#[test]
fn test_epoch_out_of_range_returns_zero() {
    let rewards = calculate_epoch_rewards(3);
    assert_eq!(rewards.block_reward, 0);
    assert_eq!(rewards.tpi_reward_per_validator, 0);
    assert_eq!(rewards.racer_reward, 0);
    assert_eq!(rewards.snapshot_reward, 0);
}

#[test]
fn test_all_epochs_have_positive_rewards() {
    for epoch in 0..EPOCH_COUNT {
        let rewards = calculate_epoch_rewards(epoch);
        assert!(rewards.block_reward > 0, "Epoch {} block reward should be positive", epoch);
        assert!(rewards.tpi_reward_per_validator > 0, "Epoch {} TPI reward should be positive", epoch);
        assert!(rewards.racer_reward > 0, "Epoch {} racer reward should be positive", epoch);
        assert!(rewards.snapshot_reward > 0, "Epoch {} snapshot reward should be positive", epoch);
    }
}

#[test]
fn epoch_rewards_have_their_exact_values() {
    let e0 = calculate_epoch_rewards(0);
    assert_eq!(e0.block_reward, 80_816_326);
    assert_eq!(e0.tpi_reward_per_validator, 4_489_795);
    assert_eq!(e0.racer_reward, 3_367_346_900);
    assert_eq!(e0.snapshot_reward, 6_734_693);
    let e1 = calculate_epoch_rewards(1);
    assert_eq!(e1.block_reward, 40_408_163);
    assert_eq!(e1.tpi_reward_per_validator, 2_244_897);
    assert_eq!(e1.racer_reward, 1_683_673_400);
    assert_eq!(e1.snapshot_reward, 3_367_346);
    let e2 = calculate_epoch_rewards(2);
    assert_eq!(e2.block_reward, 13_469_387);
    assert_eq!(e2.tpi_reward_per_validator, 748_299);
    assert_eq!(e2.racer_reward, 561_224_400);
    assert_eq!(e2.snapshot_reward, 1_122_448);
    assert_eq!(calculate_epoch_rewards(usize::MAX).block_reward, 0);
}

#[test]
fn schedule_constants() {
    assert_eq!(BLOCKS_PER_EPOCH, 3_150_000 * 7);
    assert_eq!(EPOCH_COUNT, 3);
    assert_eq!(DECIMALS, 9);
    assert_eq!(TOKEN_SYMBOL, "VLid");
    assert_eq!(TOKEN_NAME, "Valid");
}

#[test]
fn format_vlid_writes_nine_decimals() {
    assert_eq!(format_vlid(0), "0.000000000 VLid");
    assert_eq!(format_vlid(1), "0.000000001 VLid");
    assert_eq!(format_vlid(1_500_000_000), "1.500000000 VLid");
    assert_eq!(format_vlid(80_816_326), "0.080816326 VLid");
    assert_eq!(format_vlid(999_999_999), "0.999999999 VLid");
    assert_eq!(format_vlid(1_000_000_000), "1.000000000 VLid");
    assert_eq!(format_vlid(TOTAL_SUPPLY), "33000000.000000000 VLid");
    assert_eq!(format_vlid(u64::MAX), "18446744073.709551615 VLid");
}
