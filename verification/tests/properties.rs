//! Cross-cutting checks: formation invariants for every algorithm, exact
//! rating arithmetic, oracle-mode behaviour, configuration validation, and
//! the range sampler. Skill values are fixed-point thousandths.

use matchmaking::algorithm::{
    peek_random, Algoritm, AlgorithmResult, FIFOAlgorithm, RandomPeekAlgorithm,
    SkillLevelAlgorithm,
};
use matchmaking::errors::ConfigError;
use matchmaking::game::{Game, GameDecider, RealSkillLevelDecider};
use matchmaking::randgen::{DistributionType, RandomRangeGen, UNIT};
use matchmaking::user::UserPool;

fn filled_pool_queue(skills: &[i64]) -> (UserPool, Vec<usize>) {
    let mut pool = UserPool::new(false);
    let mut queue = Vec::new();
    for s in skills {
        queue.push(pool.generate(*s, *s));
    }
    (pool, queue)
}

#[test]
fn fifo_search_takes_heads_alternating() {
    let algorithm = FIFOAlgorithm { team_size: 2 };
    let (pool, mut queue) = filled_pool_queue(&[100_000, 200_000, 300_000, 400_000, 500_000]);

    match algorithm.search(&mut queue, &pool) {
        AlgorithmResult::Found(game) => {
            assert_eq!(game.team1, vec![0, 2]);
            assert_eq!(game.team2, vec![1, 3]);
        }
        _ => panic!("Incorrect result"),
    }
    assert_eq!(queue, vec![4]);
}

#[test]
fn fifo_underfull_queue_untouched() {
    let algorithm = FIFOAlgorithm { team_size: 3 };
    let (pool, mut queue) = filled_pool_queue(&[100_000, 200_000, 300_000, 400_000, 500_000]);

    assert!(algorithm.search(&mut queue, &pool) == AlgorithmResult::NoMatch);
    assert_eq!(queue, vec![0, 1, 2, 3, 4]);
}

#[test]
fn random_peek_underfull_queue_untouched() {
    let algorithm = RandomPeekAlgorithm { team_size: 3 };
    let (pool, mut queue) = filled_pool_queue(&[100_000, 200_000, 300_000, 400_000, 500_000]);

    assert!(algorithm.search(&mut queue, &pool) == AlgorithmResult::NoMatch);
    assert_eq!(queue, vec![0, 1, 2, 3, 4]);
}

#[test]
fn random_peek_teams_disjoint_full_size() {
    let skills: Vec<i64> = (0..12).map(|i| 1_000_000 + 1_000 * i as i64).collect();
    let algorithm = RandomPeekAlgorithm { team_size: 4 };
    let (pool, mut queue) = filled_pool_queue(&skills);

    match algorithm.search(&mut queue, &pool) {
        AlgorithmResult::Found(game) => {
            assert_eq!(game.team1.len(), 4);
            assert_eq!(game.team2.len(), 4);
            assert_eq!(queue.len(), 4);
            let mut seen = vec![false; 12];
            for id in game.team1.iter().chain(game.team2.iter()).chain(queue.iter()) {
                assert!(!seen[*id], "player drafted twice");
                seen[*id] = true;
            }
            assert!(seen.iter().all(|b| *b));
        }
        _ => panic!("Incorrect result"),
    }
}

#[test]
fn skill_level_threshold_boundary() {
    // team size 2 with factor 1.5 demands six waiting players.
    let algorithm = SkillLevelAlgorithm { team_size: 2, size_factor: 1500, prefill_factor: 0 };

    let (pool, mut queue) = filled_pool_queue(&[500_000, 600_000, 700_000, 800_000, 900_000]);
    assert!(algorithm.search(&mut queue, &pool) == AlgorithmResult::NoMatch);
    assert_eq!(queue, vec![0, 1, 2, 3, 4]);

    let (pool6, mut queue6) = filled_pool_queue(&[
        500_000, 600_000, 700_000, 800_000, 900_000, 1_000_000,
    ]);
    match algorithm.search(&mut queue6, &pool6) {
        AlgorithmResult::Found(game) => {
            assert_eq!(game.team1.len(), 2);
            assert_eq!(game.team2.len(), 2);
            assert_eq!(queue6.len(), 2);
        }
        _ => panic!("Incorrect result"),
    }
}

#[test]
fn skill_level_equal_estimates_balance() {
    let skills: Vec<i64> = vec![750_000; 16];
    let algorithm = SkillLevelAlgorithm { team_size: 4, size_factor: 1000, prefill_factor: 0 };
    let (pool, mut queue) = filled_pool_queue(&skills);

    match algorithm.search(&mut queue, &pool) {
        AlgorithmResult::Found(game) => {
            let sum = |team: &Vec<usize>| -> i64 {
                team.iter().map(|id| pool.get_user(id).get_skill()).sum()
            };
            assert_eq!(sum(&game.team1), sum(&game.team2));
            assert_eq!(sum(&game.team1), 4 * 750_000);
        }
        _ => panic!("Incorrect result"),
    }
}

#[test]
fn skill_level_single_outlier_lands_in_one_team() {
    let mut skills: Vec<i64> = vec![500_000; 11];
    skills[6] = 9_000_000;
    let algorithm = SkillLevelAlgorithm { team_size: 3, size_factor: 1000, prefill_factor: 0 };
    let (pool, mut queue) = filled_pool_queue(&skills);

    match algorithm.search(&mut queue, &pool) {
        AlgorithmResult::Found(game) => {
            let high = |team: &Vec<usize>| {
                team.iter().filter(|id| pool.get_user(id).get_skill() == 9_000_000).count()
            };
            let drafted = high(&game.team1) + high(&game.team2);
            assert!(drafted <= 1);
            assert_eq!(high(&game.team1) + high(&game.team2) + queue.iter().filter(|id| {
                pool.get_user(id).get_skill() == 9_000_000
            }).count(), 1);
        }
        _ => panic!("Incorrect result"),
    }
}

#[test]
fn rating_update_equal_means_is_half_k() {
    let mut pool = UserPool::new(false);
    let u1 = pool.generate(2_000_000, 0);
    let u2 = pool.generate(2_000_000, 0);
    let game = Game::new(vec![u1], vec![u2]);

    game.process(&mut pool, 1);

    assert_eq!(pool.get_user(&u1).get_skill(), 2_016_000);
    assert_eq!(pool.get_user(&u2).get_skill(), 1_984_000);
}

#[test]
fn rating_update_fractional_exponent() {
    // 190-point difference: the delta is 8.029 points, exercising the
    // fractional part of the base-10 exponential.
    let mut pool = UserPool::new(false);
    let u1 = pool.generate(2_400_000, 0);
    let u2 = pool.generate(2_210_000, 0);
    let game = Game::new(vec![u1], vec![u2]);

    game.process(&mut pool, 1);

    assert_eq!(pool.get_user(&u1).get_skill(), 2_408_029);
    assert_eq!(pool.get_user(&u2).get_skill(), 2_201_971);
}

#[test]
fn rating_update_saturates_far_apart() {
    let mut pool = UserPool::new(false);
    let u1 = pool.generate(9_000_000, 0);
    let u2 = pool.generate(1_000_000, 0);
    let game = Game::new(vec![u1], vec![u2]);

    // The overwhelming favourite wins: no measurable change.
    game.process(&mut pool, 1);
    assert_eq!(pool.get_user(&u1).get_skill(), 9_000_000);
    assert_eq!(pool.get_user(&u2).get_skill(), 1_000_000);

    // The overwhelming favourite loses: the full K swings.
    game.process(&mut pool, 2);
    assert_eq!(pool.get_user(&u1).get_skill(), 8_968_000);
    assert_eq!(pool.get_user(&u2).get_skill(), 1_032_000);
}

#[test]
fn oracle_pool_ignores_rating_updates() {
    let mut pool = UserPool::new(true);
    let u1 = pool.generate(2_400_000, 1_700_000);
    let u2 = pool.generate(2_000_000, 1_300_000);
    let game = Game::new(vec![u1], vec![u2]);

    game.process(&mut pool, 1);
    game.process(&mut pool, 2);

    assert_eq!(pool.get_user(&u1).get_skill(), 1_700_000);
    assert_eq!(pool.get_user(&u2).get_skill(), 1_300_000);

    pool.get_user_mut(&u1).update_skill(5_000);
    assert_eq!(pool.get_user(&u1).get_skill(), 1_700_000);
}

#[test]
fn decider_picks_higher_true_skill() {
    let mut pool = UserPool::new(false);
    let u1 = pool.generate(100_000, 2_000_000);
    let u2 = pool.generate(9_000_000, 1_500_000);
    let decider = RealSkillLevelDecider {};

    let game = Game::new(vec![u1], vec![u2]);
    assert_eq!(decider.decide(&game, &pool), 1);

    let reversed = Game::new(vec![u2], vec![u1]);
    assert_eq!(decider.decide(&reversed, &pool), 2);
}

#[test]
fn decider_tie_flips_a_coin() {
    let mut pool = UserPool::new(false);
    let u1 = pool.generate(1_000_000, 1_500_000);
    let u2 = pool.generate(2_000_000, 1_500_000);
    let decider = RealSkillLevelDecider {};
    let game = Game::new(vec![u1], vec![u2]);

    for _ in 0..32 {
        let winner = decider.decide(&game, &pool);
        assert!(winner == 1 || winner == 2);
    }
}

#[test]
fn peek_random_empty_and_removal() {
    let mut empty: Vec<usize> = Vec::new();
    assert!(peek_random(&mut empty).is_none());

    let mut items = vec![10usize, 20, 30];
    let picked = peek_random(&mut items).unwrap();
    assert!(picked == 10 || picked == 20 || picked == 30);
    assert_eq!(items.len(), 2);
    assert!(!items.contains(&picked));

    // A single entry leaves the random index no room at all.
    for _ in 0..16 {
        let mut single = vec![7usize];
        assert_eq!(peek_random(&mut single), Some(7));
        assert!(single.is_empty());
    }
}

#[test]
fn avg_skill_error_exact() {
    let mut pool = UserPool::new(false);
    pool.generate(2_000_000, 2_500_000);
    pool.generate(1_000_000, 900_000);
    // Mean of |500| and |100| points.
    assert_eq!(pool.get_avg_skill_error(), 300_000);
}

#[test]
fn join_time_tracking() {
    let mut pool = UserPool::new(false);
    let id = pool.generate(1_500_000, 1_400_000);
    assert_eq!(pool.get_user(&id).get_join_time(), 0);
    pool.get_user_mut(&id).set_join_time(42);
    assert_eq!(pool.get_user(&id).get_join_time(), 42);
    assert_eq!(pool.get_user(&id).get_skill(), 1_500_000);
}

#[test]
fn config_rejections() {
    assert_eq!(FIFOAlgorithm::new(0).unwrap_err(), ConfigError::ZeroTeamSize);
    assert_eq!(FIFOAlgorithm::new(200_000_000).unwrap_err(), ConfigError::TeamSizeTooLarge);
    assert_eq!(RandomPeekAlgorithm::new(0).unwrap_err(), ConfigError::ZeroTeamSize);
    assert_eq!(SkillLevelAlgorithm::new(5, 500, 0).unwrap_err(), ConfigError::SizeFactorTooSmall);
    assert_eq!(
        SkillLevelAlgorithm::new(5, 2_000_000, 0).unwrap_err(),
        ConfigError::SizeFactorTooLarge
    );
    assert_eq!(
        SkillLevelAlgorithm::new(5, 1500, 1500).unwrap_err(),
        ConfigError::PrefillFactorTooLarge
    );
    assert_eq!(
        RandomRangeGen::new(500_000, 400_000, DistributionType::Uniform).unwrap_err(),
        ConfigError::EmptyRange
    );
    assert_eq!(
        RandomRangeGen::new(0, 2_000_000_000_000_000, DistributionType::Uniform).unwrap_err(),
        ConfigError::RangeOutOfBounds
    );
    assert!(FIFOAlgorithm::new(5).is_ok());
    assert!(SkillLevelAlgorithm::new(5, 1500, 400).is_ok());
    assert!(RandomRangeGen::new(800_000, 2_200_000, DistributionType::Normal).is_ok());
}

#[test]
fn uniform_samples_stay_in_range_and_converge() {
    let gen = RandomRangeGen::new(800_000, 2_200_000, DistributionType::Uniform).unwrap();
    let n = 10_000u32;
    let mut sum: i64 = 0;
    for _ in 0..n {
        let v = gen.generate();
        assert!((800_000..=2_200_000).contains(&v));
        sum += v;
    }
    let mean = sum / n as i64;
    // The expected mean is 1,500,000; allow a generous band.
    assert!((mean - 1_500_000).abs() < 50_000, "mean drifted: {mean}");
}

#[test]
fn normal_unit_samples_stay_in_range() {
    let gen = RandomRangeGen::new(800_000, 2_200_000, DistributionType::Normal).unwrap();
    assert!(gen.kind() == DistributionType::Normal);
    // Clamped Box-Muller unit samples, as a driver would produce them.
    let mut state: u64 = 0x12345678;
    let mut next_unit = || -> f64 {
        state = state.wrapping_mul(6364136223846793005).wrapping_add(1442695040888963407);
        ((state >> 11) as f64 + 1.0) / (1u64 << 53) as f64
    };
    for _ in 0..10_000 {
        let u1: f64 = next_unit();
        let u2: f64 = next_unit();
        let mut r = (-2.0 * u1.ln()).sqrt() * (2.0 * std::f64::consts::PI * u2).cos();
        if r > 1.0 {
            r = 1.0;
        }
        if r < -1.0 {
            r = -1.0;
        }
        let unit = ((r + 1.0) * 0.5 * UNIT as f64) as u64;
        let v = gen.sample_from_unit(unit);
        assert!((800_000..=2_200_000).contains(&v));
    }
}

#[test]
fn sample_from_unit_is_the_linear_map() {
    let gen = RandomRangeGen::new(0, 1_000_000, DistributionType::Uniform).unwrap();
    assert_eq!(gen.sample_from_unit(0), 0);
    assert_eq!(gen.sample_from_unit(UNIT / 2), 500_000);
    assert_eq!(gen.sample_from_unit(UNIT), 1_000_000);

    let shifted = RandomRangeGen::new(-400_000, 600_000, DistributionType::Uniform).unwrap();
    assert_eq!(shifted.sample_from_unit(250_000), -150_000);
}
