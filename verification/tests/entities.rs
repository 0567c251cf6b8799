//! The matchmaking scenarios: team formation on small queues, prefill
//! behaviour, and the rating update arithmetic. Skill values are in
//! fixed-point thousandths of a rating point.

use matchmaking::algorithm::{Algoritm, AlgorithmResult, SkillLevelAlgorithm};
use matchmaking::game::Game;
use matchmaking::user::UserPool;

use rand::seq::SliceRandom;
use rand::thread_rng;

#[test]
fn test_skill_empty_queue() {
    let algorithm = SkillLevelAlgorithm { team_size: 5, size_factor: 2000, prefill_factor: 0 };

    let pool = UserPool::new(false);
    let mut queue = Vec::new();

    assert!(algorithm.search(&mut queue, &pool) == AlgorithmResult::NoMatch);
}

#[test]
fn test_skill_small_queue() {
    let algorithm = SkillLevelAlgorithm { team_size: 5, size_factor: 2000, prefill_factor: 0 };

    let mut pool = UserPool::new(false);
    let mut queue = Vec::new();

    for _ in 0..15 {
        queue.push(pool.generate(500_000, 500_000))
    }

    assert!(algorithm.search(&mut queue, &pool) == AlgorithmResult::NoMatch);
}

#[test]
fn test_skill_small_prefill() {
    let algorithm = SkillLevelAlgorithm { team_size: 5, size_factor: 2000, prefill_factor: 100 };

    let mut pool = UserPool::new(false);
    let mut queue = Vec::new();

    queue.push(pool.generate(10_000_000, 10_000_000));

    for _ in 0..20 {
        queue.push(pool.generate(500_000, 500_000))
    }

    let result = algorithm.search(&mut queue, &pool);

    match result {
        AlgorithmResult::Found(game) => {
            assert!(game.team1.len() == 5);
            assert!(game.team2.len() == 5);

            assert_eq!(10_000_000, pool.get_user(game.team1.get(0).unwrap()).get_skill());
        }
        _ => panic!("Incorrect result"),
    }
}

#[test]
fn test_skill_small_prefill2() {
    let algorithm = SkillLevelAlgorithm { team_size: 5, size_factor: 2000, prefill_factor: 400 };

    let mut pool = UserPool::new(false);
    let mut queue = Vec::new();

    for _ in 0..5 {
        queue.push(pool.generate(10_000_000, 10_000_000));
    }

    for _ in 0..20 {
        queue.push(pool.generate(500_000, 500_000))
    }

    let result = algorithm.search(&mut queue, &pool);
    println!("{:?}", queue);
    println!("{:?}", result);

    assert_eq!(15, queue.len());
    assert_eq!(10_000_000, pool.get_user(queue.get(0).unwrap()).get_skill());
    for i in 1..queue.len() {
        assert_eq!(500_000, pool.get_user(queue.get(i).unwrap()).get_skill());
    }

    match result {
        AlgorithmResult::Found(game) => {
            assert!(game.team1.len() == 5);
            assert!(game.team2.len() == 5);

            let team1_sum = game.team1.iter().fold(0i64, |sum, id| {
                sum + pool.get_user(id).get_skill()
            });
            let team2_sum = game.team2.iter().fold(0i64, |sum, id| {
                sum + pool.get_user(id).get_skill()
            });
            assert_eq!(team1_sum, team2_sum);
        }
        _ => panic!("Incorrect result"),
    }
}

#[test]
fn test_skill_found() {
    let algorithm = SkillLevelAlgorithm { team_size: 5, size_factor: 2000, prefill_factor: 0 };

    let mut pool = UserPool::new(false);
    let mut queue = Vec::new();

    for _ in 0..20 {
        queue.push(pool.generate(500_000, 500_000))
    }

    let result = algorithm.search(&mut queue, &pool);

    match result {
        AlgorithmResult::Found(game) => {
            assert!(game.team1.len() == 5);
            assert!(game.team2.len() == 5);
        }
        _ => panic!("Incorrect result"),
    }

    assert!(queue.len() == 10);
}

#[test]
fn test_clustered_queue() {
    let algorithm = SkillLevelAlgorithm { team_size: 5, size_factor: 2000, prefill_factor: 0 };

    let mut pool = UserPool::new(false);
    let mut queue = Vec::new();

    for _ in 0..15 {
        queue.push(pool.generate(500_000, 500_000))
    }

    for _ in 0..10 {
        queue.push(pool.generate(10_000_000, 10_000_000))
    }

    queue.shuffle(&mut thread_rng());
    let result = algorithm.search(&mut queue, &pool);

    println!("{:?}", queue);
    assert!(queue.len() == 15);

    match result {
        AlgorithmResult::Found(game) => {
            println!("{:?}", game);
            assert!(game.team1.len() == 5);
            assert!(game.team2.len() == 5);

            let team1_sum = game.team1.iter().fold(0i64, |sum, id| {
                sum + pool.get_user(id).get_skill()
            });
            let team2_sum = game.team2.iter().fold(0i64, |sum, id| {
                sum + pool.get_user(id).get_skill()
            });
            assert_eq!(team1_sum, team2_sum);
        }
        _ => panic!("Incorrect result"),
    }
}

#[test]
fn test_skill_level_sum() {
    let algorithm = SkillLevelAlgorithm { team_size: 5, size_factor: 1000, prefill_factor: 0 };

    let mut pool = UserPool::new(false);
    let mut queue = Vec::new();

    for _ in 0..5 {
        queue.push(pool.generate(450_000, 450_000))
    }

    for _ in 0..5 {
        queue.push(pool.generate(550_000, 550_000))
    }

    for _ in 0..9 {
        queue.push(pool.generate(10_000_000, 10_000_000))
    }

    queue.shuffle(&mut thread_rng());
    let result = algorithm.search(&mut queue, &pool);

    println!("Queue: {:?}", queue);
    assert!(queue.len() == 9);

    match result {
        AlgorithmResult::Found(game) => {
            println!("{:?}", game);
            assert!(game.team1.len() == 5);
            assert!(game.team2.len() == 5);

            let team1_sum = game.team1.iter().fold(0i64, |sum, id| {
                sum + pool.get_user(id).get_skill()
            });
            let team2_sum = game.team2.iter().fold(0i64, |sum, id| {
                sum + pool.get_user(id).get_skill()
            });
            assert!((team1_sum - team2_sum).abs() <= 100_000);
        }
        _ => panic!("Incorrect result"),
    }
}

#[test]
fn rating_update() {
    let mut pool = UserPool::new(false);

    let user1 = pool.generate(2_400_000, 0);
    let user2 = pool.generate(2_000_000, 0);

    let game = Game::new(vec![user1], vec![user2]);

    game.process(&mut pool, 1);

    assert!((pool.get_user(&user1).get_skill() - 2_403_000).abs() < 100);
    assert!((pool.get_user(&user2).get_skill() - 1_997_000).abs() < 100);
}

#[test]
fn rating_update2() {
    let mut pool = UserPool::new(false);

    let user1 = pool.generate(2_400_000, 0);
    let user2 = pool.generate(2_000_000, 0);

    let game = Game::new(vec![user1], vec![user2]);

    game.process(&mut pool, 2);

    assert!((pool.get_user(&user1).get_skill() - 2_371_000).abs() < 100);
    assert!((pool.get_user(&user2).get_skill() - 2_029_000).abs() < 100);
}

#[test]
fn team_rating_update() {
    let mut pool = UserPool::new(false);

    let user1 = pool.generate(2_800_000, 0);
    let user2 = pool.generate(2_000_000, 0);

    let user3 = pool.generate(1_000_000, 0);
    let user4 = pool.generate(3_000_000, 0);

    println!("{:?}", pool.get_user(&user1));

    let game = Game::new(vec![user1, user2], vec![user3, user4]);

    game.process(&mut pool, 2);

    println!("{:?}", pool.get_user(&user1));

    assert!((pool.get_user(&user1).get_skill() - 2_771_000).abs() < 100);
    assert!((pool.get_user(&user2).get_skill() - 1_971_000).abs() < 100);
    assert!((pool.get_user(&user3).get_skill() - 1_029_000).abs() < 100);
    assert!((pool.get_user(&user4).get_skill() - 3_029_000).abs() < 100);
}
