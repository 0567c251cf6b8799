//! The team-formation algorithms: strict arrival order, random peek, and
//! greedy skill balancing with optional prefill. Every variant shares one
//! contract: a failed search leaves the queue untouched; a successful one
//! removes exactly the two formed teams and keeps the relative order of the
//! remaining entries.

use vstd::arithmetic::div_mod::{lemma_div_is_ordered, lemma_div_multiples_vanish};
use vstd::arithmetic::mul::lemma_mul_inequality;
use vstd::prelude::*;

use crate::errors::ConfigError;
use crate::game::Game;
use crate::rng::random_below;
use crate::seqtools::{
    is_subseq_of, lemma_pick_to_first, lemma_pick_to_second, lemma_remove_is_subseq,
    lemma_split_membership, lemma_split_no_duplicates, lemma_subseq_refl, lemma_subseq_trans,
};
use crate::skill::{div_trunc, div_trunc_spec, SKILL_LIMIT};
use crate::user::{
    ids_valid, lemma_sum_skill_constant, sum_skill, team_skill_sum, UserId, UserPool,
};

verus! {

/// The largest team size the fixed-point sum arithmetic is proved for.
pub const MAX_TEAM_SIZE: usize = 100_000_000;

/// The largest queue-size factor accepted, in thousandths (a factor of one
/// thousand).
pub const MAX_SIZE_FACTOR: u32 = 1_000_000;

/// The queue holds each waiting player at most once, and only players the
/// pool knows.
pub open spec fn valid_queue(pool: &UserPool, q: Seq<UserId>) -> bool {
    q.no_duplicates() && ids_valid(pool, q)
}

/// The two teams and the remaining queue account exactly for the old queue.
pub open spec fn match_conserves(
    old_q: Seq<UserId>,
    new_q: Seq<UserId>,
    t1: Seq<UserId>,
    t2: Seq<UserId>,
) -> bool {
    old_q.to_multiset() == new_q.to_multiset().add(t1.to_multiset()).add(t2.to_multiset())
}

/// The outcome of one search: either the queue was too short, or exactly
/// one match was formed.
#[derive(Debug, PartialEq)]
pub enum AlgorithmResult {
    NoMatch,
    Found(Game),
}

/// A team-formation strategy over the queue and the pool.
pub trait Algoritm {
    /// The number of players each formed team gets.
    spec fn team_size_spec(&self) -> int;

    /// The configuration is usable: positive team size within the machine
    /// bounds the arithmetic needs.
    spec fn valid(&self) -> bool;

    /// Whether a queue of length `n` suffices to attempt a match.
    spec fn enough(&self, n: int) -> bool;

    /// Drains one match from the queue, or reports that the queue is too
    /// short and leaves it untouched.
    fn search(&self, queue: &mut Vec<UserId>, pool: &UserPool) -> (r: AlgorithmResult)
        requires
            self.valid(),
            pool.wf(),
            valid_queue(pool, old(queue)@),
        ensures
            (r is NoMatch) <==> !self.enough(old(queue)@.len() as int),
            r is NoMatch ==> final(queue)@ == old(queue)@,
            (r matches AlgorithmResult::Found(g) ==> {
                &&& g.team1@.len() == self.team_size_spec()
                &&& g.team2@.len() == self.team_size_spec()
                &&& final(queue)@.len() + 2 * self.team_size_spec() == old(queue)@.len()
                &&& match_conserves(old(queue)@, final(queue)@, g.team1@, g.team2@)
                &&& is_subseq_of(final(queue)@, old(queue)@)
                &&& g.teams_disjoint()
                &&& g.ids_ok(pool)
                &&& valid_queue(pool, final(queue)@)
            }),
    ;
}

/// Identifiers split off a valid queue stay valid for the pool.
proof fn lemma_split_ids_valid(
    pool: &UserPool,
    q0: Seq<UserId>,
    rest: Seq<UserId>,
    t1: Seq<UserId>,
    t2: Seq<UserId>,
)
    requires
        ids_valid(pool, q0),
        match_conserves(q0, rest, t1, t2),
    ensures
        ids_valid(pool, t1),
        ids_valid(pool, t2),
        ids_valid(pool, rest),
{
    lemma_split_membership(q0, rest, t1, t2);
    assert forall|i: int| 0 <= i < t1.len() implies (#[trigger] t1[i]) < pool.user_count() by {
        let j = choose|j: int| 0 <= j < q0.len() && q0[j] == t1[i];
        assert(q0[j] < pool.user_count());
    }
    assert forall|i: int| 0 <= i < t2.len() implies (#[trigger] t2[i]) < pool.user_count() by {
        let j = choose|j: int| 0 <= j < q0.len() && q0[j] == t2[i];
        assert(q0[j] < pool.user_count());
    }
    assert forall|i: int| 0 <= i < rest.len() implies (#[trigger] rest[i]) < pool.user_count() by {
        let j = choose|j: int| 0 <= j < q0.len() && q0[j] == rest[i];
        assert(q0[j] < pool.user_count());
    }
}

/// Removes a uniformly chosen element, or reports an empty sequence.
pub fn peek_random<T>(vec: &mut Vec<T>) -> (r: Option<T>)
    ensures
        old(vec)@.len() == 0 ==> r is None && final(vec)@ == old(vec)@,
        old(vec)@.len() > 0 ==> exists|i: int|
            0 <= i < old(vec)@.len() && r == Some(old(vec)@[i]) && final(vec)@ == #[trigger] old(
                vec,
            )@.remove(i),
{
    if vec.len() == 0 {
        return Option::None;
    }
    let index = random_below(vec.len());
    let x = vec.remove(index);
    proof {
        assert(old(vec)@.remove(index as int) == vec@);
    }
    Option::Some(x)
}

/// Forms teams by removing uniformly random queue entries, alternating
/// between the teams; skill-blind.
#[derive(Debug)]
pub struct RandomPeekAlgorithm {
    pub team_size: usize,
}

impl RandomPeekAlgorithm {
    /// Builds the strategy, rejecting unusable team sizes.
    pub fn new(team_size: usize) -> (r: Result<RandomPeekAlgorithm, ConfigError>)
        ensures
            (r is Ok) <==> 1 <= team_size <= MAX_TEAM_SIZE,
            team_size == 0 ==> r == Err::<RandomPeekAlgorithm, ConfigError>(
                ConfigError::ZeroTeamSize,
            ),
            team_size > MAX_TEAM_SIZE ==> r == Err::<RandomPeekAlgorithm, ConfigError>(
                ConfigError::TeamSizeTooLarge,
            ),
            (r matches Ok(a) ==> a.team_size == team_size && a.valid()),
    {
        if team_size == 0 {
            Result::Err(ConfigError::ZeroTeamSize)
        } else if team_size > MAX_TEAM_SIZE {
            Result::Err(ConfigError::TeamSizeTooLarge)
        } else {
            Result::Ok(RandomPeekAlgorithm { team_size: team_size })
        }
    }
}

impl Algoritm for RandomPeekAlgorithm {
    open spec fn team_size_spec(&self) -> int {
        self.team_size as int
    }

    open spec fn valid(&self) -> bool {
        1 <= self.team_size <= MAX_TEAM_SIZE
    }

    open spec fn enough(&self, n: int) -> bool {
        n >= 2 * self.team_size
    }

    fn search(&self, queue: &mut Vec<UserId>, pool: &UserPool) -> (r: AlgorithmResult) {
        if queue.len() < self.team_size * 2 {
            return AlgorithmResult::NoMatch;
        }
        let ghost q0 = queue@;
        let mut team1: Vec<UserId> = Vec::new();
        let mut team2: Vec<UserId> = Vec::new();
        let mut k: usize = 0;
        proof {
            lemma_subseq_refl(queue@);
            broadcast use vstd::seq_lib::group_to_multiset_ensures;

            assert(queue@.to_multiset().add(team1@.to_multiset()).add(team2@.to_multiset()) =~= q0
                .to_multiset());
        }
        while k < self.team_size
            invariant
                0 <= k <= self.team_size <= MAX_TEAM_SIZE,
                team1@.len() == k,
                team2@.len() == k,
                queue@.len() + 2 * k == q0.len(),
                q0.len() >= 2 * self.team_size,
                match_conserves(q0, queue@, team1@, team2@),
                is_subseq_of(queue@, q0),
            decreases self.team_size - k,
        {
            let ghost q_pre1 = queue@;
            let ghost t1_pre = team1@;
            let x1 = peek_random(queue).unwrap();
            proof {
                let i = choose|i: int|
                    0 <= i < q_pre1.len() && Some(x1) == Some(q_pre1[i]) && queue@
                        == #[trigger] q_pre1.remove(i);
                lemma_pick_to_first(q_pre1, t1_pre, team2@, i);
                lemma_remove_is_subseq(q_pre1, i);
                lemma_subseq_trans(queue@, q_pre1, q0);
            }
            team1.push(x1);
            let ghost q_pre2 = queue@;
            let ghost t2_pre = team2@;
            let x2 = peek_random(queue).unwrap();
            proof {
                let i = choose|i: int|
                    0 <= i < q_pre2.len() && Some(x2) == Some(q_pre2[i]) && queue@
                        == #[trigger] q_pre2.remove(i);
                lemma_pick_to_second(q_pre2, team1@, t2_pre, i);
                lemma_remove_is_subseq(q_pre2, i);
                lemma_subseq_trans(queue@, q_pre2, q0);
            }
            team2.push(x2);
            k = k + 1;
        }
        proof {
            lemma_split_no_duplicates(q0, queue@, team1@, team2@);
            lemma_split_ids_valid(pool, q0, queue@, team1@, team2@);
        }
        AlgorithmResult::Found(Game::new(team1, team2))
    }
}

/// Forms teams in strict arrival order, alternating head-of-queue picks
/// between the teams; deterministic and skill-blind.
#[derive(Debug)]
pub struct FIFOAlgorithm {
    pub team_size: usize,
}

impl FIFOAlgorithm {
    /// Builds the strategy, rejecting unusable team sizes.
    pub fn new(team_size: usize) -> (r: Result<FIFOAlgorithm, ConfigError>)
        ensures
            (r is Ok) <==> 1 <= team_size <= MAX_TEAM_SIZE,
            team_size == 0 ==> r == Err::<FIFOAlgorithm, ConfigError>(ConfigError::ZeroTeamSize),
            team_size > MAX_TEAM_SIZE ==> r == Err::<FIFOAlgorithm, ConfigError>(
                ConfigError::TeamSizeTooLarge,
            ),
            (r matches Ok(a) ==> a.team_size == team_size && a.valid()),
    {
        if team_size == 0 {
            Result::Err(ConfigError::ZeroTeamSize)
        } else if team_size > MAX_TEAM_SIZE {
            Result::Err(ConfigError::TeamSizeTooLarge)
        } else {
            Result::Ok(FIFOAlgorithm { team_size: team_size })
        }
    }
}

impl Algoritm for FIFOAlgorithm {
    open spec fn team_size_spec(&self) -> int {
        self.team_size as int
    }

    open spec fn valid(&self) -> bool {
        1 <= self.team_size <= MAX_TEAM_SIZE
    }

    open spec fn enough(&self, n: int) -> bool {
        n >= 2 * self.team_size
    }

    fn search(&self, queue: &mut Vec<UserId>, pool: &UserPool) -> (r: AlgorithmResult)
        ensures
            (r matches AlgorithmResult::Found(g) ==> {
                &&& forall|j: int|
                    0 <= j < self.team_size ==> #[trigger] g.team1@[j] == old(queue)@[2 * j]
                &&& forall|j: int|
                    0 <= j < self.team_size ==> #[trigger] g.team2@[j] == old(queue)@[2 * j + 1]
                &&& final(queue)@ == old(queue)@.subrange(
                    2 * self.team_size as int,
                    old(queue)@.len() as int,
                )
            }),
    {
        if queue.len() < self.team_size * 2 {
            return AlgorithmResult::NoMatch;
        }
        let ghost q0 = queue@;
        let mut team1: Vec<UserId> = Vec::new();
        let mut team2: Vec<UserId> = Vec::new();
        let mut k: usize = 0;
        proof {
            lemma_subseq_refl(queue@);
            broadcast use vstd::seq_lib::group_to_multiset_ensures;

            assert(queue@.to_multiset().add(team1@.to_multiset()).add(team2@.to_multiset()) =~= q0
                .to_multiset());
            assert(q0.subrange(0, q0.len() as int) =~= q0);
        }
        while k < self.team_size
            invariant
                0 <= k <= self.team_size <= MAX_TEAM_SIZE,
                team1@.len() == k,
                team2@.len() == k,
                q0.len() >= 2 * self.team_size,
                queue@ == q0.subrange(2 * k, q0.len() as int),
                forall|j: int| 0 <= j < k ==> #[trigger] team1@[j] == q0[2 * j],
                forall|j: int| 0 <= j < k ==> #[trigger] team2@[j] == q0[2 * j + 1],
                match_conserves(q0, queue@, team1@, team2@),
                is_subseq_of(queue@, q0),
            decreases self.team_size - k,
        {
            let ghost q_pre1 = queue@;
            let ghost t1_pre = team1@;
            let x1 = queue.remove(0);
            proof {
                assert(queue@ == q_pre1.remove(0));
                lemma_pick_to_first(q_pre1, t1_pre, team2@, 0);
                lemma_remove_is_subseq(q_pre1, 0);
                lemma_subseq_trans(queue@, q_pre1, q0);
                assert(queue@ =~= q0.subrange(2 * k + 1, q0.len() as int));
            }
            team1.push(x1);
            let ghost q_pre2 = queue@;
            let ghost t2_pre = team2@;
            let x2 = queue.remove(0);
            proof {
                assert(queue@ == q_pre2.remove(0));
                lemma_pick_to_second(q_pre2, team1@, t2_pre, 0);
                lemma_remove_is_subseq(q_pre2, 0);
                lemma_subseq_trans(queue@, q_pre2, q0);
                assert(queue@ =~= q0.subrange(2 * (k + 1), q0.len() as int));
                assert(x1 == q0[2 * k] && x2 == q0[2 * k + 1]);
            }
            team2.push(x2);
            k = k + 1;
        }
        proof {
            lemma_split_no_duplicates(q0, queue@, team1@, team2@);
            lemma_split_ids_valid(pool, q0, queue@, team1@, team2@);
        }
        AlgorithmResult::Found(Game::new(team1, team2))
    }
}

/// How far a player's visible skill lies from a desired value.
pub open spec fn dist_to(pool: &UserPool, id: UserId, desired: int) -> int {
    vstd::math::abs(pool.spec_user(id as int).spec_skill() - desired) as int
}

fn dist_exec(pool: &UserPool, id: UserId, desired: i128) -> (d: i128)
    requires
        pool.wf(),
        (id as int) < pool.user_count(),
        -0x10000000000000000000000000000 <= desired <= 0x10000000000000000000000000000,
    ensures
        d == dist_to(pool, id, desired as int),
{
    let s = pool.get_user(&id).get_skill() as i128;
    let diff = s - desired;
    if diff >= 0 {
        diff
    } else {
        -diff
    }
}

/// The index of the queue entry whose visible skill lies closest to the
/// desired value; the earliest such entry on a tie.
fn best_index(queue: &Vec<UserId>, pool: &UserPool, desired: i128) -> (best: usize)
    requires
        pool.wf(),
        ids_valid(pool, queue@),
        queue@.len() > 0,
        -0x10000000000000000000000000000 <= desired <= 0x10000000000000000000000000000,
    ensures
        best < queue@.len(),
        forall|j: int|
            0 <= j < queue@.len() ==> dist_to(pool, queue@[best as int], desired as int)
                <= #[trigger] dist_to(pool, queue@[j], desired as int),
        forall|j: int|
            0 <= j < best ==> dist_to(pool, queue@[best as int], desired as int)
                < #[trigger] dist_to(pool, queue@[j], desired as int),
{
    let n = queue.len();
    let mut best: usize = 0;
    let mut best_d: i128 = dist_exec(pool, queue[0], desired);
    let mut j: usize = 1;
    while j < n
        invariant
            1 <= j <= n,
            n == queue@.len(),
            pool.wf(),
            ids_valid(pool, queue@),
            -0x10000000000000000000000000000 <= desired <= 0x10000000000000000000000000000,
            best < j,
            best_d == dist_to(pool, queue@[best as int], desired as int),
            forall|jj: int|
                0 <= jj < j ==> best_d <= #[trigger] dist_to(pool, queue@[jj], desired as int),
            forall|jj: int|
                0 <= jj < best ==> best_d < #[trigger] dist_to(pool, queue@[jj], desired as int),
        decreases n - j,
    {
        let d = dist_exec(pool, queue[j], desired);
        if d < best_d {
            best = j;
            best_d = d;
        }
        j = j + 1;
    }
    best
}

/// The value the greedy step aims for: the difference that would equalize
/// the running team sums, biased toward the queue average when the teams
/// are even.
pub open spec fn greedy_desired(
    pool: &UserPool,
    t1: Seq<UserId>,
    t2: Seq<UserId>,
    q: Seq<UserId>,
) -> int {
    let act = if t1.len() < t2.len() {
        t1
    } else {
        t2
    };
    let opp = if t1.len() < t2.len() {
        t2
    } else {
        t1
    };
    let delta = sum_skill(pool, opp) - sum_skill(pool, act);
    if t1.len() != t2.len() {
        delta
    } else {
        delta + div_trunc_spec(sum_skill(pool, q), q.len() as int)
    }
}

/// The earliest index whose distance to `desired` is minimal.
pub open spec fn first_min_index(pool: &UserPool, q: Seq<UserId>, desired: int) -> int
    decreases q.len(),
{
    if q.len() <= 1 {
        0
    } else {
        let rest = 1 + first_min_index(pool, q.drop_first(), desired);
        if dist_to(pool, q[0], desired) <= dist_to(pool, q[rest], desired) {
            0
        } else {
            rest
        }
    }
}

/// `first_min_index` names an in-range index of least distance, and every
/// earlier index lies strictly farther away.
pub proof fn lemma_first_min_characterization(pool: &UserPool, q: Seq<UserId>, desired: int)
    requires
        q.len() > 0,
    ensures
        0 <= first_min_index(pool, q, desired) < q.len(),
        forall|j: int|
            0 <= j < q.len() ==> dist_to(pool, q[first_min_index(pool, q, desired)], desired)
                <= #[trigger] dist_to(pool, q[j], desired),
        forall|j: int|
            0 <= j < first_min_index(pool, q, desired) ==> dist_to(
                pool,
                q[first_min_index(pool, q, desired)],
                desired,
            ) < #[trigger] dist_to(pool, q[j], desired),
    decreases q.len(),
{
    if q.len() > 1 {
        lemma_first_min_characterization(pool, q.drop_first(), desired);
        let ir = first_min_index(pool, q.drop_first(), desired);
        assert forall|j: int| 1 <= j < q.len() implies dist_to(pool, q[1 + ir], desired)
            <= #[trigger] dist_to(pool, q[j], desired) by {
            assert(q.drop_first()[j - 1] == q[j]);
            assert(q.drop_first()[ir] == q[1 + ir]);
            assert(dist_to(pool, q.drop_first()[ir], desired) <= dist_to(
                pool,
                q.drop_first()[j - 1],
                desired,
            ));
        }
        assert forall|j: int| 1 <= j < 1 + ir implies dist_to(pool, q[1 + ir], desired)
            < #[trigger] dist_to(pool, q[j], desired) by {
            assert(q.drop_first()[j - 1] == q[j]);
            assert(q.drop_first()[ir] == q[1 + ir]);
            assert(dist_to(pool, q.drop_first()[ir], desired) < dist_to(
                pool,
                q.drop_first()[j - 1],
                desired,
            ));
        }
    }
}

/// One greedy pick after another until both teams are full: the exact
/// sequence of choices the skill-balancing search makes after its prefill.
pub open spec fn skill_fill(
    pool: &UserPool,
    t1: Seq<UserId>,
    t2: Seq<UserId>,
    q: Seq<UserId>,
    ts: int,
) -> (Seq<UserId>, Seq<UserId>, Seq<UserId>)
    decreases q.len(),
    via skill_fill_decreases
{
    if t1.len() >= ts && t2.len() >= ts {
        (t1, t2, q)
    } else if q.len() == 0 {
        (t1, t2, q)
    } else {
        let desired = greedy_desired(pool, t1, t2, q);
        let i = first_min_index(pool, q, desired);
        let x = q[i];
        if t1.len() < t2.len() {
            skill_fill(pool, t1.push(x), t2, q.remove(i), ts)
        } else {
            skill_fill(pool, t1, t2.push(x), q.remove(i), ts)
        }
    }
}

#[via_fn]
proof fn skill_fill_decreases(
    pool: &UserPool,
    t1: Seq<UserId>,
    t2: Seq<UserId>,
    q: Seq<UserId>,
    ts: int,
) {
    if !(t1.len() >= ts && t2.len() >= ts) && q.len() > 0 {
        lemma_first_min_characterization(pool, q, greedy_desired(pool, t1, t2, q));
    }
}

/// Greedy skill balancing: an optional arrival-order prefill, then repeated
/// picks of the queue entry closest to the value that best equalizes the
/// running team skill sums. Requires a queue enlarged by `size_factor`
/// before it attempts a match. Factors are in thousandths.
#[derive(Debug)]
pub struct SkillLevelAlgorithm {
    pub team_size: usize,
    /// Queue-size factor in thousandths; 2000 demands twice the minimum.
    pub size_factor: u32,
    /// Prefill factor in thousandths of the full match size.
    pub prefill_factor: u32,
}

impl SkillLevelAlgorithm {
    /// Players taken straight off the queue head, in arrival order, before
    /// greedy selection begins.
    pub open spec fn prefill_count(&self) -> int {
        2 * self.team_size * self.prefill_factor / 1000
    }

    /// Builds the strategy, rejecting unusable configurations; factors are
    /// in thousandths.
    pub fn new(team_size: usize, size_factor: u32, prefill_factor: u32) -> (r: Result<
        SkillLevelAlgorithm,
        ConfigError,
    >)
        ensures
            (r is Ok) <==> (1 <= team_size <= MAX_TEAM_SIZE && 1000 <= size_factor <= MAX_SIZE_FACTOR
                && prefill_factor <= 1000),
            team_size == 0 ==> r == Err::<SkillLevelAlgorithm, ConfigError>(
                ConfigError::ZeroTeamSize,
            ),
            team_size > MAX_TEAM_SIZE ==> r == Err::<SkillLevelAlgorithm, ConfigError>(
                ConfigError::TeamSizeTooLarge,
            ),
            1 <= team_size <= MAX_TEAM_SIZE && size_factor < 1000 ==> r == Err::<
                SkillLevelAlgorithm,
                ConfigError,
            >(ConfigError::SizeFactorTooSmall),
            1 <= team_size <= MAX_TEAM_SIZE && size_factor > MAX_SIZE_FACTOR ==> r == Err::<
                SkillLevelAlgorithm,
                ConfigError,
            >(ConfigError::SizeFactorTooLarge),
            1 <= team_size <= MAX_TEAM_SIZE && 1000 <= size_factor <= MAX_SIZE_FACTOR && prefill_factor
                > 1000 ==> r == Err::<SkillLevelAlgorithm, ConfigError>(
                ConfigError::PrefillFactorTooLarge,
            ),
            (r matches Ok(a) ==> {
                &&& a.team_size == team_size
                &&& a.size_factor == size_factor
                &&& a.prefill_factor == prefill_factor
                &&& a.valid()
            }),
    {
        if team_size == 0 {
            Result::Err(ConfigError::ZeroTeamSize)
        } else if team_size > MAX_TEAM_SIZE {
            Result::Err(ConfigError::TeamSizeTooLarge)
        } else if size_factor < 1000 {
            Result::Err(ConfigError::SizeFactorTooSmall)
        } else if size_factor > MAX_SIZE_FACTOR {
            Result::Err(ConfigError::SizeFactorTooLarge)
        } else if prefill_factor > 1000 {
            Result::Err(ConfigError::PrefillFactorTooLarge)
        } else {
            Result::Ok(
                SkillLevelAlgorithm {
                    team_size: team_size,
                    size_factor: size_factor,
                    prefill_factor: prefill_factor,
                },
            )
        }
    }
}

impl Algoritm for SkillLevelAlgorithm {
    open spec fn team_size_spec(&self) -> int {
        self.team_size as int
    }

    open spec fn valid(&self) -> bool {
        &&& 1 <= self.team_size <= MAX_TEAM_SIZE
        &&& 1000 <= self.size_factor <= MAX_SIZE_FACTOR
        &&& self.prefill_factor <= 1000
    }

    open spec fn enough(&self, n: int) -> bool {
        n * 1000 >= 2 * self.team_size * self.size_factor
    }

    fn search(&self, queue: &mut Vec<UserId>, pool: &UserPool) -> (r: AlgorithmResult)
        ensures
            (r matches AlgorithmResult::Found(g) ==> {
                &&& forall|j: int|
                    0 <= j < (self.prefill_count() + 1) / 2 ==> #[trigger] g.team1@[j] == old(
                        queue,
                    )@[2 * j]
                &&& forall|j: int|
                    0 <= j < self.prefill_count() / 2 ==> #[trigger] g.team2@[j] == old(queue)@[2
                        * j + 1]
                &&& (g.team1@, g.team2@, final(queue)@) == skill_fill(
                    pool,
                    Seq::new((((self.prefill_count() + 1) / 2) as nat), |j: int| old(queue)@[2 * j]),
                    Seq::new(((self.prefill_count() / 2) as nat), |j: int| old(queue)@[2 * j + 1]),
                    old(queue)@.skip(self.prefill_count()),
                    self.team_size as int,
                )
            }),
    {
        let ghost q0 = queue@;
        proof {
            assert(2 * (self.team_size as int) * (self.size_factor as int) <= 2 * MAX_TEAM_SIZE
                * MAX_SIZE_FACTOR) by (nonlinear_arith)
                requires
                    self.team_size <= MAX_TEAM_SIZE,
                    self.size_factor <= MAX_SIZE_FACTOR,
                    self.team_size >= 0,
                    self.size_factor >= 0,
            ;
        }
        let need: u128 = 2 * (self.team_size as u128) * (self.size_factor as u128);
        if (queue.len() as u128) * 1000 < need {
            return AlgorithmResult::NoMatch;
        }
        proof {
            assert(q0.len() * 1000 >= 2 * self.team_size * 1000) by (nonlinear_arith)
                requires
                    q0.len() * 1000 >= 2 * self.team_size * self.size_factor,
                    self.size_factor >= 1000,
                    self.team_size >= 0,
            ;
        }
        proof {
            assert(2 * (self.team_size as int) * (self.prefill_factor as int) <= 2
                * (self.team_size as int) * 1000 <= 200_000_000_000) by (nonlinear_arith)
                requires
                    self.prefill_factor <= 1000,
                    0 <= self.team_size <= MAX_TEAM_SIZE,
            ;
        }
        let to_add64: u64 = (2 * (self.team_size as u64) * (self.prefill_factor as u64)) / 1000;
        proof {
            lemma_div_is_ordered(
                2 * (self.team_size as int) * (self.prefill_factor as int),
                2 * (self.team_size as int) * 1000,
                1000,
            );
            assert(2 * (self.team_size as int) * 1000 == 1000 * (2 * (self.team_size as int)))
                by (nonlinear_arith);
            lemma_div_multiples_vanish(2 * (self.team_size as int), 1000);
            vstd::arithmetic::div_mod::lemma_div_pos_is_pos(
                2 * (self.team_size as int) * (self.prefill_factor as int),
                1000,
            );
            assert(to_add64 == self.prefill_count());
            assert(to_add64 <= 2 * self.team_size);
        }
        let to_add: usize = to_add64 as usize;
        let mut team1: Vec<UserId> = Vec::new();
        let mut team2: Vec<UserId> = Vec::new();
        proof {
            lemma_subseq_refl(queue@);
            broadcast use vstd::seq_lib::group_to_multiset_ensures;

            assert(queue@.to_multiset().add(team1@.to_multiset()).add(team2@.to_multiset()) =~= q0
                .to_multiset());
            assert(q0.subrange(0, q0.len() as int) =~= q0);
        }
        let mut c: usize = 0;
        while c < to_add
            invariant
                0 <= c <= to_add,
                to_add == self.prefill_count(),
                to_add <= 2 * self.team_size,
                self.valid(),
                pool.wf(),
                valid_queue(pool, q0),
                q0.len() >= 2 * self.team_size,
                team1@.len() == (c + 1) / 2,
                team2@.len() == c / 2,
                queue@ == q0.subrange(c as int, q0.len() as int),
                forall|j: int| 0 <= j < team1@.len() ==> #[trigger] team1@[j] == q0[2 * j],
                forall|j: int| 0 <= j < team2@.len() ==> #[trigger] team2@[j] == q0[2 * j + 1],
                match_conserves(q0, queue@, team1@, team2@),
                is_subseq_of(queue@, q0),
            decreases to_add - c,
        {
            let target_first = team1.len() <= team2.len();
            let ghost q_pre = queue@;
            let ghost t1_pre = team1@;
            let ghost t2_pre = team2@;
            let x = queue.remove(0);
            proof {
                assert(queue@ == q_pre.remove(0));
                lemma_remove_is_subseq(q_pre, 0);
                lemma_subseq_trans(queue@, q_pre, q0);
                assert(queue@ =~= q0.subrange(c + 1, q0.len() as int));
                assert(x == q0[c as int]);
            }
            if target_first {
                proof {
                    lemma_pick_to_first(q_pre, t1_pre, t2_pre, 0);
                }
                team1.push(x);
            } else {
                proof {
                    lemma_pick_to_second(q_pre, t1_pre, t2_pre, 0);
                }
                team2.push(x);
            }
            c = c + 1;
        }
        let ghost na = (to_add + 1) as int / 2;
        let ghost nb = to_add as int / 2;
        let ghost t1p = Seq::new((((self.prefill_count() + 1) / 2) as nat), |j: int| q0[2 * j]);
        let ghost t2p = Seq::new(((self.prefill_count() / 2) as nat), |j: int| q0[2 * j + 1]);
        let ghost qp = q0.skip(self.prefill_count());
        proof {
            assert(team1@ =~= t1p);
            assert(team2@ =~= t2p);
            assert(queue@ =~= qp);
        }
        while team1.len() < self.team_size || team2.len() < self.team_size
            invariant
                self.valid(),
                pool.wf(),
                valid_queue(pool, q0),
                to_add == self.prefill_count(),
                na == (self.prefill_count() + 1) / 2,
                nb == self.prefill_count() / 2,
                q0.len() >= 2 * self.team_size,
                team1@.len() <= self.team_size,
                team2@.len() <= self.team_size,
                team1@.len() >= na,
                team2@.len() >= nb,
                queue@.len() + team1@.len() + team2@.len() == q0.len(),
                ids_valid(pool, queue@),
                ids_valid(pool, team1@),
                ids_valid(pool, team2@),
                forall|j: int| 0 <= j < na ==> #[trigger] team1@[j] == q0[2 * j],
                forall|j: int| 0 <= j < nb ==> #[trigger] team2@[j] == q0[2 * j + 1],
                match_conserves(q0, queue@, team1@, team2@),
                is_subseq_of(queue@, q0),
                skill_fill(pool, team1@, team2@, queue@, self.team_size as int) == skill_fill(
                    pool,
                    t1p,
                    t2p,
                    qp,
                    self.team_size as int,
                ),
            decreases 2 * self.team_size - team1@.len() - team2@.len(),
        {
            let t1_active = team1.len() < team2.len();
            let (act_sum, opp_sum): (i128, i128) = if t1_active {
                (team_skill_sum(pool, &team1), team_skill_sum(pool, &team2))
            } else {
                (team_skill_sum(pool, &team2), team_skill_sum(pool, &team1))
            };
            proof {
                lemma_mul_inequality(team1@.len() as int, MAX_TEAM_SIZE as int, SKILL_LIMIT as int);
                lemma_mul_inequality(team2@.len() as int, MAX_TEAM_SIZE as int, SKILL_LIMIT as int);
            }
            let delta: i128 = opp_sum - act_sum;
            let qlen = queue.len();
            let qsum = team_skill_sum(pool, queue);
            proof {
                assert(qlen == queue@.len());
                lemma_mul_inequality(
                    queue@.len() as int,
                    0x10000000000000000,
                    SKILL_LIMIT as int,
                );
            }
            let qavg = div_trunc(qsum, qlen as i128);
            let desired: i128 = if team1.len() != team2.len() {
                delta
            } else {
                delta + qavg
            };
            let idx = best_index(queue, pool, desired);
            let ghost q_pre = queue@;
            let ghost t1_pre = team1@;
            let ghost t2_pre = team2@;
            let cand = queue.remove(idx);
            proof {
                assert(queue@ == q_pre.remove(idx as int));
                lemma_remove_is_subseq(q_pre, idx as int);
                lemma_subseq_trans(queue@, q_pre, q0);
                assert(cand == q_pre[idx as int]);
                assert forall|i: int| 0 <= i < queue@.len() implies (#[trigger] queue@[i])
                    < pool.user_count() by {
                    if i < idx {
                        assert(queue@[i] == q_pre[i]);
                    } else {
                        assert(queue@[i] == q_pre[i + 1]);
                    }
                }
            }
            if t1_active {
                proof {
                    lemma_pick_to_first(q_pre, t1_pre, t2_pre, idx as int);
                }
                team1.push(cand);
            } else {
                proof {
                    lemma_pick_to_second(q_pre, t1_pre, t2_pre, idx as int);
                }
                team2.push(cand);
            }
            proof {
                let ds = desired as int;
                assert(ds == greedy_desired(pool, t1_pre, t2_pre, q_pre));
                lemma_first_min_characterization(pool, q_pre, ds);
                let fmi = first_min_index(pool, q_pre, ds);
                if (idx as int) < fmi {
                    assert(dist_to(pool, q_pre[fmi], ds) < dist_to(pool, q_pre[idx as int], ds));
                    assert(dist_to(pool, q_pre[idx as int], ds) <= dist_to(pool, q_pre[fmi], ds));
                    assert(false);
                }
                if fmi < (idx as int) {
                    assert(dist_to(pool, q_pre[idx as int], ds) < dist_to(pool, q_pre[fmi], ds));
                    assert(dist_to(pool, q_pre[fmi], ds) <= dist_to(pool, q_pre[idx as int], ds));
                    assert(false);
                }
                assert(idx as int == fmi);
                if t1_active {
                    assert(skill_fill(pool, t1_pre, t2_pre, q_pre, self.team_size as int)
                        == skill_fill(
                        pool,
                        t1_pre.push(cand),
                        t2_pre,
                        q_pre.remove(idx as int),
                        self.team_size as int,
                    ));
                } else {
                    assert(skill_fill(pool, t1_pre, t2_pre, q_pre, self.team_size as int)
                        == skill_fill(
                        pool,
                        t1_pre,
                        t2_pre.push(cand),
                        q_pre.remove(idx as int),
                        self.team_size as int,
                    ));
                }
            }
        }
        proof {
            assert(skill_fill(pool, team1@, team2@, queue@, self.team_size as int) == (
                team1@,
                team2@,
                queue@,
            ));
        }
        proof {
            lemma_split_no_duplicates(q0, queue@, team1@, team2@);
            lemma_split_ids_valid(pool, q0, queue@, team1@, team2@);
        }
        AlgorithmResult::Found(Game::new(team1, team2))
    }
}

/// A match drained from a duplicate-free queue has duplicate-free, disjoint
/// teams, none of whose members remain in the queue.
pub proof fn lemma_match_disjoint(old_q: Seq<UserId>, new_q: Seq<UserId>, g: &Game)
    requires
        old_q.no_duplicates(),
        match_conserves(old_q, new_q, g.team1@, g.team2@),
    ensures
        g.teams_disjoint(),
        new_q.no_duplicates(),
        forall|i: int, j: int|
            0 <= i < g.team1@.len() && 0 <= j < new_q.len() ==> g.team1@[i] != new_q[j],
        forall|i: int, j: int|
            0 <= i < g.team2@.len() && 0 <= j < new_q.len() ==> g.team2@[i] != new_q[j],
{
    lemma_split_no_duplicates(old_q, new_q, g.team1@, g.team2@);
}

/// When every player waiting in the old queue shows the same estimate, two
/// equally sized teams drained from it have exactly equal skill sums.
pub proof fn lemma_equal_skill_balance(
    pool: &UserPool,
    old_q: Seq<UserId>,
    new_q: Seq<UserId>,
    g: &Game,
    e: i64,
)
    requires
        match_conserves(old_q, new_q, g.team1@, g.team2@),
        g.team1@.len() == g.team2@.len(),
        forall|i: int|
            0 <= i < old_q.len() ==> pool.spec_user((#[trigger] old_q[i]) as int).spec_skill()
                == e,
    ensures
        sum_skill(pool, g.team1@) == sum_skill(pool, g.team2@),
{
    lemma_split_membership(old_q, new_q, g.team1@, g.team2@);
    assert forall|i: int|
        0 <= i < g.team1@.len() implies pool.spec_user(
        (#[trigger] g.team1@[i]) as int,
    ).spec_skill() == e by {
        assert(old_q.contains(g.team1@[i]));
        let j = choose|j: int| 0 <= j < old_q.len() && old_q[j] == g.team1@[i];
        assert(pool.spec_user(old_q[j] as int).spec_skill() == e);
    }
    assert forall|i: int|
        0 <= i < g.team2@.len() implies pool.spec_user(
        (#[trigger] g.team2@[i]) as int,
    ).spec_skill() == e by {
        assert(old_q.contains(g.team2@[i]));
        let j = choose|j: int| 0 <= j < old_q.len() && old_q[j] == g.team2@[i];
        assert(pool.spec_user(old_q[j] as int).spec_skill() == e);
    }
    lemma_sum_skill_constant(pool, g.team1@, e);
    lemma_sum_skill_constant(pool, g.team2@, e);
}

} // verus!
