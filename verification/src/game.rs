//! A formed match of two teams, the outcome decider, and the rating update
//! applied after each match.

use vstd::arithmetic::div_mod::{lemma_div_is_ordered, lemma_div_multiples_vanish};
use vstd::prelude::*;

use crate::elo::{elo_delta, elo_delta_spec, K_MILLI};
use crate::rng::random_bool;
use crate::skill::{div_trunc, div_trunc_spec, SKILL_LIMIT};
use crate::user::{
    ids_valid, sum_real, sum_skill, team_real_sum, team_skill_sum, UserId, UserPool,
};

verus! {

/// Whether `id` occurs in a team.
pub open spec fn id_in(ids: Seq<UserId>, id: int) -> bool {
    exists|k: int| 0 <= k < ids.len() && ids[k] == id
}

/// The mean visible skill of a team, rounded toward zero.
pub open spec fn team_mean(pool: &UserPool, ids: Seq<UserId>) -> int
    recommends
        ids.len() > 0,
{
    div_trunc_spec(sum_skill(pool, ids), ids.len() as int)
}

/// Every identified estimate leaves room for one full update step, so the
/// storage bound cannot be crossed.
pub open spec fn estimate_headroom(pool: &UserPool, ids: Seq<UserId>) -> bool {
    forall|i: int|
        0 <= i < ids.len() ==> {
            let u = pool.spec_user((#[trigger] ids[i]) as int);
            -SKILL_LIMIT + K_MILLI <= u.spec_estimate() <= SKILL_LIMIT - K_MILLI
        }
}

/// A truncated mean of values within the storage bound stays within it.
proof fn lemma_mean_bound(s: int, n: int)
    requires
        n >= 1,
        -(n * SKILL_LIMIT) <= s <= n * SKILL_LIMIT,
    ensures
        -SKILL_LIMIT <= div_trunc_spec(s, n) <= SKILL_LIMIT,
{
    if s >= 0 {
        lemma_div_is_ordered(s, n * SKILL_LIMIT, n);
        lemma_div_multiples_vanish(SKILL_LIMIT as int, n);
        vstd::arithmetic::div_mod::lemma_div_pos_is_pos(s, n);
    } else {
        lemma_div_is_ordered(-s, n * SKILL_LIMIT, n);
        lemma_div_multiples_vanish(SKILL_LIMIT as int, n);
        vstd::arithmetic::div_mod::lemma_div_pos_is_pos(-s, n);
    }
}

/// Two teams formed atomically from the queue, identified by player ids.
#[derive(Debug, PartialEq)]
pub struct Game {
    pub team1: Vec<UserId>,
    pub team2: Vec<UserId>,
}

impl Game {
    /// Every identifier names a record of the pool.
    pub open spec fn ids_ok(&self, pool: &UserPool) -> bool {
        ids_valid(pool, self.team1@) && ids_valid(pool, self.team2@)
    }

    /// Teams are duplicate-free and disjoint.
    pub open spec fn teams_disjoint(&self) -> bool {
        &&& self.team1@.no_duplicates()
        &&& self.team2@.no_duplicates()
        &&& forall|i: int, j: int|
            0 <= i < self.team1@.len() && 0 <= j < self.team2@.len() ==> self.team1@[i]
                != self.team2@[j]
    }

    pub fn new(team1: Vec<UserId>, team2: Vec<UserId>) -> (g: Game)
        ensures
            g.team1@ == team1@,
            g.team2@ == team2@,
    {
        Game { team1: team1, team2: team2 }
    }

    /// The winning side's ids, `1` naming the first team.
    pub open spec fn winners_of(&self, win_team: u32) -> Seq<UserId> {
        if win_team == 1 {
            self.team1@
        } else {
            self.team2@
        }
    }

    pub open spec fn losers_of(&self, win_team: u32) -> Seq<UserId> {
        if win_team == 1 {
            self.team2@
        } else {
            self.team1@
        }
    }

    /// Applies the rating update for this match: every winner gains and
    /// every loser loses the identical delta computed from the two teams'
    /// mean visible skills. In oracle mode the pool ignores the update.
    pub fn process(&self, pool: &mut UserPool, win_team: u32)
        requires
            old(pool).wf(),
            win_team == 1 || win_team == 2,
            self.ids_ok(old(pool)),
            self.teams_disjoint(),
            self.team1@.len() > 0,
            self.team2@.len() > 0,
            !old(pool).spec_oracle() ==> estimate_headroom(old(pool), self.team1@)
                && estimate_headroom(old(pool), self.team2@),
        ensures
            final(pool).wf(),
            final(pool).spec_oracle() == old(pool).spec_oracle(),
            final(pool).user_count() == old(pool).user_count(),
            forall|i: int|
                0 <= i < old(pool).user_count() ==> {
                    let u0 = old(pool).spec_user(i);
                    let u1 = #[trigger] final(pool).spec_user(i);
                    &&& u1.spec_id() == u0.spec_id()
                    &&& u1.spec_real() == u0.spec_real()
                    &&& u1.spec_join_time() == u0.spec_join_time()
                    &&& u1.spec_oracle() == u0.spec_oracle()
                },
            old(pool).spec_oracle() ==> forall|i: int|
                0 <= i < old(pool).user_count() ==> #[trigger] final(pool).spec_user(i) == old(
                    pool,
                ).spec_user(i),
            !old(pool).spec_oracle() ==> forall|i: int|
                0 <= i < old(pool).user_count() ==> #[trigger] final(pool).spec_user(
                    i,
                ).spec_estimate() == {
                    let w = self.winners_of(win_team);
                    let l = self.losers_of(win_team);
                    let dv = elo_delta_spec(team_mean(old(pool), w), team_mean(old(pool), l));
                    if id_in(w, i) {
                        old(pool).spec_user(i).spec_estimate() + dv
                    } else if id_in(l, i) {
                        old(pool).spec_user(i).spec_estimate() - dv
                    } else {
                        old(pool).spec_user(i).spec_estimate() as int
                    }
                },
    {
        let ghost pool0 = *old(pool);
        let (winners, losers): (&Vec<UserId>, &Vec<UserId>) = match win_team {
            1 => (&self.team1, &self.team2),
            _ => (&self.team2, &self.team1),
        };
        let ghost w = winners@;
        let ghost l = losers@;
        let wsum = team_skill_sum(pool, winners);
        let lsum = team_skill_sum(pool, losers);
        proof {
            lemma_mean_bound(wsum as int, w.len() as int);
            lemma_mean_bound(lsum as int, l.len() as int);
        }
        let wmean = div_trunc(wsum, winners.len() as i128) as i64;
        let lmean = div_trunc(lsum, losers.len() as i128) as i64;
        let dv = elo_delta(wmean, lmean);
        let ghost dvs = elo_delta_spec(team_mean(&pool0, w), team_mean(&pool0, l));
        let n = winners.len();
        let mut k: usize = 0;
        while k < n
            invariant
                0 <= k <= n,
                n == w.len(),
                w == winners@,
                pool0.wf(),
                ids_valid(&pool0, w),
                w.no_duplicates(),
                !pool0.spec_oracle() ==> estimate_headroom(&pool0, w),
                0 <= dv <= K_MILLI,
                dv == dvs,
                pool.wf(),
                pool.spec_oracle() == pool0.spec_oracle(),
                pool.user_count() == pool0.user_count(),
                forall|i: int|
                    0 <= i < pool0.user_count() ==> {
                        let u0 = pool0.spec_user(i);
                        let u1 = #[trigger] pool.spec_user(i);
                        &&& u1.spec_id() == u0.spec_id()
                        &&& u1.spec_real() == u0.spec_real()
                        &&& u1.spec_join_time() == u0.spec_join_time()
                        &&& u1.spec_oracle() == u0.spec_oracle()
                    },
                pool0.spec_oracle() ==> forall|i: int|
                    0 <= i < pool0.user_count() ==> #[trigger] pool.spec_user(i)
                        == pool0.spec_user(i),
                !pool0.spec_oracle() ==> forall|i: int|
                    0 <= i < pool0.user_count() ==> #[trigger] pool.spec_user(i).spec_estimate()
                        == if id_in(w.take(k as int), i) {
                        pool0.spec_user(i).spec_estimate() + dvs
                    } else {
                        pool0.spec_user(i).spec_estimate() as int
                    },
            decreases n - k,
        {
            let id = winners[k];
            proof {
                assert(!id_in(w.take(k as int), id as int)) by {
                    if id_in(w.take(k as int), id as int) {
                        let j = choose|j: int|
                            0 <= j < k && w.take(k as int)[j] == id as int;
                        assert(w[j] == w[k as int]);
                    }
                }
                assert(pool.spec_user(id as int).spec_oracle() == pool0.spec_oracle());
                assert(!pool0.spec_oracle() ==> -SKILL_LIMIT + K_MILLI <= pool0.spec_user(
                    id as int,
                ).spec_estimate() <= SKILL_LIMIT - K_MILLI) by {
                    assert(w[k as int] == id);
                }
                assert(!pool0.spec_oracle() ==> pool.spec_user(id as int).spec_estimate()
                    == pool0.spec_user(id as int).spec_estimate());
            }
            let ghost pool_pre = *pool;
            let u = pool.get_user_mut(&id);
            u.update_skill(dv);
            proof {
                let iid = id as int;
                assert(pool.spec_users().len() == pool_pre.spec_users().len());
                assert(forall|i: int|
                    0 <= i < pool0.user_count() && i != iid ==> #[trigger] pool.spec_user(i)
                        == pool_pre.spec_user(i));
                if pool0.spec_oracle() {
                    assert(pool.spec_user(iid) == pool_pre.spec_user(iid));
                    assert(pool.spec_users() =~= pool_pre.spec_users());
                } else {
                    assert(pool.spec_user(iid).spec_estimate() == pool_pre.spec_user(
                        iid,
                    ).spec_estimate() + dv);
                    assert(pool.spec_user(iid).spec_id() == pool_pre.spec_user(iid).spec_id());
                    assert(pool.spec_user(iid).spec_real() == pool_pre.spec_user(
                        iid,
                    ).spec_real());
                    assert(pool.spec_user(iid).spec_join_time() == pool_pre.spec_user(
                        iid,
                    ).spec_join_time());
                    assert(pool.spec_user(iid).spec_oracle() == pool_pre.spec_user(
                        iid,
                    ).spec_oracle());
                }
                assert forall|i: int|
                    0 <= i < pool.user_count() implies {
                    &&& (#[trigger] pool.spec_user(i)).wf()
                    &&& pool.spec_user(i).spec_id() == i
                    &&& pool.spec_user(i).spec_oracle() == pool.spec_oracle()
                } by {
                    assert(pool_pre.spec_user(i).wf());
                    assert(pool_pre.spec_user(i).spec_id() == i);
                }
                assert forall|i: int|
                    0 <= i < pool0.user_count() && !pool0.spec_oracle() implies #[trigger] pool
                    .spec_user(i).spec_estimate() == if id_in(w.take(k + 1), i) {
                    pool0.spec_user(i).spec_estimate() + dvs
                } else {
                    pool0.spec_user(i).spec_estimate() as int
                } by {
                    if i == id as int {
                        assert(w.take(k + 1)[k as int] == id);
                        assert(id_in(w.take(k + 1), i));
                    } else {
                        assert(id_in(w.take(k + 1), i) == id_in(w.take(k as int), i)) by {
                            if id_in(w.take(k + 1), i) {
                                let j = choose|j: int|
                                    0 <= j < k + 1 && (#[trigger] w.take(k + 1)[j]) == i;
                                assert(j != k);
                                assert(w.take(k as int)[j] == i);
                            }
                            if id_in(w.take(k as int), i) {
                                let j = choose|j: int|
                                    0 <= j < k && (#[trigger] w.take(k as int)[j]) == i;
                                assert(w.take(k + 1)[j] == i);
                            }
                        }
                    }
                }
            }
            k = k + 1;
        }
        proof {
            assert(w.take(w.len() as int) =~= w);
        }
        let m = losers.len();
        let mut k2: usize = 0;
        while k2 < m
            invariant
                0 <= k2 <= m,
                m == l.len(),
                l == losers@,
                n == w.len(),
                w == winners@,
                pool0.wf(),
                ids_valid(&pool0, l),
                l.no_duplicates(),
                forall|i: int, j: int|
                    0 <= i < w.len() && 0 <= j < l.len() ==> w[i] != l[j],
                !pool0.spec_oracle() ==> estimate_headroom(&pool0, l),
                0 <= dv <= K_MILLI,
                dv == dvs,
                pool.wf(),
                pool.spec_oracle() == pool0.spec_oracle(),
                pool.user_count() == pool0.user_count(),
                forall|i: int|
                    0 <= i < pool0.user_count() ==> {
                        let u0 = pool0.spec_user(i);
                        let u1 = #[trigger] pool.spec_user(i);
                        &&& u1.spec_id() == u0.spec_id()
                        &&& u1.spec_real() == u0.spec_real()
                        &&& u1.spec_join_time() == u0.spec_join_time()
                        &&& u1.spec_oracle() == u0.spec_oracle()
                    },
                pool0.spec_oracle() ==> forall|i: int|
                    0 <= i < pool0.user_count() ==> #[trigger] pool.spec_user(i)
                        == pool0.spec_user(i),
                !pool0.spec_oracle() ==> forall|i: int|
                    0 <= i < pool0.user_count() ==> #[trigger] pool.spec_user(i).spec_estimate()
                        == if id_in(w, i) {
                        pool0.spec_user(i).spec_estimate() + dvs
                    } else if id_in(l.take(k2 as int), i) {
                        pool0.spec_user(i).spec_estimate() - dvs
                    } else {
                        pool0.spec_user(i).spec_estimate() as int
                    },
            decreases m - k2,
        {
            let id = losers[k2];
            proof {
                assert(!id_in(w, id as int)) by {
                    if id_in(w, id as int) {
                        let j = choose|j: int| 0 <= j < w.len() && w[j] == id as int;
                        assert(w[j] != l[k2 as int]);
                    }
                }
                assert(!id_in(l.take(k2 as int), id as int)) by {
                    if id_in(l.take(k2 as int), id as int) {
                        let j = choose|j: int|
                            0 <= j < k2 && l.take(k2 as int)[j] == id as int;
                        assert(l[j] == l[k2 as int]);
                    }
                }
                assert(pool.spec_user(id as int).spec_oracle() == pool0.spec_oracle());
                assert(!pool0.spec_oracle() ==> -SKILL_LIMIT + K_MILLI <= pool0.spec_user(
                    id as int,
                ).spec_estimate() <= SKILL_LIMIT - K_MILLI) by {
                    assert(l[k2 as int] == id);
                }
                assert(!pool0.spec_oracle() ==> pool.spec_user(id as int).spec_estimate()
                    == pool0.spec_user(id as int).spec_estimate());
            }
            let ghost pool_pre = *pool;
            let u = pool.get_user_mut(&id);
            u.update_skill(-dv);
            proof {
                let iid = id as int;
                assert(pool.spec_users().len() == pool_pre.spec_users().len());
                assert(forall|i: int|
                    0 <= i < pool0.user_count() && i != iid ==> #[trigger] pool.spec_user(i)
                        == pool_pre.spec_user(i));
                if pool0.spec_oracle() {
                    assert(pool.spec_user(iid) == pool_pre.spec_user(iid));
                    assert(pool.spec_users() =~= pool_pre.spec_users());
                } else {
                    assert(pool.spec_user(iid).spec_estimate() == pool_pre.spec_user(
                        iid,
                    ).spec_estimate() - dv);
                    assert(pool.spec_user(iid).spec_id() == pool_pre.spec_user(iid).spec_id());
                    assert(pool.spec_user(iid).spec_real() == pool_pre.spec_user(
                        iid,
                    ).spec_real());
                    assert(pool.spec_user(iid).spec_join_time() == pool_pre.spec_user(
                        iid,
                    ).spec_join_time());
                    assert(pool.spec_user(iid).spec_oracle() == pool_pre.spec_user(
                        iid,
                    ).spec_oracle());
                }
                assert forall|i: int|
                    0 <= i < pool.user_count() implies {
                    &&& (#[trigger] pool.spec_user(i)).wf()
                    &&& pool.spec_user(i).spec_id() == i
                    &&& pool.spec_user(i).spec_oracle() == pool.spec_oracle()
                } by {
                    assert(pool_pre.spec_user(i).wf());
                    assert(pool_pre.spec_user(i).spec_id() == i);
                }
                assert forall|i: int|
                    0 <= i < pool0.user_count() && !pool0.spec_oracle() implies #[trigger] pool
                    .spec_user(i).spec_estimate() == if id_in(w, i) {
                    pool0.spec_user(i).spec_estimate() + dvs
                } else if id_in(l.take(k2 + 1), i) {
                    pool0.spec_user(i).spec_estimate() - dvs
                } else {
                    pool0.spec_user(i).spec_estimate() as int
                } by {
                    if i == id as int {
                        assert(l.take(k2 + 1)[k2 as int] == id);
                        assert(id_in(l.take(k2 + 1), i));
                    } else {
                        assert(id_in(l.take(k2 + 1), i) == id_in(l.take(k2 as int), i)) by {
                            if id_in(l.take(k2 + 1), i) {
                                let j = choose|j: int|
                                    0 <= j < k2 + 1 && (#[trigger] l.take(k2 + 1)[j]) == i;
                                assert(j != k2);
                                assert(l.take(k2 as int)[j] == i);
                            }
                            if id_in(l.take(k2 as int), i) {
                                let j = choose|j: int|
                                    0 <= j < k2 && (#[trigger] l.take(k2 as int)[j]) == i;
                                assert(l.take(k2 + 1)[j] == i);
                            }
                        }
                    }
                }
            }
            k2 = k2 + 1;
        }
        proof {
            assert(l.take(l.len() as int) =~= l);
        }
    }
}

/// Declares a winning side for a formed match.
pub trait GameDecider {
    /// Returns the winning side: `1` for the first team, `2` for the second.
    fn decide(&self, game: &Game, pool: &UserPool) -> (winner: u32)
        requires
            pool.wf(),
            game.ids_ok(pool),
        ensures
            winner == 1 || winner == 2,
    ;
}

/// Decides by true skill: the strictly stronger team wins; exact ties are
/// resolved by a coin flip.
#[derive(Debug)]
pub struct RealSkillLevelDecider {}

impl GameDecider for RealSkillLevelDecider {
    fn decide(&self, game: &Game, pool: &UserPool) -> (winner: u32)
        ensures
            winner == 1 || winner == 2,
            sum_real(pool, game.team1@) > sum_real(pool, game.team2@) ==> winner == 1,
            sum_real(pool, game.team1@) < sum_real(pool, game.team2@) ==> winner == 2,
    {
        let skill1 = team_real_sum(pool, &game.team1);
        let skill2 = team_real_sum(pool, &game.team2);
        if skill1 == skill2 {
            if random_bool() {
                return 1;
            } else {
                return 2;
            }
        }
        if skill1 > skill2 {
            1
        } else {
            2
        }
    }
}

} // verus!
