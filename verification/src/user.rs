//! Player records and the pool that owns them.
//!
//! The pool is the only writer of mutable player state (skill estimate and
//! queue-join time); every other component refers to players by identifier.
//! In oracle mode (`use_real_skill`) the visible skill is pinned to the true
//! skill and estimate updates are ignored.

use vstd::prelude::*;

use crate::skill::SKILL_LIMIT;

verus! {

pub type UserId = usize;

#[derive(Debug)]
pub struct UserData {
    pub id: UserId,
    pub real_skill: i64,
    skill: i64,
    join_time: u32,
    use_real_skill: bool,
}

impl UserData {
    pub closed spec fn spec_id(&self) -> UserId {
        self.id
    }

    /// The immutable true skill, in fixed-point units.
    pub closed spec fn spec_real(&self) -> i64 {
        self.real_skill
    }

    /// The stored skill estimate, in fixed-point units.
    pub closed spec fn spec_estimate(&self) -> i64 {
        self.skill
    }

    pub closed spec fn spec_join_time(&self) -> u32 {
        self.join_time
    }

    /// Whether this record reports its true skill instead of the estimate.
    pub closed spec fn spec_oracle(&self) -> bool {
        self.use_real_skill
    }

    /// The skill value visible to the matchmaking algorithms.
    pub open spec fn spec_skill(&self) -> i64 {
        if self.spec_oracle() {
            self.spec_real()
        } else {
            self.spec_estimate()
        }
    }

    pub open spec fn wf(&self) -> bool {
        &&& -SKILL_LIMIT <= self.spec_estimate() <= SKILL_LIMIT
        &&& -SKILL_LIMIT <= self.spec_real() <= SKILL_LIMIT
    }

    fn new(id: UserId, initial_skill: i64, real_skill: i64, use_real_skill: bool) -> (u: UserData)
        ensures
            u.spec_id() == id,
            u.spec_estimate() == initial_skill,
            u.spec_real() == real_skill,
            u.spec_oracle() == use_real_skill,
            u.spec_join_time() == 0,
    {
        UserData {
            id: id,
            skill: initial_skill,
            real_skill: real_skill,
            join_time: 0,
            use_real_skill: use_real_skill,
        }
    }

    pub fn set_join_time(&mut self, join_time: u32)
        ensures
            final(self).spec_join_time() == join_time,
            final(self).spec_id() == old(self).spec_id(),
            final(self).spec_real() == old(self).spec_real(),
            final(self).spec_estimate() == old(self).spec_estimate(),
            final(self).spec_oracle() == old(self).spec_oracle(),
    {
        self.join_time = join_time;
    }

    pub fn get_join_time(&self) -> (t: u32)
        ensures
            t == self.spec_join_time(),
    {
        self.join_time
    }

    /// Adds `delta` to the stored estimate; a no-op in oracle mode.
    pub fn update_skill(&mut self, delta: i64)
        requires
            !old(self).spec_oracle() ==> -SKILL_LIMIT <= old(self).spec_estimate() + delta
                <= SKILL_LIMIT,
        ensures
            old(self).spec_oracle() ==> *final(self) == *old(self),
            !old(self).spec_oracle() ==> final(self).spec_estimate() == old(self).spec_estimate()
                + delta,
            final(self).spec_id() == old(self).spec_id(),
            final(self).spec_real() == old(self).spec_real(),
            final(self).spec_join_time() == old(self).spec_join_time(),
            final(self).spec_oracle() == old(self).spec_oracle(),
    {
        if self.use_real_skill {
            return;
        }
        self.skill = self.skill + delta;
    }

    pub fn get_skill(&self) -> (s: i64)
        ensures
            s == self.spec_skill(),
    {
        if self.use_real_skill {
            self.real_skill
        } else {
            self.skill
        }
    }
}

#[derive(Debug)]
pub struct UserPool {
    users: Vec<UserData>,
    pub use_real_skill: bool,
}

/// Total absolute difference between true skill and visible skill.
pub open spec fn sum_abs_err(users: Seq<UserData>) -> int
    decreases users.len(),
{
    if users.len() == 0 {
        0
    } else {
        sum_abs_err(users.drop_last()) + vstd::math::abs(
            users.last().spec_real() - users.last().spec_skill(),
        )
    }
}

/// Total visible skill of the identified players.
pub open spec fn sum_skill(pool: &UserPool, ids: Seq<UserId>) -> int
    decreases ids.len(),
{
    if ids.len() == 0 {
        0
    } else {
        sum_skill(pool, ids.drop_last()) + pool.spec_user(ids.last() as int).spec_skill()
    }
}

/// Total true skill of the identified players.
pub open spec fn sum_real(pool: &UserPool, ids: Seq<UserId>) -> int
    decreases ids.len(),
{
    if ids.len() == 0 {
        0
    } else {
        sum_real(pool, ids.drop_last()) + pool.spec_user(ids.last() as int).spec_real()
    }
}

/// Every identifier in the sequence names a record of the pool.
pub open spec fn ids_valid(pool: &UserPool, ids: Seq<UserId>) -> bool {
    forall|i: int| 0 <= i < ids.len() ==> (#[trigger] ids[i]) < pool.user_count()
}

impl UserPool {
    pub closed spec fn spec_users(&self) -> Seq<UserData> {
        self.users@
    }

    /// Whether the pool runs in oracle mode.
    pub closed spec fn spec_oracle(&self) -> bool {
        self.use_real_skill
    }

    pub open spec fn user_count(&self) -> nat {
        self.spec_users().len()
    }

    pub open spec fn spec_user(&self, id: int) -> UserData {
        self.spec_users()[id]
    }

    pub open spec fn wf(&self) -> bool {
        forall|i: int|
            0 <= i < self.user_count() ==> {
                &&& (#[trigger] self.spec_user(i)).wf()
                &&& self.spec_user(i).spec_id() == i
                &&& self.spec_user(i).spec_oracle() == self.spec_oracle()
            }
    }

    pub fn new(use_real_skill: bool) -> (p: UserPool)
        ensures
            p.wf(),
            p.user_count() == 0,
            p.spec_oracle() == use_real_skill,
    {
        UserPool { users: Vec::new(), use_real_skill: use_real_skill }
    }

    /// Creates a record and returns its fresh, densely assigned identifier.
    pub fn generate(&mut self, initial_skill: i64, real_skill: i64) -> (id: UserId)
        requires
            old(self).wf(),
            -SKILL_LIMIT <= initial_skill <= SKILL_LIMIT,
            -SKILL_LIMIT <= real_skill <= SKILL_LIMIT,
        ensures
            final(self).wf(),
            final(self).spec_oracle() == old(self).spec_oracle(),
            id == old(self).user_count(),
            final(self).user_count() == old(self).user_count() + 1,
            forall|i: int|
                0 <= i < old(self).user_count() ==> final(self).spec_user(i) == old(self).spec_user(
                    i,
                ),
            final(self).spec_user(id as int).spec_id() == id,
            final(self).spec_user(id as int).spec_estimate() == initial_skill,
            final(self).spec_user(id as int).spec_real() == real_skill,
            final(self).spec_user(id as int).spec_oracle() == final(self).spec_oracle(),
            final(self).spec_user(id as int).spec_join_time() == 0,
    {
        let id = self.users.len();
        let u = UserData::new(id, initial_skill, real_skill, self.use_real_skill);
        self.users.push(u);
        proof {
            assert forall|i: int| 0 <= i < self.user_count() implies {
                &&& (#[trigger] self.spec_user(i)).wf()
                &&& self.spec_user(i).spec_id() == i
                &&& self.spec_user(i).spec_oracle() == self.spec_oracle()
            } by {
                if i < old(self).user_count() {
                    assert(self.spec_user(i) == old(self).spec_user(i));
                    assert(old(self).spec_user(i).wf());
                } else {
                    assert(self.spec_user(i) == u);
                }
            }
        }
        id
    }

    /// The number of records the pool owns.
    pub fn len(&self) -> (n: usize)
        ensures
            n == self.user_count(),
    {
        self.users.len()
    }

    pub fn get_user(&self, id: &UserId) -> (u: &UserData)
        requires
            (*id as int) < self.user_count(),
        ensures
            *u == self.spec_user(*id as int),
    {
        &self.users[*id]
    }

    /// Mutable access to one record; the only path by which estimate and
    /// join time change.
    pub fn get_user_mut(&mut self, id: &UserId) -> (u: &mut UserData)
        requires
            (*id as int) < old(self).user_count(),
        ensures
            *u == old(self).spec_user(*id as int),
            final(self).spec_users() == old(self).spec_users().update(*id as int, *final(u)),
            final(self).spec_oracle() == old(self).spec_oracle(),
    {
        &mut self.users[*id]
    }

    /// Mean absolute difference between true skill and visible skill,
    /// rounded toward zero; a reporting aid.
    pub fn get_avg_skill_error(&self) -> (e: i64)
        requires
            self.wf(),
            self.user_count() > 0,
        ensures
            e == sum_abs_err(self.spec_users()) / (self.user_count() as int),
            0 <= e <= 2 * SKILL_LIMIT,
    {
        let ghost users = self.spec_users();
        let n = self.users.len();
        let mut sum: i128 = 0;
        let mut k: usize = 0;
        while k < n
            invariant
                0 <= k <= n,
                n == users.len(),
                users == self.spec_users(),
                self.wf(),
                sum == sum_abs_err(users.take(k as int)),
                0 <= sum <= k * (2 * SKILL_LIMIT),
            decreases n - k,
        {
            let u = &self.users[k];
            let d: i128 = (u.real_skill as i128) - (u.get_skill() as i128);
            let a: i128 = if d >= 0 {
                d
            } else {
                -d
            };
            proof {
                assert(users.take(k + 1).drop_last() =~= users.take(k as int));
                assert(users.take(k + 1).last() == users[k as int]);
                assert(self.spec_user(k as int).wf());
                assert(a <= 2 * SKILL_LIMIT);
                assert(sum + a <= (k + 1) * (2 * SKILL_LIMIT)) by (nonlinear_arith)
                    requires
                        sum <= k * (2 * SKILL_LIMIT),
                        a <= 2 * SKILL_LIMIT,
                        k >= 0,
                ;
                assert((k + 1) * (2 * SKILL_LIMIT) < i128::MAX) by (nonlinear_arith)
                    requires
                        0 <= k < 18446744073709551616,
                ;
            }
            sum = sum + a;
            k = k + 1;
        }
        proof {
            assert(users.take(n as int) =~= users);
            assert forall|i: int| 0 <= i < users.len() implies (#[trigger] users[i]).wf() by {
                assert(self.spec_user(i).wf());
            }
            lemma_sum_abs_err_bound(users);
            assert(0 <= sum / (n as i128) <= sum) by (nonlinear_arith)
                requires
                    n >= 1,
                    sum >= 0,
            ;
            assert(sum_abs_err(users) / (users.len() as int) <= 2 * SKILL_LIMIT) by {
                vstd::arithmetic::div_mod::lemma_div_is_ordered(
                    sum_abs_err(users),
                    users.len() * (2 * SKILL_LIMIT),
                    users.len() as int,
                );
                vstd::arithmetic::div_mod::lemma_div_multiples_vanish(
                    2 * SKILL_LIMIT,
                    users.len() as int,
                );
            }
        }
        let q: i128 = sum / (n as i128);
        q as i64
    }
}

/// The error sum over well-formed records is bounded by the record count.
pub proof fn lemma_sum_abs_err_bound(users: Seq<UserData>)
    requires
        forall|i: int| 0 <= i < users.len() ==> (#[trigger] users[i]).wf(),
    ensures
        0 <= sum_abs_err(users) <= users.len() * (2 * SKILL_LIMIT),
    decreases users.len(),
{
    if users.len() > 0 {
        assert(users.last().wf());
        assert forall|i: int|
            0 <= i < users.drop_last().len() implies (#[trigger] users.drop_last()[i]).wf() by {
            assert(users.drop_last()[i] == users[i]);
        }
        lemma_sum_abs_err_bound(users.drop_last());
        assert(users.len() * (2 * SKILL_LIMIT) == (users.len() - 1) * (2 * SKILL_LIMIT) + 2
            * SKILL_LIMIT) by (nonlinear_arith);
    }
}

/// When every identified player shows the same skill `e`, the sum is the
/// count times `e`.
pub proof fn lemma_sum_skill_constant(pool: &UserPool, ids: Seq<UserId>, e: i64)
    requires
        forall|i: int|
            0 <= i < ids.len() ==> pool.spec_user((#[trigger] ids[i]) as int).spec_skill() == e,
    ensures
        sum_skill(pool, ids) == ids.len() * e,
    decreases ids.len(),
{
    if ids.len() > 0 {
        lemma_sum_skill_constant(pool, ids.drop_last(), e);
        assert((ids.len() - 1) * e + e == ids.len() * e) by (nonlinear_arith);
    }
}

/// Adds up the visible skill of a team.
pub fn team_skill_sum(pool: &UserPool, ids: &Vec<UserId>) -> (s: i128)
    requires
        pool.wf(),
        ids_valid(pool, ids@),
    ensures
        s == sum_skill(pool, ids@),
        -(ids@.len() * SKILL_LIMIT) <= s <= ids@.len() * SKILL_LIMIT,
{
    let n = ids.len();
    let mut sum: i128 = 0;
    let mut k: usize = 0;
    while k < n
        invariant
            0 <= k <= n,
            n == ids@.len(),
            pool.wf(),
            ids_valid(pool, ids@),
            sum == sum_skill(pool, ids@.take(k as int)),
            -(k * SKILL_LIMIT) <= sum <= k * SKILL_LIMIT,
        decreases n - k,
    {
        let id = ids[k];
        let v = pool.get_user(&id).get_skill();
        proof {
            assert(ids@.take(k + 1).drop_last() =~= ids@.take(k as int));
            assert(ids@.take(k + 1).last() == ids@[k as int]);
            assert(pool.spec_user(id as int).wf());
            assert((k + 1) * SKILL_LIMIT == k * SKILL_LIMIT + SKILL_LIMIT) by (nonlinear_arith);
            assert((k + 1) * SKILL_LIMIT < i128::MAX) by (nonlinear_arith)
                requires
                    0 <= k < 18446744073709551616,
            ;
        }
        sum = sum + (v as i128);
        k = k + 1;
    }
    proof {
        assert(ids@.take(n as int) =~= ids@);
    }
    sum
}

/// Adds up the true skill of a team.
pub fn team_real_sum(pool: &UserPool, ids: &Vec<UserId>) -> (s: i128)
    requires
        pool.wf(),
        ids_valid(pool, ids@),
    ensures
        s == sum_real(pool, ids@),
        -(ids@.len() * SKILL_LIMIT) <= s <= ids@.len() * SKILL_LIMIT,
{
    let n = ids.len();
    let mut sum: i128 = 0;
    let mut k: usize = 0;
    while k < n
        invariant
            0 <= k <= n,
            n == ids@.len(),
            pool.wf(),
            ids_valid(pool, ids@),
            sum == sum_real(pool, ids@.take(k as int)),
            -(k * SKILL_LIMIT) <= sum <= k * SKILL_LIMIT,
        decreases n - k,
    {
        let id = ids[k];
        let v = pool.get_user(&id).real_skill;
        proof {
            assert(ids@.take(k + 1).drop_last() =~= ids@.take(k as int));
            assert(ids@.take(k + 1).last() == ids@[k as int]);
            assert(pool.spec_user(id as int).wf());
            assert(v == pool.spec_user(id as int).spec_real());
            assert((k + 1) * SKILL_LIMIT == k * SKILL_LIMIT + SKILL_LIMIT) by (nonlinear_arith);
            assert((k + 1) * SKILL_LIMIT < i128::MAX) by (nonlinear_arith)
                requires
                    0 <= k < 18446744073709551616,
            ;
        }
        sum = sum + (v as i128);
        k = k + 1;
    }
    proof {
        assert(ids@.take(n as int) =~= ids@);
    }
    sum
}

/// A configured default skill for freshly generated players.
pub struct SimpleUserGenerator {
    pub skill: i64,
}

} // verus!
