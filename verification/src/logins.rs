//! Login tokens of users, with expiry.

use vstd::prelude::*;
use crate::crypto::random_an;
use crate::map::{text_eq, StrMap};
use crate::text::chars_of;

verus! {

broadcast use vstd::string::group_string_axioms;

/// A point in time: nanoseconds since the UNIX epoch, negative before it.
pub type Timestamp = i128;

/// Something stamped at `created` has not expired at `now` when `now` is not
/// earlier and fewer than `limit` whole seconds have passed since.
pub open spec fn unexpired(created: Timestamp, limit: u64, now: Timestamp) -> bool {
    created <= now && (now - created) / 1_000_000_000 < limit
}

/// The nanoseconds of a `Duration`: fewer than `u64::MAX + 1` whole seconds.
pub open spec fn duration_nanos(n: u128) -> bool {
    n < (u64::MAX + 1) * 1_000_000_000
}

/// `SystemTime::now().duration_since(UNIX_EPOCH)` in nanoseconds: `Ok` with
/// the time since the UNIX epoch, or `Err` with how long before the epoch
/// the system clock reads (the duration of the `SystemTimeError`). Either is
/// a `Duration`; the reading itself is not stated.
#[verifier::external_body]
pub(crate) fn system_time_nanos() -> (res: Result<u128, u128>)
    ensures
        res matches Ok(n) ==> duration_nanos(n),
        res matches Err(n) ==> duration_nanos(n),
{
    match std::time::SystemTime::now().duration_since(std::time::UNIX_EPOCH) {
        Ok(elapsed) => Ok(elapsed.as_nanos()),
        Err(e) => Err(e.duration().as_nanos()),
    }
}

/// The current time of the system clock, before the UNIX epoch too.
pub(crate) fn now() -> (res: Timestamp)
    ensures
        -(u64::MAX + 1) * 1_000_000_000 < res < (u64::MAX + 1) * 1_000_000_000,
{
    match system_time_nanos() {
        Ok(n) => n as i128,
        Err(n) => -(n as i128),
    }
}

/// Whether something stamped at `expiration` has not expired at `now`
/// after `time` seconds.
pub fn check_unexpired_at(expiration: Timestamp, time: u64, now: Timestamp) -> (res: bool)
    ensures
        res == unexpired(expiration, time, now),
{
    if expiration > now {
        return false;
    }
    match now.checked_sub(expiration) {
        Some(d) => d / 1_000_000_000 < time as i128,
        None => {
            assert((now - expiration) / 1_000_000_000 >= time) by (nonlinear_arith)
                requires
                    now - expiration > i128::MAX,
                    time <= u64::MAX,
            ;
            false
        },
    }
}

/// Whether something stamped at `expiration` has not expired by the system
/// clock after `time` seconds.
pub fn check_unexpired(expiration: &Timestamp, time: u64) -> (res: bool)
    ensures
        exists|t: Timestamp| res == #[trigger] unexpired(*expiration, time, t),
{
    let t = now();
    let res = check_unexpired_at(*expiration, time, t);
    assert(res == unexpired(*expiration, time, t));
    res
}

/// The logins of one user: tokens with the time they were issued.
pub type Logins = Vec<(String, Timestamp)>;

/// The logins among `s` that have not expired at `now`.
pub open spec fn keep_unexpired(s: Seq<(Seq<char>, Timestamp)>, limit: u64, now: Timestamp) -> Seq<(Seq<char>, Timestamp)>
    decreases s.len(),
{
    if s.len() == 0 {
        s
    } else if unexpired(s.last().1, limit, now) {
        keep_unexpired(s.drop_last(), limit, now).push(s.last())
    } else {
        keep_unexpired(s.drop_last(), limit, now)
    }
}

/// The logins among `s` that have not expired at `now` and whose token is
/// not `token`.
pub open spec fn keep_other_unexpired(
    s: Seq<(Seq<char>, Timestamp)>,
    token: Seq<char>,
    limit: u64,
    now: Timestamp,
) -> Seq<(Seq<char>, Timestamp)>
    decreases s.len(),
{
    if s.len() == 0 {
        s
    } else if s.last().0 != token && unexpired(s.last().1, limit, now) {
        keep_other_unexpired(s.drop_last(), token, limit, now).push(s.last())
    } else {
        keep_other_unexpired(s.drop_last(), token, limit, now)
    }
}

/// Dropping expired logins never adds any.
proof fn lemma_keep_unexpired_len(s: Seq<(Seq<char>, Timestamp)>, limit: u64, now: Timestamp)
    ensures
        keep_unexpired(s, limit, now).len() <= s.len(),
    decreases s.len(),
{
    if s.len() > 0 {
        lemma_keep_unexpired_len(s.drop_last(), limit, now);
    }
}

/// The at most 100 latest logins of `s`, without those expired at `now`.
pub open spec fn prune(s: Seq<(Seq<char>, Timestamp)>, limit: u64, now: Timestamp) -> Seq<(Seq<char>, Timestamp)> {
    keep_unexpired(recent_logins(s), limit, now)
}

/// The at most 100 latest logins of `s`.
pub open spec fn recent_logins(s: Seq<(Seq<char>, Timestamp)>) -> Seq<(Seq<char>, Timestamp)> {
    if s.len() > 100 {
        s.skip(s.len() - 100)
    } else {
        s
    }
}

/// The logins after `token` is issued to `user` at `now`.
pub open spec fn after_add(
    m: Map<Seq<char>, Seq<(Seq<char>, Timestamp)>>,
    user: Seq<char>,
    token: Seq<char>,
    limit: u64,
    now: Timestamp,
) -> Map<Seq<char>, Seq<(Seq<char>, Timestamp)>> {
    m.insert(
        user,
        (if m.contains_key(user) {
            prune(m[user], limit, now)
        } else {
            Seq::empty()
        }).push((token, now)),
    )
}

/// The logins after `token` of `user` is revoked at `now`.
pub open spec fn after_remove(
    m: Map<Seq<char>, Seq<(Seq<char>, Timestamp)>>,
    user: Seq<char>,
    token: Seq<char>,
    limit: u64,
    now: Timestamp,
) -> Map<Seq<char>, Seq<(Seq<char>, Timestamp)>> {
    if m.contains_key(user) {
        m.insert(user, keep_other_unexpired(m[user], token, limit, now))
    } else {
        m
    }
}

/// `token` is among the unexpired logins of `s` at `now`.
pub open spec fn holds_token(s: Seq<(Seq<char>, Timestamp)>, token: Seq<char>, limit: u64, now: Timestamp) -> bool {
    exists|i: int| 0 <= i < s.len() && #[trigger] s[i].0 == token && unexpired(s[i].1, limit, now)
}

proof fn lemma_keep_other_lacks(s: Seq<(Seq<char>, Timestamp)>, token: Seq<char>, limit: u64, now: Timestamp)
    ensures
        forall|i: int|
            0 <= i < keep_other_unexpired(s, token, limit, now).len() ==> #[trigger] keep_other_unexpired(
                s,
                token,
                limit,
                now,
            )[i].0 != token,
    decreases s.len(),
{
    if s.len() > 0 {
        lemma_keep_other_lacks(s.drop_last(), token, limit, now);
        let r = keep_other_unexpired(s.drop_last(), token, limit, now);
        if s.last().0 != token && unexpired(s.last().1, limit, now) {
            assert forall|i: int| 0 <= i < r.push(s.last()).len() implies #[trigger] r.push(s.last())[i].0 != token by {
                if i < r.len() {
                    assert(r.push(s.last())[i] == r[i]);
                }
            }
        }
    }
}

/// The at most 100 latest logins of `logins`, without those expired at `now`.
fn remove_expired(logins: &Logins, valid_login: u64, now: Timestamp) -> (res: Logins)
    ensures
        res.deep_view() == prune(logins.deep_view(), valid_login, now),
{
    let ghost all = logins.deep_view();
    let n = logins.len();
    let start: usize = if n > 100 { n - 100 } else { 0 };
    let ghost recent = if all.len() > 100 { all.skip(all.len() - 100) } else { all };
    assert(recent =~= all.subrange(start as int, n as int));
    let mut res: Logins = Vec::new();
    assert(res.deep_view() =~= keep_unexpired(recent.take(0), valid_login, now));
    for i in start..n
        invariant
            all == logins.deep_view(),
            n == all.len(),
            start <= n,
            recent == all.subrange(start as int, n as int),
            res.deep_view() == keep_unexpired(recent.take(i - start), valid_login, now),
    {
        let ghost before = res.deep_view();
        assert(recent.take(i + 1 - start).drop_last() =~= recent.take(i - start));
        assert(recent.take(i + 1 - start).last() == all[i as int]);
        if check_unexpired_at(logins[i].1, valid_login, now) {
            let token = logins[i].0.clone();
            res.push((token, logins[i].1));
            assert(res.deep_view() =~= before.push(all[i as int]));
        }
    }
    assert(recent.take(n - start) =~= recent);
    res
}

/// The logins of `logins` that have not expired at `now` and whose token is
/// not `token`.
fn remove_token(logins: &Logins, token: &str, valid_login: u64, now: Timestamp) -> (res: Logins)
    ensures
        res.deep_view() == keep_other_unexpired(logins.deep_view(), token@, valid_login, now),
{
    let ghost all = logins.deep_view();
    let t = chars_of(token);
    let mut res: Logins = Vec::new();
    assert(res.deep_view() =~= keep_other_unexpired(all.take(0), token@, valid_login, now));
    for i in 0..logins.len()
        invariant
            all == logins.deep_view(),
            t@ == token@,
            res.deep_view() == keep_other_unexpired(all.take(i as int), token@, valid_login, now),
    {
        let ghost before = res.deep_view();
        assert(all.take(i + 1).drop_last() =~= all.take(i as int));
        assert(all.take(i + 1).last() == all[i as int]);
        let c = chars_of(logins[i].0.as_str());
        if !text_eq(c.as_slice(), t.as_slice()) && check_unexpired_at(logins[i].1, valid_login, now) {
            let kept = logins[i].0.clone();
            res.push((kept, logins[i].1));
            assert(res.deep_view() =~= before.push(all[i as int]));
        }
    }
    assert(all.take(all.len() as int) =~= all);
    res
}

/// User login and token management.
pub struct UserLogins {
    valid_login: u64,
    logins: StrMap<Logins>,
}

impl UserLogins {
    /// How many seconds a login stays valid.
    pub closed spec fn valid_login(&self) -> u64 {
        self.valid_login
    }

    /// The logins of each user.
    pub closed spec fn view(&self) -> Map<Seq<char>, Seq<(Seq<char>, Timestamp)>> {
        self.logins@
    }

    /// `token` is a valid login of `user` at `now`.
    pub open spec fn spec_valid(&self, user: Seq<char>, token: Seq<char>, now: Timestamp) -> bool {
        self@.contains_key(user) && holds_token(self@[user], token, self.valid_login(), now)
    }

    /// No logins yet.
    pub fn new(valid_login: u64) -> (res: Self)
        ensures
            res.valid_login() == valid_login,
            res@ == Map::<Seq<char>, Seq<(Seq<char>, Timestamp)>>::empty(),
    {
        UserLogins { valid_login, logins: StrMap::new() }
    }

    /// Whether `token` is a valid login of `user` at `now`.
    pub fn valid_at(&self, user: &str, token: &str, now: Timestamp) -> (res: bool)
        ensures
            res == self.spec_valid(user@, token@, now),
    {
        match self.logins.get(user) {
            None => false,
            Some(logins) => {
                let t = chars_of(token);
                let ghost s = logins.deep_view();
                for i in 0..logins.len()
                    invariant
                        s == logins.deep_view(),
                        self@.contains_key(user@),
                        s == self@[user@],
                        t@ == token@,
                        forall|j: int| 0 <= j < i ==> !(#[trigger] s[j].0 == token@ && unexpired(
                            s[j].1,
                            self.valid_login,
                            now,
                        )),
                {
                    let c = chars_of(logins[i].0.as_str());
                    assert(c@ == s[i as int].0);
                    if text_eq(c.as_slice(), t.as_slice()) && check_unexpired_at(logins[i].1, self.valid_login, now) {
                        assert(s[i as int].0 == token@ && unexpired(s[i as int].1, self.valid_login, now));
                        return true;
                    }
                }
                false
            },
        }
    }

    /// Whether `token` is a valid login of `user` by the system clock.
    pub fn valid(&self, user: &str, token: &str) -> (res: bool)
        ensures
            exists|t: Timestamp| res == #[trigger] self.spec_valid(user@, token@, t),
    {
        let t = now();
        let res = self.valid_at(user, token, t);
        assert(res == self.spec_valid(user@, token@, t));
        res
    }

    /// Issues `token` to `user` at `now`: the user's expired logins are
    /// dropped, at most the 100 latest are kept, and the new one is added.
    /// A token just issued is valid.
    pub fn add_at(&mut self, user: &str, token: String, now: Timestamp) -> (res: String)
        ensures
            final(self).valid_login() == old(self).valid_login(),
            final(self)@ == after_add(old(self)@, user@, token@, old(self).valid_login(), now),
            res@ == token@,
            old(self).valid_login() > 0 ==> final(self).spec_valid(user@, token@, now),
            final(self)@[user@].len() <= 101,
    {
        let ghost base = if old(self)@.contains_key(user@) {
            prune(old(self)@[user@], old(self).valid_login(), now)
        } else {
            Seq::empty()
        };
        let mut list = match self.logins.get(user) {
            Some(logins) => remove_expired(logins, self.valid_login, now),
            None => {
                let empty: Logins = Vec::new();
                assert(empty.deep_view() =~= Seq::<(Seq<char>, Timestamp)>::empty());
                empty
            },
        };
        assert(list.deep_view() == base);
        proof {
            if old(self)@.contains_key(user@) {
                let all = old(self)@[user@];
                let recent = if all.len() > 100 { all.skip(all.len() - 100) } else { all };
                lemma_keep_unexpired_len(recent, old(self).valid_login(), now);
            }
        }
        let res = token.clone();
        list.push((token, now));
        assert(list.deep_view() =~= base.push((token@, now)));
        self.logins.insert(String::from_str(user), list);
        proof {
            let s = base.push((token@, now));
            assert(self@[user@] == s);
            let last = s.len() - 1;
            assert(s[last] == (token@, now));
            assert(s[last].0 == token@);
            if self.valid_login > 0 {
                assert(unexpired(s[last].1, self.valid_login, now));
                assert(holds_token(s, token@, self.valid_login, now));
            }
        }
        res
    }

    /// Issues a fresh random token of 64 letters and digits to `user` by the
    /// system clock, and returns it.
    pub fn add(&mut self, user: &str) -> (res: String)
        ensures
            res@.len() == 64,
            crate::text::all_alnum(res@),
            final(self).valid_login() == old(self).valid_login(),
            exists|t: Timestamp|
                final(self)@ == #[trigger] after_add(old(self)@, user@, res@, old(self).valid_login(), t)
                    && (old(self).valid_login() > 0 ==> final(self).spec_valid(user@, res@, t)),
            final(self)@[user@].len() <= 101,
    {
        let token = random_an(64);
        let t = now();
        let res = self.add_at(user, token, t);
        proof {
            assert(self@ == after_add(old(self)@, user@, res@, old(self).valid_login(), t) && (old(
                self,
            ).valid_login() > 0 ==> self.spec_valid(user@, res@, t)));
        }
        res
    }

    /// Revokes `token` of `user`, dropping the user's logins that have expired
    /// at `now` as well. A revoked token is never valid again.
    pub fn remove_at(&mut self, user: &str, token: &str, now: Timestamp)
        ensures
            final(self).valid_login() == old(self).valid_login(),
            final(self)@ == after_remove(old(self)@, user@, token@, old(self).valid_login(), now),
            forall|t: Timestamp| !(#[trigger] final(self).spec_valid(user@, token@, t)),
    {
        let kept = match self.logins.get(user) {
            Some(logins) => Some(remove_token(logins, token, self.valid_login, now)),
            None => None,
        };
        match kept {
            Some(list) => {
                self.logins.insert(String::from_str(user), list);
                proof {
                    lemma_keep_other_lacks(old(self)@[user@], token@, self.valid_login, now);
                }
            },
            None => {},
        }
    }

    /// Revokes `token` of `user` by the system clock.
    pub fn remove(&mut self, user: &str, token: &str)
        ensures
            final(self).valid_login() == old(self).valid_login(),
            exists|now: Timestamp|
                final(self)@ == #[trigger] after_remove(old(self)@, user@, token@, old(self).valid_login(), now),
            forall|t: Timestamp| !(#[trigger] final(self).spec_valid(user@, token@, t)),
    {
        let t = now();
        self.remove_at(user, token, t);
        proof {
            assert(self@ == after_remove(old(self)@, user@, token@, old(self).valid_login(), t));
        }
    }

    /// Revokes every login of `user`.
    pub fn remove_user(&mut self, user: &str)
        ensures
            final(self).valid_login() == old(self).valid_login(),
            final(self)@ == old(self)@.remove(user@),
            forall|token: Seq<char>, t: Timestamp| !(#[trigger] final(self).spec_valid(user@, token, t)),
    {
        self.logins.remove(user);
    }

    /// Moves the logins of `user` to `new_user`, replacing any that
    /// `new_user` had.
    pub fn rename(&mut self, user: &str, new_user: String)
        ensures
            final(self).valid_login() == old(self).valid_login(),
            final(self)@ == if old(self)@.contains_key(user@) {
                old(self)@.remove(user@).insert(new_user@, old(self)@[user@])
            } else {
                old(self)@
            },
    {
        match self.logins.remove(user) {
            Some(logins) => {
                self.logins.insert(new_user, logins);
            },
            None => {},
        }
    }
}

/// A token is held in `s` with `e` appended where it is held in `s` or is
/// the unexpired token of `e`.
proof fn lemma_holds_push(
    s: Seq<(Seq<char>, Timestamp)>,
    e: (Seq<char>, Timestamp),
    t: Seq<char>,
    limit: u64,
    now: Timestamp,
)
    ensures
        holds_token(s.push(e), t, limit, now) == (holds_token(s, t, limit, now) || (e.0 == t && unexpired(
            e.1,
            limit,
            now,
        ))),
{
    let q = s.push(e);
    if holds_token(s, t, limit, now) {
        let i = choose|i: int| 0 <= i < s.len() && #[trigger] s[i].0 == t && unexpired(s[i].1, limit, now);
        assert(q[i] == s[i]);
    }
    if e.0 == t && unexpired(e.1, limit, now) {
        assert(q[s.len() as int] == e);
    }
    if holds_token(q, t, limit, now) {
        let i = choose|i: int| 0 <= i < q.len() && #[trigger] q[i].0 == t && unexpired(q[i].1, limit, now);
        if i < s.len() {
            assert(q[i] == s[i]);
        }
    }
}

/// Dropping the expired logins keeps exactly the tokens that are held.
proof fn lemma_keep_unexpired_holds(s: Seq<(Seq<char>, Timestamp)>, t: Seq<char>, limit: u64, now: Timestamp)
    ensures
        holds_token(keep_unexpired(s, limit, now), t, limit, now) == holds_token(s, t, limit, now),
    decreases s.len(),
{
    if s.len() > 0 {
        lemma_keep_unexpired_holds(s.drop_last(), t, limit, now);
        lemma_holds_push(s.drop_last(), s.last(), t, limit, now);
        lemma_holds_push(keep_unexpired(s.drop_last(), limit, now), s.last(), t, limit, now);
        assert(s.drop_last().push(s.last()) =~= s);
    }
}

/// Dropping the expired logins and those of `token` keeps every other token
/// that is held.
proof fn lemma_keep_other_holds(
    s: Seq<(Seq<char>, Timestamp)>,
    token: Seq<char>,
    t: Seq<char>,
    limit: u64,
    now: Timestamp,
)
    requires
        t != token,
    ensures
        holds_token(keep_other_unexpired(s, token, limit, now), t, limit, now) == holds_token(s, t, limit, now),
    decreases s.len(),
{
    if s.len() > 0 {
        lemma_keep_other_holds(s.drop_last(), token, t, limit, now);
        lemma_holds_push(s.drop_last(), s.last(), t, limit, now);
        lemma_holds_push(keep_other_unexpired(s.drop_last(), token, limit, now), s.last(), t, limit, now);
        assert(s.drop_last().push(s.last()) =~= s);
    }
}

/// Issuing a token to `user` at `now` leaves the logins of every other user
/// as they were, and every token of `user` that is valid at `now` and among
/// the 100 latest logins stays valid.
pub proof fn lemma_add_keeps_valid(
    m: Map<Seq<char>, Seq<(Seq<char>, Timestamp)>>,
    user: Seq<char>,
    token: Seq<char>,
    limit: u64,
    now: Timestamp,
)
    ensures
        forall|u2: Seq<char>|
            u2 != user ==> (#[trigger] after_add(m, user, token, limit, now).contains_key(u2) == m.contains_key(u2)
                && (m.contains_key(u2) ==> after_add(m, user, token, limit, now)[u2] == m[u2])),
        forall|t: Seq<char>|
            m.contains_key(user) && #[trigger] holds_token(recent_logins(m[user]), t, limit, now) ==> holds_token(
                after_add(m, user, token, limit, now)[user],
                t,
                limit,
                now,
            ),
{
    assert forall|t: Seq<char>|
        m.contains_key(user) && #[trigger] holds_token(recent_logins(m[user]), t, limit, now) implies holds_token(
        after_add(m, user, token, limit, now)[user],
        t,
        limit,
        now,
    ) by {
        lemma_keep_unexpired_holds(recent_logins(m[user]), t, limit, now);
        lemma_holds_push(prune(m[user], limit, now), (token, now), t, limit, now);
    }
}

/// Revoking `token` of `user` at `now` leaves the logins of every other user
/// as they were, and every other token of `user` keeps its validity at
/// `now`; a user without logins leaves everything as it was.
pub proof fn lemma_remove_keeps_others(
    m: Map<Seq<char>, Seq<(Seq<char>, Timestamp)>>,
    user: Seq<char>,
    token: Seq<char>,
    limit: u64,
    now: Timestamp,
)
    ensures
        forall|u2: Seq<char>|
            u2 != user ==> (#[trigger] after_remove(m, user, token, limit, now).contains_key(u2) == m.contains_key(u2)
                && (m.contains_key(u2) ==> after_remove(m, user, token, limit, now)[u2] == m[u2])),
        forall|t: Seq<char>|
            t != token && m.contains_key(user) ==> #[trigger] holds_token(
                after_remove(m, user, token, limit, now)[user],
                t,
                limit,
                now,
            ) == holds_token(m[user], t, limit, now),
        !m.contains_key(user) ==> after_remove(m, user, token, limit, now) == m,
{
    assert forall|t: Seq<char>| t != token && m.contains_key(user) implies #[trigger] holds_token(
        after_remove(m, user, token, limit, now)[user],
        t,
        limit,
        now,
    ) == holds_token(m[user], t, limit, now) by {
        lemma_keep_other_holds(m[user], token, t, limit, now);
    }
}

} // verus!
