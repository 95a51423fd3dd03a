//! Rate limiting of logins and registrations, and banning of IP addresses.

use vstd::prelude::*;
use crate::logins::{check_unexpired_at, now, unexpired, Timestamp};
use crate::map::StrMap;

verus! {

broadcast use vstd::string::group_string_axioms;

/// The kind of request that an IP address makes.
#[derive(Debug, Clone, Copy, PartialEq, Eq, Structural)]
pub enum ApiAction {
    /// Any request but a registration.
    Simple,
    /// A registration of an account.
    Register,
}

/// How many seconds registrations are counted before their count resets.
pub open spec fn registration_window() -> u64 {
    3600
}

/// Above this many tracked IP addresses a counter is cleared.
pub open spec fn max_tracked() -> nat {
    100_000
}

/// One more event at `now` adds to a count whose window is still open
/// (rather than starting a fresh one).
pub open spec fn continues_count(entry: Option<(u32, Timestamp)>, window: u64, now: Timestamp) -> bool {
    match entry {
        Some((_, since)) => unexpired(since, window, now),
        None => false,
    }
}

/// The count of an IP address after one more event at `now`: one more within
/// the current window, else a fresh count of one starting at `now`.
pub open spec fn counted(entry: Option<(u32, Timestamp)>, window: u64, now: Timestamp) -> (int, Timestamp) {
    match entry {
        Some((count, since)) => if unexpired(since, window, now) {
            (count + 1, since)
        } else {
            (1, now)
        },
        None => (1, now),
    }
}

/// The entry of `ip` in `m`, if it has one.
pub open spec fn entry_of(m: Map<Seq<char>, (u32, Timestamp)>, ip: Seq<char>) -> Option<(u32, Timestamp)> {
    if m.contains_key(ip) {
        Some(m[ip])
    } else {
        None
    }
}

/// Rate limiting and banning of IP addresses.
pub struct SecurityManager {
    bans: StrMap<Timestamp>,
    fail_counter: StrMap<(u32, Timestamp)>,
    register_counter: StrMap<(u32, Timestamp)>,
    ban_time: u64,
    login_fails: u32,
    login_time: u64,
    account_limit: u32,
    log: bool,
}

impl SecurityManager {
    /// When each banned IP address was banned.
    pub closed spec fn bans(&self) -> Map<Seq<char>, Timestamp> {
        self.bans@
    }

    /// Failed logins per IP address: how many, and when counting started.
    pub closed spec fn fails(&self) -> Map<Seq<char>, (u32, Timestamp)> {
        self.fail_counter@
    }

    /// Registrations per IP address: how many, and when counting started.
    pub closed spec fn registrations(&self) -> Map<Seq<char>, (u32, Timestamp)> {
        self.register_counter@
    }

    /// The number of tracked IP addresses with failed logins.
    pub closed spec fn fails_tracked(&self) -> nat {
        self.fail_counter.pairs().len()
    }

    /// The number of tracked IP addresses with registrations.
    pub closed spec fn registrations_tracked(&self) -> nat {
        self.register_counter.pairs().len()
    }

    /// How many seconds a ban lasts.
    pub closed spec fn ban_time(&self) -> u64 {
        self.ban_time
    }

    /// How many failed logins an IP address may have before it is banned.
    pub closed spec fn login_fails(&self) -> u64 {
        self.login_fails as u64
    }

    /// How many seconds failed logins are counted before their count resets.
    pub closed spec fn login_time(&self) -> u64 {
        self.login_time
    }

    /// How many registrations an IP address may make within an hour.
    pub closed spec fn account_limit(&self) -> u64 {
        self.account_limit as u64
    }

    /// Whether bans are announced.
    pub closed spec fn logs(&self) -> bool {
        self.log
    }

    /// `ip` is banned at `now`.
    pub open spec fn spec_banned(&self, ip: Seq<char>, now: Timestamp) -> bool {
        self.bans().contains_key(ip) && unexpired(self.bans()[ip], self.ban_time(), now)
    }

    /// `ip` may make a request of kind `action` at `now`: it is not banned,
    /// and it has not exceeded the limit within the current window.
    pub open spec fn spec_check(&self, ip: Seq<char>, action: ApiAction, now: Timestamp) -> bool {
        let (counter, limit, window) = match action {
            ApiAction::Register => (self.registrations(), self.account_limit(), registration_window()),
            ApiAction::Simple => (self.fails(), self.login_fails(), self.login_time()),
        };
        !self.spec_banned(ip, now) && (counter.contains_key(ip) ==> (counter[ip].0 <= limit
            || !unexpired(counter[ip].1, window, now)))
    }

    /// A manager with nothing counted and nobody banned.
    pub fn new(ban_time: u64, login_fails: u32, login_time: u64, account_limit: u32, log: bool) -> (res: Self)
        ensures
            res.bans() == Map::<Seq<char>, Timestamp>::empty(),
            res.fails() == Map::<Seq<char>, (u32, Timestamp)>::empty(),
            res.registrations() == Map::<Seq<char>, (u32, Timestamp)>::empty(),
            res.fails_tracked() == 0,
            res.registrations_tracked() == 0,
            res.ban_time() == ban_time,
            res.login_fails() == login_fails,
            res.login_time() == login_time,
            res.account_limit() == account_limit,
            res.logs() == log,
    {
        SecurityManager {
            bans: StrMap::new(),
            fail_counter: StrMap::new(),
            register_counter: StrMap::new(),
            ban_time,
            login_fails,
            login_time,
            account_limit,
            log,
        }
    }

    /// Whether `ip` may make a request of kind `action` at `now`.
    pub fn check_at(&self, ip: &str, action: ApiAction, now: Timestamp) -> (res: bool)
        ensures
            res == self.spec_check(ip@, action, now),
    {
        let banned = match self.bans.get(ip) {
            Some(ban) => check_unexpired_at(*ban, self.ban_time, now),
            None => false,
        };
        match action {
            ApiAction::Register => match self.register_counter.get(ip) {
                Some(registrations) => (registrations.0 <= self.account_limit || !check_unexpired_at(
                    registrations.1,
                    3600,
                    now,
                )) && !banned,
                None => !banned,
            },
            ApiAction::Simple => match self.fail_counter.get(ip) {
                Some(fails) => (fails.0 <= self.login_fails || !check_unexpired_at(fails.1, self.login_time, now))
                    && !banned,
                None => !banned,
            },
        }
    }

    /// Whether `ip` may make a request of kind `action` by the system clock.
    pub fn check(&self, ip: &str, action: ApiAction) -> (res: bool)
        ensures
            exists|t: Timestamp| res == #[trigger] self.spec_check(ip@, action, t),
    {
        let t = now();
        let res = self.check_at(ip, action, t);
        assert(res == self.spec_check(ip@, action, t));
        res
    }

    /// The failed logins counted for `ip`.
    pub fn failed_logins(&self, ip: &str) -> (res: u32)
        ensures
            res == if self.fails().contains_key(ip@) { self.fails()[ip@].0 } else { 0 },
    {
        match self.fail_counter.get(ip) {
            Some(fails) => fails.0,
            None => 0,
        }
    }

    /// The registrations counted for `ip`.
    pub fn counted_registrations(&self, ip: &str) -> (res: u32)
        ensures
            res == if self.registrations().contains_key(ip@) { self.registrations()[ip@].0 } else { 0 },
    {
        match self.register_counter.get(ip) {
            Some(registrations) => registrations.0,
            None => 0,
        }
    }

    /// The count of `entry` after one more event at `now` within `window`.
    fn count_event(entry: Option<(u32, Timestamp)>, window: u64, now: Timestamp) -> (res: (u32, Timestamp))
        requires
            entry matches Some(e) ==> e.0 < u32::MAX,
        ensures
            res.0 as int == counted(entry, window, now).0,
            res.1 == counted(entry, window, now).1,
    {
        match entry {
            Some((count, since)) => if check_unexpired_at(since, window, now) {
                (count + 1, since)
            } else {
                (1, now)
            },
            None => (1, now),
        }
    }

    /// `after` is `self` with one more failed login of `ip` counted at `now`,
    /// and `announced` tells whether that issued a ban to be announced: above
    /// 100000 tracked addresses the failure counter is cleared and nothing
    /// else changes; otherwise the count of `ip` goes up within its window
    /// (or starts again at one), and `ip` is banned from `now` once a count
    /// that goes up exceeds the limit.
    pub open spec fn counts_login_fail(self, after: Self, ip: Seq<char>, now: Timestamp, announced: bool) -> bool {
        &&& after.registrations() == self.registrations()
        &&& after.ban_time() == self.ban_time()
        &&& after.login_fails() == self.login_fails()
        &&& after.login_time() == self.login_time()
        &&& after.account_limit() == self.account_limit()
        &&& after.logs() == self.logs()
        &&& after.registrations_tracked() == self.registrations_tracked()
        &&& after.fails_tracked() == if self.fails_tracked() > max_tracked() {
            0
        } else if self.fails().contains_key(ip) {
            self.fails_tracked()
        } else {
            self.fails_tracked() + 1
        }
        &&& after.fails_tracked() <= max_tracked() + 1
        &&& self.fails_tracked() > max_tracked() ==> {
            &&& after.fails() == Map::<Seq<char>, (u32, Timestamp)>::empty()
            &&& after.bans() == self.bans()
            &&& !announced
        }
        &&& self.fails_tracked() <= max_tracked() ==> {
            let c = counted(entry_of(self.fails(), ip), self.login_time(), now);
            let banned = continues_count(entry_of(self.fails(), ip), self.login_time(), now) && c.0
                > self.login_fails();
            &&& after.fails() == self.fails().insert(ip, (c.0 as u32, c.1))
            &&& after.bans() == if banned {
                self.bans().insert(ip, now)
            } else {
                self.bans()
            }
            &&& announced == (banned && self.logs())
            &&& banned && self.ban_time() > 0 ==> after.spec_banned(ip, now)
        }
    }

    /// Counts a failed login of `ip` at `now`, banning `ip` once its count
    /// within an open window exceeds the limit; returns whether a ban was issued
    /// that is to be announced. Above 100000 tracked addresses the counter is
    /// cleared instead.
    pub fn login_fail_at(&mut self, ip: &str, now: Timestamp) -> (res: bool)
        requires
            old(self).fails().contains_key(ip@) ==> old(self).fails()[ip@].0 < u32::MAX,
        ensures
            old(self).counts_login_fail(*final(self), ip@, now, res),
    {
        if self.fail_counter.len() > 100_000 {
            self.fail_counter.clear();
            return false;
        }
        let entry = match self.fail_counter.get(ip) {
            Some(e) => Some(*e),
            None => None,
        };
        let (count, since) = Self::count_event(entry, self.login_time, now);
        let continued = match entry {
            Some((_, start)) => check_unexpired_at(start, self.login_time, now),
            None => false,
        };
        self.fail_counter.insert(String::from_str(ip), (count, since));
        if continued && count > self.login_fails {
            self.bans.insert(String::from_str(ip), now);
            self.log
        } else {
            false
        }
    }

    /// Counts a failed login of `ip` by the system clock.
    pub fn login_fail(&mut self, ip: &str) -> (res: bool)
        requires
            old(self).fails().contains_key(ip@) ==> old(self).fails()[ip@].0 < u32::MAX,
        ensures
            exists|t: Timestamp| #[trigger] old(self).counts_login_fail(*final(self), ip@, t, res),
    {
        let t = now();
        self.login_fail_at(ip, t)
    }

    /// `after` is `self` with one more registration of `ip` counted at
    /// `now`: above 100000 tracked addresses the registration counter is
    /// cleared and nothing else changes; otherwise the count of `ip` goes up
    /// within its hour (or starts again at one).
    pub open spec fn counts_registration(self, after: Self, ip: Seq<char>, now: Timestamp) -> bool {
        &&& after.fails() == self.fails()
        &&& after.bans() == self.bans()
        &&& after.ban_time() == self.ban_time()
        &&& after.login_fails() == self.login_fails()
        &&& after.login_time() == self.login_time()
        &&& after.account_limit() == self.account_limit()
        &&& after.logs() == self.logs()
        &&& after.fails_tracked() == self.fails_tracked()
        &&& after.registrations_tracked() == if self.registrations_tracked() > max_tracked() {
            0
        } else if self.registrations().contains_key(ip) {
            self.registrations_tracked()
        } else {
            self.registrations_tracked() + 1
        }
        &&& after.registrations_tracked() <= max_tracked() + 1
        &&& self.registrations_tracked() > max_tracked() ==> after.registrations() == Map::<
            Seq<char>,
            (u32, Timestamp),
        >::empty()
        &&& self.registrations_tracked() <= max_tracked() ==> {
            let c = counted(entry_of(self.registrations(), ip), registration_window(), now);
            after.registrations() == self.registrations().insert(ip, (c.0 as u32, c.1))
        }
    }

    /// Counts a registration from `ip` at `now`. Above 100000 tracked
    /// addresses the counter is cleared instead.
    pub fn registration_at(&mut self, ip: &str, now: Timestamp)
        requires
            old(self).registrations().contains_key(ip@) ==> old(self).registrations()[ip@].0 < u32::MAX,
        ensures
            old(self).counts_registration(*final(self), ip@, now),
    {
        if self.register_counter.len() > 100_000 {
            self.register_counter.clear();
            return ;
        }
        let entry = match self.register_counter.get(ip) {
            Some(e) => Some(*e),
            None => None,
        };
        let (count, since) = Self::count_event(entry, 3600, now);
        self.register_counter.insert(String::from_str(ip), (count, since));
    }

    /// Counts a registration from `ip` by the system clock.
    pub fn registration(&mut self, ip: &str)
        requires
            old(self).registrations().contains_key(ip@) ==> old(self).registrations()[ip@].0 < u32::MAX,
        ensures
            exists|t: Timestamp| #[trigger] old(self).counts_registration(*final(self), ip@, t),
    {
        let t = now();
        self.registration_at(ip, t)
    }
}

/// A banned address is refused, whatever it asks for.
pub proof fn lemma_banned_refused(s: SecurityManager, ip: Seq<char>, action: ApiAction, now: Timestamp)
    requires
        s.spec_banned(ip, now),
    ensures
        !s.spec_check(ip, action, now),
{
}

/// The failed login that takes the count of an address within its window
/// past the limit bans it, and it is refused at once (where bans last at
/// all).
pub proof fn lemma_too_many_fails_refused(
    s: SecurityManager,
    after: SecurityManager,
    ip: Seq<char>,
    now: Timestamp,
    announced: bool,
    action: ApiAction,
)
    requires
        s.counts_login_fail(after, ip, now, announced),
        s.fails_tracked() <= max_tracked(),
        continues_count(entry_of(s.fails(), ip), s.login_time(), now),
        counted(entry_of(s.fails(), ip), s.login_time(), now).0 > s.login_fails(),
        s.ban_time() > 0,
    ensures
        after.spec_banned(ip, now),
        !after.spec_check(ip, action, now),
{
}

/// An event between the start of a window and a time at which the window is
/// still open falls within that window too.
proof fn lemma_within_window(start: Timestamp, window: u64, t: Timestamp, now: Timestamp)
    requires
        start <= t <= now,
        unexpired(start, window, now),
    ensures
        unexpired(start, window, t),
{
    vstd::arithmetic::div_mod::lemma_div_is_ordered(t - start, now - start, 1_000_000_000);
}

/// After the first `k` of the registrations counted by `states`, the
/// address has the count `k` from the first of them, and nothing else has
/// changed.
proof fn lemma_registrations_prefix(
    states: Seq<SecurityManager>,
    ip: Seq<char>,
    times: Seq<Timestamp>,
    now: Timestamp,
    k: int,
)
    requires
        states.len() == times.len() + 1,
        times.len() <= u32::MAX,
        forall|i: int| 0 <= i < times.len() ==> #[trigger] states[i].counts_registration(states[i + 1], ip, times[i]),
        forall|i: int| 0 <= i < times.len() ==> #[trigger] states[i].registrations_tracked() <= max_tracked(),
        !states[0].registrations().contains_key(ip),
        forall|i: int| 0 <= i < times.len() ==> times[0] <= #[trigger] times[i] <= now,
        unexpired(times[0], registration_window(), now),
        1 <= k <= times.len(),
    ensures
        states[k].registrations().contains_key(ip),
        states[k].registrations()[ip] == (k as u32, times[0]),
        forall|ip2: Seq<char>|
            ip2 != ip ==> #[trigger] entry_of(states[k].registrations(), ip2) == entry_of(
                states[0].registrations(),
                ip2,
            ),
        states[k].fails() == states[0].fails(),
        states[k].bans() == states[0].bans(),
        states[k].ban_time() == states[0].ban_time(),
        states[k].login_fails() == states[0].login_fails(),
        states[k].login_time() == states[0].login_time(),
        states[k].account_limit() == states[0].account_limit(),
    decreases k,
{
    let j = k - 1;
    assert(states[j].counts_registration(states[j + 1], ip, times[j]));
    assert(states[j].registrations_tracked() <= max_tracked());
    assert(times[0] <= times[j] <= now);
    if k > 1 {
        lemma_registrations_prefix(states, ip, times, now, k - 1);
        lemma_within_window(times[0], registration_window(), times[k - 1], now);
    }
    assert forall|ip2: Seq<char>| ip2 != ip implies #[trigger] entry_of(states[k].registrations(), ip2)
        == entry_of(states[0].registrations(), ip2) by {
        if k > 1 {
            assert(entry_of(states[j].registrations(), ip2) == entry_of(states[0].registrations(), ip2));
        }
    }
}

/// Registrations from an address that had none counted, all of them within
/// one hour of the first, while no more than 100000 addresses are tracked:
/// after `n` of them the address may register again exactly when `n` is
/// within the limit and it is not banned; its other requests, and every
/// request of any other address, are answered as before.
pub proof fn lemma_registrations_counted(
    states: Seq<SecurityManager>,
    ip: Seq<char>,
    times: Seq<Timestamp>,
    now: Timestamp,
)
    requires
        times.len() >= 1,
        times.len() <= u32::MAX,
        states.len() == times.len() + 1,
        forall|i: int| 0 <= i < times.len() ==> #[trigger] states[i].counts_registration(states[i + 1], ip, times[i]),
        forall|i: int| 0 <= i < times.len() ==> #[trigger] states[i].registrations_tracked() <= max_tracked(),
        !states[0].registrations().contains_key(ip),
        forall|i: int| 0 <= i < times.len() ==> times[0] <= #[trigger] times[i] <= now,
        unexpired(times[0], registration_window(), now),
    ensures
        states.last().registrations()[ip] == (times.len() as u32, times[0]),
        states.last().spec_check(ip, ApiAction::Register, now) == (!states[0].spec_banned(ip, now) && times.len()
            <= states[0].account_limit()),
        states.last().spec_check(ip, ApiAction::Simple, now) == states[0].spec_check(ip, ApiAction::Simple, now),
        forall|ip2: Seq<char>, action: ApiAction|
            ip2 != ip ==> #[trigger] states.last().spec_check(ip2, action, now) == states[0].spec_check(
                ip2,
                action,
                now,
            ),
{
    let n = times.len() as int;
    lemma_registrations_prefix(states, ip, times, now, n);
    assert forall|ip2: Seq<char>, action: ApiAction| ip2 != ip implies #[trigger] states.last().spec_check(
        ip2,
        action,
        now,
    ) == states[0].spec_check(ip2, action, now) by {
        assert(entry_of(states[n].registrations(), ip2) == entry_of(states[0].registrations(), ip2));
    }
}

/// After the first `k` of the failed logins counted by `states`, the
/// address has the count `k` from the first of them; it is banned from the
/// latest of them once a second or later one takes the count past the
/// limit; nothing else has changed.
proof fn lemma_fails_prefix(
    states: Seq<SecurityManager>,
    ip: Seq<char>,
    times: Seq<Timestamp>,
    announced: Seq<bool>,
    now: Timestamp,
    k: int,
)
    requires
        states.len() == times.len() + 1,
        announced.len() == times.len(),
        times.len() <= u32::MAX,
        forall|i: int|
            0 <= i < times.len() ==> #[trigger] states[i].counts_login_fail(states[i + 1], ip, times[i], announced[i]),
        forall|i: int| 0 <= i < times.len() ==> #[trigger] states[i].fails_tracked() <= max_tracked(),
        !states[0].fails().contains_key(ip),
        forall|i: int| 0 <= i < times.len() ==> times[0] <= #[trigger] times[i] <= now,
        unexpired(times[0], states[0].login_time(), now),
        1 <= k <= times.len(),
    ensures
        states[k].fails().contains_key(ip),
        states[k].fails()[ip] == (k as u32, times[0]),
        forall|ip2: Seq<char>|
            ip2 != ip ==> #[trigger] entry_of(states[k].fails(), ip2) == entry_of(states[0].fails(), ip2),
        states[k].bans() == if k >= 2 && k > states[0].login_fails() {
            states[0].bans().insert(ip, times[k - 1])
        } else {
            states[0].bans()
        },
        states[k].registrations() == states[0].registrations(),
        states[k].ban_time() == states[0].ban_time(),
        states[k].login_fails() == states[0].login_fails(),
        states[k].login_time() == states[0].login_time(),
        states[k].account_limit() == states[0].account_limit(),
    decreases k,
{
    let j = k - 1;
    assert(states[j].counts_login_fail(states[j + 1], ip, times[j], announced[j]));
    assert(states[j].fails_tracked() <= max_tracked());
    assert(times[0] <= times[j] <= now);
    if k > 1 {
        lemma_fails_prefix(states, ip, times, announced, now, k - 1);
        lemma_within_window(times[0], states[0].login_time(), times[k - 1], now);
        if k > states[0].login_fails() {
            assert(states[k].bans() =~= states[0].bans().insert(ip, times[k - 1]));
        }
    }
    assert forall|ip2: Seq<char>| ip2 != ip implies #[trigger] entry_of(states[k].fails(), ip2) == entry_of(
        states[0].fails(),
        ip2,
    ) by {
        if k > 1 {
            assert(entry_of(states[j].fails(), ip2) == entry_of(states[0].fails(), ip2));
        }
    }
}

/// Failed logins of an address that had none counted and is not banned, all
/// of them within the login window of the first, while no more than 100000
/// addresses are tracked: after `n` of them its requests are refused
/// exactly when `n` exceeds the limit; it is banned from the last of them
/// once `n` is at least two and exceeds the limit, which refuses its
/// registrations too while the ban lasts (right after the last failure,
/// where bans last at all); every other address is answered as before.
pub proof fn lemma_failed_logins_counted(
    states: Seq<SecurityManager>,
    ip: Seq<char>,
    times: Seq<Timestamp>,
    announced: Seq<bool>,
    now: Timestamp,
)
    requires
        times.len() >= 1,
        times.len() <= u32::MAX,
        states.len() == times.len() + 1,
        announced.len() == times.len(),
        forall|i: int|
            0 <= i < times.len() ==> #[trigger] states[i].counts_login_fail(states[i + 1], ip, times[i], announced[i]),
        forall|i: int| 0 <= i < times.len() ==> #[trigger] states[i].fails_tracked() <= max_tracked(),
        !states[0].fails().contains_key(ip),
        !states[0].spec_banned(ip, now),
        forall|i: int| 0 <= i < times.len() ==> times[0] <= #[trigger] times[i] <= now,
        unexpired(times[0], states[0].login_time(), now),
    ensures
        states.last().fails()[ip] == (times.len() as u32, times[0]),
        states.last().spec_check(ip, ApiAction::Simple, now) == (times.len() <= states[0].login_fails()),
        states.last().spec_banned(ip, now) == (times.len() >= 2 && times.len() > states[0].login_fails()
            && unexpired(times.last(), states[0].ban_time(), now)),
        states.last().spec_check(ip, ApiAction::Register, now) == (!states.last().spec_banned(ip, now)
            && states[0].spec_check(ip, ApiAction::Register, now)),
        now == times.last() && states[0].ban_time() >= 1 ==> states.last().spec_check(ip, ApiAction::Register, now)
            == (!(times.len() >= 2 && times.len() > states[0].login_fails()) && states[0].spec_check(
            ip,
            ApiAction::Register,
            now,
        )),
        forall|ip2: Seq<char>, action: ApiAction|
            ip2 != ip ==> #[trigger] states.last().spec_check(ip2, action, now) == states[0].spec_check(
                ip2,
                action,
                now,
            ),
{
    let n = times.len() as int;
    lemma_fails_prefix(states, ip, times, announced, now, n);
    assert forall|ip2: Seq<char>, action: ApiAction| ip2 != ip implies #[trigger] states.last().spec_check(
        ip2,
        action,
        now,
    ) == states[0].spec_check(ip2, action, now) by {
        assert(entry_of(states[n].fails(), ip2) == entry_of(states[0].fails(), ip2));
    }
}

} // verus!
