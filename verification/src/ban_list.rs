//! Throttling of addresses whose handshakes keep failing.
//!
//! Times are nanoseconds since a moment that the caller fixes once.
use vstd::prelude::*;

use crate::ip::IpAddr;
use crate::table;

verus! {

/// Ban after this many failed handshakes.
pub const MAX_FAILED_ATTEMPTS: usize = 3;

/// How long an address stays banned: 15 minutes.
pub const BAN_DURATION: u64 = 900_000_000_000;

/// Failures count together where no more than this lies between them: a
/// minute.
pub const FAILED_ATTEMPT_WINDOW: u64 = 60_000_000_000;

/// How long an entry is kept beyond its ban: a minute.
pub const EXPIRED_BAN_KEPT: u64 = 60_000_000_000;

/// The failed attempts of an address.
#[derive(Clone, Copy, Debug, PartialEq, Eq, Structural)]
pub struct FailedAttempt {
    /// How many there are.
    pub count: usize,
    /// When the last one was.
    pub last_attempt: u64,
    /// When the ban ends, if there is one.
    pub banned_until: Option<u128>,
}

/// The failed attempts by address.
pub type Attempts = Map<IpAddr, FailedAttempt>;

/// Whether an address is banned.
pub open spec fn banned(m: Attempts, ip: IpAddr, now: u64) -> bool {
    &&& m.contains_key(ip)
    &&& m[ip].banned_until matches Some(until) && now < until
}

/// The attempts after a look at an address: a ban that has run out is cleared,
/// and with it the count.
pub open spec fn after_check(m: Attempts, ip: IpAddr, now: u64) -> Attempts {
    if m.contains_key(ip) && m[ip].banned_until is Some && !banned(m, ip, now) {
        m.insert(ip, FailedAttempt { count: 0, banned_until: None, ..m[ip] })
    } else {
        m
    }
}

/// The number of failures that count at a failure, this one included.
pub open spec fn counted(m: Attempts, ip: IpAddr, now: u64) -> nat {
    if m.contains_key(ip) && now - m[ip].last_attempt <= FAILED_ATTEMPT_WINDOW {
        m[ip].count as nat + 1
    } else {
        1
    }
}

/// The attempts after a failure.
pub open spec fn after_failure(m: Attempts, ip: IpAddr, now: u64) -> Attempts {
    let count = counted(m, ip, now);
    m.insert(
        ip,
        FailedAttempt {
            count: count as usize,
            last_attempt: now,
            banned_until: if count >= MAX_FAILED_ATTEMPTS {
                Some((now + BAN_DURATION) as u128)
            } else if m.contains_key(ip) {
                m[ip].banned_until
            } else {
                None
            },
        },
    )
}

/// Whether a clean-up keeps an entry: it is banned, or was until a moment ago,
/// or has failed of late.
pub open spec fn kept(e: FailedAttempt, now: u64) -> bool {
    match e.banned_until {
        Some(until) => now < until + EXPIRED_BAN_KEPT,
        None => now - e.last_attempt < 2 * FAILED_ATTEMPT_WINDOW,
    }
}

/// The attempts after a clean-up.
pub open spec fn cleaned(m: Attempts, now: u64) -> Attempts {
    Map::new(|ip: IpAddr| m.contains_key(ip) && kept(m[ip], now), |ip: IpAddr| m[ip])
}

/// IP-based connection throttling and banning.
#[derive(Debug)]
pub struct BanList {
    entries: Vec<(IpAddr, FailedAttempt)>,
}

impl View for BanList {
    type V = Attempts;

    closed spec fn view(&self) -> Attempts {
        table::pairs_map(self.entries@)
    }
}

impl BanList {
    /// No address occurs twice, and no ban ends later than one that starts at
    /// the last moment there is.
    pub closed spec fn wf(&self) -> bool {
        &&& table::distinct_keys(self.entries@)
        &&& forall|i: int|
            0 <= i < self.entries@.len() ==> ((#[trigger] self.entries@[i]).1.banned_until matches Some(
                until,
            ) ==> until <= u64::MAX + BAN_DURATION)
    }

    /// A list without entries.
    pub fn new() -> (r: Self)
        ensures
            r.wf(),
            r@ == Map::<IpAddr, FailedAttempt>::empty(),
    {
        BanList { entries: Vec::new() }
    }

    fn find(&self, ip: IpAddr) -> (r: usize)
        requires
            self.wf(),
        ensures
            r <= self.entries@.len(),
            r < self.entries@.len() ==> self.entries@[r as int].0 == ip && self@.contains_key(ip)
                && self@[ip] == self.entries@[r as int].1,
            r == self.entries@.len() ==> !self@.contains_key(ip),
    {
        proof {
            table::lemma_pairs_map(self.entries@);
        }
        let mut i: usize = 0;
        while i < self.entries.len()
            invariant
                self.wf(),
                i <= self.entries@.len(),
                forall|j: int| 0 <= j < i ==> (#[trigger] self.entries@[j]).0 != ip,
            decreases self.entries@.len() - i,
        {
            if self.entries[i].0 == ip {
                proof {
                    table::lemma_pairs_map(self.entries@);
                }
                return i;
            }
            i = i + 1;
        }
        i
    }

    /// Check if an IP is currently banned. A ban that has run out is cleared.
    pub fn is_banned(&mut self, ip: IpAddr, now: u64) -> (r: bool)
        requires
            old(self).wf(),
        ensures
            final(self).wf(),
            r == banned(old(self)@, ip, now),
            final(self)@ == after_check(old(self)@, ip, now),
    {
        let i = self.find(ip);
        if i < self.entries.len() {
            let e = self.entries[i].1;
            if let Some(until) = e.banned_until {
                if (now as u128) < until {
                    return true;
                }
                let cleared = FailedAttempt {
                    count: 0,
                    last_attempt: e.last_attempt,
                    banned_until: None,
                };
                proof {
                    table::lemma_changed(self.entries@, i as int, cleared);
                }
                self.entries.set(i, (ip, cleared));
            }
        }
        false
    }

    /// Whether the count of an address has room for another failure.
    pub fn can_record(&self, ip: IpAddr, now: u64) -> (r: bool)
        requires
            self.wf(),
        ensures
            r == (counted(self@, ip, now) <= usize::MAX),
    {
        let i = self.find(ip);
        if i < self.entries.len() {
            let e = self.entries[i].1;
            now.saturating_sub(e.last_attempt) > FAILED_ATTEMPT_WINDOW || e.count < usize::MAX
        } else {
            true
        }
    }

    /// Record a failed handshake attempt. Returns true if the IP should now be
    /// banned.
    pub fn record_failure(&mut self, ip: IpAddr, now: u64) -> (r: bool)
        requires
            old(self).wf(),
            counted(old(self)@, ip, now) <= usize::MAX,
        ensures
            final(self).wf(),
            r == (counted(old(self)@, ip, now) >= MAX_FAILED_ATTEMPTS),
            final(self)@ == after_failure(old(self)@, ip, now),
    {
        let i = self.find(ip);
        let known = i < self.entries.len();
        let (count, until): (usize, Option<u128>) = if known {
            let e = self.entries[i].1;
            if now.saturating_sub(e.last_attempt) > FAILED_ATTEMPT_WINDOW {
                (1, e.banned_until)
            } else {
                (e.count + 1, e.banned_until)
            }
        } else {
            (1, None)
        };
        let ban = count >= MAX_FAILED_ATTEMPTS;
        let entry = FailedAttempt {
            count,
            last_attempt: now,
            banned_until: if ban {
                Some(now as u128 + BAN_DURATION as u128)
            } else {
                until
            },
        };
        if known {
            proof {
                table::lemma_changed(self.entries@, i as int, entry);
            }
            self.entries.set(i, (ip, entry));
        } else {
            proof {
                table::lemma_added(self.entries@, ip, entry);
            }
            self.entries.push((ip, entry));
        }
        ban
    }

    /// Clean up old entries (call periodically).
    pub fn cleanup(&mut self, now: u64)
        requires
            old(self).wf(),
        ensures
            final(self).wf(),
            final(self)@ == cleaned(old(self)@, now),
    {
        let ghost before = self@;
        let mut i: usize = 0;
        while i < self.entries.len()
            invariant
                self.wf(),
                i <= self.entries@.len(),
                forall|j: int| 0 <= j < i ==> kept((#[trigger] self.entries@[j]).1, now),
                forall|k: IpAddr| #[trigger]
                    self@.contains_key(k) ==> before.contains_key(k) && self@[k] == before[k],
                forall|k: IpAddr| #[trigger]
                    before.contains_key(k) && kept(before[k], now) ==> self@.contains_key(k),
            decreases self.entries@.len() - i,
        {
            let ghost s = self.entries@;
            proof {
                table::lemma_pairs_map(s);
            }
            let e = self.entries[i].1;
            let keep = match e.banned_until {
                Some(until) => (now as u128) < until + EXPIRED_BAN_KEPT as u128,
                None => now.saturating_sub(e.last_attempt) < FAILED_ATTEMPT_WINDOW * 2,
            };
            if keep {
                i = i + 1;
            } else {
                proof {
                    table::lemma_without(s, i as int);
                }
                let ghost was = self@;
                let _ = self.entries.remove(i);
                proof {
                    assert(self.entries@ =~= s.remove(i as int));
                    assert forall|k: IpAddr| #[trigger] self@.contains_key(k) implies before.contains_key(
                        k,
                    ) && self@[k] == before[k] by {
                        assert(was.contains_key(k));
                    }
                }
            }
        }
        proof {
            let s = self.entries@;
            table::lemma_pairs_map(s);
            assert forall|k: IpAddr| self@.contains_key(k) implies kept(self@[k], now) by {
                let x = choose|x: int| 0 <= x < s.len() && (#[trigger] s[x]).0 == k;
                assert(kept(s[x].1, now));
            }
            assert(self@ =~= cleaned(before, now));
        }
    }
}

// ---------------------------------------------------------------------------
// Laws
// ---------------------------------------------------------------------------

/// Three failures, none more than the window after the one before it, ban an
/// address until `BAN_DURATION` after the last, and no longer.
pub proof fn three_failures_ban(m: Attempts, ip: IpAddr, t1: u64, t2: u64, t3: u64, now: u64)
    requires
        t2 - t1 <= FAILED_ATTEMPT_WINDOW,
        t3 - t2 <= FAILED_ATTEMPT_WINDOW,
        counted(m, ip, t1) + 2 <= usize::MAX,
    ensures
        banned(
            after_failure(after_failure(after_failure(m, ip, t1), ip, t2), ip, t3),
            ip,
            now,
        ) <==> now < t3 + BAN_DURATION,
{
}

/// One failure or two do not ban an address that nothing is known of, or whose
/// last failure lies longer back than the window.
pub proof fn two_failures_do_not_ban(m: Attempts, ip: IpAddr, t1: u64, t2: u64, now: u64)
    requires
        !m.contains_key(ip) || (m[ip].banned_until is None && t1 - m[ip].last_attempt
            > FAILED_ATTEMPT_WINDOW),
    ensures
        !banned(after_failure(m, ip, t1), ip, now),
        !banned(after_failure(after_failure(m, ip, t1), ip, t2), ip, now),
{
}

/// Once a ban has run out and was looked at, the address starts afresh: the
/// next failure is its first.
pub proof fn expired_ban_starts_afresh(m: Attempts, ip: IpAddr, now: u64, later: u64)
    requires
        m.contains_key(ip),
        m[ip].banned_until is Some,
        !banned(m, ip, now),
    ensures
        counted(after_check(m, ip, now), ip, later) == 1,
        !banned(after_failure(after_check(m, ip, now), ip, later), ip, later),
{
}

/// A look, a failure and a clean-up leave what is known of other addresses as
/// it is, but that a clean-up may forget it.
pub proof fn other_addresses_are_untouched(
    m: Attempts,
    ip: IpAddr,
    other: IpAddr,
    now: u64,
    at: u64,
)
    requires
        ip != other,
    ensures
        banned(after_check(m, ip, now), other, at) == banned(m, other, at),
        counted(after_check(m, ip, now), other, at) == counted(m, other, at),
        banned(after_failure(m, ip, now), other, at) == banned(m, other, at),
        counted(after_failure(m, ip, now), other, at) == counted(m, other, at),
{
}

/// A clean-up never lifts a ban, and never sets one.
pub proof fn cleanup_keeps_bans(m: Attempts, ip: IpAddr, now: u64, later: u64)
    requires
        now <= later,
    ensures
        banned(cleaned(m, now), ip, later) == banned(m, ip, later),
{
}

/// A clean-up never changes what a later failure counts, where the address has
/// no ban on record or failed last longer than the window before.
pub proof fn cleanup_keeps_counts(m: Attempts, ip: IpAddr, now: u64, later: u64)
    requires
        now <= later,
        m.contains_key(ip) ==> m[ip].banned_until is None || now - m[ip].last_attempt
            > FAILED_ATTEMPT_WINDOW,
    ensures
        counted(cleaned(m, now), ip, later) == counted(m, ip, later),
{
}

/// A second clean-up at the same moment finds nothing to do.
pub proof fn cleanup_is_idempotent(m: Attempts, now: u64)
    ensures
        cleaned(cleaned(m, now), now) == cleaned(m, now),
{
    assert(cleaned(cleaned(m, now), now) =~= cleaned(m, now));
}

/// The attempts after failures of an address at a row of moments.
pub open spec fn after_failures(m: Attempts, ip: IpAddr, ts: Seq<u64>) -> Attempts
    decreases ts.len(),
{
    if ts.len() == 0 {
        m
    } else {
        after_failure(after_failures(m, ip, ts.drop_last()), ip, ts.last())
    }
}

/// How many of a row of moments, from the last one back, follow each other
/// within a minute.
pub open spec fn streak(ts: Seq<u64>) -> nat
    decreases ts.len(),
{
    if ts.len() == 0 {
        0
    } else if ts.len() > 1 && ts.last() - ts[ts.len() - 2] <= 60_000_000_000 {
        streak(ts.drop_last()) + 1
    } else {
        1
    }
}

/// When the ban ends that failures at a row of moments bring: fifteen minutes
/// after the last that was the third or a later one of its streak.
pub open spec fn ban_end(ts: Seq<u64>) -> Option<int>
    decreases ts.len(),
{
    if ts.len() == 0 {
        None
    } else if streak(ts) >= 3 {
        Some(ts.last() + 900_000_000_000)
    } else {
        ban_end(ts.drop_last())
    }
}

proof fn lemma_streak(ts: Seq<u64>)
    ensures
        streak(ts) <= ts.len(),
    decreases ts.len(),
{
    if ts.len() > 0 {
        lemma_streak(ts.drop_last());
    }
}

/// Whatever the failures of an address were, it is banned exactly until
/// fifteen minutes after the last one that was at least the third in a row
/// without a gap of more than a minute; and a further failure counts those of
/// its row.
pub proof fn failures_in_a_row_ban(m: Attempts, ip: IpAddr, ts: Seq<u64>, now: u64)
    requires
        !m.contains_key(ip),
        ts.len() < usize::MAX,
    ensures
        banned(after_failures(m, ip, ts), ip, now) <==> (ban_end(ts) matches Some(end) && now < end),
        counted(after_failures(m, ip, ts), ip, now) == streak(ts.push(now)),
        ts.len() > 0 ==> after_failures(m, ip, ts).contains_key(ip) && after_failures(m, ip, ts)[ip]
            == (FailedAttempt {
            count: streak(ts) as usize,
            last_attempt: ts.last(),
            banned_until: match ban_end(ts) {
                Some(end) => Some(end as u128),
                None => None,
            },
        }),
        forall|other: IpAddr|
            other != ip ==> (after_failures(m, ip, ts).contains_key(other) <==> #[trigger]
                m.contains_key(other)) && (m.contains_key(other) ==> after_failures(
                m,
                ip,
                ts,
            )[other] == m[other]),
    decreases ts.len(),
{
    lemma_streak(ts);
    lemma_streak(ts.push(now));
    assert(ts.push(now).drop_last() =~= ts);
    if ts.len() > 0 {
        let before = ts.drop_last();
        failures_in_a_row_ban(m, ip, before, ts.last());
        assert(before.push(ts.last()) =~= ts);
        lemma_ban_end(ts);
        lemma_ban_end(before);
    }
}

proof fn lemma_ban_end(ts: Seq<u64>)
    ensures
        ban_end(ts) matches Some(end) ==> 0 <= end <= u64::MAX + 900_000_000_000,
    decreases ts.len(),
{
    if ts.len() > 0 {
        lemma_ban_end(ts.drop_last());
    }
}

/// A look at an address changes what is known of it only where a ban has run
/// out: then the ban and the count are gone, and the last failure stays.
pub proof fn a_look_clears_what_has_run_out(m: Attempts, ip: IpAddr, now: u64)
    ensures
        ({
            let ended = m.contains_key(ip) && (m[ip].banned_until matches Some(until) && until
                <= now);
            let after = after_check(m, ip, now);
            &&& !ended ==> after == m
            &&& ended ==> after.dom() == m.dom() && after[ip].count == 0 && after[ip].banned_until
                is None && after[ip].last_attempt == m[ip].last_attempt
            &&& forall|other: IpAddr| other != ip ==> (#[trigger] after[other]) == m[other]
        }),
{
    assert(after_check(m, ip, now).dom() =~= m.dom());
}

/// A clean-up forgets exactly what is old: an address whose ban ended a minute
/// ago or longer, and one without a ban whose last failure lies two minutes
/// back or longer. What it keeps it does not change.
pub proof fn cleanup_forgets_what_is_old(m: Attempts, ip: IpAddr, now: u64)
    ensures
        cleaned(m, now).contains_key(ip) <==> m.contains_key(ip) && match m[ip].banned_until {
            Some(until) => now < until + 60_000_000_000,
            None => now < m[ip].last_attempt + 120_000_000_000,
        },
        cleaned(m, now).contains_key(ip) ==> cleaned(m, now)[ip] == m[ip],
{
}

} // verus!
