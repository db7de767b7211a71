//! When to try again: reaching peers, restarting transport processes, and the
//! work that is due every second.
use vstd::arithmetic::power2::*;
use vstd::bits::*;
use vstd::prelude::*;

use crate::duration::Duration;
use crate::ip::SocketAddr;
use crate::text;

verus! {

/// Maximum shift for exponential backoff (the wait is `1 << shift` seconds),
/// further clamped by the longest wait that the options allow.
pub const BACKOFF_SHIFT_MAX: u32 = 16;

/// The number of failures in a row that a peer remembers.
pub const BACKOFF_MAX: u32 = 32;

/// If a link stayed up at least this long (30 s, in nanoseconds), its end is
/// taken for network jitter and not for a broken peer to back off from.
pub const BACKOFF_RESET_UPTIME: u64 = 30_000_000_000;

/// Maximum shift for the restarts of a transport process.
pub const RESTART_SHIFT_MAX: u32 = 6;

/// The number of seconds between two clean-ups of the ban list.
pub const CLEANUP_INTERVAL: u32 = 60;

/// `1 << shift` seconds.
fn doubled(shift: u32) -> (r: u64)
    requires
        shift <= 32,
    ensures
        r == pow2(shift as nat),
        1 <= r <= 0x1_0000_0000,
{
    proof {
        lemma2_to64();
        if shift < 32 {
            lemma_pow2_strictly_increases(shift as nat, 32);
        }
        if shift > 0 {
            lemma_pow2_strictly_increases(0, shift as nat);
        }
        lemma_u64_shl_is_mul(1, shift as u64);
    }
    1u64 << (shift as u64)
}

// ---------------------------------------------------------------------------
// Peers
// ---------------------------------------------------------------------------

/// What ended the wait for the next attempt.
#[derive(Clone, Copy, Debug, PartialEq, Eq, Structural)]
pub enum Wake {
    /// The time is over.
    Slept,
    /// All peers are to be tried at once, as after a change of the network.
    RetryNow,
    /// The transport that the peer is reached through has become ready.
    PtReady,
    /// The peer was removed.
    Cancelled,
}

/// What has happened to a peer.
#[derive(Debug)]
pub enum PeerNews {
    /// It was reached.
    Connected,
    /// It could not be reached, for this reason.
    DialFailed(String),
    /// The link to it is over, with this outcome and after this time (in
    /// nanoseconds).
    Ended { result: Result<(), String>, uptime: u64 },
    /// The wait is over.
    Woken(Wake),
}

/// What has happened to a peer, in mathematical terms.
pub enum PeerNewsView {
    Connected,
    DialFailed(Seq<char>),
    Ended { error: Option<Seq<char>>, uptime: u64 },
    Woken(Wake),
}

impl View for PeerNews {
    type V = PeerNewsView;

    open spec fn view(&self) -> PeerNewsView {
        match self {
            PeerNews::Connected => PeerNewsView::Connected,
            PeerNews::DialFailed(e) => PeerNewsView::DialFailed(e@),
            PeerNews::Ended { result, uptime } => PeerNewsView::Ended {
                error: match result {
                    Ok(_) => None,
                    Err(e) => Some(e@),
                },
                uptime: *uptime,
            },
            PeerNews::Woken(w) => PeerNewsView::Woken(*w),
        }
    }
}

/// What to do for a peer.
#[derive(Clone, Copy, Debug, PartialEq, Eq, Structural)]
pub enum PeerAction {
    /// Try to reach it.
    Dial,
    /// Run the link to it.
    Run,
    /// Wait this long, or for something that wakes the peer.
    Wait(Duration),
    /// Stop.
    Stop,
}

/// What to do for a peer, and what to note as its last error: `None` leaves
/// the note as it is, `Some(None)` clears it.
#[derive(Debug)]
pub struct PeerStep {
    pub note: Option<Option<String>>,
    pub action: PeerAction,
}

/// What to do for a peer, in mathematical terms.
pub struct PeerStepView {
    pub note: Option<Option<Seq<char>>>,
    pub action: PeerAction,
}

impl View for PeerStep {
    type V = PeerStepView;

    open spec fn view(&self) -> PeerStepView {
        PeerStepView {
            note: match self.note {
                Some(e) => Some(text::option_text(e)),
                None => None,
            },
            action: self.action,
        }
    }
}

/// How long to wait after `backoff` failures.
pub open spec fn peer_wait(backoff: nat, max_backoff: u64) -> u64 {
    let wait = pow2(
        if backoff < BACKOFF_SHIFT_MAX {
            backoff
        } else {
            BACKOFF_SHIFT_MAX as nat
        },
    );
    if wait < max_backoff {
        wait as u64
    } else {
        max_backoff
    }
}

/// The failures that count after one more.
pub open spec fn one_more(backoff: nat) -> nat {
    if backoff < BACKOFF_MAX {
        backoff + 1
    } else {
        backoff
    }
}

/// The failures that count, and what to do, after news of a peer. A clean end,
/// or one after a long uptime, starts the count afresh, and so does the wish
/// to try all peers at once.
pub open spec fn peer_step(backoff: nat, max_backoff: u64, news: PeerNewsView) -> (
    nat,
    PeerStepView,
) {
    match news {
        PeerNewsView::Connected => (
            backoff,
            PeerStepView { note: Some(None), action: PeerAction::Run },
        ),
        PeerNewsView::DialFailed(e) => (
            one_more(backoff),
            PeerStepView {
                note: Some(Some(e)),
                action: PeerAction::Wait(
                    Duration { secs: peer_wait(one_more(backoff), max_backoff) },
                ),
            },
        ),
        PeerNewsView::Ended { error, uptime } => {
            let fresh = if error is None || uptime >= BACKOFF_RESET_UPTIME {
                0
            } else {
                backoff
            };
            (
                one_more(fresh),
                PeerStepView {
                    note: Some(error),
                    action: PeerAction::Wait(
                        Duration { secs: peer_wait(one_more(fresh), max_backoff) },
                    ),
                },
            )
        },
        PeerNewsView::Woken(wake) => (
            if wake == Wake::RetryNow {
                0
            } else {
                backoff
            },
            PeerStepView {
                note: None,
                action: if wake == Wake::Cancelled {
                    PeerAction::Stop
                } else {
                    PeerAction::Dial
                },
            },
        ),
    }
}

/// The failures of a peer since it was last well.
#[derive(Clone, Copy, Debug, PartialEq, Eq, Structural)]
pub struct PeerBackoff {
    backoff: u32,
}

impl View for PeerBackoff {
    type V = nat;

    closed spec fn view(&self) -> nat {
        self.backoff as nat
    }
}

impl PeerBackoff {
    /// A peer that has not failed.
    pub fn new() -> (r: Self)
        ensures
            r@ == 0,
    {
        PeerBackoff { backoff: 0 }
    }

    fn more(&mut self)
        ensures
            final(self)@ == one_more(old(self)@),
    {
        if self.backoff < BACKOFF_MAX {
            self.backoff = self.backoff + 1;
        }
    }

    fn wait(&self, max_backoff: Duration) -> (r: PeerAction)
        ensures
            r == PeerAction::Wait(Duration { secs: peer_wait(self@, max_backoff.secs) }),
    {
        let shift = if self.backoff < BACKOFF_SHIFT_MAX {
            self.backoff
        } else {
            BACKOFF_SHIFT_MAX
        };
        let secs = doubled(shift);
        if secs < max_backoff.secs {
            PeerAction::Wait(Duration { secs })
        } else {
            PeerAction::Wait(Duration { secs: max_backoff.secs })
        }
    }

    /// Takes news of the peer and says what to do.
    pub fn step(&mut self, max_backoff: Duration, news: PeerNews) -> (r: PeerStep)
        ensures
            (final(self)@, r@) == peer_step(old(self)@, max_backoff.secs, news@),
    {
        match news {
            PeerNews::Connected => PeerStep { note: Some(None), action: PeerAction::Run },
            PeerNews::DialFailed(e) => {
                self.more();
                PeerStep { note: Some(Some(e)), action: self.wait(max_backoff) }
            },
            PeerNews::Ended { result, uptime } => {
                let error = match result {
                    Ok(_) => None,
                    Err(e) => Some(e),
                };
                if error.is_none() || uptime >= BACKOFF_RESET_UPTIME {
                    self.backoff = 0;
                }
                self.more();
                PeerStep { note: Some(error), action: self.wait(max_backoff) }
            },
            PeerNews::Woken(wake) => {
                if wake == Wake::RetryNow {
                    self.backoff = 0;
                }
                let action = if wake == Wake::Cancelled {
                    PeerAction::Stop
                } else {
                    PeerAction::Dial
                };
                PeerStep { note: None, action }
            },
        }
    }
}

// ---------------------------------------------------------------------------
// Transport processes
// ---------------------------------------------------------------------------

/// What has happened to a transport process.
#[derive(Clone, Copy, Debug, PartialEq, Eq, Structural)]
pub enum ProcessNews {
    /// It has started and offers its method at this address.
    Started(SocketAddr),
    /// It could not be started.
    StartFailed,
    /// It has exited after this time (in nanoseconds).
    Exited { uptime: u64 },
    /// The wait is over.
    Slept,
    /// It is no longer needed.
    Cancelled,
}

/// What to do with a transport process.
#[derive(Clone, Copy, Debug, PartialEq, Eq, Structural)]
pub enum ProcessAction {
    /// Start it.
    Spawn,
    /// Wait until it exits.
    Watch,
    /// Wait this long.
    Sleep(Duration),
    /// Shut it down, then stop.
    Shutdown,
    /// Stop.
    Stop,
}

/// What a transport process is doing.
#[derive(Clone, Copy, Debug, PartialEq, Eq, Structural)]
pub enum ProcessPhase {
    Starting,
    Running,
    Sleeping,
    Stopped,
}

/// A transport process that is kept running.
#[derive(Clone, Copy, Debug, PartialEq, Eq, Structural)]
pub struct PtManager {
    phase: ProcessPhase,
    backoff: u32,
}

/// A transport process that is kept running, in mathematical terms.
pub struct ManagerView {
    pub phase: ProcessPhase,
    pub backoff: nat,
}

impl View for PtManager {
    type V = ManagerView;

    closed spec fn view(&self) -> ManagerView {
        ManagerView { phase: self.phase, backoff: self.backoff as nat }
    }
}

/// What to do with a process, and what to tell the peers that use it: `None`
/// tells nothing, `Some(None)` that it is not ready.
#[derive(Clone, Copy, Debug, PartialEq, Eq, Structural)]
pub struct ProcessStep {
    pub tell: Option<Option<SocketAddr>>,
    pub action: ProcessAction,
}

/// The failed starts that count after one more.
pub open spec fn one_restart_more(backoff: nat) -> nat {
    if backoff < RESTART_SHIFT_MAX {
        backoff + 1
    } else {
        backoff
    }
}

/// A process that waits for its next start.
pub open spec fn sleeping(backoff: nat, tell: Option<Option<SocketAddr>>) -> (
    ManagerView,
    ProcessStep,
) {
    (
        ManagerView { phase: ProcessPhase::Sleeping, backoff },
        ProcessStep {
            tell,
            action: ProcessAction::Sleep(Duration { secs: pow2(backoff) as u64 }),
        },
    )
}

/// The process, and what to do, after news of it. An exit after a long uptime
/// starts the count afresh; a fast one counts like a failed start, so that a
/// crash loop does not retry every second forever.
pub open spec fn process_step(m: ManagerView, news: ProcessNews) -> (ManagerView, ProcessStep) {
    match news {
        ProcessNews::Started(addr) => (
            ManagerView { phase: ProcessPhase::Running, ..m },
            ProcessStep { tell: Some(Some(addr)), action: ProcessAction::Watch },
        ),
        ProcessNews::StartFailed => sleeping(one_restart_more(m.backoff), Some(None)),
        ProcessNews::Exited { uptime } => sleeping(
            if uptime >= BACKOFF_RESET_UPTIME {
                0
            } else {
                one_restart_more(m.backoff)
            },
            Some(None),
        ),
        ProcessNews::Slept => (
            ManagerView { phase: ProcessPhase::Starting, ..m },
            ProcessStep { tell: None, action: ProcessAction::Spawn },
        ),
        ProcessNews::Cancelled => (
            ManagerView { phase: ProcessPhase::Stopped, ..m },
            ProcessStep {
                tell: None,
                action: if m.phase == ProcessPhase::Running {
                    ProcessAction::Shutdown
                } else {
                    ProcessAction::Stop
                },
            },
        ),
    }
}

impl PtManager {
    /// The count never exceeds what the wait is made for.
    pub closed spec fn wf(&self) -> bool {
        self.backoff <= RESTART_SHIFT_MAX
    }

    /// A process that is about to be started.
    pub fn new() -> (r: Self)
        ensures
            r.wf(),
            r@ == (ManagerView { phase: ProcessPhase::Starting, backoff: 0 }),
    {
        PtManager { phase: ProcessPhase::Starting, backoff: 0 }
    }

    fn more(&mut self)
        requires
            old(self).wf(),
        ensures
            final(self).wf(),
            final(self)@ == (ManagerView {
                backoff: one_restart_more(old(self)@.backoff),
                ..old(self)@
            }),
    {
        if self.backoff < RESTART_SHIFT_MAX {
            self.backoff = self.backoff + 1;
        }
    }

    fn sleep(&mut self, tell: Option<Option<SocketAddr>>) -> (r: ProcessStep)
        requires
            old(self).wf(),
        ensures
            final(self).wf(),
            (final(self)@, r) == sleeping(old(self)@.backoff, tell),
    {
        self.phase = ProcessPhase::Sleeping;
        ProcessStep {
            tell,
            action: ProcessAction::Sleep(Duration { secs: doubled(self.backoff) }),
        }
    }

    /// Takes news of the process and says what to do.
    pub fn step(&mut self, news: ProcessNews) -> (r: ProcessStep)
        requires
            old(self).wf(),
        ensures
            final(self).wf(),
            (final(self)@, r) == process_step(old(self)@, news),
    {
        match news {
            ProcessNews::Started(addr) => {
                self.phase = ProcessPhase::Running;
                ProcessStep { tell: Some(Some(addr)), action: ProcessAction::Watch }
            },
            ProcessNews::StartFailed => {
                self.more();
                self.sleep(Some(None))
            },
            ProcessNews::Exited { uptime } => {
                if uptime >= BACKOFF_RESET_UPTIME {
                    self.backoff = 0;
                } else {
                    self.more();
                }
                self.sleep(Some(None))
            },
            ProcessNews::Slept => {
                self.phase = ProcessPhase::Starting;
                ProcessStep { tell: None, action: ProcessAction::Spawn }
            },
            ProcessNews::Cancelled => {
                let action = if self.phase == ProcessPhase::Running {
                    ProcessAction::Shutdown
                } else {
                    ProcessAction::Stop
                };
                self.phase = ProcessPhase::Stopped;
                ProcessStep { tell: None, action }
            },
        }
    }
}

// ---------------------------------------------------------------------------
// Every second
// ---------------------------------------------------------------------------

/// Counts the seconds until the ban list is due for a clean-up.
#[derive(Clone, Copy, Debug, PartialEq, Eq, Structural)]
pub struct CleanupTimer {
    counter: u32,
}

impl View for CleanupTimer {
    type V = nat;

    closed spec fn view(&self) -> nat {
        self.counter as nat
    }
}

/// The counter after a second, and whether a clean-up is due.
pub open spec fn after_tick(counter: nat) -> (nat, bool) {
    if counter + 1 >= CLEANUP_INTERVAL {
        (0, true)
    } else {
        (counter + 1, false)
    }
}

impl CleanupTimer {
    /// The counter stays below the interval.
    pub closed spec fn wf(&self) -> bool {
        self.counter < CLEANUP_INTERVAL
    }

    /// A timer that has just started.
    pub fn new() -> (r: Self)
        ensures
            r.wf(),
            r@ == 0,
    {
        CleanupTimer { counter: 0 }
    }

    /// A second has passed. Returns whether a clean-up is due.
    pub fn tick(&mut self) -> (r: bool)
        requires
            old(self).wf(),
        ensures
            final(self).wf(),
            (final(self)@, r) == after_tick(old(self)@),
    {
        self.counter = self.counter + 1;
        if self.counter >= CLEANUP_INTERVAL {
            self.counter = 0;
            true
        } else {
            false
        }
    }
}

// ---------------------------------------------------------------------------
// Laws
// ---------------------------------------------------------------------------

/// A peer never waits longer than its options allow, and waits at least a
/// second where they allow that.
pub proof fn wait_is_bounded(backoff: nat, max_backoff: u64)
    ensures
        peer_wait(backoff, max_backoff) <= max_backoff,
        peer_wait(backoff, max_backoff) <= 65536,
        max_backoff >= 1 ==> peer_wait(backoff, max_backoff) >= 1,
{
    lemma2_to64();
    if 0 < backoff < 16 {
        lemma_pow2_strictly_increases(backoff, 16);
        lemma_pow2_strictly_increases(0, backoff);
    }
}

/// With each failure the wait doubles, until it has reached the longest one.
pub proof fn wait_doubles(backoff: nat, max_backoff: u64)
    requires
        backoff < BACKOFF_SHIFT_MAX,
    ensures
        peer_wait(backoff + 1, max_backoff) == if 2 * peer_wait(backoff, max_backoff) < max_backoff {
            (2 * peer_wait(backoff, max_backoff)) as u64
        } else {
            max_backoff
        },
{
    vstd::arithmetic::power2::lemma_pow2_unfold(backoff + 1);
    lemma2_to64();
    if backoff + 1 < 16 {
        lemma_pow2_strictly_increases(backoff + 1, 16);
    }
}

/// The failures that count never exceed `BACKOFF_MAX`.
pub proof fn backoff_is_bounded(backoff: nat, max_backoff: u64, news: PeerNewsView)
    requires
        backoff <= BACKOFF_MAX,
    ensures
        peer_step(backoff, max_backoff, news).0 <= BACKOFF_MAX,
{
}

/// The attempt that follows a clean end, a long uptime, or a wish to try all
/// peers at once (and one failure) comes after two seconds, whatever went
/// before.
pub proof fn a_healthy_peer_is_tried_soon(
    backoff: nat,
    max_backoff: u64,
    error: Option<Seq<char>>,
    uptime: u64,
    e: Seq<char>,
)
    requires
        max_backoff > 2,
    ensures
        error is None || uptime >= BACKOFF_RESET_UPTIME ==> peer_step(
            backoff,
            max_backoff,
            PeerNewsView::Ended { error, uptime },
        ).1.action == PeerAction::Wait(Duration { secs: 2 }),
        ({
            let now = peer_step(backoff, max_backoff, PeerNewsView::Woken(Wake::RetryNow)).0;
            peer_step(now, max_backoff, PeerNewsView::DialFailed(e)).1.action == PeerAction::Wait(
                Duration { secs: 2 },
            )
        }),
{
    lemma2_to64();
}

/// A peer stops only where it was removed.
pub proof fn only_removal_stops_a_peer(backoff: nat, max_backoff: u64, news: PeerNewsView)
    ensures
        peer_step(backoff, max_backoff, news).1.action == PeerAction::Stop <==> news
            == PeerNewsView::Woken(Wake::Cancelled),
{
}

/// A process waits between one second and 64 for its next start.
pub proof fn restart_wait_is_bounded(m: ManagerView, news: ProcessNews)
    requires
        m.backoff <= RESTART_SHIFT_MAX,
    ensures
        process_step(m, news).0.backoff <= RESTART_SHIFT_MAX,
        process_step(m, news).1.action matches ProcessAction::Sleep(d) ==> 1 <= d.secs <= 64,
{
    lemma2_to64();
}

/// Peers are told of an address exactly while the process runs: news that
/// starts it tells the address, and news that ends it takes the address back.
pub proof fn peers_know_whether_a_process_runs(m: ManagerView, news: ProcessNews)
    requires
        news is Slept ==> m.phase == ProcessPhase::Sleeping,
    ensures
        process_step(m, news).1.tell matches Some(Some(_)) <==> news is Started,
        process_step(m, news).0.phase == ProcessPhase::Running <==> news is Started,
        news is Exited || news is StartFailed ==> process_step(m, news).1.tell
            == Some::<Option<SocketAddr>>(None),
{
}

/// The counter after a number of seconds.
pub open spec fn after_ticks(n: nat) -> nat
    decreases n,
{
    if n == 0 {
        0
    } else {
        after_tick(after_ticks((n - 1) as nat)).0
    }
}

/// The clean-up is due at every sixtieth second, and at no other.
pub proof fn cleanup_is_due_every_minute(n: nat)
    ensures
        after_ticks(n) == n % 60,
        after_tick(after_ticks(n)).1 <==> (n + 1) % 60 == 0,
    decreases n,
{
    if n > 0 {
        cleanup_is_due_every_minute((n - 1) as nat);
    }
}

/// The failures that count after a row of news, from `backoff` on.
pub open spec fn backoff_after(backoff: nat, max_backoff: u64, row: Seq<PeerNewsView>) -> nat
    decreases row.len(),
{
    if row.len() == 0 {
        backoff
    } else {
        peer_step(backoff_after(backoff, max_backoff, row.drop_last()), max_backoff, row.last()).0
    }
}

/// How many attempts and links of a row of news have failed or ended.
pub open spec fn failures(row: Seq<PeerNewsView>) -> nat
    decreases row.len(),
{
    if row.len() == 0 {
        0
    } else if row.last() is DialFailed || row.last() is Ended {
        failures(row.drop_last()) + 1
    } else {
        failures(row.drop_last())
    }
}

/// Whether news is of a peer that is well: a clean end, an end after at least
/// 30 seconds, or the wish to try all peers at once.
pub open spec fn is_well(news: PeerNewsView) -> bool {
    match news {
        PeerNewsView::Ended { error, uptime } => error is None || uptime >= 30_000_000_000,
        PeerNewsView::Woken(wake) => wake == Wake::RetryNow,
        _ => false,
    }
}

/// Over any row of news without news of a well peer the failures add up, to 32
/// at most, and being reached in between takes none of them back. The wait
/// after each of them is 2 to the power of their number, or of 16 where they
/// are more, and at most what the options allow.
pub proof fn failures_add_up(backoff: nat, max_backoff: u64, row: Seq<PeerNewsView>)
    requires
        backoff <= 32,
        forall|i: int| 0 <= i < row.len() ==> !is_well(#[trigger] row[i]),
    ensures
        backoff_after(backoff, max_backoff, row) == if backoff + failures(row) <= 32 {
            backoff + failures(row)
        } else {
            32
        },
        row.len() > 0 && (row.last() is DialFailed || row.last() is Ended) ==> {
            let count = backoff + failures(row);
            let before = backoff_after(backoff, max_backoff, row.drop_last());
            let power = if count <= 16 {
                pow2(count)
            } else {
                65536
            };
            &&& peer_step(before, max_backoff, row.last()).1.action is Wait
            &&& peer_step(before, max_backoff, row.last()).1.action->Wait_0.secs == if power
                < max_backoff {
                power as int
            } else {
                max_backoff as int
            }
        },
    decreases row.len(),
{
    lemma2_to64();
    if row.len() > 0 {
        assert(!is_well(row[row.len() - 1]));
        failures_add_up(backoff, max_backoff, row.drop_last());
        let count = backoff + failures(row);
        if count < 16 {
            lemma_pow2_strictly_increases(count, 16);
        }
    }
}

/// News of a well peer makes it forget all that went before: whatever the
/// count was, an end leaves one failure and two seconds to wait (less only
/// where the options allow less), and the wish to try all peers leaves none.
pub proof fn a_well_peer_starts_afresh(
    backoff: nat,
    max_backoff: u64,
    news: PeerNewsView,
    row: Seq<PeerNewsView>,
)
    requires
        is_well(news),
        forall|i: int| 0 <= i < row.len() ==> !is_well(#[trigger] row[i]),
    ensures
        ({
            let (count, step) = peer_step(backoff, max_backoff, news);
            &&& count == if news is Ended {
                1nat
            } else {
                0
            }
            &&& news is Ended ==> step.action == PeerAction::Wait(
                Duration {
                    secs: if max_backoff > 2 {
                        2
                    } else {
                        max_backoff
                    },
                },
            )
            &&& news is Woken ==> step.action == PeerAction::Dial
            &&& backoff_after(count, max_backoff, row) == if count + failures(row) <= 32 {
                count + failures(row)
            } else {
                32
            }
        }),
{
    lemma2_to64();
    failures_add_up(peer_step(backoff, max_backoff, news).0, max_backoff, row);
}

/// A peer that was reached runs and its note is cleared; one that failed or
/// ended is noted with the reason and waits; one that is woken is dialled,
/// unless it was removed, and keeps its note and, unless all peers are tried
/// at once, its count.
pub proof fn news_decide_what_is_done(backoff: nat, max_backoff: u64, news: PeerNewsView)
    ensures
        ({
            let (count, step) = peer_step(backoff, max_backoff, news);
            match news {
                PeerNewsView::Connected => count == backoff && step.action == PeerAction::Run
                    && step.note == Some(None::<Seq<char>>),
                PeerNewsView::DialFailed(e) => step.action is Wait && step.note == Some(Some(e)),
                PeerNewsView::Ended { error, uptime } => step.action is Wait && step.note == Some(
                    error,
                ),
                PeerNewsView::Woken(wake) => step.note is None && (wake != Wake::RetryNow ==> count
                    == backoff) && (step.action == if wake == Wake::Cancelled {
                    PeerAction::Stop
                } else {
                    PeerAction::Dial
                }),
            }
        }),
{
}

/// A process after a row of news.
pub open spec fn process_after(m: ManagerView, row: Seq<ProcessNews>) -> ManagerView
    decreases row.len(),
{
    if row.len() == 0 {
        m
    } else {
        process_step(process_after(m, row.drop_last()), row.last()).0
    }
}

/// Whether news is of a process that failed: it could not be started, or
/// exited within 30 seconds.
pub open spec fn is_crash(news: ProcessNews) -> bool {
    match news {
        ProcessNews::StartFailed => true,
        ProcessNews::Exited { uptime } => uptime < 30_000_000_000,
        _ => false,
    }
}

/// How many of a row of news are of a process that failed.
pub open spec fn crashes(row: Seq<ProcessNews>) -> nat
    decreases row.len(),
{
    if row.len() == 0 {
        0
    } else if is_crash(row.last()) {
        crashes(row.drop_last()) + 1
    } else {
        crashes(row.drop_last())
    }
}

/// Over any row of news without an exit after a long uptime the crashes of a
/// process add up, to 6 at most, and a start in between takes none of them
/// back. The wait after each is 2 to the power of their number, and at most
/// 64 seconds.
pub proof fn crashes_add_up(m: ManagerView, row: Seq<ProcessNews>)
    requires
        m.backoff <= 6,
        forall|i: int| 0 <= i < row.len() ==> ((#[trigger] row[i]) is Exited ==> is_crash(row[i])),
    ensures
        process_after(m, row).backoff == if m.backoff + crashes(row) <= 6 {
            m.backoff + crashes(row)
        } else {
            6
        },
        row.len() > 0 && is_crash(row.last()) ==> {
            let count = m.backoff + crashes(row);
            let step = process_step(process_after(m, row.drop_last()), row.last()).1;
            &&& step.action is Sleep
            &&& step.action->Sleep_0.secs == if count <= 6 {
                pow2(count)
            } else {
                64
            }
        },
    decreases row.len(),
{
    lemma2_to64();
    if row.len() > 0 {
        assert(row[row.len() - 1] is Exited ==> is_crash(row[row.len() - 1]));
        crashes_add_up(m, row.drop_last());
        let count = m.backoff + crashes(row);
        if count < 6 {
            lemma_pow2_strictly_increases(count, 6);
        }
    }
}

/// A process that exits after at least 30 seconds is started again after one,
/// whatever went before.
pub proof fn a_lasting_process_starts_afresh(m: ManagerView, uptime: u64)
    requires
        uptime >= 30_000_000_000,
    ensures
        ({
            let (next, step) = process_step(m, ProcessNews::Exited { uptime });
            &&& next == ManagerView { phase: ProcessPhase::Sleeping, backoff: 0 }
            &&& step == ProcessStep {
                tell: Some(None),
                action: ProcessAction::Sleep(Duration { secs: 1 }),
            }
        }),
{
    lemma2_to64();
}

/// A process that has started is watched and its address told; one that has
/// crashed sleeps; one that has slept is started; and one that is no longer
/// needed stops, and is shut down first exactly where it runs.
pub proof fn news_decide_what_a_process_does(m: ManagerView, news: ProcessNews)
    ensures
        ({
            let (next, step) = process_step(m, news);
            match news {
                ProcessNews::Started(addr) => {
                    &&& next == ManagerView { phase: ProcessPhase::Running, backoff: m.backoff }
                    &&& step == ProcessStep { tell: Some(Some(addr)), action: ProcessAction::Watch }
                },
                ProcessNews::Slept => {
                    &&& next == ManagerView { phase: ProcessPhase::Starting, backoff: m.backoff }
                    &&& step == ProcessStep { tell: None, action: ProcessAction::Spawn }
                },
                ProcessNews::Cancelled => {
                    &&& next == ManagerView { phase: ProcessPhase::Stopped, backoff: m.backoff }
                    &&& step.tell is None
                    &&& step.action == ProcessAction::Shutdown <==> m.phase == ProcessPhase::Running
                    &&& step.action == ProcessAction::Stop <==> m.phase != ProcessPhase::Running
                },
                _ => next.phase == ProcessPhase::Sleeping && step.tell == Some(
                    None::<SocketAddr>,
                ) && step.action is Sleep,
            }
        }),
{
}

/// The models of news of a peer, and of what is done, are what they hold.
pub proof fn peer_models_are_what_they_hold(e: String, uptime: u64, wake: Wake, s: PeerStep)
    ensures
        PeerNews::Connected@ is Connected,
        PeerNews::DialFailed(e)@ == PeerNewsView::DialFailed(e@),
        (PeerNews::Ended { result: Ok(()), uptime })@ == (PeerNewsView::Ended {
            error: None,
            uptime,
        }),
        (PeerNews::Ended { result: Err(e), uptime })@ == (PeerNewsView::Ended {
            error: Some(e@),
            uptime,
        }),
        PeerNews::Woken(wake)@ == PeerNewsView::Woken(wake),
        s@.action == s.action,
        s@.note is Some <==> s.note is Some,
        s.note matches Some(n) ==> s@.note == Some(text::option_text(n)),
{
}

} // verus!
