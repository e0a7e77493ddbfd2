//! Progress markers of the desktop widget and the watchdog that records its hangs.
use crate::order::{in_order, order_by, ranks_before};
use crate::text::{
    chars_of, decimal, decimal_text, digits_value, number_error_text, parse_u32, same_text, signed_decimal,
    signed_text, starts_with, string_from, unsigned_error, unsigned_number, views,
};
use vstd::prelude::*;

verus! {

/// How long the user interface may stand still, in seconds.
pub const STALL_SECONDS: u64 = 15;

/// The longest time between two looks that counts as standing still, in seconds. A longer one
/// means that the whole machine slept.
pub const LONGEST_GAP: u64 = 5;

/// How long a requested exit may take, in milliseconds.
pub const EXIT_MILLIS: u64 = 8_000;

/// The time between two heartbeats in the log, in milliseconds.
pub const HEARTBEAT_MILLIS: u64 = 60_000;

/// How many dumps one session may take.
pub const DUMP_LIMIT: u32 = 3;

/// How many older dumps stay when a new one is taken.
pub const DUMPS_KEPT: usize = 9;

/// What the user interface tells the watchdog.
#[derive(Clone, Copy, Debug, PartialEq, Eq, Structural)]
pub struct Monitor {
    pub progress: u64,
    pub phase: usize,
    pub window: isize,
    pub exit_requested: bool,
}

impl Default for Monitor {
    fn default() -> (r: Self)
        ensures
            r.progress == 0 && r.phase == 0 && r.window == 0 && !r.exit_requested,
    {
        Monitor { progress: 0, phase: 0, window: 0, exit_requested: false }
    }
}

/// Notes that the user interface has entered `phase`. The count of such notes wraps around.
pub fn progress(monitor: &mut Monitor, phase: usize)
    ensures
        final(monitor).phase == phase,
        final(monitor).progress == (if old(monitor).progress == u64::MAX {
            0
        } else {
            old(monitor).progress + 1
        }),
        final(monitor).window == old(monitor).window,
        final(monitor).exit_requested == old(monitor).exit_requested,
{
    monitor.phase = phase;
    monitor.progress = monitor.progress.wrapping_add(1);
}

/// Notes the handle of the widget's window.
pub fn set_window(monitor: &mut Monitor, window: isize)
    ensures
        *final(monitor) == (Monitor { window, ..*old(monitor) }),
{
    monitor.window = window;
}

/// Asks the widget to exit. Returns whether this is the first time, which goes to the log.
pub fn request_exit(monitor: &mut Monitor) -> (first: bool)
    ensures
        first == !old(monitor).exit_requested,
        *final(monitor) == (Monitor { exit_requested: true, ..*old(monitor) }),
{
    let first: bool = !monitor.exit_requested;
    monitor.exit_requested = true;
    first
}

/// Whether the widget was asked to exit.
pub fn exit_requested(monitor: &Monitor) -> (r: bool)
    ensures
        r == monitor.exit_requested,
{
    monitor.exit_requested
}

/// The name of a phase of the user interface.
pub open spec fn phase_text(phase: usize) -> Seq<char> {
    if phase == 0 {
        "startup"@
    } else if phase == 1 {
        "logic"@
    } else if phase == 2 {
        "native-maintain"@
    } else if phase == 3 {
        "data-refresh"@
    } else if phase == 4 {
        "ui"@
    } else if phase == 5 {
        "render-or-event-loop"@
    } else {
        "unknown"@
    }
}

/// The name of a phase of the user interface.
pub fn phase_name(phase: usize) -> (r: &'static str)
    ensures
        r@ == phase_text(phase),
{
    match phase {
        0 => "startup",
        1 => "logic",
        2 => "native-maintain",
        3 => "data-refresh",
        4 => "ui",
        5 => "render-or-event-loop",
        _ => "unknown",
    }
}

/// Watches one progress count. It reports a stall once, and again only after progress resumed.
#[derive(Clone, Copy, Debug, PartialEq, Eq, Structural)]
pub struct StallTracker {
    pub progress: u64,
    pub idle_seconds: u64,
    pub reported: bool,
}

impl Default for StallTracker {
    fn default() -> (r: Self)
        ensures
            r == (StallTracker { progress: 0, idle_seconds: 0, reported: false }),
    {
        StallTracker { progress: 0, idle_seconds: 0, reported: false }
    }
}

/// Whether a look starts the count of idle seconds anew.
pub open spec fn starts_anew(tracker: StallTracker, progress: u64, gap_seconds: u64) -> bool {
    progress != tracker.progress || gap_seconds > LONGEST_GAP
}

/// The idle seconds after a look; they do not grow beyond what their type holds.
pub open spec fn idle_after(tracker: StallTracker, progress: u64, gap_seconds: u64) -> int {
    if starts_anew(tracker, progress, gap_seconds) {
        0
    } else if tracker.idle_seconds + gap_seconds > u64::MAX {
        u64::MAX as int
    } else {
        tracker.idle_seconds + gap_seconds
    }
}

/// Whether a look reports a stall: one that was not reported since the last progress.
pub open spec fn reports(tracker: StallTracker, progress: u64, gap_seconds: u64) -> bool {
    idle_after(tracker, progress, gap_seconds) >= STALL_SECONDS && (!tracker.reported || progress
        != tracker.progress)
}

/// The tracker after a look.
pub open spec fn looked(tracker: StallTracker, progress: u64, gap_seconds: u64) -> StallTracker {
    StallTracker {
        progress,
        idle_seconds: idle_after(tracker, progress, gap_seconds) as u64,
        reported: reports(tracker, progress, gap_seconds) || (tracker.reported && progress
            == tracker.progress),
    }
}

impl StallTracker {
    /// Looks at the progress count, `gap_seconds` after the last look. Returns whether a stall is
    /// to be reported.
    pub fn tick(&mut self, progress: u64, gap_seconds: u64) -> (r: bool)
        ensures
            r == reports(*old(self), progress, gap_seconds),
            *final(self) == looked(*old(self), progress, gap_seconds),
    {
        if progress != self.progress {
            self.progress = progress;
            self.idle_seconds = 0;
            self.reported = false;
        } else if gap_seconds > LONGEST_GAP {
            self.idle_seconds = 0;
        } else {
            self.idle_seconds = self.idle_seconds.saturating_add(gap_seconds);
        }
        if self.idle_seconds >= STALL_SECONDS && !self.reported {
            self.reported = true;
            return true;
        }
        false
    }
}

/// After some looks without progress, with these gaps before them.
pub open spec fn looked_idly(tracker: StallTracker, gaps: Seq<u64>) -> StallTracker
    decreases gaps.len(),
{
    if gaps.len() == 0 {
        tracker
    } else {
        let before = looked_idly(tracker, gaps.drop_last());
        looked(before, before.progress, gaps.last())
    }
}

/// A stall that was reported is not reported again while no progress is made, however long the
/// gaps are.
pub proof fn a_stall_is_reported_once(tracker: StallTracker, gaps: Seq<u64>, gap: u64)
    requires
        tracker.reported,
    ensures
        looked_idly(tracker, gaps).reported,
        looked_idly(tracker, gaps).progress == tracker.progress,
        !reports(looked_idly(tracker, gaps), tracker.progress, gap),
    decreases gaps.len(),
{
    if gaps.len() > 0 {
        a_stall_is_reported_once(tracker, gaps.drop_last(), gaps.last());
    }
}

/// The sum of some gaps.
pub open spec fn total(gaps: Seq<u64>) -> int
    decreases gaps.len(),
{
    if gaps.len() == 0 {
        0
    } else {
        total(gaps.drop_last()) + gaps.last()
    }
}

/// Progress rearms the tracker: a new stall is reported exactly when the idle seconds since then
/// reach the limit. A gap in which the machine slept starts the idle seconds anew as well, for a
/// stall that was not reported yet.
pub proof fn progress_rearms_the_tracker(
    tracker: StallTracker,
    progress: u64,
    slept: u64,
    gaps: Seq<u64>,
    gap: u64,
)
    requires
        progress != tracker.progress || (slept > LONGEST_GAP && !tracker.reported),
        forall|i: int| 0 <= i < gaps.len() ==> #[trigger] gaps[i] <= LONGEST_GAP,
        gap <= LONGEST_GAP,
        total(gaps) < STALL_SECONDS,
    ensures
        !reports(tracker, progress, slept),
        ({
            let idle = looked_idly(looked(tracker, progress, slept), gaps);
            &&& idle.progress == progress
            &&& idle.idle_seconds == total(gaps)
            &&& !idle.reported
            &&& reports(idle, progress, gap) <==> total(gaps) + gap >= STALL_SECONDS
        }),
    decreases gaps.len(),
{
    if gaps.len() > 0 {
        let earlier = gaps.drop_last();
        assert(forall|i: int| 0 <= i < earlier.len() ==> #[trigger] earlier[i] == gaps[i]);
        progress_rearms_the_tracker(tracker, progress, slept, earlier, gaps.last());
    }
}

/// Why a dump is taken.
#[derive(Clone, Copy, Debug, PartialEq, Eq, Structural)]
pub enum DumpReason {
    ExitTimeout,
    Manual,
    UiStall,
}

/// The name of a reason in logs and file names.
pub open spec fn reason_text(reason: DumpReason) -> Seq<char> {
    match reason {
        DumpReason::ExitTimeout => "exit-timeout"@,
        DumpReason::Manual => "manual"@,
        DumpReason::UiStall => "ui-stall"@,
    }
}

impl DumpReason {
    /// The name of this reason in logs and file names.
    pub fn name(self) -> (r: &'static str)
        ensures
            r@ == reason_text(self),
    {
        match self {
            DumpReason::ExitTimeout => "exit-timeout",
            DumpReason::Manual => "manual",
            DumpReason::UiStall => "ui-stall",
        }
    }
}

/// The state of the watchdog; times are milliseconds of a clock that does not go back.
#[derive(Clone, Copy, Debug, PartialEq, Eq, Structural)]
pub struct Watchdog {
    pub tracker: StallTracker,
    pub last_tick: u64,
    pub last_summary: u64,
    pub exit_at: Option<u64>,
    pub dump_count: u32,
}

/// What the watchdog does after a look, in this order.
#[derive(Clone, Copy, Debug, PartialEq, Eq, Structural)]
pub struct WatchdogActions {
    /// Log that progress resumed.
    pub resumed: bool,
    /// Log that an exit was requested.
    pub exit_logged: bool,
    /// Log that the requested exit was observed.
    pub exit_observed: bool,
    /// Log a trigger with this reason.
    pub trigger: Option<DumpReason>,
    /// Take a dump; without it, a trigger logs that the limit is reached.
    pub dump: bool,
    /// Terminate after the dump.
    pub terminate: bool,
}

/// The time from `since` to `now`, which is nothing when the clock has gone back.
pub open spec fn elapsed(since: u64, now: u64) -> int {
    if now >= since {
        now - since
    } else {
        0
    }
}

/// The time from `since` to `now`.
fn elapsed_millis(since: u64, now: u64) -> (r: u64)
    ensures
        r == elapsed(since, now),
{
    if now >= since {
        now - since
    } else {
        0
    }
}

/// Whether a requested exit has taken too long.
pub open spec fn exit_overdue(exit_at: Option<u64>, now: u64) -> bool {
    match exit_at {
        Some(at) => elapsed(at, now) >= EXIT_MILLIS,
        None => false,
    }
}

/// The watchdog after a look at `monitor`, and what it does then. `manual` says that a dump was
/// asked for, `exit_signal` that an exit was.
pub open spec fn observed(
    watchdog: Watchdog,
    monitor: Monitor,
    now: u64,
    manual: bool,
    exit_signal: bool,
) -> (Watchdog, WatchdogActions) {
    let gap = (elapsed(watchdog.last_tick, now) / 1000) as u64;
    let before = watchdog.tracker;
    let tracker = looked(before, monitor.progress, gap);
    let exit_observed = (monitor.exit_requested || exit_signal) && watchdog.exit_at is None;
    let exit_at = if exit_observed {
        Some(now)
    } else {
        watchdog.exit_at
    };
    let overdue = exit_overdue(exit_at, now);
    let trigger = if overdue {
        Some(DumpReason::ExitTimeout)
    } else if manual {
        Some(DumpReason::Manual)
    } else if reports(before, monitor.progress, gap) {
        Some(DumpReason::UiStall)
    } else {
        None
    };
    let dump = trigger is Some && watchdog.dump_count < DUMP_LIMIT;
    (
        Watchdog {
            tracker,
            last_tick: now,
            exit_at,
            dump_count: (watchdog.dump_count + if dump {
                1int
            } else {
                0int
            }) as u32,
            ..watchdog
        },
        WatchdogActions {
            resumed: before.reported && !tracker.reported,
            exit_logged: exit_signal && !monitor.exit_requested,
            exit_observed,
            trigger,
            dump,
            terminate: overdue,
        },
    )
}

/// The watchdog at the end of a look. Time spent on a dump does not count as a gap.
pub open spec fn settled_at(watchdog: Watchdog, now: u64, triggered: bool) -> Watchdog {
    Watchdog {
        last_tick: if triggered {
            now
        } else {
            watchdog.last_tick
        },
        last_summary: if elapsed(watchdog.last_summary, now) >= HEARTBEAT_MILLIS {
            now
        } else {
            watchdog.last_summary
        },
        ..watchdog
    }
}

/// The watchdog at the start of a run.
pub open spec fn started(now: u64) -> Watchdog {
    Watchdog {
        tracker: StallTracker { progress: 0, idle_seconds: 0, reported: false },
        last_tick: now,
        last_summary: now,
        exit_at: None,
        dump_count: 0,
    }
}

/// Starts a run of the watchdog.
pub fn start(now: u64) -> (r: Watchdog)
    ensures
        r == started(now),
{
    Watchdog {
        tracker: StallTracker { progress: 0, idle_seconds: 0, reported: false },
        last_tick: now,
        last_summary: now,
        exit_at: None,
        dump_count: 0,
    }
}

impl Watchdog {
    /// Looks at the monitor at `now`. `manual` says that a dump was asked for, `exit_signal` that
    /// an exit was.
    pub fn observe(
        &mut self,
        monitor: &mut Monitor,
        now: u64,
        manual: bool,
        exit_signal: bool,
    ) -> (r: WatchdogActions)
        requires
            old(self).dump_count <= DUMP_LIMIT,
        ensures
            (*final(self), r) == observed(*old(self), *old(monitor), now, manual, exit_signal),
            *final(monitor) == (Monitor {
                exit_requested: old(monitor).exit_requested || exit_signal,
                ..*old(monitor)
            }),
            final(self).dump_count <= DUMP_LIMIT,
    {
        let gap: u64 = elapsed_millis(self.last_tick, now) / 1000;
        self.last_tick = now;
        let was_stalled: bool = self.tracker.reported;
        let stalled: bool = self.tracker.tick(monitor.progress, gap);
        let resumed: bool = was_stalled && !self.tracker.reported;
        let mut exit_logged: bool = false;
        if exit_signal {
            exit_logged = request_exit(monitor);
        }
        let exit_observed: bool = exit_requested(monitor) && self.exit_at.is_none();
        if exit_observed {
            self.exit_at = Some(now);
        }
        let overdue: bool = match self.exit_at {
            Some(at) => elapsed_millis(at, now) >= EXIT_MILLIS,
            None => false,
        };
        let trigger = if overdue {
            Some(DumpReason::ExitTimeout)
        } else if manual {
            Some(DumpReason::Manual)
        } else if stalled {
            Some(DumpReason::UiStall)
        } else {
            None
        };
        let dump: bool = trigger.is_some() && self.dump_count < DUMP_LIMIT;
        if dump {
            self.dump_count = self.dump_count + 1;
        }
        WatchdogActions { resumed, exit_logged, exit_observed, trigger, dump, terminate: overdue }
    }

    /// Ends a look at `now`, after its actions. Time spent on a dump does not count as a gap.
    /// Returns whether a heartbeat is to be logged.
    pub fn settle(&mut self, now: u64, triggered: bool) -> (heartbeat: bool)
        ensures
            heartbeat == (elapsed(old(self).last_summary, now) >= HEARTBEAT_MILLIS),
            *final(self) == settled_at(*old(self), now, triggered),
    {
        if triggered {
            self.last_tick = now;
        }
        let heartbeat: bool = elapsed_millis(self.last_summary, now) >= HEARTBEAT_MILLIS;
        if heartbeat {
            self.last_summary = now;
        }
        heartbeat
    }
}

/// One look of the watchdog: the monitor as it is seen, the time, what was asked for, and the time
/// at which the look ends.
pub struct Look {
    pub monitor: Monitor,
    pub now: u64,
    pub manual: bool,
    pub exit_signal: bool,
    pub ends: u64,
}

impl Look {
    /// Whether an exit was requested by then.
    pub open spec fn sees_exit(self) -> bool {
        self.monitor.exit_requested || self.exit_signal
    }

    /// The watchdog after this look, and what it does.
    pub open spec fn of(self, watchdog: Watchdog) -> (Watchdog, WatchdogActions) {
        let (after, actions) = observed(
            watchdog,
            self.monitor,
            self.now,
            self.manual,
            self.exit_signal,
        );
        (settled_at(after, self.ends, actions.trigger is Some), actions)
    }
}

/// The watchdog after some looks.
pub open spec fn after_looks(watchdog: Watchdog, looks: Seq<Look>) -> Watchdog
    decreases looks.len(),
{
    if looks.len() == 0 {
        watchdog
    } else {
        looks.last().of(after_looks(watchdog, looks.drop_last())).0
    }
}

/// What the watchdog does after the last of some looks.
pub open spec fn last_actions(watchdog: Watchdog, looks: Seq<Look>) -> WatchdogActions {
    looks.last().of(after_looks(watchdog, looks.drop_last())).1
}

/// How many of some looks had a trigger.
pub open spec fn triggers(watchdog: Watchdog, looks: Seq<Look>) -> nat
    decreases looks.len(),
{
    if looks.len() == 0 {
        0
    } else {
        triggers(watchdog, looks.drop_last()) + if last_actions(watchdog, looks).trigger is Some {
            1nat
        } else {
            0nat
        }
    }
}

/// How many dumps some looks took.
pub open spec fn dumps(watchdog: Watchdog, looks: Seq<Look>) -> nat
    decreases looks.len(),
{
    if looks.len() == 0 {
        0
    } else {
        dumps(watchdog, looks.drop_last()) + if last_actions(watchdog, looks).dump {
            1nat
        } else {
            0nat
        }
    }
}

/// When an exit was first seen in some looks.
pub open spec fn first_exit(looks: Seq<Look>) -> Option<u64>
    decreases looks.len(),
{
    if looks.len() == 0 {
        None
    } else {
        match first_exit(looks.drop_last()) {
            Some(at) => Some(at),
            None => if looks.last().sees_exit() {
                Some(looks.last().now)
            } else {
                None
            },
        }
    }
}

/// A whole run takes a dump at each trigger, up to three.
pub proof fn a_run_dumps_three_times_at_most(begin: u64, looks: Seq<Look>)
    ensures
        dumps(started(begin), looks) == (if triggers(started(begin), looks) < 3 {
            triggers(started(begin), looks)
        } else {
            3
        }),
        after_looks(started(begin), looks).dump_count == dumps(started(begin), looks),
    decreases looks.len(),
{
    if looks.len() > 0 {
        a_run_dumps_three_times_at_most(begin, looks.drop_last());
    }
}

/// The watchdog remembers when it first saw an exit.
proof fn lemma_exit_is_remembered(watchdog: Watchdog, looks: Seq<Look>)
    requires
        watchdog.exit_at is None,
    ensures
        after_looks(watchdog, looks).exit_at == first_exit(looks),
    decreases looks.len(),
{
    if looks.len() > 0 {
        lemma_exit_is_remembered(watchdog, looks.drop_last());
    }
}

/// Without a look that sees an exit, none was first seen.
proof fn lemma_no_exit(looks: Seq<Look>)
    requires
        forall|i: int| 0 <= i < looks.len() ==> !(#[trigger] looks[i]).sees_exit(),
    ensures
        first_exit(looks) is None,
    decreases looks.len(),
{
    if looks.len() > 0 {
        let earlier = looks.drop_last();
        assert(forall|i: int| 0 <= i < earlier.len() ==> #[trigger] earlier[i] == looks[i]);
        lemma_no_exit(earlier);
    }
}

/// A run ends the process exactly at a look eight seconds or more after an exit was first seen,
/// with that as the trigger; without a request to exit it never does.
pub proof fn only_an_overdue_exit_ends_the_process(begin: u64, looks: Seq<Look>)
    requires
        looks.len() > 0,
    ensures
        last_actions(started(begin), looks).terminate <==> exit_overdue(
            first_exit(looks),
            looks.last().now,
        ),
        last_actions(started(begin), looks).terminate <==> last_actions(started(begin), looks).trigger == Some(
            DumpReason::ExitTimeout,
        ),
        (forall|i: int| 0 <= i < looks.len() ==> !(#[trigger] looks[i]).sees_exit())
            ==> !last_actions(started(begin), looks).terminate,
{
    lemma_exit_is_remembered(started(begin), looks.drop_last());
    if forall|i: int| 0 <= i < looks.len() ==> !(#[trigger] looks[i]).sees_exit() {
        lemma_no_exit(looks);
    }
}

/// What the window system says of the widget's window.
#[derive(Clone, Copy, Debug, PartialEq, Eq, Structural)]
pub struct WindowProbe {
    pub valid: i32,
    pub visible: i32,
    pub parent: u64,
    pub parent_valid: i32,
    pub rect_ok: i32,
    pub left: i32,
    pub top: i32,
    pub right: i32,
    pub bottom: i32,
}

/// A hexadecimal digit.
pub open spec fn hex_char(d: int) -> char {
    if d < 10 {
        (48 + d) as char
    } else {
        (87 + d) as char
    }
}

/// A number in hexadecimal.
pub open spec fn hexadecimal(n: nat) -> Seq<char>
    decreases n,
{
    if n < 16 {
        seq![hex_char(n as int)]
    } else {
        hexadecimal(n / 16).push(hex_char((n % 16) as int))
    }
}

/// A number in hexadecimal.
pub fn hexadecimal_text(n: u64) -> (r: String)
    ensures
        r@ == hexadecimal(n as nat),
    decreases n,
{
    let d: u8 = (n % 16) as u8;
    let c: char = if d < 10 {
        (48u8 + d) as char
    } else {
        (87u8 + d) as char
    };
    let mut r = if n < 16 {
        String::new()
    } else {
        hexadecimal_text(n / 16)
    };
    r.push(c);
    assert(n < 16 ==> r@ =~= seq![hex_char(n as int)]);
    r
}

/// The state of monitor and window in one line of the log.
pub open spec fn snapshot_text(monitor: Monitor, handle: u64, probe: WindowProbe) -> Seq<char> {
    "phase="@ + phase_text(monitor.phase) + " progress="@ + decimal(monitor.progress as nat)
        + " hwnd=0x"@ + hexadecimal(handle as nat) + " valid="@ + signed_decimal(probe.valid as int)
        + " visible="@ + signed_decimal(probe.visible as int) + " parent=0x"@ + hexadecimal(
        probe.parent as nat,
    ) + " parent_valid="@ + signed_decimal(probe.parent_valid as int) + " rect_ok="@
        + signed_decimal(probe.rect_ok as int) + " rect="@ + signed_decimal(probe.left as int)
        + ","@ + signed_decimal(probe.top as int) + ","@ + signed_decimal(probe.right as int) + ","@
        + signed_decimal(probe.bottom as int)
}

/// The state of monitor and window in one line of the log; `handle` is the window's address.
pub fn snapshot(monitor: &Monitor, handle: u64, probe: &WindowProbe) -> (r: String)
    ensures
        r@ == snapshot_text(*monitor, handle, *probe),
{
    let mut r = "phase=".to_owned();
    r.append(phase_name(monitor.phase));
    r.append(" progress=");
    r.append(decimal_text(monitor.progress).as_str());
    r.append(" hwnd=0x");
    r.append(hexadecimal_text(handle).as_str());
    r.append(" valid=");
    r.append(signed_text(probe.valid as i64).as_str());
    r.append(" visible=");
    r.append(signed_text(probe.visible as i64).as_str());
    r.append(" parent=0x");
    r.append(hexadecimal_text(probe.parent).as_str());
    r.append(" parent_valid=");
    r.append(signed_text(probe.parent_valid as i64).as_str());
    r.append(" rect_ok=");
    r.append(signed_text(probe.rect_ok as i64).as_str());
    r.append(" rect=");
    r.append(signed_text(probe.left as i64).as_str());
    r.append(",");
    r.append(signed_text(probe.top as i64).as_str());
    r.append(",");
    r.append(signed_text(probe.right as i64).as_str());
    r.append(",");
    r.append(signed_text(probe.bottom as i64).as_str());
    r
}

/// One line of the log; `time` is the local time as text.
pub fn log_line(time: &str, pid: u32, message: &str) -> (r: String)
    ensures
        r@ == time@ + " pid="@ + decimal(pid as nat) + " "@ + message@ + "\n"@,
{
    let mut r = time.to_owned();
    r.append(" pid=");
    r.append(decimal_text(pid as u64).as_str());
    r.append(" ");
    r.append(message);
    r.append("\n");
    r
}

/// The log file of a day; `date` is the local date as text.
pub fn log_file_name(date: &str) -> (r: String)
    ensures
        r@ == "schedule-desktop-widget."@ + date@ + ".log"@,
{
    let mut r = "schedule-desktop-widget.".to_owned();
    r.append(date);
    r.append(".log");
    r
}

/// The file of a dump; `time` is the local time as text.
pub fn dump_file_name(time: &str, pid: u32, reason: DumpReason) -> (r: String)
    ensures
        r@ == "widget-"@ + time@ + "-"@ + decimal(pid as nat) + "-"@ + reason_text(reason)
            + ".dmp"@,
{
    let mut r = "widget-".to_owned();
    r.append(time);
    r.append("-");
    r.append(decimal_text(pid as u64).as_str());
    r.append("-");
    r.append(reason.name());
    r.append(".dmp");
    r
}

/// Whether a text ends with `p`.
pub open spec fn ends_in(s: Seq<char>, p: Seq<char>) -> bool {
    p.len() <= s.len() && s.subrange(s.len() - p.len(), s.len() as int) == p
}

/// Whether `s` ends with `p`.
pub fn ends_with(s: &str, p: &str) -> (r: bool)
    ensures
        r == ends_in(s@, p@),
{
    let a = chars_of(s);
    let b = chars_of(p);
    if b.len() > a.len() {
        return false;
    }
    let at: usize = a.len() - b.len();
    let tail = string_from(&a, at, a.len());
    same_text(tail.as_str(), p)
}

/// Whether a file name is that of a dump.
pub open spec fn is_dump(name: Seq<char>) -> bool {
    "widget-"@.is_prefix_of(name) && ends_in(name, ".dmp"@)
}

/// The dumps among some file names.
pub open spec fn dumps_among(names: Seq<Seq<char>>) -> Seq<Seq<char>> {
    names.filter(|name: Seq<char>| is_dump(name))
}

/// Whether `removed` are the dumps among `names` that make room: in the order of their names, all
/// but the last nine.
pub open spec fn makes_room(names: Seq<Seq<char>>, removed: Seq<Seq<char>>) -> bool {
    exists|order: Seq<usize>|
        #[trigger] in_order(dumps_among(names), order) && removed.len() == (if dumps_among(
            names,
        ).len() > DUMPS_KEPT {
            dumps_among(names).len() - DUMPS_KEPT
        } else {
            0
        }) && forall|i: int|
            0 <= i < removed.len() ==> #[trigger] removed[i] == dumps_among(names)[order[i] as int]
}

/// The dumps among `names` that make room for a new one: the first in the order of their names,
/// so that nine stay.
pub fn dumps_to_remove(names: &Vec<String>) -> (r: Vec<String>)
    ensures
        makes_room(views(names@), views(r@)),
{
    let ghost all = views(names@);
    let mut dumps: Vec<String> = Vec::new();
    let mut i: usize = 0;
    assert(all.take(0).filter(|name: Seq<char>| is_dump(name)) =~= Seq::<Seq<char>>::empty()) by {
        reveal(Seq::filter);
    }
    assert(views(dumps@) =~= Seq::<Seq<char>>::empty());
    while i < names.len()
        invariant
            all == views(names@),
            i <= names@.len(),
            views(dumps@) == dumps_among(all.take(i as int)),
        decreases names@.len() - i,
    {
        let ghost before = dumps@;
        proof {
            let next = all.take(i + 1);
            assert(next.drop_last() =~= all.take(i as int));
            assert(next.last() == names@[i as int]@);
            reveal(Seq::filter);
        }
        if starts_with(names[i].as_str(), "widget-") && ends_with(names[i].as_str(), ".dmp") {
            dumps.push(names[i].clone());
            assert(views(dumps@) =~= views(before).push(all[i as int]));
        }
        i = i + 1;
    }
    assert(all.take(all.len() as int) =~= all);
    let order = order_by(&dumps);
    let count: usize = if dumps.len() > DUMPS_KEPT {
        dumps.len() - DUMPS_KEPT
    } else {
        0
    };
    let mut r: Vec<String> = Vec::new();
    let mut k: usize = 0;
    while k < count
        invariant
            k <= count <= dumps@.len(),
            r@.len() == k,
            in_order(views(dumps@), order@),
            forall|j: int|
                0 <= j < k ==> (#[trigger] views(r@)[j]) == views(dumps@)[order@[j] as int],
        decreases count - k,
    {
        let ghost before = r@;
        r.push(dumps[order[k]].clone());
        assert(views(r@) =~= views(before).push(views(dumps@)[order@[k as int] as int]));
        k = k + 1;
    }
    r
}

/// What the arguments of the program ask of the dump helper.
#[derive(Debug)]
pub enum DumpCommand {
    /// Nothing: the program runs as widget.
    RunWidget,
    /// To dump the process with this number into the file that the third argument names.
    Capture(u32),
    /// Something unreadable, with the reason.
    Invalid(&'static str),
}

/// What an argument says, unless it is no text.
pub open spec fn said(args: Seq<Option<String>>, i: int) -> Option<Seq<char>> {
    match args[i] {
        Some(text) => Some(text@),
        None => None,
    }
}

/// Why the arguments after `--capture-dump` name no process and file, if they do not.
pub open spec fn capture_refusal(args: Seq<Option<String>>) -> Option<Seq<char>> {
    if args.len() < 2 {
        Some("missing target PID"@)
    } else {
        match said(args, 1) {
            None => Some("invalid PID"@),
            Some(pid) => match unsigned_error(pid, u32::MAX as int) {
                Some(e) => Some(number_error_text(e)),
                None => if args.len() < 3 {
                    Some("missing dump path"@)
                } else {
                    None
                },
            },
        }
    }
}

/// Reads the arguments after the program's name; one that is no text is none.
pub fn parse_dump_command(args: &Vec<Option<String>>) -> (r: DumpCommand)
    ensures
        r is RunWidget <==> args@.len() == 0 || said(args@, 0) != Some("--capture-dump"@),
        !(r is RunWidget) ==> match capture_refusal(args@) {
            Some(refusal) => r matches DumpCommand::Invalid(reason) && reason@ == refusal,
            None => r matches DumpCommand::Capture(pid) && unsigned_number(
                said(args@, 1).unwrap(),
                10,
                u32::MAX as int,
            ) == Some(pid as int),
        },
{
    if args.len() == 0 {
        return DumpCommand::RunWidget;
    }
    match &args[0] {
        Some(first) => if !same_text(first.as_str(), "--capture-dump") {
            return DumpCommand::RunWidget;
        },
        None => {
            return DumpCommand::RunWidget;
        },
    }
    if args.len() < 2 {
        return DumpCommand::Invalid("missing target PID");
    }
    let pid: u32 = match &args[1] {
        None => {
            return DumpCommand::Invalid("invalid PID");
        },
        Some(text) => match parse_u32(text.as_str()) {
            Ok(pid) => pid,
            Err(e) => {
                return DumpCommand::Invalid(e.message());
            },
        },
    };
    if args.len() < 3 {
        return DumpCommand::Invalid("missing dump path");
    }
    DumpCommand::Capture(pid)
}

/// For how long the dump helper may run, in milliseconds.
pub const DUMP_MILLIS: u64 = 10_000;

/// What is to be done about a dump helper that was started.
#[derive(Clone, Copy, Debug, PartialEq, Eq, Structural)]
pub enum DumpWait {
    /// Look again later.
    Wait,
    /// The dump was written.
    Saved,
    /// The helper failed, and so did the dump.
    Failed,
    /// Stop the helper and remove its file: the dump failed.
    TimedOut,
}

/// What a look at the helper finds: how long it has run, and whether it has ended and how.
pub type HelperLook = (u64, Option<bool>);

/// What is to be done about a dump helper after a look at it.
pub open spec fn wait_after(look: HelperLook) -> DumpWait {
    match look.1 {
        Some(true) => DumpWait::Saved,
        Some(false) => DumpWait::Failed,
        None => if look.0 >= DUMP_MILLIS {
            DumpWait::TimedOut
        } else {
            DumpWait::Wait
        },
    }
}

/// What is to be done about a dump helper that was started `elapsed_millis` ago; `exited` says
/// whether it succeeded, once it has ended.
pub fn dump_wait(elapsed_millis: u64, exited: Option<bool>) -> (r: DumpWait)
    ensures
        r == wait_after((elapsed_millis, exited)),
{
    match exited {
        Some(true) => DumpWait::Saved,
        Some(false) => DumpWait::Failed,
        None => if elapsed_millis >= DUMP_MILLIS {
            DumpWait::TimedOut
        } else {
            DumpWait::Wait
        },
    }
}

/// What comes of a dump whose helper is looked at again and again: the first look that is no
/// waiting decides. Without one the wait goes on.
pub open spec fn dump_outcome(looks: Seq<HelperLook>) -> DumpWait
    decreases looks.len(),
{
    if looks.len() == 0 {
        DumpWait::Wait
    } else {
        let earlier = dump_outcome(looks.drop_last());
        if earlier != DumpWait::Wait {
            earlier
        } else {
            wait_after(looks.last())
        }
    }
}

/// A helper that is still running ten seconds after its start is stopped and its dump failed: once
/// a look comes so late, the wait is over, and the dump was saved only if the helper had ended in
/// success.
pub proof fn a_helper_is_stopped_after_ten_seconds(looks: Seq<HelperLook>, i: int)
    requires
        0 <= i < looks.len(),
        looks[i].0 >= 10_000,
    ensures
        dump_outcome(looks) != DumpWait::Wait,
        (forall|k: int| 0 <= k < looks.len() ==> (#[trigger] looks[k]).1 is None) ==> dump_outcome(
            looks,
        ) == DumpWait::TimedOut,
        dump_outcome(looks) == DumpWait::Saved ==> exists|k: int|
            0 <= k < looks.len() && (#[trigger] looks[k]).1 == Some(true),
    decreases looks.len(),
{
    lemma_outcome(looks);
    if i < looks.len() - 1 {
        let earlier = looks.drop_last();
        assert(earlier[i] == looks[i]);
        a_helper_is_stopped_after_ten_seconds(earlier, i);
    }
}

/// Only a helper that ended saves or fails a dump.
proof fn lemma_outcome(looks: Seq<HelperLook>)
    ensures
        dump_outcome(looks) == DumpWait::Saved ==> exists|k: int|
            0 <= k < looks.len() && (#[trigger] looks[k]).1 == Some(true),
        dump_outcome(looks) == DumpWait::Failed ==> exists|k: int|
            0 <= k < looks.len() && (#[trigger] looks[k]).1 == Some(false),
    decreases looks.len(),
{
    if looks.len() > 0 {
        let earlier = looks.drop_last();
        lemma_outcome(earlier);
        assert(forall|k: int| 0 <= k < earlier.len() ==> #[trigger] earlier[k] == looks[k]);
        assert(looks[looks.len() - 1] == looks.last());
        if dump_outcome(earlier) == DumpWait::Saved {
            let k = choose|k: int|
                0 <= k < earlier.len() && (#[trigger] earlier[k]).1 == Some(true);
            assert(looks[k].1 == Some(true));
        }
        if dump_outcome(earlier) == DumpWait::Failed {
            let k = choose|k: int|
                0 <= k < earlier.len() && (#[trigger] earlier[k]).1 == Some(false);
            assert(looks[k].1 == Some(false));
        }
    }
}

/// With a new dump, at most ten stay, and those that are removed come first in the order of their
/// names.
pub proof fn ten_dumps_stay(names: Seq<Seq<char>>, removed: Seq<Seq<char>>)
    requires
        makes_room(names, removed),
    ensures
        dumps_among(names).len() - removed.len() + 1 <= 10,
        exists|order: Seq<usize>| #[trigger]
            in_order(dumps_among(names), order) && forall|i: int, j: int|
                0 <= i < removed.len() <= j < order.len() ==> removed[i] == dumps_among(
                    names,
                )[order[i] as int] && ranks_before(
                    dumps_among(names),
                    #[trigger] order[i],
                    #[trigger] order[j],
                ),
{
    let order = choose|order: Seq<usize>|
        #[trigger] in_order(dumps_among(names), order) && removed.len() == (if dumps_among(
            names,
        ).len() > DUMPS_KEPT {
            dumps_among(names).len() - DUMPS_KEPT
        } else {
            0
        }) && forall|i: int|
            0 <= i < removed.len() ==> #[trigger] removed[i] == dumps_among(names)[order[i] as int];
    assert(in_order(dumps_among(names), order));
}

/// A user interface that stands still is reported once fifteen idle seconds have come together, and
/// not before; a gap of more than five seconds, or progress, lets them begin at zero.
pub proof fn fifteen_idle_seconds_are_a_stall(tracker: StallTracker, progress: u64, gap: u64)
    requires
        tracker.idle_seconds < 1_000_000,
    ensures
        progress == tracker.progress && gap <= 5 ==> looked(tracker, progress, gap).idle_seconds
            == tracker.idle_seconds + gap,
        progress != tracker.progress || gap > 5 ==> looked(tracker, progress, gap).idle_seconds == 0,
        reports(tracker, progress, gap) <==> progress == tracker.progress && gap <= 5
            && !tracker.reported && tracker.idle_seconds + gap >= 15,
        progress != tracker.progress ==> !looked(tracker, progress, gap).reported,
        progress == tracker.progress && tracker.reported ==> looked(
            tracker,
            progress,
            gap,
        ).reported,
        reports(tracker, progress, gap) ==> looked(tracker, progress, gap).reported,
        looked(tracker, progress, gap).progress == progress,
{
}

/// An exit is overdue when eight seconds have passed since it was first seen, and not before.
pub proof fn an_exit_has_eight_seconds(at: u64, now: u64)
    ensures
        exit_overdue(Some(at), now) <==> now - at >= 8_000,
        !exit_overdue(None, now),
{
}

/// What triggers a dump: an overdue exit before all else, then a request for a dump, then a stall. A
/// dump is taken only while fewer than three were. The first exit that is seen is the one that
/// counts, and the log tells what is new.
pub proof fn a_look_tells_what_it_sees(
    watchdog: Watchdog,
    monitor: Monitor,
    now: u64,
    manual: bool,
    exit_signal: bool,
)
    ensures
        ({
            let (after, actions) = observed(watchdog, monitor, now, manual, exit_signal);
            let asked = monitor.exit_requested || exit_signal;
            &&& after.last_tick == now && after.last_summary == watchdog.last_summary
            &&& watchdog.exit_at is Some ==> after.exit_at == watchdog.exit_at
                && !actions.exit_observed
            &&& watchdog.exit_at is None && asked ==> after.exit_at == Some(now)
                && actions.exit_observed
            &&& watchdog.exit_at is None && !asked ==> after.exit_at is None
                && !actions.exit_observed
            &&& actions.exit_logged <==> exit_signal && !monitor.exit_requested
            &&& actions.terminate <==> exit_overdue(after.exit_at, now)
            &&& actions.terminate ==> actions.trigger == Some(DumpReason::ExitTimeout)
            &&& !actions.terminate && manual ==> actions.trigger == Some(DumpReason::Manual)
            &&& !actions.terminate && !manual ==> (actions.trigger == Some(DumpReason::UiStall)
                <==> reports(
                watchdog.tracker,
                monitor.progress,
                (elapsed(watchdog.last_tick, now) / 1000) as u64,
            ))
            &&& actions.dump <==> actions.trigger is Some && watchdog.dump_count < 3
            &&& watchdog.dump_count <= 3 ==> after.dump_count == watchdog.dump_count + (
            if actions.dump {
                1int
            } else {
                0
            })
            &&& actions.resumed <==> watchdog.tracker.reported && monitor.progress
                != watchdog.tracker.progress
        }),
{
}

/// A heartbeat comes when a minute has passed since the last one, and not before. Time spent on a
/// dump is not counted as a gap.
pub proof fn a_heartbeat_comes_each_minute(watchdog: Watchdog, now: u64, triggered: bool)
    ensures
        ({
            let after = settled_at(watchdog, now, triggered);
            &&& now - watchdog.last_summary >= 60_000 ==> after.last_summary == now
            &&& now - watchdog.last_summary < 60_000 ==> after.last_summary
                == watchdog.last_summary
            &&& triggered ==> after.last_tick == now
            &&& !triggered ==> after.last_tick == watchdog.last_tick
            &&& after.tracker == watchdog.tracker && after.exit_at == watchdog.exit_at
                && after.dump_count == watchdog.dump_count
        }),
{
}

/// A number in hexadecimal is made of digits that stand for it, in lower case.
pub proof fn hexadecimal_digits_stand_for_the_number(n: nat)
    ensures
        digits_value(hexadecimal(n), 16) == n,
        forall|i: int|
            0 <= i < hexadecimal(n).len() ==> {
                let c = #[trigger] hexadecimal(n)[i] as int;
                48 <= c <= 57 || 97 <= c <= 102
            },
        n > 0 ==> hexadecimal(n)[0] != '0',
    decreases n,
{
    let s = hexadecimal(n);
    if n < 16 {
        assert(s.drop_last() =~= Seq::<char>::empty());
        assert(digits_value(s.drop_last(), 16) == 0);
    } else {
        hexadecimal_digits_stand_for_the_number(n / 16);
        assert(s.drop_last() =~= hexadecimal(n / 16));
        assert forall|i: int| 0 <= i < s.len() implies {
            let c = #[trigger] s[i] as int;
            48 <= c <= 57 || 97 <= c <= 102
        } by {
            if i < s.len() - 1 {
                assert(s[i] == hexadecimal(n / 16)[i]);
            }
        }
        assert(s[0] == hexadecimal(n / 16)[0]);
    }
}

/// Only files whose names begin with `widget-` and end in `.dmp` are taken for dumps, and the file
/// of a dump is one.
pub proof fn dumps_are_told_by_their_names(middle: Seq<char>)
    ensures
        is_dump("widget-"@ + middle + ".dmp"@),
{
    let name = "widget-"@ + middle + ".dmp"@;
    assert(name.subrange(0, "widget-"@.len() as int) =~= "widget-"@);
    assert("widget-"@.is_prefix_of(name));
    assert(name.subrange(name.len() - ".dmp"@.len(), name.len() as int) =~= ".dmp"@);
}

/// A capture needs a number that fits and a file; the refusal says what is missing.
pub proof fn a_capture_needs_process_and_file(args: Seq<Option<String>>)
    ensures
        capture_refusal(args) is None <==> args.len() >= 3 && args[1] is Some && unsigned_number(
            args[1].unwrap()@,
            10,
            u32::MAX as int,
        ) is Some,
        args.len() < 2 ==> capture_refusal(args) == Some("missing target PID"@),
        args.len() >= 2 && args[1] is None ==> capture_refusal(args) == Some("invalid PID"@),
        args.len() == 2 && args[1] is Some && unsigned_number(
            args[1].unwrap()@,
            10,
            u32::MAX as int,
        ) is Some ==> capture_refusal(args) == Some("missing dump path"@),
{
    if args.len() >= 2 && args[1] is Some {
        crate::text::a_text_is_refused_exactly_when_it_is_no_number(
            args[1].unwrap()@,
            u32::MAX as int,
        );
    }
}

/// Each phase of the widget has a name of its own.
pub proof fn phases_are_told_apart(a: usize, b: usize)
    requires
        a <= 6,
        b <= 6,
    ensures
        a != b ==> phase_text(a) != phase_text(b),
{
    reveal_strlit("startup");
    reveal_strlit("logic");
    reveal_strlit("native-maintain");
    reveal_strlit("data-refresh");
    reveal_strlit("ui");
    reveal_strlit("render-or-event-loop");
    reveal_strlit("unknown");
    assert("startup"@.len() == 7 && "startup"@[0] == 's');
    assert("logic"@.len() == 5);
    assert("native-maintain"@.len() == 15);
    assert("data-refresh"@.len() == 12);
    assert("ui"@.len() == 2);
    assert("render-or-event-loop"@.len() == 20);
    assert("unknown"@.len() == 7 && "unknown"@[0] == 'u');
}

} // verus!
