//! The refresh schedule of the updater service.
//!
//! The service polls: on each poll it learns whether it was asked to stop and
//! what the time is, and is told what to do next. Times are nanoseconds on a
//! clock that does not go back.

use vstd::prelude::*;

verus! {

/// Nanoseconds between two refreshes, unless configured otherwise: 5 seconds.
pub const DEFAULT_REFRESH_INTERVAL: u128 = 5_000_000_000;

/// Nanoseconds that an idle poll sleeps, unless configured otherwise: 1
/// millisecond.
pub const DEFAULT_IDLE_POLL_INTERVAL: u128 = 1_000_000;

/// The two intervals of the schedule, in nanoseconds.
#[derive(Clone, Copy, Debug, PartialEq, Eq, Structural)]
pub struct SchedulerConfig {
    pub refresh_interval: u128,
    pub idle_poll_interval: u128,
}

impl Default for SchedulerConfig {
    fn default() -> (config: SchedulerConfig)
        ensures
            config.refresh_interval == DEFAULT_REFRESH_INTERVAL,
            config.idle_poll_interval == DEFAULT_IDLE_POLL_INTERVAL,
    {
        SchedulerConfig {
            refresh_interval: DEFAULT_REFRESH_INTERVAL,
            idle_poll_interval: DEFAULT_IDLE_POLL_INTERVAL,
        }
    }
}

/// What the service does after a poll.
#[derive(Clone, Copy, Debug, PartialEq, Eq, Structural)]
pub enum Action {
    /// Leave the loop: the service has stopped.
    Stop,
    /// Sleep for `sleep` nanoseconds, then poll again.
    Idle { sleep: u128 },
    /// Run one refresh cycle, report its completion, then poll again.
    Refresh,
}

/// The schedule as a mathematical value.
pub struct ScheduleView {
    pub config: SchedulerConfig,
    pub running: bool,
    pub last_refresh: u128,
}

impl ScheduleView {
    /// Whether a refresh is due at `now`: at least the refresh interval has
    /// passed since the last refresh.
    pub open spec fn due(self, now: u128) -> bool {
        now - self.last_refresh >= self.config.refresh_interval
    }

    /// The schedule after a poll.
    pub open spec fn after_poll(self, exit: bool) -> ScheduleView {
        if exit {
            ScheduleView { running: false, ..self }
        } else {
            self
        }
    }

    /// What a poll at `now` tells the service to do.
    pub open spec fn action(self, exit: bool, now: u128) -> Action {
        if !self.running || exit {
            Action::Stop
        } else if self.due(now) {
            Action::Refresh
        } else {
            Action::Idle { sleep: self.config.idle_poll_interval }
        }
    }

    /// The schedule after a refresh that completed at `now`.
    pub open spec fn after_refresh(self, now: u128) -> ScheduleView {
        ScheduleView { last_refresh: now, ..self }
    }

    /// The schedule after each of `polls` in turn, none of them followed by a
    /// refresh. A poll is the stop signal and the time.
    pub open spec fn after_polls(self, polls: Seq<(bool, u128)>) -> ScheduleView
        decreases polls.len(),
    {
        if polls.len() == 0 {
            self
        } else {
            self.after_polls(polls.drop_last()).after_poll(polls.last().0)
        }
    }
}

/// The schedule of one service: running until it is told to stop, and then
/// stopped for good.
#[derive(Debug)]
pub struct RefreshScheduler {
    config: SchedulerConfig,
    running: bool,
    last_refresh: u128,
}

impl View for RefreshScheduler {
    type V = ScheduleView;

    closed spec fn view(&self) -> ScheduleView {
        ScheduleView {
            config: self.config,
            running: self.running,
            last_refresh: self.last_refresh,
        }
    }
}

impl RefreshScheduler {
    /// The schedule of a service that starts at `now`: running, with the
    /// first refresh due one interval later.
    pub fn new(config: SchedulerConfig, now: u128) -> (scheduler: RefreshScheduler)
        ensures
            scheduler@ == (ScheduleView { config, running: true, last_refresh: now }),
    {
        RefreshScheduler { config, running: true, last_refresh: now }
    }

    /// Whether the service is still running.
    pub fn is_running(&self) -> (running: bool)
        ensures
            running == self@.running,
    {
        self.running
    }

    /// The time of the last refresh, or of the start where there was none.
    pub fn last_refresh(&self) -> (at: u128)
        ensures
            at == self@.last_refresh,
    {
        self.last_refresh
    }

    /// One poll. With the stop signal set, or once stopped, the service stops
    /// and stays stopped. Otherwise a refresh is due when at least the refresh
    /// interval has passed since the last one; until then the service idles.
    pub fn poll(&mut self, exit: bool, now: u128) -> (action: Action)
        ensures
            action == old(self)@.action(exit, now),
            final(self)@ == old(self)@.after_poll(exit),
    {
        if !self.running {
            Action::Stop
        } else if exit {
            self.running = false;
            Action::Stop
        } else if now >= self.last_refresh && now - self.last_refresh
            >= self.config.refresh_interval {
            Action::Refresh
        } else {
            Action::Idle { sleep: self.config.idle_poll_interval }
        }
    }

    /// Records that a refresh cycle completed at `now`.
    pub fn refresh_completed(&mut self, now: u128)
        ensures
            final(self)@ == old(self)@.after_refresh(now),
    {
        self.last_refresh = now;
    }
}

/// Polling does not bring a refresh forward: however often the service polls
/// before the refresh interval has passed since the last refresh, no poll
/// asks for a refresh, and the time of the last refresh stays.
pub proof fn lemma_no_refresh_before_interval(
    schedule: ScheduleView,
    polls: Seq<(bool, u128)>,
    i: int,
)
    requires
        0 <= i < polls.len(),
        forall|j: int|
            0 <= j < polls.len() ==> (#[trigger] polls[j]).1 - schedule.last_refresh
                < schedule.config.refresh_interval,
    ensures
        schedule.after_polls(polls.take(i)).action(polls[i].0, polls[i].1) != Action::Refresh,
        schedule.after_polls(polls).last_refresh == schedule.last_refresh,
        schedule.after_polls(polls).config == schedule.config,
{
    lemma_polls_keep_schedule(schedule, polls.take(i));
    lemma_polls_keep_schedule(schedule, polls);
}

/// Polls change neither the time of the last refresh nor the configuration,
/// and a stopped service stays stopped.
pub proof fn lemma_polls_keep_schedule(schedule: ScheduleView, polls: Seq<(bool, u128)>)
    ensures
        schedule.after_polls(polls).last_refresh == schedule.last_refresh,
        schedule.after_polls(polls).config == schedule.config,
        !schedule.running ==> !schedule.after_polls(polls).running,
    decreases polls.len(),
{
    if polls.len() > 0 {
        lemma_polls_keep_schedule(schedule, polls.drop_last());
    }
}

} // verus!
