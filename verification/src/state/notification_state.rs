//! The message in the bottom panel, which may expire after a time.

use stopwatch::Stopwatch;
use vstd::prelude::*;

verus! {

/// `stopwatch::Stopwatch`. Nothing is known of what it holds.
#[verifier::external_type_specification]
#[verifier::external_body]
pub struct ExStopwatch(Stopwatch);

/// `Stopwatch::new` gives a stopwatch that stands at zero and does not run.
pub assume_specification[ Stopwatch::new ]() -> (stopwatch: Stopwatch);

/// `Stopwatch::start` lets the stopwatch run from now.
pub assume_specification[ Stopwatch::start ](stopwatch: &mut Stopwatch);

/// `Stopwatch::stop` halts the stopwatch at the time it shows.
pub assume_specification[ Stopwatch::stop ](stopwatch: &mut Stopwatch);

/// `Stopwatch::reset` sets the stopwatch to zero and halts it.
pub assume_specification[ Stopwatch::reset ](stopwatch: &mut Stopwatch);

/// `Stopwatch::is_running` says whether the stopwatch runs.
pub assume_specification[ Stopwatch::is_running ](stopwatch: &Stopwatch) -> (running: bool);

/// Calls `Stopwatch::elapsed` and gives the whole seconds of the time that the
/// stopwatch shows. The result depends on the clock: nothing is promised of it.
#[verifier::external_body]
fn elapsed_secs(stopwatch: &Stopwatch) -> u64 {
    stopwatch.elapsed().as_secs()
}

/// The message in the bottom panel.
pub struct NotificationState {
    pub message: String,
    pub stopwatch: Stopwatch,
    pub time_limit_s: Option<u64>,
}

impl NotificationState {
    /// Whether a message that has been shown for `elapsed_s` seconds has
    /// expired: it has a time limit, and has been shown for longer.
    pub open spec fn expired(&self, elapsed_s: u64) -> bool {
        match self.time_limit_s {
            Some(limit) => elapsed_s > limit,
            None => false,
        }
    }

    /// Whether `after` is what is left of this state once its message has
    /// been shown for `elapsed_s` seconds: nothing, if the message has expired
    /// by then; the same message with the same time limit, if it has not.
    pub open spec fn left_after(self, after: NotificationState, elapsed_s: u64) -> bool {
        if self.expired(elapsed_s) {
            after.message@ == Seq::<char>::empty() && after.time_limit_s is None
        } else {
            after.message == self.message && after.time_limit_s == self.time_limit_s
        }
    }

    /// Shows `msg`, for `time_limit_s` seconds, or for good where no limit
    /// is given.
    pub fn set_message(&mut self, msg: String, time_limit_s: Option<u64>)
        ensures
            final(self).message@ == msg@,
            final(self).time_limit_s == time_limit_s,
    {
        self.clear_message();
        self.message = msg;
        self.time_limit_s = time_limit_s;
        if self.time_limit_s.is_some() {
            self.stopwatch.start();
        }
    }

    /// Clears the message.
    pub fn clear_message(&mut self)
        ensures
            final(self).message@ == Seq::<char>::empty(),
            final(self).time_limit_s is None,
    {
        self.message = String::new();
        self.time_limit_s = None;
        if self.stopwatch.is_running() {
            self.stopwatch.stop();
        }
        self.stopwatch.reset();
    }

    /// Clears the message if it has been shown for `elapsed_s` seconds and
    /// that is longer than its time limit. A message without a time limit
    /// stays.
    pub fn expire(&mut self, elapsed_s: u64)
        ensures
            old(self).expired(elapsed_s) ==> final(self).message@ == Seq::<char>::empty()
                && final(self).time_limit_s is None,
            !old(self).expired(elapsed_s) ==> final(self).message == old(self).message
                && final(self).time_limit_s == old(self).time_limit_s,
    {
        if let Some(l) = self.time_limit_s {
            if elapsed_s > l {
                self.clear_message();
            }
        }
    }

    /// Clears the message if it has been shown for longer than its time
    /// limit, by the time that the stopwatch shows. What is left is what
    /// `expire` leaves for that time: a message without a time limit stays,
    /// and so does one whose time limit no time exceeds.
    pub fn update_message(&mut self)
        ensures
            exists|elapsed_s: u64| old(self).left_after(*final(self), elapsed_s),
            old(self).time_limit_s is None ==> final(self).message == old(self).message
                && final(self).time_limit_s is None,
    {
        let elapsed = elapsed_secs(&self.stopwatch);
        self.expire(elapsed);
        assert(old(self).left_after(*self, elapsed));
    }
}

impl Default for NotificationState {
    /// No message.
    fn default() -> (r: Self)
        ensures
            r.message@ == Seq::<char>::empty(),
            r.time_limit_s is None,
    {
        NotificationState { message: String::new(), stopwatch: Stopwatch::new(), time_limit_s: None }
    }
}

} // verus!
