//! The debounce filter: a value is reported at most once, and only after it
//! has stayed unchanged for the threshold, measured on the caller's
//! monotonic clock. Rapid oscillation below the threshold reports nothing,
//! and a stable value is reported exactly once until it changes again.

use vstd::prelude::*;

verus! {

/// The mathematical shape of the debounce filter.
pub ghost struct MonitorModel {
    pub change_date: u64,
    pub threshold: u64,
    pub last_value: Seq<char>,
    pub last_notified: Seq<char>,
    pub notified: bool,
}

impl MonitorModel {
    /// A fresh filter over `initial` at time `now`.
    pub open spec fn fresh(initial: Seq<char>, threshold: u64, now: u64) -> MonitorModel {
        MonitorModel {
            change_date: now,
            threshold,
            last_value: initial,
            last_notified: initial,
            notified: false,
        }
    }

    /// A new sample: an unchanged value changes nothing; a different value
    /// restarts the stability clock and arms the filter again.
    pub open spec fn set_model(self, value: Seq<char>, now: u64) -> MonitorModel {
        if value == self.last_value {
            self
        } else {
            MonitorModel { change_date: now, last_value: value, notified: false, ..self }
        }
    }

    /// Whether a poll at `now` reports: only an armed filter whose value
    /// differs from the last reported one and has been stable for the
    /// threshold does.
    pub open spec fn reports(self, now: u64) -> bool {
        &&& !self.notified
        &&& self.last_notified != self.last_value
        &&& now - self.change_date >= self.threshold
    }

    /// The filter's state after a poll at `now`.
    pub open spec fn polled(self, now: u64) -> MonitorModel {
        if self.reports(now) {
            MonitorModel { notified: true, last_notified: self.last_value, ..self }
        } else {
            self
        }
    }
}

/// The debounce filter over window titles.
pub struct ChangeMonitor {
    change_date: u64,
    threshold: u64,
    last_value: String,
    last_notified: String,
    notified: bool,
}

impl View for ChangeMonitor {
    type V = MonitorModel;

    closed spec fn view(&self) -> MonitorModel {
        MonitorModel {
            change_date: self.change_date,
            threshold: self.threshold,
            last_value: self.last_value@,
            last_notified: self.last_notified@,
            notified: self.notified,
        }
    }
}

impl ChangeMonitor {
    /// A fresh filter over `initial_value`, read at time `now`.
    pub fn new(initial_value: String, threshold: u64, now: u64) -> (r: ChangeMonitor)
        ensures
            r@ == MonitorModel::fresh(initial_value@, threshold, now),
    {
        let copy = initial_value.clone();
        ChangeMonitor {
            change_date: now,
            threshold,
            last_value: initial_value,
            last_notified: copy,
            notified: false,
        }
    }

    /// Feeds one sample taken at `now`.
    pub fn set(&mut self, value: String, now: u64)
        requires
            now >= old(self)@.change_date,
        ensures
            final(self)@ == old(self)@.set_model(value@, now),
    {
        if self.last_value == value {
            return ;
        }
        self.last_value = value;
        self.change_date = now;
        self.notified = false;
    }

    /// Polls the filter at `now`: the stable value, reported exactly once.
    pub fn poll(&mut self, now: u64) -> (r: Option<String>)
        requires
            now >= old(self)@.change_date,
        ensures
            final(self)@ == old(self)@.polled(now),
            match r {
                Some(v) => old(self)@.reports(now) && v@ == old(self)@.last_value,
                None => !old(self)@.reports(now),
            },
    {
        if self.notified || self.last_notified == self.last_value || now - self.change_date
            < self.threshold {
            None
        } else {
            self.notified = true;
            self.last_notified = self.last_value.clone();
            Some(self.last_value.clone())
        }
    }
}

/// A reported value is reported exactly once: after a poll that reported,
/// every later poll stays silent until the value changes again.
pub proof fn lemma_poll_reports_once(m: MonitorModel, t1: u64, t2: u64)
    requires
        m.reports(t1),
    ensures
        !m.polled(t1).reports(t2),
        m.polled(t1).polled(t2) == m.polled(t1),
{
}

/// Oscillation within the threshold reports nothing: a sample that changes
/// the value keeps the filter silent for a further threshold's worth of time.
pub proof fn lemma_no_report_before_threshold(m: MonitorModel, v: Seq<char>, t1: u64, t2: u64)
    requires
        v != m.last_value,
        t2 - t1 < m.threshold,
        t2 >= t1,
    ensures
        !m.set_model(v, t1).reports(t2),
{
}

/// A stable value is reported as soon as the threshold has elapsed, if it
/// differs from the last reported one.
pub proof fn lemma_stable_value_reported(m: MonitorModel, v: Seq<char>, t1: u64, t2: u64)
    requires
        v != m.last_value,
        v != m.last_notified,
        t2 >= t1,
        t2 - t1 >= m.threshold,
    ensures
        m.set_model(v, t1).reports(t2),
        m.set_model(v, t1).polled(t2).last_notified == v,
{
}

} // verus!
