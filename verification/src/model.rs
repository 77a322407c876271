//! The record model: time segments tagged productive or pause, and work
//! records, each a non-empty alternating sequence of segments with at most
//! one open segment, always the last.
//!
//! Timestamps are seconds since the Unix epoch, UTC.

use vstd::prelude::*;

verus! {

/// Whether a segment counts toward billable time.
#[derive(PartialEq, Eq, Structural, Clone, Copy, Debug)]
pub enum TimeKind {
    Productive,
    Pause,
}

/// A continuous span of time; `end` is `None` while the span is still open.
#[derive(Clone, Copy, Debug)]
pub struct TimeSegment {
    pub start: u64,
    pub end: Option<u64>,
    pub kind: TimeKind,
}

/// Where a record stands in its lifecycle; `Done` is terminal.
#[derive(PartialEq, Eq, Structural, Clone, Copy, Debug)]
pub enum ProjectState {
    Working,
    Paused,
    Done,
}

/// One tracked work session on a project.
#[derive(Debug)]
pub struct WorkRecord {
    pub id: String,
    pub name: String,
    pub start: u64,
    pub end: Option<u64>,
    pub state: ProjectState,
    pub segments: Vec<TimeSegment>,
}

/// The mathematical shape of a work record, used by all contracts.
pub ghost struct RecordModel {
    pub id: Seq<char>,
    pub name: Seq<char>,
    pub start: u64,
    pub end: Option<u64>,
    pub state: ProjectState,
    pub segments: Seq<TimeSegment>,
}

impl TimeSegment {
    /// The segment's end if it is closed, and `now` if it is still open.
    pub open spec fn end_or(self, now: u64) -> u64 {
        match self.end {
            Some(e) => e,
            None => now,
        }
    }

    /// `self` closed at `now` if it was open, unchanged otherwise.
    pub open spec fn finished(self, now: u64) -> TimeSegment {
        TimeSegment { end: Some(self.end_or(now)), ..self }
    }

    /// Closes the segment at `now` if it has no end yet.
    pub fn finish(&mut self, now: u64)
        ensures
            *final(self) == old(self).finished(now),
    {
        if self.end.is_none() {
            self.end = Some(now);
        }
    }
}

/// Well-formedness of a segment sequence: every segment except possibly the
/// last is closed, closed segments do not end before they start, segments
/// are in chronological order, and adjacent segments never share a kind.
pub open spec fn segments_wf(segs: Seq<TimeSegment>) -> bool {
    &&& forall|i: int| 0 <= i < segs.len() - 1 ==> (#[trigger] segs[i]).end is Some
    &&& forall|i: int|
        0 <= i < segs.len() ==> ((#[trigger] segs[i]).end matches Some(e) ==> segs[i].start <= e)
    &&& forall|i: int, j: int|
        0 <= i && j == i + 1 && j < segs.len() ==> (#[trigger] segs[i]).end->Some_0 <= (
        #[trigger] segs[j]).start
    &&& forall|i: int, j: int|
        0 <= i && j == i + 1 && j < segs.len() ==> (#[trigger] segs[i]).kind != (
        #[trigger] segs[j]).kind
}

/// What a `Productive` segment contributes to the record's duration at
/// time `now`; `Pause` segments contribute nothing.
pub open spec fn segment_duration(seg: TimeSegment, now: u64) -> int {
    if seg.kind is Productive {
        seg.end_or(now) - seg.start
    } else {
        0
    }
}

/// Total productive time of a segment sequence at time `now`.
pub open spec fn total_duration(segs: Seq<TimeSegment>, now: u64) -> int
    decreases segs.len(),
{
    if segs.len() == 0 {
        0
    } else {
        total_duration(segs.drop_last(), now) + segment_duration(segs.last(), now)
    }
}

/// For a well-formed sequence whose open segment (if any) has not started
/// after `now`, the total duration is non-negative and bounded by the span
/// from the first start to the last end.
pub proof fn lemma_total_duration_bounds(segs: Seq<TimeSegment>, now: u64)
    requires
        segments_wf(segs),
        segs.len() > 0,
        segs.last().end is None ==> segs.last().start <= now,
    ensures
        0 <= total_duration(segs, now) <= segs.last().end_or(now) - segs[0].start,
    decreases segs.len(),
{
    assert(segs.last() == segs[segs.len() - 1]);
    assert(segs[segs.len() - 1].end matches Some(e) ==> segs[segs.len() - 1].start <= e);
    if segs.len() > 1 {
        let prefix = segs.drop_last();
        assert(forall|i: int| 0 <= i < prefix.len() ==> #[trigger] prefix[i] == segs[i]);
        assert(segments_wf(prefix));
        assert(prefix.last() == segs[segs.len() - 2]);
        assert((segs[segs.len() - 2]).end->Some_0 <= (segs[segs.len() - 1]).start);
        assert(segs[segs.len() - 2].end is Some);
        lemma_total_duration_bounds(prefix, now);
        assert(prefix.last().end_or(now) <= segs.last().start);
        assert(total_duration(segs, now) == total_duration(prefix, now) + segment_duration(
            segs.last(),
            now,
        ));
        assert(0 <= segment_duration(segs.last(), now) <= segs.last().end_or(now)
            - segs.last().start);
    } else {
        assert(segs.drop_last().len() == 0);
        assert(total_duration(segs.drop_last(), now) == 0);
        assert(total_duration(segs, now) == segment_duration(segs.last(), now));
        assert(segs.last() == segs[0]);
    }
}

impl RecordModel {
    /// The record invariant: a non-empty well-formed segment sequence that
    /// begins when the record begins; the record is `Done` exactly when it
    /// has an end, which is then the last segment's end; while not `Done`
    /// the last segment is open and its kind matches the state.
    pub open spec fn inv(self) -> bool {
        &&& self.segments.len() > 0
        &&& segments_wf(self.segments)
        &&& self.segments[0].start == self.start
        &&& (self.state is Done <==> self.end is Some)
        &&& (self.state is Done <==> self.segments.last().end is Some)
        &&& (self.state is Done ==> self.end == self.segments.last().end)
        &&& (self.state is Working ==> self.segments.last().kind is Productive)
        &&& (self.state is Paused ==> self.segments.last().kind is Pause)
    }

    /// The instant the record last advanced: the start of its open segment,
    /// or its final end once it is done.
    pub open spec fn last_instant(self) -> u64 {
        self.segments.last().end_or(self.segments.last().start)
    }

    /// A record freshly started at `now`: working, with one open
    /// productive segment.
    pub open spec fn started(id: Seq<char>, name: Seq<char>, now: u64) -> RecordModel {
        RecordModel {
            id,
            name,
            start: now,
            end: None,
            state: ProjectState::Working,
            segments: seq![TimeSegment { start: now, end: None, kind: TimeKind::Productive }],
        }
    }

    /// `self` with its open segment closed at `now` and a new open segment
    /// of kind `kind` appended.
    pub open spec fn switched_to(self, kind: TimeKind, state: ProjectState, now: u64) -> RecordModel {
        RecordModel {
            state,
            segments: self.segments.update(
                self.segments.len() - 1,
                self.segments.last().finished(now),
            ).push(TimeSegment { start: now, end: None, kind }),
            ..self
        }
    }

    /// The record after a pause request at `now`: if it was working, the
    /// open productive segment is closed and an open pause segment begins;
    /// otherwise nothing changes.
    pub open spec fn paused_at(self, now: u64) -> RecordModel {
        if self.state is Working {
            self.switched_to(TimeKind::Pause, ProjectState::Paused, now)
        } else {
            self
        }
    }

    /// The record after a resume request at `now`: if it was paused, the
    /// open pause segment is closed and an open productive segment begins;
    /// otherwise nothing changes.
    pub open spec fn resumed_at(self, now: u64) -> RecordModel {
        if self.state is Paused {
            self.switched_to(TimeKind::Productive, ProjectState::Working, now)
        } else {
            self
        }
    }

    /// The record after a stop at `now`: if it was not done yet, the open
    /// segment is closed and its end becomes the record's end; a done
    /// record never changes again.
    pub open spec fn stopped_at(self, now: u64) -> RecordModel {
        if self.state is Done {
            self
        } else {
            RecordModel {
                state: ProjectState::Done,
                end: Some(self.segments.last().end_or(now)),
                segments: self.segments.update(
                    self.segments.len() - 1,
                    self.segments.last().finished(now),
                ),
                ..self
            }
        }
    }
}

impl View for WorkRecord {
    type V = RecordModel;

    open spec fn view(&self) -> RecordModel {
        RecordModel {
            id: self.id@,
            name: self.name@,
            start: self.start,
            end: self.end,
            state: self.state,
            segments: self.segments@,
        }
    }
}

impl WorkRecord {
    /// A record freshly started at `now`, with one open productive segment.
    pub fn new_started(id: String, name: String, now: u64) -> (r: WorkRecord)
        ensures
            r@ == RecordModel::started(id@, name@, now),
            r@.inv(),
    {
        let mut segments: Vec<TimeSegment> = Vec::new();
        segments.push(TimeSegment { start: now, end: None, kind: TimeKind::Productive });
        let r = WorkRecord {
            id,
            name,
            start: now,
            end: None,
            state: ProjectState::Working,
            segments,
        };
        proof {
            assert(r@.segments =~= RecordModel::started(r.id@, r.name@, now).segments);
            lemma_started_inv(r.id@, r.name@, now);
        }
        r
    }

    /// Pauses a working record at `now`; does nothing when the record is
    /// already paused or done.
    pub fn begin_pause(&mut self, now: u64)
        requires
            old(self)@.inv(),
            now >= old(self)@.last_instant(),
        ensures
            final(self)@ == old(self)@.paused_at(now),
            final(self)@.inv(),
    {
        proof {
            lemma_paused_preserves_inv(self@, now);
        }
        if matches!(self.state, ProjectState::Working) {
            self.state = ProjectState::Paused;
            let last: usize = self.segments.len() - 1;
            let mut seg = self.segments[last];
            seg.finish(now);
            self.segments.set(last, seg);
            self.segments.push(TimeSegment { start: now, end: None, kind: TimeKind::Pause });
        }
    }

    /// Resumes a paused record at `now`; does nothing when the record is
    /// already working or done.
    pub fn resume_work(&mut self, now: u64)
        requires
            old(self)@.inv(),
            now >= old(self)@.last_instant(),
        ensures
            final(self)@ == old(self)@.resumed_at(now),
            final(self)@.inv(),
    {
        proof {
            lemma_resumed_preserves_inv(self@, now);
        }
        if matches!(self.state, ProjectState::Paused) {
            self.state = ProjectState::Working;
            let last: usize = self.segments.len() - 1;
            let mut seg = self.segments[last];
            seg.finish(now);
            self.segments.set(last, seg);
            self.segments.push(TimeSegment { start: now, end: None, kind: TimeKind::Productive });
        }
    }

    /// Finalizes the record at `now`: closes the open segment and sets the
    /// record's end to that segment's end. A second stop changes nothing.
    pub fn stop(&mut self, now: u64)
        requires
            old(self)@.inv(),
            now >= old(self)@.last_instant(),
        ensures
            final(self)@ == old(self)@.stopped_at(now),
            final(self)@.inv(),
    {
        proof {
            lemma_stopped_preserves_inv(self@, now);
        }
        if matches!(self.state, ProjectState::Done) {
            return ;
        }
        self.state = ProjectState::Done;
        let last: usize = self.segments.len() - 1;
        let mut seg = self.segments[last];
        seg.finish(now);
        self.segments.set(last, seg);
        self.end = seg.end;
    }

    /// Checks the record invariant and the timestamp range, as a decoded
    /// record of unknown provenance must be checked before it is trusted.
    pub fn check_wf(&self) -> (r: bool)
        ensures
            r == (self@.inv() && self.start <= crate::week::MAX_TIMESTAMP
                && self@.last_instant() <= crate::week::MAX_TIMESTAMP),
    {
        let n: usize = self.segments.len();
        if n == 0 {
            return false;
        }
        if self.start > crate::week::MAX_TIMESTAMP {
            return false;
        }
        let mut i: usize = 0;
        while i < n
            invariant
                0 <= i <= n,
                n == self.segments@.len(),
                forall|l: int|
                    0 <= l < i && l < n - 1 ==> (#[trigger] self.segments@[l]).end is Some,
                forall|l: int|
                    0 <= l < i ==> ((#[trigger] self.segments@[l]).end matches Some(e)
                        ==> self.segments@[l].start <= e),
                forall|l: int, m: int|
                    0 <= l && m == l + 1 && m < n && l < i ==> (
                    #[trigger] self.segments@[l]).end->Some_0 <= (
                    #[trigger] self.segments@[m]).start,
                forall|l: int, m: int|
                    0 <= l && m == l + 1 && m < n && l < i ==> (
                    #[trigger] self.segments@[l]).kind != (#[trigger] self.segments@[m]).kind,
            decreases n - i,
        {
            let seg = self.segments[i];
            match seg.end {
                Some(e) => {
                    if seg.start > e {
                        return false;
                    }
                },
                None => {
                    if i < n - 1 {
                        return false;
                    }
                },
            }
            if i + 1 < n {
                let next = self.segments[i + 1];
                match seg.end {
                    Some(e) => {
                        if e > next.start {
                            return false;
                        }
                    },
                    None => {
                    },
                }
                if seg.kind == next.kind {
                    return false;
                }
            }
            i = i + 1;
        }
        if self.segments[0].start != self.start {
            return false;
        }
        let last = self.segments[n - 1];
        let done = matches!(self.state, ProjectState::Done);
        if done != self.end.is_some() {
            return false;
        }
        if done != last.end.is_some() {
            return false;
        }
        if done {
            let record_end: u64 = match self.end {
                Some(e) => e,
                None => 0,
            };
            let segment_end: u64 = match last.end {
                Some(e) => e,
                None => 0,
            };
            if record_end != segment_end {
                return false;
            }
        }
        match self.state {
            ProjectState::Working => {
                if !matches!(last.kind, TimeKind::Productive) {
                    return false;
                }
            },
            ProjectState::Paused => {
                if !matches!(last.kind, TimeKind::Pause) {
                    return false;
                }
            },
            ProjectState::Done => {
            },
        }
        let last_instant: u64 = match last.end {
            Some(e) => e,
            None => last.start,
        };
        if last_instant > crate::week::MAX_TIMESTAMP {
            return false;
        }
        true
    }

    /// An independent copy of the record, equal to it in every field.
    pub fn duplicate(&self) -> (r: WorkRecord)
        ensures
            r@ == self@,
    {
        let mut segments: Vec<TimeSegment> = Vec::new();
        let n: usize = self.segments.len();
        let mut i: usize = 0;
        while i < n
            invariant
                0 <= i <= n,
                n == self.segments@.len(),
                segments@ == self.segments@.take(i as int),
            decreases n - i,
        {
            segments.push(self.segments[i]);
            assert(segments@ =~= self.segments@.take(i + 1));
            i = i + 1;
        }
        assert(segments@ =~= self.segments@);
        WorkRecord {
            id: self.id.clone(),
            name: self.name.clone(),
            start: self.start,
            end: self.end,
            state: self.state,
            segments,
        }
    }

    /// Sum of the productive segments' lengths at time `now`, an open
    /// segment counting up to `now`.
    pub fn calculate_duration(&self, now: u64) -> (r: u64)
        requires
            self@.inv(),
            self@.state is Done || now >= self@.last_instant(),
        ensures
            r == total_duration(self@.segments, now),
    {
        let ghost segs = self@.segments;
        let n: usize = self.segments.len();
        let mut sum: u64 = 0;
        let mut i: usize = 0;
        while i < n
            invariant
                0 <= i <= n,
                n == segs.len(),
                segs == self@.segments,
                self@.inv(),
                self@.state is Done || now >= self@.last_instant(),
                sum == total_duration(segs.take(i as int), now),
            decreases n - i,
        {
            let seg = self.segments[i];
            proof {
                assert(segs.take(i + 1).drop_last() =~= segs.take(i as int));
                assert(segs.take(i + 1).last() == segs[i as int]);
                assert(segments_wf(segs.take(i + 1)));
                if segs[i as int].end is None {
                    assert(i == n - 1);
                    assert(segs.last().start <= now);
                }
                lemma_total_duration_bounds(segs.take(i + 1), now);
            }
            if matches!(seg.kind, TimeKind::Productive) {
                let end: u64 = match seg.end {
                    Some(e) => e,
                    None => now,
                };
                sum = sum + (end - seg.start);
            }
            i = i + 1;
        }
        proof {
            assert(segs.take(n as int) =~= segs);
        }
        sum
    }
}

/// A freshly started record satisfies the invariant.
pub proof fn lemma_started_inv(id: Seq<char>, name: Seq<char>, now: u64)
    ensures
        RecordModel::started(id, name, now).inv(),
        RecordModel::started(id, name, now).last_instant() == now,
        RecordModel::started(id, name, now).start == now,
{
}

/// Pausing preserves the invariant: segments keep alternating and only the
/// last segment stays open.
pub proof fn lemma_paused_preserves_inv(m: RecordModel, now: u64)
    requires
        m.inv(),
        now >= m.last_instant(),
    ensures
        m.paused_at(now).inv(),
        m.paused_at(now).last_instant() <= now || m.paused_at(now).last_instant()
            == m.last_instant(),
        m.paused_at(now).start == m.start,
        m.paused_at(now).id == m.id,
        m.paused_at(now).name == m.name,
{
}

/// Resuming preserves the invariant: segments keep alternating and only
/// the last segment stays open.
pub proof fn lemma_resumed_preserves_inv(m: RecordModel, now: u64)
    requires
        m.inv(),
        now >= m.last_instant(),
    ensures
        m.resumed_at(now).inv(),
        m.resumed_at(now).last_instant() <= now || m.resumed_at(now).last_instant()
            == m.last_instant(),
        m.resumed_at(now).start == m.start,
        m.resumed_at(now).id == m.id,
        m.resumed_at(now).name == m.name,
{
}

/// Stopping preserves the invariant and closes every segment.
pub proof fn lemma_stopped_preserves_inv(m: RecordModel, now: u64)
    requires
        m.inv(),
        now >= m.last_instant(),
    ensures
        m.stopped_at(now).inv(),
        m.stopped_at(now).state is Done,
        m.stopped_at(now).last_instant() <= now || m.stopped_at(now).last_instant()
            == m.last_instant(),
        m.stopped_at(now).start == m.start,
        m.stopped_at(now).id == m.id,
        m.stopped_at(now).name == m.name,
{
}

/// Stopping is idempotent: a second stop, at any later time, changes
/// nothing at all — in particular neither the state nor the end.
pub proof fn lemma_stop_idempotent(m: RecordModel, t1: u64, t2: u64)
    requires
        m.inv(),
        t1 >= m.last_instant(),
    ensures
        m.stopped_at(t1).stopped_at(t2) == m.stopped_at(t1),
{
    lemma_stopped_preserves_inv(m, t1);
}

/// While a record is paused (or done) its duration does not grow: the
/// open pause segment contributes nothing, however long it gets.
pub proof fn lemma_duration_stable_unless_working(m: RecordModel, n1: u64, n2: u64)
    requires
        m.inv(),
        !(m.state is Working),
    ensures
        total_duration(m.segments, n1) == total_duration(m.segments, n2),
{
    lemma_duration_independent_of_now_when_last_not_productive_open(m.segments, n1, n2);
}

/// Helper: the duration depends on `now` only through an open productive
/// last segment.
proof fn lemma_duration_independent_of_now_when_last_not_productive_open(
    segs: Seq<TimeSegment>,
    n1: u64,
    n2: u64,
)
    requires
        segments_wf(segs),
        segs.len() > 0 ==> !(segs.last().end is None && segs.last().kind is Productive),
    ensures
        total_duration(segs, n1) == total_duration(segs, n2),
    decreases segs.len(),
{
    if segs.len() > 0 {
        let prefix = segs.drop_last();
        assert(segments_wf(prefix));
        if prefix.len() > 0 {
            assert(prefix.last() == segs[segs.len() - 2]);
            assert(prefix.last().end is Some);
        }
        lemma_duration_independent_of_now_when_last_not_productive_open(prefix, n1, n2);
    }
}

/// Pausing freezes the duration: after a pause at `t`, the duration read
/// at any later time `n` equals the duration at the moment of the pause.
pub proof fn lemma_pause_freezes_duration(m: RecordModel, t: u64, n: u64)
    requires
        m.inv(),
        t >= m.last_instant(),
    ensures
        total_duration(m.paused_at(t).segments, n) == total_duration(m.segments, t),
{
    lemma_paused_preserves_inv(m, t);
    if m.state is Working {
        let closed = m.segments.update(m.segments.len() - 1, m.segments.last().finished(t));
        let paused = m.paused_at(t).segments;
        assert(paused.drop_last() =~= closed);
        assert(segment_duration(paused.last(), n) == 0);
        lemma_closing_last_freezes(m.segments, t, n);
    } else {
        lemma_duration_stable_unless_working(m, n, t);
    }
}

/// Helper: closing the open last segment at `t` makes the total duration,
/// read at any time `n`, equal the open total read at `t`.
proof fn lemma_closing_last_freezes(segs: Seq<TimeSegment>, t: u64, n: u64)
    requires
        segments_wf(segs),
        segs.len() > 0,
    ensures
        total_duration(segs.update(segs.len() - 1, segs.last().finished(t)), n) == total_duration(
            segs,
            t,
        ),
{
    let closed = segs.update(segs.len() - 1, segs.last().finished(t));
    assert(closed.drop_last() =~= segs.drop_last());
    assert(closed.last() == segs.last().finished(t));
    assert(segment_duration(segs.last().finished(t), n) == segment_duration(segs.last(), t));
    lemma_duration_independent_of_now_when_last_not_productive_open_prefix(segs.drop_last(), t, n);
}

/// Helper: a fully closed sequence has the same duration at any time.
proof fn lemma_duration_independent_of_now_when_last_not_productive_open_prefix(
    segs: Seq<TimeSegment>,
    n1: u64,
    n2: u64,
)
    requires
        forall|i: int| 0 <= i < segs.len() ==> (#[trigger] segs[i]).end is Some,
    ensures
        total_duration(segs, n1) == total_duration(segs, n2),
    decreases segs.len(),
{
    if segs.len() > 0 {
        lemma_duration_independent_of_now_when_last_not_productive_open_prefix(
            segs.drop_last(),
            n1,
            n2,
        );
    }
}

} // verus!
