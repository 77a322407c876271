//! The session engine and the focus classifier: a tracker owning the
//! configuration, the weekly store and the active work record. Explicit
//! commands and classified window titles drive the record's state machine,
//! and every change is handed to the store at once.

use vstd::prelude::*;

use crate::config::AppConfig;
use crate::config::ProjectConfig;
use crate::model::lemma_paused_preserves_inv;
use crate::model::lemma_resumed_preserves_inv;
use crate::model::lemma_started_inv;
use crate::model::lemma_stopped_preserves_inv;
use crate::model::RecordModel;
use crate::model::WorkRecord;
use crate::report::grand_total;
use crate::report::records_ok;
use crate::report::record_bad;
use crate::report::record_error_kind;
use crate::report::report_rows_ok;
use crate::report::ConfigError;
use crate::report::Report;
use crate::store::latest_of;
use crate::store::store_upsert;
use crate::store::stored_week;
use crate::store::models;
use crate::store::WorkRecordRepository;
use crate::strutil::ci_prefix_of;
use crate::strutil::is_ci_prefix;
use crate::week::MAX_TIMESTAMP;

verus! {

/// The mathematical shape of the tracker: the store's contents, the active
/// record, and whether the last pause was auto-triggered.
pub ghost struct TrackerModel {
    pub store: Map<u64, Seq<RecordModel>>,
    pub active: Option<RecordModel>,
    pub auto_break: bool,
}

/// Whether some window prefix of the project matches the title,
/// case-insensitively.
pub open spec fn project_matches(p: ProjectConfig, title: Seq<char>) -> bool {
    exists|w: int| 0 <= w < p.windows@.len() && ci_prefix_of((#[trigger] p.windows@[w])@, title)
}

/// The project the title belongs to: of several matching projects, the
/// last in declaration order wins.
pub open spec fn matching_project(projects: Seq<ProjectConfig>, title: Seq<char>) -> Option<
    ProjectConfig,
>
    decreases projects.len(),
{
    if projects.len() == 0 {
        None
    } else if project_matches(projects.last(), title) {
        Some(projects.last())
    } else {
        matching_project(projects.drop_last(), title)
    }
}

/// Whether the title names a configured break window.
pub open spec fn is_break_title(windows: Seq<String>, title: Seq<char>) -> bool {
    exists|w: int| 0 <= w < windows.len() && ci_prefix_of((#[trigger] windows[w])@, title)
}

impl TrackerModel {
    /// `r` made the active record and persisted.
    pub open spec fn with_active(self, r: RecordModel) -> TrackerModel {
        TrackerModel { store: store_upsert(self.store, r), active: Some(r), ..self }
    }

    /// The active record paused at `now` and persisted; nothing happens
    /// without an active record.
    pub open spec fn paused(self, now: u64) -> TrackerModel {
        match self.active {
            Some(r) => self.with_active(r.paused_at(now)),
            None => self,
        }
    }

    /// The active record resumed at `now` and persisted; nothing happens
    /// without an active record.
    pub open spec fn resumed(self, now: u64) -> TrackerModel {
        match self.active {
            Some(r) => self.with_active(r.resumed_at(now)),
            None => self,
        }
    }

    /// The active record stopped at `now` and persisted; nothing happens
    /// without an active record.
    pub open spec fn stopped(self, now: u64) -> TrackerModel {
        match self.active {
            Some(r) => self.with_active(r.stopped_at(now)),
            None => self,
        }
    }

    /// A fresh record for `name` started at `now`, made active and
    /// persisted.
    pub open spec fn started(self, name: Seq<char>, id: Seq<char>, now: u64) -> TrackerModel {
        self.with_active(RecordModel::started(id, name, now))
    }

    /// Starting work on `name`: the active record resumes if it already
    /// tracks that project and is not done; otherwise the active record is
    /// stopped and a fresh one begins.
    pub open spec fn start_working_on(self, name: Seq<char>, id: Seq<char>, now: u64) -> TrackerModel {
        match self.active {
            Some(r) => if r.name == name && !(r.state is Done) {
                self.resumed(now)
            } else {
                self.stopped(now).started(name, id, now)
            },
            None => self.started(name, id, now),
        }
    }

    /// One classified window title: first, a previous auto-pause is undone
    /// if auto-resume is configured; then the title either starts work on
    /// its project, or begins an auto-pause if it names a break window, or
    /// changes nothing.
    pub open spec fn on_title(
        self,
        cfg: AppConfig,
        title: Seq<char>,
        id: Seq<char>,
        now: u64,
    ) -> TrackerModel {
        let resumed = if self.auto_break && cfg.breaks.auto_resume {
            self.resumed(now)
        } else {
            self
        };
        let cleared = TrackerModel { auto_break: false, ..resumed };
        match matching_project(cfg.projects@, title) {
            Some(p) => cleared.start_working_on(p.name@, id, now),
            None => if is_break_title(cfg.breaks.windows@, title) && cleared.active is Some {
                TrackerModel { auto_break: true, ..cleared.paused(now) }
            } else {
                cleared
            },
        }
    }

    /// The time the active record last advanced; zero without one.
    pub open spec fn active_last_instant(self) -> u64 {
        match self.active {
            Some(r) => r.last_instant(),
            None => 0,
        }
    }

    /// Validity of the model: the active record, if any, is well-formed
    /// and within the timestamp range.
    pub open spec fn active_ok(self) -> bool {
        match self.active {
            Some(r) => r.inv() && r.start <= MAX_TIMESTAMP && r.last_instant() <= MAX_TIMESTAMP,
            None => true,
        }
    }
}

/// The tracker: configuration, weekly store, active record, and the
/// auto-break flag of the classifier.
pub struct Tracker {
    config: AppConfig,
    repo: WorkRecordRepository,
    active: Option<WorkRecord>,
    auto_break: bool,
}

impl Tracker {
    /// The configuration the tracker was built with.
    pub closed spec fn cfg(self) -> AppConfig {
        self.config
    }

    /// The tracker's mathematical shape.
    pub closed spec fn model(self) -> TrackerModel {
        TrackerModel {
            store: self.repo@,
            active: match self.active {
                Some(r) => Some(r@),
                None => None,
            },
            auto_break: self.auto_break,
        }
    }

    /// Well-formedness: the store and the active record are well-formed,
    /// and the configuration was validated.
    pub closed spec fn inv(self) -> bool {
        &&& self.repo.inv()
        &&& self.config.wf()
        &&& self.model().active_ok()
    }

    /// A tracker over a validated configuration and a well-formed store.
    pub fn new(config: AppConfig, repo: WorkRecordRepository) -> (r: Tracker)
        requires
            config.wf(),
            repo.inv(),
        ensures
            r.inv(),
            r.cfg() == config,
            r.model() == (TrackerModel { store: repo@, active: None::<RecordModel>, auto_break: false }),
    {
        Tracker { config, repo, active: None, auto_break: false }
    }

    /// Makes the most recent stored record the active one, as at startup;
    /// without any stored record nothing changes.
    pub fn load_previous(&mut self)
        requires
            old(self).inv(),
        ensures
            final(self).inv(),
            final(self).cfg() == old(self).cfg(),
            final(self).model().store == old(self).model().store,
            final(self).model().auto_break == old(self).model().auto_break,
            match final(self).model().active {
                None => old(self).model().store == Map::<u64, Seq<RecordModel>>::empty(),
                Some(m) => exists|k: u64|
                    {
                        &&& #[trigger] old(self).model().store.dom().contains(k)
                        &&& forall|k2: u64| old(self).model().store.dom().contains(k2) ==> k2 <= k
                        &&& m == latest_of(old(self).model().store[k])
                    },
            },
    {
        self.active = self.repo.get_latest();
    }

    /// A copy of the active record, if any.
    pub fn active_record(&self) -> (r: Option<WorkRecord>)
        ensures
            match r {
                Some(rec) => self.model().active == Some(rec@),
                None => self.model().active is None,
            },
    {
        match &self.active {
            Some(r) => Some(r.duplicate()),
            None => None,
        }
    }

    /// Copies of the stored records of the week keyed `week`.
    pub fn find_week(&self, week: u64) -> (r: Vec<WorkRecord>)
        requires
            self.inv(),
        ensures
            models(r@) == stored_week(self.model().store, week),
    {
        self.repo.find_week(week)
    }

    /// The time the active record last advanced, zero without one.
    fn active_last_instant_exec(&self) -> (r: u64)
        requires
            self.inv(),
        ensures
            r == self.model().active_last_instant(),
    {
        match &self.active {
            Some(r) => {
                let last: usize = r.segments.len() - 1;
                let seg = r.segments[last];
                match seg.end {
                    Some(e) => e,
                    None => seg.start,
                }
            },
            None => 0,
        }
    }

    /// Persists a copy of the active record; a no-op without one.
    fn persist_active(&mut self)
        requires
            old(self).inv(),
        ensures
            final(self).inv(),
            final(self).cfg() == old(self).cfg(),
            final(self).model().active == old(self).model().active,
            final(self).model().auto_break == old(self).model().auto_break,
            final(self).model().store == match old(self).model().active {
                Some(r) => store_upsert(old(self).model().store, r),
                None => old(self).model().store,
            },
    {
        match &self.active {
            Some(r) => {
                let copy = r.duplicate();
                self.repo.persist(copy);
            },
            None => {
            },
        }
    }

    /// Pauses the active working record at `now` and persists it; already
    /// paused or done records, and an absent one, stay as they are.
    pub fn begin_pause_at(&mut self, now: u64)
        requires
            old(self).inv(),
            now <= MAX_TIMESTAMP,
            now >= old(self).model().active_last_instant(),
        ensures
            final(self).inv(),
            final(self).cfg() == old(self).cfg(),
            final(self).model() == old(self).model().paused(now),
    {
        proof {
            if self.model().active is Some {
                lemma_paused_preserves_inv(self.model().active->Some_0, now);
            }
        }
        match &mut self.active {
            Some(r) => {
                r.begin_pause(now);
            },
            None => {
            },
        }
        self.persist_active();
    }

    /// Resumes the active paused record at `now` and persists it; working
    /// or done records, and an absent one, stay as they are.
    pub fn resume_work_at(&mut self, now: u64)
        requires
            old(self).inv(),
            now <= MAX_TIMESTAMP,
            now >= old(self).model().active_last_instant(),
        ensures
            final(self).inv(),
            final(self).cfg() == old(self).cfg(),
            final(self).model() == old(self).model().resumed(now),
    {
        proof {
            if self.model().active is Some {
                lemma_resumed_preserves_inv(self.model().active->Some_0, now);
            }
        }
        match &mut self.active {
            Some(r) => {
                r.resume_work(now);
            },
            None => {
            },
        }
        self.persist_active();
    }

    /// Stops the active record at `now` and persists it; stopping again,
    /// or without an active record, changes nothing.
    pub fn stop_at(&mut self, now: u64)
        requires
            old(self).inv(),
            now <= MAX_TIMESTAMP,
            now >= old(self).model().active_last_instant(),
        ensures
            final(self).inv(),
            final(self).cfg() == old(self).cfg(),
            final(self).model() == old(self).model().stopped(now),
    {
        proof {
            if self.model().active is Some {
                lemma_stopped_preserves_inv(self.model().active->Some_0, now);
            }
        }
        match &mut self.active {
            Some(r) => {
                r.stop(now);
            },
            None => {
            },
        }
        self.persist_active();
    }

    /// Starts work on `project` at `now` with the fresh id `id`: the
    /// active record resumes if it already tracks that project and is not
    /// done; otherwise it is stopped and a fresh record begins. Both the
    /// stopped and the fresh record are persisted.
    pub fn start_working_on_at(&mut self, project: &str, id: String, now: u64)
        requires
            old(self).inv(),
            now <= MAX_TIMESTAMP,
            now >= old(self).model().active_last_instant(),
        ensures
            final(self).inv(),
            final(self).cfg() == old(self).cfg(),
            final(self).model() == old(self).model().start_working_on(project@, id@, now),
    {
        let same = match &self.active {
            Some(r) => {
                let name_matches = crate::strutil::str_eq(r.name.as_str(), project);
                let done = matches!(r.state, crate::model::ProjectState::Done);
                name_matches && !done
            },
            None => false,
        };
        if same {
            self.resume_work_at(now);
            return ;
        }
        if self.active.is_some() {
            self.stop_at(now);
        }
        proof {
            lemma_started_inv(id@, project@, now);
        }
        let record = WorkRecord::new_started(id, String::from_str(project), now);
        self.active = Some(record);
        self.persist_active();
    }

    /// One classified window title at `now`: undoes a previous auto-pause
    /// if auto-resume is configured, then starts work on the matching
    /// project — the last matching project in declaration order wins — or
    /// begins an auto-pause on a break window; an unmatched title changes
    /// nothing.
    pub fn on_window_title_changed_at(&mut self, title: &str, id: String, now: u64)
        requires
            old(self).inv(),
            now <= MAX_TIMESTAMP,
            now >= old(self).model().active_last_instant(),
        ensures
            final(self).inv(),
            final(self).cfg() == old(self).cfg(),
            final(self).model() == old(self).model().on_title(old(self).cfg(), title@, id@, now),
    {
        if self.auto_break && self.config.breaks.auto_resume {
            proof {
                if self.model().active is Some {
                    lemma_resumed_preserves_inv(self.model().active->Some_0, now);
                }
            }
            self.resume_work_at(now);
        }
        self.auto_break = false;
        let found = find_matching_project(&self.config.projects, title);
        match found {
            Some(pi) => {
                let name = self.config.projects[pi].name.clone();
                proof {
                    if self.model().active is Some {
                        lemma_resumed_preserves_inv(self.model().active->Some_0, now);
                    }
                }
                self.start_working_on_at(name.as_str(), id, now);
            },
            None => {
                let brk = is_break_exec(&self.config.breaks.windows, title);
                if brk && self.active.is_some() {
                    proof {
                        if self.model().active is Some {
                            lemma_paused_preserves_inv(self.model().active->Some_0, now);
                        }
                    }
                    self.begin_pause_at(now);
                    self.auto_break = true;
                }
            },
        }
    }

    /// The report over the records of the week keyed `week`, as the report
    /// engine computes it from this tracker's store and configuration.
    pub fn generate_report(&self, week: u64, now: u64) -> (r: Result<Report, ConfigError>)
        requires
            self.inv(),
            records_ok(stored_week(self.model().store, week), now),
            grand_total(self.cfg(), stored_week(self.model().store, week), now) <= u64::MAX as int,
        ensures
            match r {
                Result::Ok(rep) => {
                    &&& forall|l: int|
                        0 <= l < stored_week(self.model().store, week).len() ==> !record_bad(
                            self.cfg(),
                            #[trigger] stored_week(self.model().store, week)[l],
                        )
                    &&& report_rows_ok(rep, self.cfg(), stored_week(self.model().store, week), now)
                },
                Result::Err(e) => exists|i: int|
                    {
                        &&& 0 <= i < stored_week(self.model().store, week).len()
                        &&& record_bad(
                            self.cfg(),
                            #[trigger] stored_week(self.model().store, week)[i],
                        )
                        &&& forall|l: int|
                            0 <= l < i ==> !record_bad(
                                self.cfg(),
                                #[trigger] stored_week(self.model().store, week)[l],
                            )
                        &&& e.project@ == stored_week(self.model().store, week)[i].name
                        &&& e.kind == record_error_kind(
                            self.cfg(),
                            stored_week(self.model().store, week)[i],
                        )
                    },
            },
    {
        let records = self.repo.find_week(week);
        Report::new_pct(&records, &self.config, now)
    }

    /// The current clock reading, clamped into the usable range and never
    /// before the active record's last instant.
    fn clock_now(&self) -> (r: u64)
        requires
            self.inv(),
        ensures
            self.model().active_last_instant() <= r <= MAX_TIMESTAMP,
    {
        let t: i64 = now_timestamp();
        let mut now: u64 = if t < 0 {
            0
        } else {
            t as u64
        };
        if now > MAX_TIMESTAMP {
            now = MAX_TIMESTAMP;
        }
        let floor: u64 = self.active_last_instant_exec();
        if now < floor {
            now = floor;
        }
        now
    }

    /// Pauses the active record at the current clock time.
    pub fn begin_pause(&mut self)
        requires
            old(self).inv(),
        ensures
            final(self).inv(),
            final(self).cfg() == old(self).cfg(),
            exists|now: u64|
                now <= MAX_TIMESTAMP && final(self).model() == old(self).model().paused(now),
    {
        let now = self.clock_now();
        self.begin_pause_at(now);
    }

    /// Resumes the active record at the current clock time.
    pub fn resume_work(&mut self)
        requires
            old(self).inv(),
        ensures
            final(self).inv(),
            final(self).cfg() == old(self).cfg(),
            exists|now: u64|
                now <= MAX_TIMESTAMP && final(self).model() == old(self).model().resumed(now),
    {
        let now = self.clock_now();
        self.resume_work_at(now);
    }

    /// Stops the active record at the current clock time.
    pub fn stop(&mut self)
        requires
            old(self).inv(),
        ensures
            final(self).inv(),
            final(self).cfg() == old(self).cfg(),
            exists|now: u64|
                now <= MAX_TIMESTAMP && final(self).model() == old(self).model().stopped(now),
    {
        let now = self.clock_now();
        self.stop_at(now);
    }

    /// Starts work on `project` at the current clock time, under a fresh
    /// record id.
    pub fn start_working_on(&mut self, project: &str)
        requires
            old(self).inv(),
        ensures
            final(self).inv(),
            final(self).cfg() == old(self).cfg(),
            exists|id: Seq<char>, now: u64|
                id.len() == 36 && now <= MAX_TIMESTAMP && final(self).model() == old(
                    self,
                ).model().start_working_on(project@, id, now),
    {
        let now = self.clock_now();
        let id = new_record_id();
        self.start_working_on_at(project, id, now);
    }

    /// Classifies a window title at the current clock time, under a fresh
    /// record id for the case that a new record begins.
    pub fn on_window_title_changed(&mut self, title: &str)
        requires
            old(self).inv(),
        ensures
            final(self).inv(),
            final(self).cfg() == old(self).cfg(),
            exists|id: Seq<char>, now: u64|
                id.len() == 36 && now <= MAX_TIMESTAMP && final(self).model() == old(
                    self,
                ).model().on_title(old(self).cfg(), title@, id, now),
    {
        let now = self.clock_now();
        let id = new_record_id();
        self.on_window_title_changed_at(title, id, now);
    }
}

/// Whether some window prefix of the project matches the title.
fn project_matches_exec(p: &ProjectConfig, title: &str) -> (r: bool)
    ensures
        r == project_matches(*p, title@),
{
    let n: usize = p.windows.len();
    let mut w: usize = 0;
    while w < n
        invariant
            0 <= w <= n,
            n == p.windows@.len(),
            forall|l: int| 0 <= l < w ==> !ci_prefix_of((#[trigger] p.windows@[l])@, title@),
        decreases n - w,
    {
        if is_ci_prefix(p.windows[w].as_str(), title) {
            return true;
        }
        w = w + 1;
    }
    false
}

/// The position of the last project matching the title, if any.
fn find_matching_project(projects: &Vec<ProjectConfig>, title: &str) -> (r: Option<usize>)
    ensures
        match r {
            Some(pi) => pi < projects@.len() && matching_project(projects@, title@) == Some(
                projects@[pi as int],
            ),
            None => matching_project(projects@, title@) is None,
        },
{
    let mut j: usize = projects.len();
    proof {
        assert(projects@.take(projects@.len() as int) =~= projects@);
    }
    while j > 0
        invariant
            0 <= j <= projects@.len(),
            matching_project(projects@, title@) == matching_project(
                projects@.take(j as int),
                title@,
            ),
        decreases j,
    {
        proof {
            assert(projects@.take(j as int).drop_last() =~= projects@.take(j - 1));
            assert(projects@.take(j as int).last() == projects@[j - 1]);
        }
        if project_matches_exec(&projects[j - 1], title) {
            return Some(j - 1);
        }
        j = j - 1;
    }
    proof {
        assert(projects@.take(0) =~= Seq::<ProjectConfig>::empty());
    }
    None
}

/// Whether the title names a configured break window.
fn is_break_exec(windows: &Vec<String>, title: &str) -> (r: bool)
    ensures
        r == is_break_title(windows@, title@),
{
    let n: usize = windows.len();
    let mut w: usize = 0;
    while w < n
        invariant
            0 <= w <= n,
            n == windows@.len(),
            forall|l: int| 0 <= l < w ==> !ci_prefix_of((#[trigger] windows@[l])@, title@),
        decreases n - w,
    {
        if is_ci_prefix(windows[w].as_str(), title) {
            return true;
        }
        w = w + 1;
    }
    false
}

/// An unmatched title never changes the session: when no project and no
/// break window matches and no auto-pause is pending, classifying the
/// title only confirms that no auto-pause is pending.
pub proof fn lemma_unmatched_title_changes_nothing(
    m: TrackerModel,
    cfg: AppConfig,
    title: Seq<char>,
    id: Seq<char>,
    now: u64,
)
    requires
        matching_project(cfg.projects@, title) is None,
        !is_break_title(cfg.breaks.windows@, title),
        !(m.auto_break && cfg.breaks.auto_resume),
    ensures
        m.on_title(cfg, title, id, now) == (TrackerModel { auto_break: false, ..m }),
{
}

/// Relies on chrono's `Utc::now`: the current wall-clock time as seconds
/// since the Unix epoch. Nothing is assumed of the value.
#[verifier::external_body]
fn now_timestamp() -> i64 {
    chrono::Utc::now().timestamp()
}

/// Relies on `uuid::Uuid::new_v4` and its `Display` impl: a fresh random
/// version-4 id, rendered in the hyphenated format of 36 characters.
#[verifier::external_body]
fn new_record_id() -> (r: String)
    ensures
        r@.len() == 36,
{
    uuid::Uuid::new_v4().to_string()
}

} // verus!
