use track_work::config::{validate, AppConfig, BreakConfig, Client, LoggingConfig, ProjectClient,
    ProjectConfig, RATIO_UNIT};
use track_work::list::StatefulList;
use track_work::model::{ProjectState, WorkRecord};
use track_work::monitor::ChangeMonitor;
use track_work::report::{ConfigErrorKind, Report};
use track_work::session::Tracker;
use track_work::store::WorkRecordRepository;
use track_work::week::week_key_of_secs;

fn client(name: &str, psp: &str) -> Client {
    Client { name: name.to_string(), data: vec![("psp".to_string(), psp.to_string())] }
}

fn project(name: &str, windows: Vec<&str>, clients: Vec<(&str, u32)>) -> ProjectConfig {
    let mut window_names: Vec<String> = Vec::new();
    for w in windows {
        window_names.push(w.to_string());
    }
    let mut project_clients: Vec<ProjectClient> = Vec::new();
    for (n, ratio_ppm) in clients {
        project_clients.push(ProjectClient { name: n.to_string(), ratio_ppm });
    }
    ProjectConfig { name: name.to_string(), windows: window_names, clients: project_clients }
}

fn config(projects: Vec<ProjectConfig>, clients: Vec<Client>, breaks: Vec<&str>, auto_resume: bool) -> AppConfig {
    let mut break_windows: Vec<String> = Vec::new();
    for w in breaks {
        break_windows.push(w.to_string());
    }
    AppConfig {
        projects,
        clients,
        logging: LoggingConfig { window_change: false },
        breaks: BreakConfig { windows: break_windows, auto_resume },
    }
}

fn record(id: &str, name: &str, start: u64) -> WorkRecord {
    WorkRecord::new_started(id.to_string(), name.to_string(), start)
}

fn row_values(report: &Report) -> Vec<(usize, String, String)> {
    let mut out: Vec<(usize, String, String)> = Vec::new();
    let mut i = 0;
    while i < report.rows.len() {
        let cells = &report.rows[i].cells;
        if cells.len() == 2 {
            out.push((i, cells[0].value.clone(), cells[1].value.clone()));
        } else {
            out.push((i, String::new(), String::new()));
        }
        i += 1;
    }
    out
}

#[test]
fn validate_accepts_and_rejects() {
    let good = config(
        vec![project("Eng", vec![], vec![("A", RATIO_UNIT)])],
        vec![client("A", "IT.1"), client("B", "IT.2")],
        vec![],
        false,
    );
    assert!(validate(&good));
    // a project client that no configured client resolves is rejected
    let dangling = config(
        vec![project("Eng", vec![], vec![("Ghost", RATIO_UNIT)])],
        vec![client("A", "IT.1")],
        vec![],
        false,
    );
    assert!(!validate(&dangling));
    // two clients sharing a billing code are rejected
    let duplicated = config(
        vec![],
        vec![client("A", "IT.1"), client("B", "IT.1")],
        vec![],
        false,
    );
    assert!(!validate(&duplicated));
    // a client without billing data cannot be billed against
    let no_psp = config(
        vec![project("Eng", vec![], vec![("A", RATIO_UNIT)])],
        vec![Client { name: "A".to_string(), data: Vec::new() }],
        vec![],
        false,
    );
    assert!(!no_psp.clients[0].data.iter().any(|d| d.0 == "psp"));
    assert!(!validate(&no_psp));
}

#[test]
fn report_splits_time_by_ratio() {
    // project Eng billed 3/4 to A and 1/4 to B, with 120 productive minutes
    let cfg = config(
        vec![project("Eng", vec![], vec![("A", 750000), ("B", 250000)])],
        vec![client("A", "A"), client("B", "B")],
        vec![],
        false,
    );
    assert!(validate(&cfg));
    let mut rec = record("id-1", "Eng", 1000);
    rec.stop(1000 + 120 * 60);
    let report = Report::new_pct(&vec![rec], &cfg, 20000).expect("the ratios sum to the whole");
    let rows = row_values(&report);
    assert_eq!(rows.len(), 4);
    assert_eq!(rows[0].1, "A");
    assert_eq!(rows[0].2, "1.50h");
    assert_eq!(rows[1].1, "B");
    assert_eq!(rows[1].2, "0.50h");
    assert_eq!(report.rows[2].cells.len(), 0);
    assert_eq!(rows[3].1, "Total");
    assert_eq!(rows[3].2, "2.00h");
}

#[test]
fn report_rejects_ratios_that_do_not_sum_up() {
    let cfg = config(
        vec![project("Eng", vec![], vec![("A", 500000), ("B", 400000)])],
        vec![client("A", "A"), client("B", "B")],
        vec![],
        false,
    );
    assert!(validate(&cfg));
    let rec = record("id-1", "Eng", 1000);
    let result = Report::new_pct(&vec![rec], &cfg, 20000);
    let err = result.err().expect("the ratios sum to 0.9, not 1.0");
    assert_eq!(err.project, "Eng");
    assert!(matches!(err.kind, ConfigErrorKind::RatioSum));
}

#[test]
fn report_rejects_a_project_without_clients() {
    let cfg = config(
        vec![project("Eng", vec![], vec![])],
        vec![client("A", "A")],
        vec![],
        false,
    );
    let rec = record("id-1", "Eng", 1000);
    let err = Report::new_pct(&vec![rec], &cfg, 20000).err().expect("no clients configured");
    assert_eq!(err.project, "Eng");
    assert!(matches!(err.kind, ConfigErrorKind::NoClients));
    // a record for an unknown project fails the same way
    let stray = record("id-2", "Unknown", 1000);
    let err2 = Report::new_pct(&vec![stray], &cfg, 20000).err().expect("unknown project");
    assert_eq!(err2.project, "Unknown");
    assert!(matches!(err2.kind, ConfigErrorKind::NoClients));
}

#[test]
fn report_lists_every_code_in_configuration_order() {
    // codes appear in configuration order, zero rows included
    let cfg = config(
        vec![project("Eng", vec![], vec![("B", RATIO_UNIT)])],
        vec![client("A", "IT.1"), client("B", "IT.2"), client("C", "IT.3")],
        vec![],
        false,
    );
    let mut rec = record("id-1", "Eng", 1000);
    rec.stop(1000 + 3600);
    let report = Report::new_pct(&vec![rec], &cfg, 20000).expect("valid configuration");
    let rows = row_values(&report);
    assert_eq!(rows.len(), 5);
    assert_eq!(rows[0].1, "IT.1");
    assert_eq!(rows[0].2, "0.00h");
    assert_eq!(rows[1].1, "IT.2");
    assert_eq!(rows[1].2, "1.00h");
    assert_eq!(rows[2].1, "IT.3");
    assert_eq!(rows[2].2, "0.00h");
    assert_eq!(rows[4].1, "Total");
    assert_eq!(rows[4].2, "1.00h");
}

#[test]
fn tracker_drives_the_session() {
    let cfg = config(
        vec![project("Eng", vec![], vec![("A", RATIO_UNIT)])],
        vec![client("A", "A")],
        vec![],
        false,
    );
    assert!(validate(&cfg));
    let mut tracker = Tracker::new(cfg, WorkRecordRepository::new());
    assert!(tracker.active_record().is_none());
    tracker.start_working_on_at("Eng", "id-1".to_string(), 1000);
    let active = tracker.active_record().expect("a session began");
    assert_eq!(active.name, "Eng");
    assert!(matches!(active.state, ProjectState::Working));
    // pausing and resuming persist at once
    tracker.begin_pause_at(1200);
    assert!(matches!(tracker.active_record().unwrap().state, ProjectState::Paused));
    tracker.resume_work_at(1300);
    assert!(matches!(tracker.active_record().unwrap().state, ProjectState::Working));
    // starting the same project while paused resumes instead of replacing
    tracker.begin_pause_at(1400);
    tracker.start_working_on_at("Eng", "id-ignored".to_string(), 1500);
    let resumed = tracker.active_record().unwrap();
    assert_eq!(resumed.id, "id-1");
    assert!(matches!(resumed.state, ProjectState::Working));
    // switching projects stops the old record and persists both
    tracker.start_working_on_at("Docs", "id-2".to_string(), 2000);
    let switched = tracker.active_record().unwrap();
    assert_eq!(switched.id, "id-2");
    let week = week_key_of_secs(1000);
    let records = tracker.find_week(week);
    assert_eq!(records.len(), 2);
    let old = tracker.find_week(week).into_iter().find(|r| r.id == "id-1").unwrap();
    assert!(matches!(old.state, ProjectState::Done));
    assert_eq!(old.end, Some(2000));
}

#[test]
fn tracker_generates_the_report_from_its_store() {
    let cfg = config(
        vec![project("Eng", vec![], vec![("A", RATIO_UNIT)])],
        vec![client("A", "IT.9")],
        vec![],
        false,
    );
    let mut tracker = Tracker::new(cfg, WorkRecordRepository::new());
    tracker.start_working_on_at("Eng", "id-1".to_string(), 1000);
    tracker.stop_at(1000 + 5400);
    let week = week_key_of_secs(1000);
    let report = tracker.generate_report(week, 10000).expect("valid configuration");
    let rows = row_values(&report);
    assert_eq!(rows[0].1, "IT.9");
    assert_eq!(rows[0].2, "1.50h");
    assert_eq!(rows[2].1, "Total");
}

#[test]
fn classifier_picks_the_last_matching_project() {
    // both projects match; the later declaration wins
    let cfg = config(
        vec![
            project("First", vec!["Visual Studio"], vec![]),
            project("Second", vec!["Visual Studio Code"], vec![]),
        ],
        vec![],
        vec![],
        false,
    );
    let mut tracker = Tracker::new(cfg, WorkRecordRepository::new());
    tracker.on_window_title_changed_at("Visual Studio Code - lib.rs", "id-1".to_string(), 1000);
    assert_eq!(tracker.active_record().unwrap().name, "Second");
}

#[test]
fn classifier_matches_prefixes_case_insensitively() {
    // the configured prefix differs from the title in case; only a real
    // lowercase comparison lets it match
    let cfg = config(
        vec![project("Xorcery", vec!["windows powershell"], vec![])],
        vec![],
        vec![],
        false,
    );
    let mut tracker = Tracker::new(cfg, WorkRecordRepository::new());
    tracker.on_window_title_changed_at("Windows PowerShell - foo", "id-1".to_string(), 1000);
    assert_eq!(tracker.active_record().unwrap().name, "Xorcery");
    // an unmatched title changes nothing
    tracker.on_window_title_changed_at("unrelated window", "id-2".to_string(), 1100);
    let still = tracker.active_record().unwrap();
    assert_eq!(still.name, "Xorcery");
    assert_eq!(still.id, "id-1");
    assert!(matches!(still.state, ProjectState::Working));
}

#[test]
fn classifier_auto_breaks_and_resumes() {
    let cfg = config(
        vec![project("Eng", vec!["editor"], vec![])],
        vec![],
        vec!["lock screen"],
        true,
    );
    let mut tracker = Tracker::new(cfg, WorkRecordRepository::new());
    tracker.on_window_title_changed_at("editor - main.rs", "id-1".to_string(), 1000);
    assert!(matches!(tracker.active_record().unwrap().state, ProjectState::Working));
    // the lock screen pauses automatically
    tracker.on_window_title_changed_at("Lock Screen", "id-2".to_string(), 2000);
    assert!(matches!(tracker.active_record().unwrap().state, ProjectState::Paused));
    // any other title resumes, because auto-resume is configured
    tracker.on_window_title_changed_at("something else entirely", "id-3".to_string(), 3000);
    let resumed = tracker.active_record().unwrap();
    assert_eq!(resumed.id, "id-1");
    assert!(matches!(resumed.state, ProjectState::Working));
}

#[test]
fn debounce_reports_a_stable_title_exactly_once() {
    let threshold = 100;
    let mut monitor = ChangeMonitor::new(String::new(), threshold, 0);
    // the title oscillates faster than the threshold: nothing is reported
    monitor.set("Windows PowerShell - foo".to_string(), 10);
    assert_eq!(monitor.poll(20), None);
    monitor.set("other".to_string(), 30);
    assert_eq!(monitor.poll(40), None);
    monitor.set("Windows PowerShell - foo".to_string(), 50);
    assert_eq!(monitor.poll(60), None);
    assert_eq!(monitor.poll(149), None);
    // once stable for the threshold, it is reported exactly once
    let reported = monitor.poll(150).expect("stable for the threshold");
    assert_eq!(reported, "Windows PowerShell - foo");
    assert_eq!(monitor.poll(151), None);
    assert_eq!(monitor.poll(10000), None);
    // an unchanged sample does not re-arm the filter
    monitor.set("Windows PowerShell - foo".to_string(), 10010);
    assert_eq!(monitor.poll(10200), None);
}

#[test]
fn debounced_title_starts_exactly_one_session() {
    // the debounce filter and the classifier together: an oscillating title
    // leads to exactly one session start once it has settled
    let cfg = config(
        vec![project("Xorcery", vec!["Windows PowerShell"], vec![])],
        vec![],
        vec![],
        false,
    );
    let mut tracker = Tracker::new(cfg, WorkRecordRepository::new());
    let mut monitor = ChangeMonitor::new(String::new(), 100, 0);
    let samples: Vec<(u64, &str)> = vec![
        (10, "Windows PowerShell - foo"),
        (30, "flicker"),
        (50, "Windows PowerShell - foo"),
        (60, "Windows PowerShell - foo"),
        (150, "Windows PowerShell - foo"),
        (200, "Windows PowerShell - foo"),
    ];
    let mut starts = 0;
    for (t, title) in samples {
        monitor.set(title.to_string(), t);
        if let Some(reported) = monitor.poll(t) {
            tracker.on_window_title_changed_at(&reported, format!("id-{}", t), t);
            starts += 1;
        }
    }
    assert_eq!(starts, 1);
    let active = tracker.active_record().expect("one session began");
    assert_eq!(active.name, "Xorcery");
    assert_eq!(active.id, "id-150");
    let records = tracker.find_week(week_key_of_secs(150));
    assert_eq!(records.len(), 1);
}

#[test]
fn fresh_ids_come_from_the_clock_path() {
    // the convenience operations draw the id and the clock themselves
    let cfg = config(
        vec![project("Eng", vec![], vec![("A", RATIO_UNIT)])],
        vec![client("A", "A")],
        vec![],
        false,
    );
    let mut tracker = Tracker::new(cfg, WorkRecordRepository::new());
    tracker.start_working_on("Eng");
    let active = tracker.active_record().expect("a session began");
    assert_eq!(active.id.len(), 36);
    assert!(matches!(active.state, ProjectState::Working));
    tracker.begin_pause();
    assert!(matches!(tracker.active_record().unwrap().state, ProjectState::Paused));
    tracker.resume_work();
    assert!(matches!(tracker.active_record().unwrap().state, ProjectState::Working));
    tracker.stop();
    assert!(matches!(tracker.active_record().unwrap().state, ProjectState::Done));
}

#[test]
fn load_previous_restores_the_latest_record() {
    let cfg = config(vec![], vec![], vec![], false);
    let mut repo = WorkRecordRepository::new();
    repo.persist(record("id-a", "Eng", 86400));
    repo.persist(record("id-b", "Docs", 90000));
    let mut tracker = Tracker::new(cfg, repo);
    tracker.load_previous();
    let active = tracker.active_record().expect("records were stored");
    assert_eq!(active.id, "id-b");
    assert_eq!(active.name, "Docs");
}

#[test]
fn test_previous_next() {
    let mut list = StatefulList::with_items(vec![
        "a".to_string(),
        "b".to_string(),
        "c".to_string(),
    ]);

    assert_eq!(list.get_selected(), Some(&"a".to_string()));
    list.next();
    assert_eq!(list.get_selected(), Some(&"b".to_string()));
    list.next();
    assert_eq!(list.get_selected(), Some(&"c".to_string()));
    list.next();
    assert_eq!(list.get_selected(), Some(&"a".to_string()));
    list.previous();
    assert_eq!(list.get_selected(), Some(&"c".to_string()));
    list.previous();
    assert_eq!(list.get_selected(), Some(&"b".to_string()));
    list.previous();
    assert_eq!(list.get_selected(), Some(&"a".to_string()));
}

#[test]
fn test_empty_list() {
    let mut list: StatefulList = StatefulList::with_items(vec![]);

    assert_eq!(list.get_selected(), None);
    list.next();
    assert_eq!(list.get_selected(), None);
    list.previous();
    assert_eq!(list.get_selected(), None);
}

#[test]
fn filtering_keeps_matching_items_and_the_selection() {
    let mut list = StatefulList::with_items(vec![
        "alpha".to_string(),
        "beta".to_string(),
        "alps".to_string(),
    ]);
    list.next();
    assert_eq!(list.get_selected(), Some(&"beta".to_string()));
    // a filter nothing matches empties the view and drops the selection
    list.set_filter("zzz".to_string());
    assert_eq!(list.items_filtered().len(), 0);
    // a fuzzy filter keeps the matching items in order
    list.set_filter("alp".to_string());
    assert_eq!(list.items_filtered(), &vec!["alpha".to_string(), "alps".to_string()]);
    // an empty filter keeps everything
    list.set_filter(String::new());
    assert_eq!(list.items_filtered().len(), 3);
}
