//! The report engine: billable hundredths of hours per billing code over a
//! set of work records, split across each project's clients by their
//! fixed-point ratios, with one row per billing code in configuration
//! order, a separator row, and a total row.
//!
//! A fraction of an hour is rounded half-up to hundredths.

use vstd::prelude::*;

use crate::config::billing_code_list;
use crate::config::billing_codes;
use crate::config::code_views;
use crate::config::find_client_psp;
use crate::config::project_clients_of;
use crate::config::psp_of_client;
use crate::config::psp_of_name;
use crate::config::ratio_sum;
use crate::config::AppConfig;
use crate::config::Client;
use crate::config::ProjectClient;
use crate::config::ProjectConfig;
use crate::config::RATIO_UNIT;
use crate::fmt::format_centi_hours;
use crate::fmt::hours_label;
use crate::model::total_duration;
use crate::model::RecordModel;
use crate::model::WorkRecord;
use crate::store::models;
use crate::strutil::str_eq;

verus! {

/// One cell of a report row.
#[derive(Debug, Clone)]
pub struct RowCell {
    pub title: String,
    pub value: String,
}

/// One report row; the separator row has no cells.
#[derive(Debug, Clone)]
pub struct Row {
    pub cells: Vec<RowCell>,
}

/// The finished report.
#[derive(Debug, Clone)]
pub struct Report {
    pub rows: Vec<Row>,
}

/// What a configuration error complains about.
#[derive(PartialEq, Eq, Structural, Clone, Copy, Debug)]
pub enum ConfigErrorKind {
    /// The record's project has no billing clients configured.
    NoClients,
    /// The ratios of the project's clients do not sum to the whole.
    RatioSum,
}

/// A configuration error, naming the offending project.
#[derive(Debug, Clone)]
pub struct ConfigError {
    pub project: String,
    pub kind: ConfigErrorKind,
}

/// The whole productive minutes of a record at time `now`.
pub open spec fn record_minutes(r: RecordModel, now: u64) -> int {
    total_duration(r.segments, now) / 60
}

/// What one project client contributes to the code `code`, in
/// ratio-units times minutes: its ratio times the minutes when its client
/// carries that billing code, nothing otherwise.
pub open spec fn pc_contrib(
    clients: Seq<Client>,
    pc: ProjectClient,
    code: Seq<char>,
    minutes: int,
) -> int {
    if psp_of_name(clients, pc.name@) == Some(code) {
        pc.ratio_ppm * minutes
    } else {
        0
    }
}

/// What a project-client list contributes to the code `code`.
pub open spec fn clients_contrib(
    clients: Seq<Client>,
    pcs: Seq<ProjectClient>,
    code: Seq<char>,
    minutes: int,
) -> int
    decreases pcs.len(),
{
    if pcs.len() == 0 {
        0
    } else {
        clients_contrib(clients, pcs.drop_last(), code, minutes) + pc_contrib(
            clients,
            pcs.last(),
            code,
            minutes,
        )
    }
}

/// What one record contributes to the code `code`.
pub open spec fn record_contrib(cfg: AppConfig, r: RecordModel, code: Seq<char>, now: u64) -> int {
    clients_contrib(
        cfg.clients@,
        project_clients_of(cfg.projects@, r.name),
        code,
        record_minutes(r, now),
    )
}

/// What a week's records contribute to the code `code`.
pub open spec fn week_total(cfg: AppConfig, ms: Seq<RecordModel>, code: Seq<char>, now: u64) -> int
    decreases ms.len(),
{
    if ms.len() == 0 {
        0
    } else {
        week_total(cfg, ms.drop_last(), code, now) + record_contrib(cfg, ms.last(), code, now)
    }
}

/// The sum of the week totals of the given codes.
pub open spec fn codes_total(
    cfg: AppConfig,
    ms: Seq<RecordModel>,
    codes: Seq<Seq<char>>,
    now: u64,
) -> int
    decreases codes.len(),
{
    if codes.len() == 0 {
        0
    } else {
        codes_total(cfg, ms, codes.drop_last(), now) + week_total(cfg, ms, codes.last(), now)
    }
}

/// The sum of the week totals over all configured billing codes.
pub open spec fn grand_total(cfg: AppConfig, ms: Seq<RecordModel>, now: u64) -> int {
    codes_total(cfg, ms, billing_codes(cfg.clients@), now)
}

/// Whether this record makes the report fail: its project has no billing
/// clients, or their ratios do not sum to the whole.
pub open spec fn record_bad(cfg: AppConfig, r: RecordModel) -> bool {
    ||| project_clients_of(cfg.projects@, r.name).len() == 0
    ||| ratio_sum(project_clients_of(cfg.projects@, r.name)) != RATIO_UNIT
}

/// The error kind the record provokes: an empty client list is reported
/// ahead of a bad ratio sum.
pub open spec fn record_error_kind(cfg: AppConfig, r: RecordModel) -> ConfigErrorKind {
    if project_clients_of(cfg.projects@, r.name).len() == 0 {
        ConfigErrorKind::NoClients
    } else {
        ConfigErrorKind::RatioSum
    }
}

/// What the records must satisfy for durations to be meaningful: each is a
/// well-formed record, and none that is still running started after `now`.
pub open spec fn records_ok(ms: Seq<RecordModel>, now: u64) -> bool {
    forall|i: int|
        0 <= i < ms.len() ==> (#[trigger] ms[i]).inv() && (ms[i].state is Done || now
            >= ms[i].last_instant())
}

/// Hundredths of hours from ratio-units times minutes, rounded half-up:
/// an hour is 60 minutes of `RATIO_UNIT` ratio-units each.
pub open spec fn hours_centi(units_minutes: int) -> int {
    (units_minutes + 300000) / 600000
}

/// The position of the last project named `name`, whose client list is
/// what `project_clients_of` denotes.
fn find_project(projects: &Vec<ProjectConfig>, name: &str) -> (r: Option<usize>)
    ensures
        match r {
            Some(i) => i < projects@.len() && projects@[i as int].name@ == name@
                && project_clients_of(projects@, name@) == projects@[i as int].clients@,
            None => project_clients_of(projects@, name@) == Seq::<ProjectClient>::empty(),
        },
{
    let mut j: usize = projects.len();
    proof {
        assert(projects@.take(projects@.len() as int) =~= projects@);
    }
    while j > 0
        invariant
            0 <= j <= projects@.len(),
            project_clients_of(projects@, name@) == project_clients_of(
                projects@.take(j as int),
                name@,
            ),
        decreases j,
    {
        proof {
            assert(projects@.take(j as int).drop_last() =~= projects@.take(j - 1));
            assert(projects@.take(j as int).last() == projects@[j - 1]);
        }
        if str_eq(projects[j - 1].name.as_str(), name) {
            return Some(j - 1);
        }
        j = j - 1;
    }
    proof {
        assert(projects@.take(0) =~= Seq::<ProjectConfig>::empty());
    }
    None
}

/// Whether the ratios of `pcs` sum to exactly the whole.
fn ratio_sum_is_unit(pcs: &Vec<ProjectClient>) -> (r: bool)
    ensures
        r == (ratio_sum(pcs@) == RATIO_UNIT),
{
    let n: usize = pcs.len();
    let mut sum: u64 = 0;
    let mut j: usize = 0;
    while j < n
        invariant
            0 <= j <= n,
            n == pcs@.len(),
            sum == ratio_sum(pcs@.take(j as int)),
            sum <= RATIO_UNIT,
        decreases n - j,
    {
        proof {
            assert(pcs@.take(j + 1).drop_last() =~= pcs@.take(j as int));
            assert(pcs@.take(j + 1).last() == pcs@[j as int]);
        }
        let next: u64 = sum + pcs[j].ratio_ppm as u64;
        if next > RATIO_UNIT as u64 {
            proof {
                lemma_ratio_sum_prefix_le(pcs@, j + 1);
            }
            return false;
        }
        sum = next;
        j = j + 1;
    }
    proof {
        assert(pcs@.take(n as int) =~= pcs@);
    }
    sum == RATIO_UNIT as u64
}

/// Ratio sums only grow along a prefix: every prefix sum bounds below the
/// whole sum.
proof fn lemma_ratio_sum_prefix_le(pcs: Seq<ProjectClient>, j: int)
    requires
        0 <= j <= pcs.len(),
    ensures
        ratio_sum(pcs.take(j)) <= ratio_sum(pcs),
    decreases pcs.len() - j,
{
    if j == pcs.len() {
        assert(pcs.take(j) =~= pcs);
    } else {
        lemma_ratio_sum_prefix_le(pcs, j + 1);
        assert(pcs.take(j + 1).drop_last() =~= pcs.take(j));
        assert(pcs.take(j + 1).last() == pcs[j]);
    }
}

/// A well-formed record has a non-negative number of minutes.
pub proof fn lemma_minutes_nonneg(r: RecordModel, now: u64)
    requires
        r.inv(),
        r.state is Done || now >= r.last_instant(),
    ensures
        record_minutes(r, now) >= 0,
{
    crate::model::lemma_total_duration_bounds(r.segments, now);
}

/// A single client's contribution is never negative.
proof fn lemma_pc_contrib_nonneg(clients: Seq<Client>, pc: ProjectClient, code: Seq<char>, minutes: int)
    requires
        minutes >= 0,
    ensures
        pc_contrib(clients, pc, code, minutes) >= 0,
{
    assert(pc.ratio_ppm * minutes >= 0) by (nonlinear_arith)
        requires
            minutes >= 0,
            pc.ratio_ppm >= 0,
    ;
}

/// A client list's contribution is never negative.
proof fn lemma_clients_contrib_nonneg(
    clients: Seq<Client>,
    pcs: Seq<ProjectClient>,
    code: Seq<char>,
    minutes: int,
)
    requires
        minutes >= 0,
    ensures
        clients_contrib(clients, pcs, code, minutes) >= 0,
    decreases pcs.len(),
{
    if pcs.len() > 0 {
        lemma_clients_contrib_nonneg(clients, pcs.drop_last(), code, minutes);
        lemma_pc_contrib_nonneg(clients, pcs.last(), code, minutes);
    }
}

/// A prefix of a client list contributes at most what the whole list does.
proof fn lemma_clients_contrib_prefix_le(
    clients: Seq<Client>,
    pcs: Seq<ProjectClient>,
    code: Seq<char>,
    minutes: int,
    j: int,
)
    requires
        minutes >= 0,
        0 <= j <= pcs.len(),
    ensures
        clients_contrib(clients, pcs.take(j), code, minutes) <= clients_contrib(
            clients,
            pcs,
            code,
            minutes,
        ),
    decreases pcs.len() - j,
{
    if j == pcs.len() {
        assert(pcs.take(j) =~= pcs);
    } else {
        lemma_clients_contrib_prefix_le(clients, pcs, code, minutes, j + 1);
        assert(pcs.take(j + 1).drop_last() =~= pcs.take(j));
        assert(pcs.take(j + 1).last() == pcs[j]);
        lemma_pc_contrib_nonneg(clients, pcs[j], code, minutes);
    }
}

/// One record's contribution is never negative.
proof fn lemma_record_contrib_nonneg(cfg: AppConfig, r: RecordModel, code: Seq<char>, now: u64)
    requires
        r.inv(),
        r.state is Done || now >= r.last_instant(),
    ensures
        record_contrib(cfg, r, code, now) >= 0,
{
    lemma_minutes_nonneg(r, now);
    lemma_clients_contrib_nonneg(
        cfg.clients@,
        project_clients_of(cfg.projects@, r.name),
        code,
        record_minutes(r, now),
    );
}

/// A week's total per code is never negative.
proof fn lemma_week_total_nonneg(cfg: AppConfig, ms: Seq<RecordModel>, code: Seq<char>, now: u64)
    requires
        records_ok(ms, now),
    ensures
        week_total(cfg, ms, code, now) >= 0,
    decreases ms.len(),
{
    if ms.len() > 0 {
        assert(forall|i: int|
            0 <= i < ms.drop_last().len() ==> #[trigger] ms.drop_last()[i] == ms[i]);
        lemma_week_total_nonneg(cfg, ms.drop_last(), code, now);
        lemma_record_contrib_nonneg(cfg, ms.last(), code, now);
    }
}

/// A prefix of the records contributes at most what all of them do.
proof fn lemma_week_total_prefix_le(
    cfg: AppConfig,
    ms: Seq<RecordModel>,
    code: Seq<char>,
    now: u64,
    i: int,
)
    requires
        records_ok(ms, now),
        0 <= i <= ms.len(),
    ensures
        week_total(cfg, ms.take(i), code, now) <= week_total(cfg, ms, code, now),
    decreases ms.len() - i,
{
    if i == ms.len() {
        assert(ms.take(i) =~= ms);
    } else {
        lemma_week_total_prefix_le(cfg, ms, code, now, i + 1);
        assert(ms.take(i + 1).drop_last() =~= ms.take(i));
        assert(ms.take(i + 1).last() == ms[i]);
        lemma_record_contrib_nonneg(cfg, ms[i], code, now);
    }
}

/// The sum over some codes is never negative.
proof fn lemma_codes_total_nonneg(
    cfg: AppConfig,
    ms: Seq<RecordModel>,
    codes: Seq<Seq<char>>,
    now: u64,
)
    requires
        records_ok(ms, now),
    ensures
        codes_total(cfg, ms, codes, now) >= 0,
    decreases codes.len(),
{
    if codes.len() > 0 {
        lemma_codes_total_nonneg(cfg, ms, codes.drop_last(), now);
        lemma_week_total_nonneg(cfg, ms, codes.last(), now);
    }
}

/// Each code's week total bounds below the sum over all the codes.
proof fn lemma_week_le_codes_total(
    cfg: AppConfig,
    ms: Seq<RecordModel>,
    codes: Seq<Seq<char>>,
    now: u64,
    k: int,
)
    requires
        records_ok(ms, now),
        0 <= k < codes.len(),
    ensures
        week_total(cfg, ms, codes[k], now) <= codes_total(cfg, ms, codes, now),
    decreases codes.len(),
{
    if k == codes.len() - 1 {
        lemma_codes_total_nonneg(cfg, ms, codes.drop_last(), now);
    } else {
        assert(codes.drop_last()[k] == codes[k]);
        lemma_week_le_codes_total(cfg, ms, codes.drop_last(), now, k);
        lemma_week_total_nonneg(cfg, ms, codes.last(), now);
    }
}

/// A prefix of the codes sums to at most what all of them do.
proof fn lemma_codes_total_prefix_le(
    cfg: AppConfig,
    ms: Seq<RecordModel>,
    codes: Seq<Seq<char>>,
    now: u64,
    k: int,
)
    requires
        records_ok(ms, now),
        0 <= k <= codes.len(),
    ensures
        codes_total(cfg, ms, codes.take(k), now) <= codes_total(cfg, ms, codes, now),
    decreases codes.len() - k,
{
    if k == codes.len() {
        assert(codes.take(k) =~= codes);
    } else {
        lemma_codes_total_prefix_le(cfg, ms, codes, now, k + 1);
        assert(codes.take(k + 1).drop_last() =~= codes.take(k));
        assert(codes.take(k + 1).last() == codes[k]);
        lemma_week_total_nonneg(cfg, ms, codes[k], now);
    }
}

/// The position of `code` in the code list, which must contain it.
fn position_of(codes: &Vec<String>, code: &str) -> (r: usize)
    requires
        exists|l: int| 0 <= l < codes@.len() && (#[trigger] codes@[l])@ == code@,
    ensures
        r < codes@.len() && codes@[r as int]@ == code@,
{
    let n: usize = codes.len();
    let mut i: usize = 0;
    while i < n
        invariant
            0 <= i <= n,
            n == codes@.len(),
            exists|l: int| 0 <= l < codes@.len() && (#[trigger] codes@[l])@ == code@,
            forall|l: int| 0 <= l < i ==> (#[trigger] codes@[l])@ != code@,
        decreases n - i,
    {
        if str_eq(codes[i].as_str(), code) {
            return i;
        }
        i = i + 1;
    }
    proof {
        assert(false);
    }
    vstd::pervasive::unreached()
}

/// What the rows of a successful report say: one row per configured
/// billing code, in configuration order, with the code and its hours; then
/// a separator row without cells; then a total row summing all codes.
pub open spec fn report_rows_ok(
    rep: Report,
    cfg: AppConfig,
    ms: Seq<RecordModel>,
    now: u64,
) -> bool {
    let codes = billing_codes(cfg.clients@);
    &&& rep.rows@.len() == codes.len() + 2
    &&& forall|k: int|
        0 <= k < codes.len() ==> {
            let row = #[trigger] rep.rows@[k];
            &&& row.cells@.len() == 2
            &&& row.cells@[0].title@ == "psp"@
            &&& row.cells@[0].value@ == codes[k]
            &&& row.cells@[1].title@ == "hours"@
            &&& row.cells@[1].value@ == hours_label(
                hours_centi(week_total(cfg, ms, codes[k], now)) as nat,
            )
        }
    &&& rep.rows@[codes.len() as int].cells@.len() == 0
    &&& rep.rows@[codes.len() as int + 1].cells@.len() == 2
    &&& rep.rows@[codes.len() as int + 1].cells@[0].title@ == "Total"@
    &&& rep.rows@[codes.len() as int + 1].cells@[0].value@ == "Total"@
    &&& rep.rows@[codes.len() as int + 1].cells@[1].title@ == "hours"@
    &&& rep.rows@[codes.len() as int + 1].cells@[1].value@ == hours_label(
        hours_centi(grand_total(cfg, ms, now)) as nat,
    )
}

impl Report {
    /// The report over the given records: per billing code, in
    /// configuration order, the productive time of the records, split by
    /// each project's client ratios — then a separator row and a total
    /// row. Fails with a configuration error, naming the first offending
    /// record's project, exactly when some record's project has no billing
    /// clients or their ratios do not sum to the whole.
    #[verifier::loop_isolation(false)]
    pub fn new_pct(records: &Vec<WorkRecord>, cfg: &AppConfig, now: u64) -> (r: Result<
        Report,
        ConfigError,
    >)
        requires
            cfg.wf(),
            records_ok(models(records@), now),
            grand_total(*cfg, models(records@), now) <= u64::MAX as int,
        ensures
            match r {
                Result::Ok(rep) => {
                    &&& forall|l: int|
                        0 <= l < models(records@).len() ==> !record_bad(
                            *cfg,
                            #[trigger] models(records@)[l],
                        )
                    &&& report_rows_ok(rep, *cfg, models(records@), now)
                },
                Result::Err(e) => exists|i: int|
                    {
                        &&& 0 <= i < models(records@).len()
                        &&& record_bad(*cfg, #[trigger] models(records@)[i])
                        &&& forall|l: int|
                            0 <= l < i ==> !record_bad(*cfg, #[trigger] models(records@)[l])
                        &&& e.project@ == models(records@)[i].name
                        &&& e.kind == record_error_kind(*cfg, models(records@)[i])
                    },
            },
    {
        let ghost ms = models(records@);
        let ghost codes_spec = billing_codes(cfg.clients@);
        let codes: Vec<String> = billing_code_list(&cfg.clients);
        let ncodes: usize = codes.len();
        let mut totals: Vec<u64> = Vec::new();
        let mut z: usize = 0;
        while z < ncodes
            invariant
                0 <= z <= ncodes,
                totals@.len() == z,
                forall|k: int| 0 <= k < z ==> totals@[k] == 0,
            decreases ncodes - z,
        {
            totals.push(0);
            z = z + 1;
        }
        let nrec: usize = records.len();
        let mut i: usize = 0;
        proof {
            assert(ms.take(0) =~= Seq::<RecordModel>::empty());
        }
        while i < nrec
            invariant
                0 <= i <= nrec,
                totals@.len() == codes_spec.len(),
                forall|k: int|
                    0 <= k < codes_spec.len() ==> totals@[k] == week_total(
                        *cfg,
                        ms.take(i as int),
                        codes_spec[k],
                        now,
                    ),
                forall|l: int| 0 <= l < i ==> !record_bad(*cfg, #[trigger] ms[l]),
            decreases nrec - i,
        {
            proof {
                assert(ms[i as int] == records@[i as int]@);
            }
            let record = &records[i];
            let found = find_project(&cfg.projects, record.name.as_str());
            let pi: usize = match found {
                None => {
                    return Result::Err(
                        ConfigError {
                            project: record.name.clone(),
                            kind: ConfigErrorKind::NoClients,
                        },
                    );
                },
                Some(pi) => pi,
            };
            let pcs = &cfg.projects[pi].clients;
            if pcs.len() == 0 {
                return Result::Err(
                    ConfigError { project: record.name.clone(), kind: ConfigErrorKind::NoClients },
                );
            }
            if !ratio_sum_is_unit(pcs) {
                return Result::Err(
                    ConfigError { project: record.name.clone(), kind: ConfigErrorKind::RatioSum },
                );
            }
            let dur: u64 = record.calculate_duration(now);
            let minutes: u64 = dur / 60;
            proof {
                assert(minutes as int == record_minutes(ms[i as int], now));
                lemma_minutes_nonneg(ms[i as int], now);
                assert(pcs@.take(0) =~= Seq::<ProjectClient>::empty());
            }
            let npcs: usize = pcs.len();
            let mut j: usize = 0;
            while j < npcs
                invariant
                    0 <= j <= npcs,
                    totals@.len() == codes_spec.len(),
                    forall|k: int|
                        0 <= k < codes_spec.len() ==> totals@[k] == week_total(
                            *cfg,
                            ms.take(i as int),
                            codes_spec[k],
                            now,
                        ) + clients_contrib(
                            cfg.clients@,
                            pcs@.take(j as int),
                            codes_spec[k],
                            minutes as int,
                        ),
                decreases npcs - j,
            {
                let pc = &pcs[j];
                let code = match find_client_psp(&cfg.clients, pc.name.as_str()) {
                    Some(code) => code,
                    None => {
                        proof {
                            assert(psp_of_name(cfg.clients@, cfg.projects@[pi as int].clients@[j as int].name@) is Some);
                            assert(false);
                        }
                        vstd::pervasive::unreached()
                    },
                };
                proof {
                    lemma_resolved_code_is_configured(cfg.clients@, pc.name@, code@);
                    let l = choose|l: int|
                        0 <= l < codes_spec.len() && codes_spec[l] == code@;
                    assert(codes@[l]@ == code@);
                }
                let k0: usize = position_of(&codes, code.as_str());
                let ghost kk = k0 as int;
                proof {
                    // the chain that bounds the new total by the grand total
                    assert(pcs@.take(j + 1).drop_last() =~= pcs@.take(j as int));
                    assert(pcs@.take(j + 1).last() == pcs@[j as int]);
                    lemma_clients_contrib_prefix_le(
                        cfg.clients@,
                        pcs@,
                        codes_spec[kk],
                        minutes as int,
                        j + 1,
                    );
                    assert(ms.take(i + 1).drop_last() =~= ms.take(i as int));
                    assert(ms.take(i + 1).last() == ms[i as int]);
                    assert(records_ok(ms.take(i + 1), now));
                    lemma_week_total_prefix_le(*cfg, ms, codes_spec[kk], now, i + 1);
                    lemma_week_le_codes_total(*cfg, ms, codes_spec, now, kk);
                    lemma_clients_contrib_nonneg(
                        cfg.clients@,
                        pcs@.take(j as int),
                        codes_spec[kk],
                        minutes as int,
                    );
                    lemma_week_total_nonneg(*cfg, ms.take(i as int), codes_spec[kk], now);
                    assert(record_contrib(*cfg, ms[i as int], codes_spec[kk], now)
                        == clients_contrib(
                        cfg.clients@,
                        pcs@,
                        codes_spec[kk],
                        minutes as int,
                    ));
                }
                let term: u64 = (pc.ratio_ppm as u64) * minutes;
                let ghost totals0 = totals@;
                let newv: u64 = totals[k0] + term;
                totals.set(k0, newv);
                proof {
                    assert forall|k: int| 0 <= k < codes_spec.len() implies totals@[k]
                        == week_total(*cfg, ms.take(i as int), codes_spec[k], now)
                        + clients_contrib(
                        cfg.clients@,
                        pcs@.take(j + 1),
                        codes_spec[k],
                        minutes as int,
                    ) by {
                        if k == kk {
                        } else {
                            assert(codes_spec[k] != codes_spec[kk]);
                            assert(pc_contrib(
                                cfg.clients@,
                                pcs@[j as int],
                                codes_spec[k],
                                minutes as int,
                            ) == 0);
                            assert(totals@[k] == totals0[k]);
                        }
                    }
                }
                j = j + 1;
            }
            proof {
                assert(pcs@.take(npcs as int) =~= pcs@);
                assert(ms.take(i + 1).drop_last() =~= ms.take(i as int));
                assert(ms.take(i + 1).last() == ms[i as int]);
            }
            i = i + 1;
        }
        proof {
            assert(ms.take(nrec as int) =~= ms);
        }
        // rows: one per billing code, a separator, and the total
        let mut rows: Vec<Row> = Vec::new();
        let mut k: usize = 0;
        while k < ncodes
            invariant
                0 <= k <= ncodes,
                rows@.len() == k,
                forall|k2: int|
                    0 <= k2 < k ==> {
                        let row = #[trigger] rows@[k2];
                        &&& row.cells@.len() == 2
                        &&& row.cells@[0].title@ == "psp"@
                        &&& row.cells@[0].value@ == codes_spec[k2]
                        &&& row.cells@[1].title@ == "hours"@
                        &&& row.cells@[1].value@ == hours_label(
                            hours_centi(week_total(*cfg, ms, codes_spec[k2], now)) as nat,
                        )
                    },
            decreases ncodes - k,
        {
            proof {
                lemma_week_total_nonneg(*cfg, ms, codes_spec[k as int], now);
            }
            let centi: u64 = (((totals[k] as u128) + 300000) / 600000) as u64;
            let mut cells: Vec<RowCell> = Vec::new();
            cells.push(RowCell { title: String::from_str("psp"), value: codes[k].clone() });
            cells.push(RowCell { title: String::from_str("hours"), value: format_centi_hours(centi) });
            rows.push(Row { cells });
            k = k + 1;
        }
        rows.push(Row { cells: Vec::new() });
        // the total row sums every code's total
        let mut sum: u64 = 0;
        let mut t: usize = 0;
        proof {
            assert(codes_spec.take(0) =~= Seq::<Seq<char>>::empty());
        }
        while t < ncodes
            invariant
                0 <= t <= ncodes,
                sum == codes_total(*cfg, ms, codes_spec.take(t as int), now),
            decreases ncodes - t,
        {
            proof {
                assert(codes_spec.take(t + 1).drop_last() =~= codes_spec.take(t as int));
                assert(codes_spec.take(t + 1).last() == codes_spec[t as int]);
                lemma_codes_total_prefix_le(*cfg, ms, codes_spec, now, t + 1);
                lemma_codes_total_nonneg(*cfg, ms, codes_spec.take(t as int), now);
                lemma_week_total_nonneg(*cfg, ms, codes_spec[t as int], now);
            }
            sum = sum + totals[t];
            t = t + 1;
        }
        proof {
            assert(codes_spec.take(ncodes as int) =~= codes_spec);
            lemma_codes_total_nonneg(*cfg, ms, codes_spec, now);
        }
        let total_centi: u64 = (((sum as u128) + 300000) / 600000) as u64;
        let mut tcells: Vec<RowCell> = Vec::new();
        tcells.push(RowCell { title: String::from_str("Total"), value: String::from_str("Total") });
        tcells.push(
            RowCell { title: String::from_str("hours"), value: format_centi_hours(total_centi) },
        );
        rows.push(Row { cells: tcells });
        Result::Ok(Report { rows })
    }
}

/// A name that resolves to a billing code means that code is configured.
proof fn lemma_resolved_code_is_configured(clients: Seq<Client>, name: Seq<char>, code: Seq<char>)
    requires
        psp_of_name(clients, name) == Some(code),
    ensures
        billing_codes(clients).contains(code),
    decreases clients.len(),
{
    if clients.len() > 0 {
        if clients[0].name@ == name {
            assert(billing_codes(clients)[0] == code);
        } else {
            lemma_resolved_code_is_configured(clients.drop_first(), name, code);
            let rest = billing_codes(clients.drop_first());
            let l = choose|l: int| 0 <= l < rest.len() && rest[l] == code;
            match psp_of_client(clients[0].data@) {
                Some(c0) => {
                    assert(billing_codes(clients)[l + 1] == code);
                },
                None => {
                    assert(billing_codes(clients)[l] == code);
                },
            }
        }
    }
}

} // verus!
