//! The configuration the tracker consumes, already parsed and validated by
//! the surrounding application: projects with their window-title prefixes
//! and billing clients, the clients' billing data, break windows, and
//! logging switches.
//!
//! A client's share of a project is a fixed-point ratio in parts per
//! million, `RATIO_UNIT` standing for the whole.

use vstd::prelude::*;

use crate::strutil::str_eq;

verus! {

/// The fixed-point representation of the ratio 1.0.
pub const RATIO_UNIT: u32 = 1000000;

/// One billing client of a project, with its share of the project's time.
#[derive(Debug, Clone)]
pub struct ProjectClient {
    pub name: String,
    pub ratio_ppm: u32,
}

/// One project: its name, the window-title prefixes that map a focused
/// window to it, and the clients its time is billed to.
#[derive(Debug, Clone)]
pub struct ProjectConfig {
    pub name: String,
    pub windows: Vec<String>,
    pub clients: Vec<ProjectClient>,
}

/// A billing client, with its metadata entries; the entry keyed `psp`
/// carries the billing code.
#[derive(Debug, Clone)]
pub struct Client {
    pub name: String,
    pub data: Vec<(String, String)>,
}

/// Logging switches.
#[derive(Debug, Clone)]
pub struct LoggingConfig {
    pub window_change: bool,
}

/// Break detection: window-title prefixes that trigger an automatic pause,
/// and whether leaving them resumes work automatically.
#[derive(Debug, Clone)]
pub struct BreakConfig {
    pub windows: Vec<String>,
    pub auto_resume: bool,
}

/// The whole configuration.
#[derive(Debug, Clone)]
pub struct AppConfig {
    pub projects: Vec<ProjectConfig>,
    pub clients: Vec<Client>,
    pub logging: LoggingConfig,
    pub breaks: BreakConfig,
}

/// The billing code of a client: the value of its first `psp` entry.
pub open spec fn psp_of_client(data: Seq<(String, String)>) -> Option<Seq<char>>
    decreases data.len(),
{
    if data.len() == 0 {
        None
    } else if data[0].0@ == "psp"@ {
        Some(data[0].1@)
    } else {
        psp_of_client(data.drop_first())
    }
}

/// The billing code of the first client named `name`, if that client
/// exists and carries one.
pub open spec fn psp_of_name(clients: Seq<Client>, name: Seq<char>) -> Option<Seq<char>>
    decreases clients.len(),
{
    if clients.len() == 0 {
        None
    } else if clients[0].name@ == name {
        psp_of_client(clients[0].data@)
    } else {
        psp_of_name(clients.drop_first(), name)
    }
}

/// The billing codes of the clients that carry one, in declaration order.
pub open spec fn billing_codes(clients: Seq<Client>) -> Seq<Seq<char>>
    decreases clients.len(),
{
    if clients.len() == 0 {
        Seq::empty()
    } else {
        let rest = billing_codes(clients.drop_first());
        match psp_of_client(clients[0].data@) {
            Some(code) => seq![code] + rest,
            None => rest,
        }
    }
}

/// The client list of the last project named `name`; empty when no project
/// carries the name.
pub open spec fn project_clients_of(projects: Seq<ProjectConfig>, name: Seq<char>) -> Seq<
    ProjectClient,
>
    decreases projects.len(),
{
    if projects.len() == 0 {
        Seq::empty()
    } else if projects.last().name@ == name {
        projects.last().clients@
    } else {
        project_clients_of(projects.drop_last(), name)
    }
}

/// The ratios of a client list, summed.
pub open spec fn ratio_sum(clients: Seq<ProjectClient>) -> int
    decreases clients.len(),
{
    if clients.len() == 0 {
        0
    } else {
        ratio_sum(clients.drop_last()) + clients.last().ratio_ppm
    }
}

impl AppConfig {
    /// What the surrounding application guarantees of a configuration it
    /// hands in: every project client resolves to a client that carries a
    /// billing code, and those billing codes do not repeat. The ratio sums
    /// are *not* assumed here; the report engine checks them itself.
    pub open spec fn wf(self) -> bool {
        &&& forall|i: int, j: int|
            0 <= i < self.projects@.len() && 0 <= j
                < (#[trigger] self.projects@[i]).clients@.len() ==> psp_of_name(
                self.clients@,
                (#[trigger] self.projects@[i].clients@[j]).name@,
            ) is Some
        &&& billing_codes(self.clients@).no_duplicates()
    }
}

/// The billing code of a client, by scanning its data for the first `psp`
/// entry.
pub fn find_psp(data: &Vec<(String, String)>) -> (r: Option<String>)
    ensures
        match r {
            Some(code) => psp_of_client(data@) == Some(code@),
            None => psp_of_client(data@) is None,
        },
{
    let n: usize = data.len();
    let mut i: usize = 0;
    proof {
        assert(data@.skip(0) =~= data@);
    }
    while i < n
        invariant
            0 <= i <= n,
            n == data@.len(),
            psp_of_client(data@) == psp_of_client(data@.skip(i as int)),
        decreases n - i,
    {
        proof {
            assert(data@.skip(i as int).drop_first() =~= data@.skip(i + 1));
            assert(data@.skip(i as int)[0] == data@[i as int]);
        }
        if str_eq(data[i].0.as_str(), "psp") {
            return Some(data[i].1.clone());
        }
        i = i + 1;
    }
    proof {
        assert(data@.skip(n as int) =~= Seq::<(String, String)>::empty());
    }
    None
}

/// The billing code of the first client named `name`.
pub fn find_client_psp(clients: &Vec<Client>, name: &str) -> (r: Option<String>)
    ensures
        match r {
            Some(code) => psp_of_name(clients@, name@) == Some(code@),
            None => psp_of_name(clients@, name@) is None,
        },
{
    let n: usize = clients.len();
    let mut i: usize = 0;
    proof {
        assert(clients@.skip(0) =~= clients@);
    }
    while i < n
        invariant
            0 <= i <= n,
            n == clients@.len(),
            psp_of_name(clients@, name@) == psp_of_name(clients@.skip(i as int), name@),
        decreases n - i,
    {
        proof {
            assert(clients@.skip(i as int).drop_first() =~= clients@.skip(i + 1));
            assert(clients@.skip(i as int)[0] == clients@[i as int]);
        }
        if str_eq(clients[i].name.as_str(), name) {
            return find_psp(&clients[i].data);
        }
        i = i + 1;
    }
    proof {
        assert(clients@.skip(n as int) =~= Seq::<Client>::empty());
    }
    None
}

/// The views of a list of code strings.
pub open spec fn code_views(s: Seq<String>) -> Seq<Seq<char>> {
    s.map_values(|x: String| x@)
}

/// The list of billing codes, in configuration order.
pub fn billing_code_list(clients: &Vec<Client>) -> (r: Vec<String>)
    ensures
        code_views(r@) == billing_codes(clients@),
{
    let n: usize = clients.len();
    let mut out: Vec<String> = Vec::new();
    let mut i: usize = 0;
    proof {
        assert(clients@.skip(0) =~= clients@);
        assert(code_views(out@) =~= Seq::<Seq<char>>::empty());
    }
    while i < n
        invariant
            0 <= i <= n,
            n == clients@.len(),
            billing_codes(clients@) =~= code_views(out@) + billing_codes(clients@.skip(i as int)),
        decreases n - i,
    {
        proof {
            assert(clients@.skip(i as int).drop_first() =~= clients@.skip(i + 1));
            assert(clients@.skip(i as int)[0] == clients@[i as int]);
        }
        let ghost out0 = out@;
        match find_psp(&clients[i].data) {
            Some(code) => {
                out.push(code);
                proof {
                    assert(code_views(out@) =~= code_views(out0) + seq![out@.last()@]);
                    assert((code_views(out0) + seq![out@.last()@]) + billing_codes(
                        clients@.skip(i + 1),
                    ) =~= code_views(out0) + (seq![out@.last()@] + billing_codes(
                        clients@.skip(i + 1),
                    )));
                }
            },
            None => {
            },
        }
        i = i + 1;
    }
    proof {
        assert(clients@.skip(n as int) =~= Seq::<Client>::empty());
        assert(code_views(out@) + Seq::<Seq<char>>::empty() =~= code_views(out@));
    }
    out
}


/// Checks the well-formedness of a configuration: every project client
/// must resolve to a client that carries a billing code, and the billing
/// codes must not repeat.
pub fn validate(cfg: &AppConfig) -> (r: bool)
    ensures
        r == cfg.wf(),
{
    let np: usize = cfg.projects.len();
    let mut i: usize = 0;
    while i < np
        invariant
            0 <= i <= np,
            np == cfg.projects@.len(),
            forall|l: int, j: int|
                0 <= l < i && 0 <= j < (#[trigger] cfg.projects@[l]).clients@.len()
                    ==> psp_of_name(
                    cfg.clients@,
                    (#[trigger] cfg.projects@[l].clients@[j]).name@,
                ) is Some,
        decreases np - i,
    {
        let project = &cfg.projects[i];
        let nc: usize = project.clients.len();
        let mut j: usize = 0;
        while j < nc
            invariant
                0 <= j <= nc,
                i < cfg.projects@.len(),
                nc == cfg.projects@[i as int].clients@.len(),
                project == cfg.projects@[i as int],
                forall|l: int|
                    0 <= l < j ==> psp_of_name(
                        cfg.clients@,
                        (#[trigger] cfg.projects@[i as int].clients@[l]).name@,
                    ) is Some,
            decreases nc - j,
        {
            match find_client_psp(&cfg.clients, project.clients[j].name.as_str()) {
                Some(_) => {
                },
                None => {
                    proof {
                        assert(cfg.projects@[i as int].clients@[j as int]
                            == project.clients@[j as int]);
                        assert(psp_of_name(
                            cfg.clients@,
                            cfg.projects@[i as int].clients@[j as int].name@,
                        ) is None);
                        assert(!cfg.wf());
                    }
                    return false;
                },
            }
            j = j + 1;
        }
        i = i + 1;
    }
    let codes = billing_code_list(&cfg.clients);
    let ghost cs = billing_codes(cfg.clients@);
    let n: usize = codes.len();
    let mut a: usize = 0;
    while a < n
        invariant
            0 <= a <= n,
            n == codes@.len(),
            cs == billing_codes(cfg.clients@),
            code_views(codes@) == cs,
            forall|x: int, y: int| 0 <= x < a && x < y < n ==> cs[x] != cs[y],
        decreases n - a,
    {
        let mut b: usize = a + 1;
        while b < n
            invariant
                a < b <= n,
                a < n,
                n == codes@.len(),
                cs == billing_codes(cfg.clients@),
                code_views(codes@) == cs,
                forall|y: int| a < y < b ==> cs[a as int] != cs[y],
            decreases n - b,
        {
            if str_eq(codes[a].as_str(), codes[b].as_str()) {
                proof {
                    assert(cs[a as int] == codes@[a as int]@);
                    assert(cs[b as int] == codes@[b as int]@);
                    assert(cs[a as int] == cs[b as int]);
                    assert(!cs.no_duplicates());
                }
                return false;
            }
            b = b + 1;
        }
        a = a + 1;
    }
    proof {
        assert forall|x: int, y: int| 0 <= x < cs.len() && 0 <= y < cs.len() && x != y implies cs[x]
            != cs[y] by {
            if x < y {
            } else {
                assert(cs[y] != cs[x]);
            }
        }
    }
    true
}

} // verus!
