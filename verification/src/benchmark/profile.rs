//! The method and despeckle choices a benchmark profile may name.

use vstd::prelude::*;

use crate::benchmark::limits::MAX_PROFILE_RUNS;
use crate::cleanup::DespeckleLevel;
use crate::digest::{decimal, push_decimal};
use crate::error::{CoreError, Result};
use crate::text::{push_str, str_eq, views};

verus! {

#[derive(Debug, Clone, Copy, PartialEq, Eq, Structural)]
pub enum MethodConfig {
    Otsu,
    Sauvola,
    Manual,
}

#[derive(Debug, Clone, Copy, PartialEq, Eq, Structural)]
pub enum DespeckleConfig {
    Off,
    Conservative,
    Strong,
}

/// The despeckle level a profile's choice names.
pub open spec fn level_of(value: DespeckleConfig) -> DespeckleLevel {
    match value {
        DespeckleConfig::Off => DespeckleLevel::Off,
        DespeckleConfig::Conservative => DespeckleLevel::Conservative,
        DespeckleConfig::Strong => DespeckleLevel::Strong,
    }
}

impl From<DespeckleConfig> for DespeckleLevel {
    fn from(value: DespeckleConfig) -> (l: Self) {
        match value {
            DespeckleConfig::Off => DespeckleLevel::Off,
            DespeckleConfig::Conservative => DespeckleLevel::Conservative,
            DespeckleConfig::Strong => DespeckleLevel::Strong,
        }
    }
}

impl vstd::std_specs::convert::FromSpecImpl<DespeckleConfig> for DespeckleLevel {
    open spec fn obeys_from_spec() -> bool {
        true
    }

    open spec fn from_spec(value: DespeckleConfig) -> DespeckleLevel {
        level_of(value)
    }
}

/// The despeckle level a profile's choice names.
pub fn despeckle_level(value: DespeckleConfig) -> (l: DespeckleLevel)
    ensures
        l == level_of(value),
{
    DespeckleLevel::from(value)
}

pub const PROFILE_SCHEMA: &'static str = "mpdf-benchmark-profile";
pub const PROFILE_SCHEMA_VERSION: &'static str = "1.0";

/// What the checks of one `[[runs]]` entry read: its ID, its method and
/// which optional parameters it sets.
#[derive(Debug, Clone)]
pub struct RunShape {
    pub id: String,
    pub method: MethodConfig,
    pub has_threshold: bool,
    /// Whether any of `k`, `window_size` and `dynamic_range` is set.
    pub has_sauvola_parameter: bool,
    pub background_normalization: bool,
    pub has_background_radius: bool,
}

/// `run '<id>': ` and the message.
pub open spec fn run_message(id: Seq<char>, m: Seq<char>) -> Seq<char> {
    "run '"@ + id + "': "@ + m
}

/// Why a run's parameters do not fit its method, if they do not: a
/// threshold without the manual method, Sauvola parameters without the
/// Sauvola method, a background radius without background normalization,
/// the manual method without a threshold.
pub open spec fn run_fault(r: RunShape) -> Option<Seq<char>> {
    if r.has_threshold && r.method != MethodConfig::Manual {
        Some(run_message(r.id@, "threshold only applies to method = \"manual\""@))
    } else if r.has_sauvola_parameter && r.method != MethodConfig::Sauvola {
        Some(run_message(r.id@, "k/window_size/dynamic_range only apply to method = \"sauvola\""@))
    } else if r.has_background_radius && !r.background_normalization {
        Some(run_message(r.id@, "background_radius requires background_normalization = true"@))
    } else if r.method == MethodConfig::Manual && !r.has_threshold {
        Some(run_message(r.id@, "method = \"manual\" requires threshold"@))
    } else {
        None
    }
}

fn run_error(id: &str, m: &str) -> (r: CoreError)
    ensures
        r matches CoreError::InvalidProfile(e) && e@ == run_message(id@, m@),
{
    let mut s = String::new();
    push_str(&mut s, "run '");
    push_str(&mut s, id);
    push_str(&mut s, "': ");
    push_str(&mut s, m);
    assert(s@ =~= run_message(id@, m@));
    CoreError::InvalidProfile(s)
}

/// Checks that a run sets only the parameters its method uses and all that
/// it needs.
pub fn check_run(r: &RunShape) -> (res: Result<()>)
    ensures
        match run_fault(*r) {
            Some(m) => res matches Err(CoreError::InvalidProfile(e)) && e@ == m,
            None => res is Ok,
        },
{
    if r.has_threshold && r.method != MethodConfig::Manual {
        return Err(run_error(r.id.as_str(), "threshold only applies to method = \"manual\""));
    }
    if r.has_sauvola_parameter && r.method != MethodConfig::Sauvola {
        return Err(run_error(r.id.as_str(), "k/window_size/dynamic_range only apply to method = \"sauvola\""));
    }
    if r.has_background_radius && !r.background_normalization {
        return Err(run_error(r.id.as_str(), "background_radius requires background_normalization = true"));
    }
    if r.method == MethodConfig::Manual && !r.has_threshold {
        return Err(run_error(r.id.as_str(), "method = \"manual\" requires threshold"));
    }
    Ok(())
}

/// The error a profile raises, if any: as `(kind, message)`, the kind 0 for
/// an unsupported schema, 1 for an invalid profile, 2 for a run count over
/// the limit.
pub open spec fn profile_fault(schema: Seq<char>, schema_version: Seq<char>, runs: Seq<RunShape>) -> Option<(int, Seq<char>)> {
    if schema != PROFILE_SCHEMA@ {
        Some((0, "expected schema '"@ + PROFILE_SCHEMA@ + "', got '"@ + schema + "'"@))
    } else if schema_version != PROFILE_SCHEMA_VERSION@ {
        Some((0, "expected profile schema version '"@ + PROFILE_SCHEMA_VERSION@ + "', got '"@ + schema_version + "'"@))
    } else if runs.len() == 0 {
        Some((1, "profile has no runs"@))
    } else if runs.len() > MAX_PROFILE_RUNS {
        Some((2, "profile declares "@ + decimal(runs.len()) + " runs, exceeding the maximum of 256"@))
    } else {
        runs_fault(runs, runs.len() as int)
    }
}

/// The first fault among the first `n` runs: a run ID used by an earlier
/// run, else the run's own parameter fault.
pub open spec fn runs_fault(runs: Seq<RunShape>, n: int) -> Option<(int, Seq<char>)>
    decreases n,
{
    if n <= 0 {
        None
    } else {
        match runs_fault(runs, n - 1) {
            Some(f) => Some(f),
            None => if views(runs.take(n - 1).map_values(|r: RunShape| r.id)).contains(runs[n - 1].id@) {
                Some((1, "duplicate run id '"@ + runs[n - 1].id@ + "'"@))
            } else {
                match run_fault(runs[n - 1]) {
                    Some(m) => Some((1, m)),
                    None => None,
                }
            },
        }
    }
}

pub open spec fn is_profile_error(r: Result<()>, f: (int, Seq<char>)) -> bool {
    match r {
        Err(CoreError::UnsupportedBenchmarkSchema(m)) => f.0 == 0 && m@ == f.1,
        Err(CoreError::InvalidProfile(m)) => f.0 == 1 && m@ == f.1,
        Err(CoreError::ResourceLimitExceeded(m)) => f.0 == 2 && m@ == f.1,
        _ => false,
    }
}

proof fn lemma_runs_fault_sticks(runs: Seq<RunShape>, n: int, m: int)
    requires
        0 <= n <= m,
        runs_fault(runs, n) is Some,
    ensures
        runs_fault(runs, m) == runs_fault(runs, n),
    decreases m - n,
{
    if m > n {
        lemma_runs_fault_sticks(runs, n, m - 1);
    }
}

fn id_seen(runs: &[RunShape], n: usize, id: &str) -> (b: bool)
    requires
        n <= runs@.len(),
    ensures
        b == views(runs@.take(n as int).map_values(|r: RunShape| r.id)).contains(id@),
{
    let ghost ids = views(runs@.take(n as int).map_values(|r: RunShape| r.id));
    let mut i: usize = 0;
    while i < n
        invariant
            i <= n <= runs@.len(),
            ids == views(runs@.take(n as int).map_values(|r: RunShape| r.id)),
            ids.len() == n,
            forall|k: int| 0 <= k < i ==> ids[k] != id@,
        decreases n - i,
    {
        assert(ids[i as int] == runs@[i as int].id@);
        if str_eq(runs[i].id.as_str(), id) {
            return true;
        }
        i = i + 1;
    }
    false
}

/// Checks a parsed profile manifest: its schema and version, that it has
/// between one run and the run limit, and each run in order, with no run ID
/// used twice.
pub fn check_profile(schema: &str, schema_version: &str, runs: &[RunShape]) -> (r: Result<()>)
    ensures
        match profile_fault(schema@, schema_version@, runs@) {
            Some(f) => is_profile_error(r, f),
            None => r is Ok,
        },
{
    if !str_eq(schema, PROFILE_SCHEMA) {
        let mut m = String::new();
        push_str(&mut m, "expected schema '");
        push_str(&mut m, PROFILE_SCHEMA);
        push_str(&mut m, "', got '");
        push_str(&mut m, schema);
        push_str(&mut m, "'");
        return Err(CoreError::UnsupportedBenchmarkSchema(m));
    }
    if !str_eq(schema_version, PROFILE_SCHEMA_VERSION) {
        let mut m = String::new();
        push_str(&mut m, "expected profile schema version '");
        push_str(&mut m, PROFILE_SCHEMA_VERSION);
        push_str(&mut m, "', got '");
        push_str(&mut m, schema_version);
        push_str(&mut m, "'");
        return Err(CoreError::UnsupportedBenchmarkSchema(m));
    }
    if runs.len() == 0 {
        return Err(CoreError::InvalidProfile("profile has no runs".to_owned()));
    }
    if runs.len() > MAX_PROFILE_RUNS {
        let mut m = String::new();
        push_str(&mut m, "profile declares ");
        push_decimal(&mut m, runs.len() as u64);
        push_str(&mut m, " runs, exceeding the maximum of 256");
        return Err(CoreError::ResourceLimitExceeded(m));
    }
    let mut i: usize = 0;
    while i < runs.len()
        invariant
            schema@ == PROFILE_SCHEMA@,
            schema_version@ == PROFILE_SCHEMA_VERSION@,
            0 < runs@.len() <= MAX_PROFILE_RUNS,
            i <= runs@.len(),
            runs_fault(runs@, i as int) is None,
        decreases runs.len() - i,
    {
        if id_seen(runs, i, runs[i].id.as_str()) {
            let mut m = String::new();
            push_str(&mut m, "duplicate run id '");
            push_str(&mut m, runs[i].id.as_str());
            push_str(&mut m, "'");
            assert(m@ =~= "duplicate run id '"@ + runs@[i as int].id@ + "'"@);
            proof {
                lemma_runs_fault_sticks(runs@, i + 1, runs@.len() as int);
            }
            return Err(CoreError::InvalidProfile(m));
        }
        match check_run(&runs[i]) {
            Err(e) => {
                proof {
                    lemma_runs_fault_sticks(runs@, i + 1, runs@.len() as int);
                }
                return Err(e);
            },
            Ok(()) => {},
        }
        i = i + 1;
    }
    Ok(())
}

} // verus!
