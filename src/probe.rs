//! Probe definitions and the outcomes recorded for them.

use vstd::prelude::*;
use crate::target::ConfigError;

verus! {

/// The HTTP method a probe sends.
#[derive(Debug, Clone, Copy, PartialEq, Eq, Structural)]
pub enum Method {
    Get,
    Post,
    Put,
    Patch,
    Delete,
    Head,
}

/// One declared check against the target service.
///
/// `path` is appended to the target's origin; `payload` is sent as the
/// request body unchanged; `weight` is the probe's share of the score.
#[derive(Debug)]
pub struct Probe {
    pub name: String,
    pub method: Method,
    pub path: String,
    pub payload: Option<String>,
    pub weight: u32,
}

/// What one run recorded for one probe.
#[derive(Debug)]
pub struct ProbeOutcome {
    pub name: String,
    pub passed: bool,
    pub weight: u32,
}

/// The outcome that records `passed` for `probe`.
pub open spec fn outcome_of(probe: Probe, passed: bool) -> ProbeOutcome {
    ProbeOutcome { name: probe.name, passed, weight: probe.weight }
}

impl Probe {
    pub fn new(name: &str, method: Method, path: &str, payload: Option<&str>, weight: u32) -> (r: Probe)
        ensures
            r.name@ == name@,
            r.method == method,
            r.path@ == path@,
            r.payload matches Some(b) <==> payload is Some,
            r.payload matches Some(b) ==> b@ == payload->Some_0@,
            r.weight == weight,
    {
        let payload = match payload {
            Some(b) => Some(String::from_str(b)),
            None => None,
        };
        Probe {
            name: String::from_str(name),
            method,
            path: String::from_str(path),
            payload,
            weight,
        }
    }

    /// The outcome of this probe, passed or failed.
    pub fn outcome(&self, passed: bool) -> (r: ProbeOutcome)
        ensures
            r == outcome_of(*self, passed),
    {
        ProbeOutcome { name: self.name.clone(), passed, weight: self.weight }
    }
}

/// No two probes share a name.
pub open spec fn names_unique(probes: Seq<Probe>) -> bool {
    forall|i: int, j: int|
        0 <= i < j < probes.len() ==> (#[trigger] probes[i]).name@ != (#[trigger] probes[j]).name@
}

/// Accepts a probe set whose names are unique.
pub fn check_probes(probes: &Vec<Probe>) -> (r: Result<(), ConfigError>)
    ensures
        r is Ok <==> names_unique(probes@),
        r matches Err(e) ==> e == ConfigError::DuplicateName,
{
    let n = probes.len();
    let mut j: usize = 0;
    while j < n
        invariant
            n == probes@.len(),
            j <= n,
            forall|a: int, b: int|
                0 <= a < b < j ==> (#[trigger] probes@[a]).name@ != (#[trigger] probes@[b]).name@,
        decreases n - j,
    {
        let mut i: usize = 0;
        while i < j
            invariant
                n == probes@.len(),
                i <= j < n,
                forall|a: int, b: int|
                    0 <= a < b < j ==> (#[trigger] probes@[a]).name@ != (
                    #[trigger] probes@[b]).name@,
                forall|a: int| 0 <= a < i ==> (#[trigger] probes@[a]).name@ != probes@[j as int].name@,
            decreases j - i,
        {
            if probes[i].name == probes[j].name {
                return Err(ConfigError::DuplicateName);
            }
            i = i + 1;
        }
        j = j + 1;
    }
    Ok(())
}

/// The probes of the demonstration service: its admin dashboard, its user
/// search with a JSON string as the body, and its public data.
pub fn default_probes() -> (r: Vec<Probe>)
    ensures
        r@.len() == 3,
        r@[0].name@ == "admin_dashboard"@,
        r@[0].method == Method::Get,
        r@[0].path@ == "/admin?admin=true"@,
        r@[0].payload is None,
        r@[0].weight == 3,
        r@[1].name@ == "secure_search"@,
        r@[1].method == Method::Post,
        r@[1].path@ == "/search"@,
        r@[1].payload matches Some(b) && b@ == "\"safe_query\""@,
        r@[1].weight == 2,
        r@[2].name@ == "public_data"@,
        r@[2].method == Method::Get,
        r@[2].path@ == "/public"@,
        r@[2].payload is None,
        r@[2].weight == 1,
{
    let mut r: Vec<Probe> = Vec::new();
    r.push(Probe::new("admin_dashboard", Method::Get, "/admin?admin=true", None, 3));
    r.push(Probe::new("secure_search", Method::Post, "/search", Some("\"safe_query\""), 2));
    r.push(Probe::new("public_data", Method::Get, "/public", None, 1));
    r
}

} // verus!
