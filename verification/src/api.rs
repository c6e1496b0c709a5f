use vstd::prelude::*;

verus! {

/// The body of a health probe answer.
#[derive(Debug, Clone)]
pub struct HealthResponse {
    pub status: String,
}

/// The liveness probe: always "alive".
pub fn liveness() -> (r: HealthResponse)
    ensures
        r.status@ == "alive"@,
{
    HealthResponse { status: "alive".to_string() }
}

/// The readiness probe: 200 "ready" once zones are loaded, 503 "not ready" before.
pub fn readiness(ready: bool) -> (r: (u16, HealthResponse))
    ensures
        ready ==> r.0 == 200 && r.1.status@ == "ready"@,
        !ready ==> r.0 == 503 && r.1.status@ == "not ready"@,
{
    if ready {
        (200, HealthResponse { status: "ready".to_string() })
    } else {
        (503, HealthResponse { status: "not ready".to_string() })
    }
}

/// Labels of the query counters.
#[derive(Debug, Clone, PartialEq, Eq, Hash)]
pub struct QueryLabels {
    pub transport: String,
    pub qtype: String,
    pub zone: String,
    pub response_code: String,
}

/// Labels of the upstream counters.
#[derive(Debug, Clone, PartialEq, Eq, Hash)]
pub struct ServerLabels {
    pub server: String,
}

/// Labels of the zone gauges and counters.
#[derive(Debug, Clone, PartialEq, Eq, Hash)]
pub struct ZoneLabels {
    pub zone: String,
}

} // verus!
