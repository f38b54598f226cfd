//! The concurrency sweep: which levels a benchmark run visits.
//!
//! Levels start at 1 and double; a level equal to the configured ceiling is
//! never tested, so a ceiling of 128 yields 1, 2, 4, 8, 16, 32, 64 and a
//! ceiling of 1 yields no levels at all.

use vstd::prelude::*;
use vstd::string::StringExecFns;
use vstd::arithmetic::power2::{pow2, lemma2_to64, lemma_pow2_unfold, lemma_pow2_strictly_increases};

use crate::charts::same_key;
use crate::models::{Config, Results};

verus! {

/// The concurrency levels tested under the given ceiling: every power of two
/// strictly below `max_concurrency`, in increasing order.
pub fn concurrency_levels(max_concurrency: u16) -> (levels: Vec<u16>)
    ensures
        forall|i: int|
            0 <= i < levels@.len() ==> levels@[i] == pow2(i as nat)
                && levels@[i] < max_concurrency,
        pow2(levels@.len() as nat) >= max_concurrency,
{
    let mut levels: Vec<u16> = Vec::new();
    let mut c: u32 = 1;
    proof {
        lemma2_to64();
    }
    while c < max_concurrency as u32
        invariant
            c == pow2(levels@.len() as nat),
            1 <= c,
            forall|i: int|
                0 <= i < levels@.len() ==> levels@[i] == pow2(i as nat)
                    && levels@[i] < max_concurrency,
        decreases 2 * max_concurrency as int - c as int,
    {
        levels.push(c as u16);
        proof {
            lemma_pow2_unfold((levels@.len()) as nat);
        }
        c = c * 2;
    }
    levels
}

/// Everything one load-generation run needs: the scenario's query suffix, the
/// backend's label and port, the concurrency level with its thread-count
/// hint, and the run duration.
pub struct RunSpec {
    /// Scenario: query suffix appended to the endpoint path.
    pub test: String,
    /// Backend label, `node` or `actix`.
    pub name: String,
    /// Port of the backend this run targets.
    pub port: u16,
    /// Number of concurrent connections.
    pub concurrency: u16,
    /// Thread-count hint handed to the load generator: a tenth of the
    /// concurrency, and at least one.
    pub threads: u16,
    /// Run duration in seconds.
    pub duration: u16,
}

/// The fixed ordered list of request-shape scenarios: the bare listing, and a
/// filtered query with a result limit.
pub fn scenarios() -> (r: Vec<String>)
    ensures
        r@.len() == 2,
        r@[0]@ == ""@,
        r@[1]@ == "?summary=wherever&full=true&limit=10"@,
{
    let mut r: Vec<String> = Vec::new();
    r.push(String::from_str(""));
    r.push(String::from_str("?summary=wherever&full=true&limit=10"));
    r
}

/// The ordered runs of one scenario: for every concurrency level of the
/// sweep, one run per backend, the two backends adjacent in a fixed order.
pub fn plan_scenario(test: &String, config: &Config) -> (specs: Vec<RunSpec>)
    ensures
        specs@.len() % 2 == 0,
        pow2((specs@.len() / 2) as nat) >= config.max_concurrency,
        forall|k: int|
            0 <= k < specs@.len() ==> {
                &&& (#[trigger] specs@[k]).concurrency == pow2((k / 2) as nat)
                &&& specs@[k].concurrency < config.max_concurrency
                &&& specs@[k].test@ == test@
                &&& specs@[k].duration == config.time
                &&& specs@[k].threads == specs@[k].concurrency / 10 + 1
                &&& (k % 2 == 0 ==> specs@[k].name@ == "node"@ && specs@[k].port
                    == config.node_port)
                &&& (k % 2 == 1 ==> specs@[k].name@ == "actix"@ && specs@[k].port
                    == config.actix_port)
            },
{
    let levels = concurrency_levels(config.max_concurrency);
    let mut specs: Vec<RunSpec> = Vec::new();
    let mut li: usize = 0;
    while li < levels.len()
        invariant
            specs@.len() == 2 * li,
            li <= levels@.len(),
            forall|i: int|
                0 <= i < levels@.len() ==> levels@[i] == pow2(i as nat) && levels@[i]
                    < config.max_concurrency,
            forall|k: int|
                0 <= k < specs@.len() ==> {
                    &&& (#[trigger] specs@[k]).concurrency == pow2((k / 2) as nat)
                    &&& specs@[k].concurrency < config.max_concurrency
                    &&& specs@[k].test@ == test@
                    &&& specs@[k].duration == config.time
                    &&& specs@[k].threads == specs@[k].concurrency / 10 + 1
                    &&& (k % 2 == 0 ==> specs@[k].name@ == "node"@ && specs@[k].port
                        == config.node_port)
                    &&& (k % 2 == 1 ==> specs@[k].name@ == "actix"@ && specs@[k].port
                        == config.actix_port)
                },
        decreases levels@.len() - li,
    {
        let c = levels[li];
        specs.push(
            RunSpec {
                test: test.clone(),
                name: String::from_str("node"),
                port: config.node_port,
                concurrency: c,
                threads: c / 10 + 1,
                duration: config.time,
            },
        );
        specs.push(
            RunSpec {
                test: test.clone(),
                name: String::from_str("actix"),
                port: config.actix_port,
                concurrency: c,
                threads: c / 10 + 1,
                duration: config.time,
            },
        );
        li += 1;
    }
    specs
}

/// The sweep order guarantees the renderer's adjacency: walking a result
/// list built in plan order, the (scenario, concurrency) key changes exactly
/// at the even indices, so each level's two backend rows form one group.
pub proof fn lemma_sweep_adjacency(rs: Seq<Results>)
    requires
        forall|k: int, m: int|
            0 <= k < rs.len() && 0 <= m < rs.len() ==> (#[trigger] rs[k]).test@ == (
            #[trigger] rs[m]).test@,
        forall|k: int|
            0 <= k < rs.len() ==> (#[trigger] rs[k]).concurrency == pow2((k / 2) as nat),
    ensures
        forall|k: int|
            1 <= k < rs.len() ==> (same_key(#[trigger] rs[k], rs[k - 1]) <==> k % 2 == 1),
{
    assert forall|k: int|
        1 <= k < rs.len() implies (same_key(#[trigger] rs[k], rs[k - 1]) <==> k % 2 == 1) by {
        if k % 2 == 1 {
            assert(k / 2 == (k - 1) / 2);
        } else {
            assert((k - 1) / 2 < k / 2);
            lemma_pow2_strictly_increases(((k - 1) / 2) as nat, (k / 2) as nat);
        }
    }
}

} // verus!
