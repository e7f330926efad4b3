//! Broker tasks: the request that asks a set of sites for their measure reports.
use vstd::prelude::*;
use crate::address::{broker_domain, domain_of, site_address};
use crate::codec::{encode_base64, replace_all, new_uuid, base64_of_text, replaced};
use crate::config::Config;
use crate::errors::PrismError;

verus! {

/// What the broker does when a site fails a task.
pub enum FailureStrategy {
    /// Gives up at once.
    Discard,
    /// Tries again after a pause, up to a number of tries.
    Retry { backoff_millisecs: u64, max_tries: u64 },
}

/// A task for the broker, addressed to the target application at each site.
pub struct TaskRequest {
    /// The task's identifier.
    pub id: String,
    /// This service's address.
    pub from: String,
    /// The addressees.
    pub to: Vec<String>,
    /// The encoded query.
    pub body: String,
    /// The project named in the task's metadata.
    pub project: String,
    /// Whether the sites are asked to execute the query; always `false` here.
    pub execute: bool,
    /// What the broker does when a site fails.
    pub failure_strategy: FailureStrategy,
    /// How long the broker keeps the task.
    pub ttl: String,
}

/// The pause between two tries of a failed site.
pub const RETRY_BACKOFF_MILLISECS: u64 = 1000;

/// The most tries of a failed site.
pub const RETRY_MAX_TRIES: u64 = 5;

/// How long the broker keeps a task.
pub const TASK_TTL: &'static str = "360s";

/// The placeholder of the query for the library identifier.
pub const LIBRARY_UUID_MARK: &'static str = "{{LIBRARY_UUID}}";

/// The placeholder of the query for the measure identifier.
pub const MEASURE_UUID_MARK: &'static str = "{{MEASURE_UUID}}";

/// The encoded query with its two identifiers filled in.
pub open spec fn query_body(query: Seq<char>, library_uuid: Seq<char>, measure_uuid: Seq<char>) -> Seq<char> {
    base64_of_text(replaced(replaced(query, LIBRARY_UUID_MARK@, library_uuid), MEASURE_UUID_MARK@, measure_uuid))
}

/// Everything of a task but its identifier and body, as the configuration and
/// the sites fix it: from this service, to the target application at each site
/// under the broker's domain, the project, no execution, the retry strategy and
/// the time to live.
pub open spec fn task_addressed(config: &Config, sites: Seq<String>, t: &TaskRequest) -> bool {
    &&& domain_of(config.beam_app_id_long@) is Some
    &&& t.from@ == config.beam_app_id_long@
    &&& t.to@.len() == sites.len()
    &&& forall|k: int|
        0 <= k < sites.len() ==> (#[trigger] t.to@[k])@ == config.target@ + seq!['.'] + sites[k]@ + seq!['.']
            + domain_of(config.beam_app_id_long@)->0
    &&& t.project@ == config.project@
    &&& !t.execute
    &&& t.failure_strategy == (FailureStrategy::Retry {
        backoff_millisecs: RETRY_BACKOFF_MILLISECS,
        max_tries: RETRY_MAX_TRIES,
    })
    &&& t.ttl@ == TASK_TTL@
}

/// Builds the task for `target_sites` with the given identifiers. Fails where
/// this service's address does not name a broker domain.
pub fn build_task(
    config: &Config,
    target_sites: &Vec<String>,
    id: String,
    library_uuid: &str,
    measure_uuid: &str,
) -> (r: Result<TaskRequest, PrismError>)
    ensures
        match r {
            Ok(t) => task_addressed(config, target_sites@, &t) && t.id == id && t.body@ == query_body(
                config.query_unencoded@,
                library_uuid@,
                measure_uuid@,
            ),
            Err(e) => domain_of(config.beam_app_id_long@) is None && e is ConfigError,
        },
{
    let domain = match broker_domain(config.beam_app_id_long.as_str()) {
        Some(d) => d,
        None => {
            return Err(PrismError::ConfigError(String::from_str("Invalid beam id in config")));
        },
    };
    let with_library = replace_all(config.query_unencoded.as_str(), LIBRARY_UUID_MARK, library_uuid);
    let filled = replace_all(with_library.as_str(), MEASURE_UUID_MARK, measure_uuid);
    let body = encode_base64(filled.as_str());
    let mut to: Vec<String> = Vec::new();
    let mut k: usize = 0;
    while k < target_sites.len()
        invariant
            k <= target_sites@.len(),
            to@.len() == k,
            domain_of(config.beam_app_id_long@) == Some(domain@),
            forall|j: int|
                0 <= j < k ==> (#[trigger] to@[j])@ == config.target@ + seq!['.'] + target_sites@[j]@
                    + seq!['.'] + domain@,
        decreases target_sites@.len() - k,
    {
        let address = site_address(config.target.as_str(), target_sites[k].as_str(), domain.as_str());
        to.push(address);
        k = k + 1;
    }
    let failure_strategy = FailureStrategy::Retry {
        backoff_millisecs: RETRY_BACKOFF_MILLISECS,
        max_tries: RETRY_MAX_TRIES,
    };
    Ok(
        TaskRequest {
            id,
            from: config.beam_app_id_long.clone(),
            to,
            body,
            project: config.project.clone(),
            execute: false,
            failure_strategy,
            ttl: String::from_str(TASK_TTL),
        },
    )
}

/// Builds the task for `target_sites` under a fresh identifier, with fresh
/// library and measure identifiers in the query. Fails where this service's
/// address does not name a broker domain.
pub fn create_beam_task(config: &Config, target_sites: &Vec<String>) -> (r: Result<TaskRequest, PrismError>)
    ensures
        match r {
            Ok(t) => task_addressed(config, target_sites@, &t) && t.id@.len() == 36 && exists|l: Seq<char>, m: Seq<char>|
                l.len() == 36 && m.len() == 36 && #[trigger] query_body(config.query_unencoded@, l, m) == t.body@,
            Err(e) => domain_of(config.beam_app_id_long@) is None && e is ConfigError,
        },
{
    let id = new_uuid();
    let library_uuid = new_uuid();
    let measure_uuid = new_uuid();
    let r = build_task(config, target_sites, id, library_uuid.as_str(), measure_uuid.as_str());
    proof {
        if r is Ok {
            assert(query_body(config.query_unencoded@, library_uuid@, measure_uuid@) == r->Ok_0.body@);
        }
    }
    r
}

} // verus!
