//! The refresh engine's decisions: which broker results to take, and how a
//! taken result reaches the cache.
use vstd::prelude::*;
use crate::address::{site_of_app_id, is_site_of, lacks};
use crate::cache::{CriteriaCache, cache_put};
use crate::codec::{decode_base64, base64_decoding};
use crate::errors::{PrismError, WorkStatus};
use crate::mr::{MeasureReport, extract_criteria, reducible, reduce_report};

verus! {

/// One result of a broker task, as the result stream carries it.
pub struct TaskResult {
    /// The address of the application that answered.
    pub from: String,
    /// How far the work has come.
    pub status: WorkStatus,
    /// The base64 encoded answer.
    pub body: String,
}

/// The answer of a result: its decoded body where the work succeeded. A
/// result in any other state is reported by its status; a body that is not
/// base64 by the decoding error.
pub fn decode_result(result: &TaskResult) -> (r: Result<Vec<u8>, PrismError>)
    ensures
        match r {
            Ok(bytes) => result.status == WorkStatus::Succeeded && base64_decoding(result.body@) == Some(bytes@),
            Err(PrismError::UnexpectedWorkStatus(s)) => result.status != WorkStatus::Succeeded && s == result.status,
            Err(PrismError::DecodeError(_)) => result.status == WorkStatus::Succeeded && base64_decoding(
                result.body@,
            ) is None,
            Err(_) => false,
        },
{
    match result.status {
        WorkStatus::Succeeded => {},
        other => {
            return Err(PrismError::UnexpectedWorkStatus(other));
        },
    }
    match decode_base64(result.body.as_str()) {
        Ok(bytes) => Ok(bytes),
        Err(e) => Err(PrismError::DecodeError(e)),
    }
}

/// Reduces the report that a site sent and stores it for that site, stamped
/// with `now`; returns the site. Fails, leaving the cache as it was, where the
/// report cannot be reduced or the sender's address names no site.
pub fn store_report(cache: &mut CriteriaCache, from: &str, report: MeasureReport, now: u64) -> (r: Result<
    String,
    PrismError,
>)
    requires
        old(cache).wf(),
    ensures
        final(cache).wf(),
        final(cache).ttl_spec() == old(cache).ttl_spec(),
        match r {
            Ok(site) => reducible(report) && is_site_of(from@, site@) && final(cache)@ == cache_put(
                old(cache)@,
                site@,
                reduce_report(report),
                now,
            ),
            Err(e) => e is ParsingError && (!reducible(report) || lacks(from@, '.')) && final(cache)@
                == old(cache)@,
        },
{
    let stratifiers = match extract_criteria(report) {
        Ok(s) => s,
        Err(e) => {
            return Err(e);
        },
    };
    let site = match site_of_app_id(from) {
        Some(s) => s,
        None => {
            return Err(PrismError::ParsingError(String::from_str("Sender address names no site")));
        },
    };
    let stored = site.clone();
    cache.put(stored, stratifiers, now);
    Ok(site)
}

} // verus!
