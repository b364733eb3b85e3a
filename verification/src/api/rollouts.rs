//! Framework-aware fused rollout executors.
use vstd::prelude::*;
use crate::api::error::{quoted, ApiError, Refusal};

verus! {

/// Most jobs of one batch.
pub const MAX_BATCH_JOBS: usize = 256;

/// One job's part of a batch response.
#[derive(Debug)]
pub struct RolloutBatchItemResponse<R> {
    /// Key of the job.
    pub idempotency_key: String,
    /// What was generated.
    pub response: Option<R>,
    /// Kind of the error.
    pub error_code: Option<String>,
    /// Explanation of the error.
    pub error: Option<String>,
}

/// A fallback pool must exist.
pub fn check_fallback_pool(pool: Option<&str>, exists: bool) -> (r: Result<(), ApiError>)
    ensures
        match (pool, r) {
            (None, Ok(_)) => true,
            (Some(_), Ok(_)) => exists,
            (Some(name), Err(error)) => !exists && error@ == Refusal::BadRequest(
                "fallback pool '"@ + name@ + "' does not exist"@,
            ),
            (None, Err(_)) => false,
        },
{
    match pool {
        Some(name) => if exists {
            Ok(())
        } else {
            Err(ApiError::BadRequest(quoted("fallback pool '", name, "' does not exist")))
        },
        None => Ok(()),
    }
}

/// A batch may have so many jobs.
pub open spec fn batch_allowed(jobs: nat) -> bool {
    1 <= jobs <= 256
}

/// A batch has at least one job, and no more than the limit.
pub fn check_batch_size(jobs: usize) -> (r: Result<(), ApiError>)
    ensures
        match r {
            Ok(_) => 1 <= jobs <= MAX_BATCH_JOBS,
            Err(error) => !(1 <= jobs <= MAX_BATCH_JOBS) && error@ == Refusal::BadRequest(
                "jobs must contain between 1 and 256 items"@,
            ),
        },
        r is Ok <==> batch_allowed(jobs as nat),
{
    if jobs == 0 || jobs > MAX_BATCH_JOBS {
        Err(ApiError::BadRequest("jobs must contain between 1 and 256 items".to_owned()))
    } else {
        Ok(())
    }
}

/// Device-resident policies are handed over on Linux only.
pub fn check_device_policy_host(is_linux: bool) -> (r: Result<(), ApiError>)
    ensures
        match r {
            Ok(_) => is_linux,
            Err(error) => !is_linux && error@ == Refusal::BadRequest(
                "device-resident rollout handoff requires Linux"@,
            ),
        },
{
    if is_linux {
        Ok(())
    } else {
        Err(ApiError::BadRequest("device-resident rollout handoff requires Linux".to_owned()))
    }
}

/// One job's part of a batch response: what was generated, or the code and the
/// message of the error.
pub fn batch_item<R>(idempotency_key: String, outcome: Result<R, (String, String)>) -> (r:
    RolloutBatchItemResponse<R>)
    ensures
        r.idempotency_key == idempotency_key,
        match outcome {
            Ok(response) => r.response == Some(response) && r.error_code is None && r.error is None,
            Err((code, message)) => r.response is None && r.error_code == Some(code) && r.error
                == Some(message),
        },
{
    match outcome {
        Ok(response) => RolloutBatchItemResponse {
            idempotency_key,
            response: Some(response),
            error_code: None,
            error: None,
        },
        Err((code, message)) => RolloutBatchItemResponse {
            idempotency_key,
            response: None,
            error_code: Some(code),
            error: Some(message),
        },
    }
}

/// A batch is allowed exactly if it has between 1 and 256 jobs.
pub proof fn law_batches_are_bounded(jobs: nat)
    ensures
        batch_allowed(jobs) <==> 0 < jobs < 257,
        MAX_BATCH_JOBS == 256,
{
}

} // verus!
