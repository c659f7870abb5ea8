//! The device log collection protocol: the three-step exchange in which
//! the server creates a request for a device, the device polls for it,
//! and the device uploads its logs.
//!
//! The upload is a two-phase check-then-commit: `upload_validate` checks
//! the claimed request against the device's current pending request and
//! the caller's identity; only after the caller has persisted the batch is
//! `upload_commit` applied, so a failed persistence leaves the request
//! pending and a duplicate or late upload is never accepted.

use vstd::prelude::*;
use crate::models::{Claims, JwtError, LogPollResponse, LogRequestStatus, LogRequestV,
    LogUploadMetadata, LogUploadRequest, RequestError};
use crate::request_manager::RequestManager;
use crate::clock::{now_millis, rfc3339_of, rfc3339_of_millis};
use crate::ids::{parse_uuid, uuid_parse_of, uuid_str_of, uuid_string};
use crate::text::str_eq;

verus! {

/// How the protocol rejects a call, mirroring the taxonomy of the HTTP
/// surface: malformed input, a resource owned by someone else, no such
/// resource, or an internal failure.
#[derive(Debug, Clone, Copy, PartialEq, Eq, Structural)]
pub enum ApiError {
    /// The input is malformed, or names a request that is not the
    /// device's current pending request.
    BadRequest,
    /// The resource exists but belongs to a different user.
    Forbidden,
    /// No such pending request; deliberately also covers one that has
    /// already expired or been fulfilled.
    NotFound,
    /// An internal failure: persistence failed, or a transition that the
    /// check-then-commit protocol should make unreachable was attempted.
    ServerError,
}

/// Whether the device `d` in `m` has a live pending request at `now`.
pub open spec fn spec_live_pending(
    m: Map<Seq<char>, LogRequestV>,
    d: Seq<char>,
    now: i64,
) -> bool {
    m.contains_key(d) && m[d].status == LogRequestStatus::Pending && now <= m[d].expires_at
}

/// Poll for the pending request of `device_id` on behalf of `caller` at
/// time `now_ms`. A live pending request owned by someone else is an
/// authorization failure; one owned by the caller is described; anything
/// else is an empty answer, with the lazy expiry transition applied.
pub fn poll_at(
    manager: &mut RequestManager,
    caller: u128,
    device_id: &str,
    now_ms: i64,
) -> (r: Result<Option<LogPollResponse>, ApiError>)
    requires
        old(manager).wf(),
    ensures
        final(manager).wf(),
        spec_live_pending(old(manager)@, device_id@, now_ms) && old(manager)@[device_id@].user_id == caller ==> final(manager)@ == old(manager)@ && (r matches Ok(
            Some(resp),
        ) && resp.request_id@ == uuid_str_of(old(manager)@[device_id@].id) && resp.requested_at@
            == rfc3339_of(old(manager)@[device_id@].requested_at) && resp.expires_at@
            == rfc3339_of(old(manager)@[device_id@].expires_at)),
        spec_live_pending(old(manager)@, device_id@, now_ms) && old(manager)@[device_id@].user_id != caller ==> r == Err::<Option<LogPollResponse>, ApiError>(
            ApiError::Forbidden,
        ) && final(manager)@ == old(manager)@ && final(manager)@[device_id@].status
            == LogRequestStatus::Pending,
        !spec_live_pending(old(manager)@, device_id@, now_ms) ==> r == Ok::<
            Option<LogPollResponse>,
            ApiError,
        >(None) && RequestManager::spec_polled(
            old(manager)@,
            final(manager)@,
            device_id@,
            None,
            now_ms,
        ),
{
    let pending = manager.get_pending_at(device_id, now_ms);
    match pending {
        Some(req) => {
            if req.user_id != caller {
                return Err(ApiError::Forbidden);
            }
            let resp = LogPollResponse {
                request_id: uuid_string(req.id),
                requested_at: rfc3339_of_millis(req.requested_at),
                expires_at: rfc3339_of_millis(req.expires_at),
            };
            Ok(Some(resp))
        },
        None => Ok(None),
    }
}

/// Poll for the pending request of `device_id` on behalf of `caller` as
/// of now.
pub fn poll(manager: &mut RequestManager, caller: u128, device_id: &str) -> (r: Result<
    Option<LogPollResponse>,
    ApiError,
>)
    requires
        old(manager).wf(),
    ensures
        final(manager).wf(),
        r matches Ok(Some(resp)) ==> old(manager)@.contains_key(device_id@) && old(manager)@[device_id@].status == LogRequestStatus::Pending && old(manager)@[device_id@].user_id
            == caller && final(manager)@ == old(manager)@ && resp.request_id@ == uuid_str_of(
            old(manager)@[device_id@].id,
        ) && resp.requested_at@ == rfc3339_of(old(manager)@[device_id@].requested_at)
            && resp.expires_at@ == rfc3339_of(old(manager)@[device_id@].expires_at),
        r == Err::<Option<LogPollResponse>, ApiError>(ApiError::Forbidden) ==> old(manager)@.contains_key(device_id@) && old(manager)@[device_id@].status
            == LogRequestStatus::Pending && old(manager)@[device_id@].user_id != caller && final(manager)@ == old(manager)@,
        !old(manager)@.contains_key(device_id@) ==> r == Ok::<
            Option<LogPollResponse>,
            ApiError,
        >(None) && final(manager)@ == old(manager)@,
        old(manager)@.contains_key(device_id@) && old(manager)@[device_id@].status
            != LogRequestStatus::Pending ==> r == Ok::<Option<LogPollResponse>, ApiError>(None)
            && final(manager)@ == old(manager)@,
{
    let now = now_millis();
    poll_at(manager, caller, device_id, now)
}

/// Validate an upload that claims to fulfill a request, at time `now_ms`:
/// the claimed request identifier must parse, the device must have a live
/// pending request with exactly that identifier, and the caller must own
/// it. On success the parsed identifier is returned and nothing has
/// changed yet; persistence and `upload_commit` come after.
pub fn upload_validate(
    manager: &mut RequestManager,
    upload: &LogUploadRequest,
    caller: u128,
    now_ms: i64,
) -> (r: Result<u128, ApiError>)
    requires
        old(manager).wf(),
    ensures
        final(manager).wf(),
        uuid_parse_of(upload.request_id@) is None ==> r == Err::<u128, ApiError>(
            ApiError::BadRequest,
        ) && final(manager)@ == old(manager)@,
        uuid_parse_of(upload.request_id@) is Some && !spec_live_pending(
            old(manager)@,
            upload.device_id@,
            now_ms,
        ) ==> r == Err::<u128, ApiError>(ApiError::NotFound) && RequestManager::spec_polled(
            old(manager)@,
            final(manager)@,
            upload.device_id@,
            None,
            now_ms,
        ),
        uuid_parse_of(upload.request_id@) matches Some(p) ==> (spec_live_pending(
            old(manager)@,
            upload.device_id@,
            now_ms,
        ) ==> final(manager)@ == old(manager)@ && final(manager)@[upload.device_id@].status
            == LogRequestStatus::Pending && r == (if old(manager)@[upload.device_id@].id != p {
            Err::<u128, ApiError>(ApiError::BadRequest)
        } else if old(manager)@[upload.device_id@].user_id != caller {
            Err::<u128, ApiError>(ApiError::Forbidden)
        } else {
            Ok::<u128, ApiError>(p)
        })),
{
    let parsed = parse_uuid(upload.request_id.as_str());
    let request_id = match parsed {
        Some(p) => p,
        None => {
            return Err(ApiError::BadRequest);
        },
    };
    let pending = manager.get_pending_at(upload.device_id.as_str(), now_ms);
    match pending {
        Some(req) => {
            if req.id != request_id {
                return Err(ApiError::BadRequest);
            }
            if req.user_id != caller {
                return Err(ApiError::Forbidden);
            }
            Ok(request_id)
        },
        None => Err(ApiError::NotFound),
    }
}

/// Commit a validated and persisted upload at time `now_ms`: mark the
/// request fulfilled, recording where the batch was stored. A lifecycle
/// failure here means a race that the check-then-commit protocol was
/// meant to prevent, and surfaces as an internal error.
pub fn upload_commit(
    manager: &mut RequestManager,
    request_id: u128,
    file_path: String,
    now_ms: i64,
) -> (r: Result<(), ApiError>)
    requires
        old(manager).wf(),
    ensures
        final(manager).wf(),
        exists|fr: Result<(), RequestError>|
            #[trigger] RequestManager::spec_fulfill_outcome(
                old(manager)@,
                final(manager)@,
                request_id,
                file_path@,
                fr,
                now_ms,
            ) && (fr is Ok <==> r is Ok) && (fr is Err ==> r == Err::<(), ApiError>(
                ApiError::ServerError,
            )),
        r is Err ==> final(manager)@ == old(manager)@,
        r is Ok ==> exists|d: Seq<char>|
            #[trigger] old(manager)@.contains_key(d) && old(manager)@[d].id == request_id && old(manager)@[d].status == LogRequestStatus::Pending && final(manager)@ == old(manager)@.insert(
                d,
                RequestManager::spec_fulfilled(old(manager)@[d], now_ms, file_path@),
            ),
{
    let ghost pathg = file_path@;
    let fr = manager.fulfill_at(request_id, file_path, now_ms);
    proof {
        assert(RequestManager::spec_fulfill_outcome(
            old(manager)@,
            manager@,
            request_id,
            pathg,
            fr,
            now_ms,
        ));
        if fr is Err {
            if fr->Err_0 == RequestError::NotFound {
                assert(fr == Err::<(), RequestError>(RequestError::NotFound));
            } else {
                assert(fr == Err::<(), RequestError>(RequestError::AlreadyProcessed));
            }
        }
    }
    match fr {
        Ok(()) => Ok(()),
        Err(_) => Err(ApiError::ServerError),
    }
}

/// The user identifier carried by a token's claims: the subject, parsed
/// as a canonical identifier.
pub fn claims_user_id(claims: &Claims) -> (r: Result<u128, JwtError>)
    ensures
        uuid_parse_of(claims.sub@) matches Some(u) ==> r == Ok::<u128, JwtError>(u),
        uuid_parse_of(claims.sub@) is None ==> r matches Err(JwtError::InvalidUserId(_)),
{
    match parse_uuid(claims.sub.as_str()) {
        Some(u) => Ok(u),
        None => Err(JwtError::InvalidUserId(String::new())),
    }
}

/// The device an upload listing attributes to `request_id_str`: the
/// device of the first listed upload with that request identifier.
pub fn find_device_for_request(uploads: &Vec<LogUploadMetadata>, request_id_str: &str) -> (r:
    Option<String>)
    ensures
        match r {
            Some(dev) => exists|k: int|
                0 <= k < uploads@.len() && (#[trigger] uploads@[k].request_id@)
                    == request_id_str@ && dev@ == uploads@[k].device_id@,
            None => forall|j: int|
                0 <= j < uploads@.len() ==> (#[trigger] uploads@[j].request_id@)
                    != request_id_str@,
        },
{
    let mut i: usize = 0;
    while i < uploads.len()
        invariant
            i <= uploads@.len(),
            forall|j: int| 0 <= j < i ==> (#[trigger] uploads@[j].request_id@) != request_id_str@,
        decreases uploads@.len() - i,
    {
        if str_eq(uploads[i].request_id.as_str(), request_id_str) {
            return Some(uploads[i].device_id.clone());
        }
        i = i + 1;
    }
    None
}

} // verus!
