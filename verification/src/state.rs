//! The server-wide shared aggregate: the authentication credential, the
//! device registry, and the session store, together with the state
//! transitions the request handlers perform while holding the server-wide
//! reader/writer guard. The guard itself and all I/O (the session file,
//! the device driver's network traffic) belong to the caller; every
//! decision — whether a login matches, which device a refresh touches,
//! how a driver outcome is surfaced — is made here, under contract.

use vstd::prelude::*;

use crate::errors::{ApiError, ApiResult};
use crate::registry::{bump, DeviceRegistry};
use crate::sessions::{lemma_store_round_trip, spec_decode, spec_encode, wf_token, SessionStore};

verus! {

/// The single mutable aggregate of the process. Handlers reach it only
/// through a guard: shared for reads, exclusive for login persistence and
/// session refresh.
pub struct SharedState {
    credential: String,
    registry: DeviceRegistry,
    store: SessionStore,
}

impl SharedState {
    /// The configured secret a login candidate must match.
    pub closed spec fn spec_credential(self) -> Seq<char> {
        self.credential@
    }

    /// The registry's model: per device, its name and refresh count.
    pub closed spec fn registry_model(self) -> Seq<(Seq<char>, u64)> {
        self.registry.model()
    }

    /// The sessions issued so far.
    pub closed spec fn sessions(self) -> Seq<Seq<u8>> {
        self.store.sessions()
    }

    pub open spec fn wf(self) -> bool {
        crate::registry::wf_model(self.registry_model())
    }

    /// Assembles the aggregate at startup from the resolved credential,
    /// the configured device list, and the session store read back from
    /// disk.
    pub fn init(credential: String, device_names: Vec<String>, store: SessionStore) -> (r:
        SharedState)
        ensures
            r.wf(),
            r.spec_credential() == credential@,
            r.sessions() == store.sessions(),
            forall|n: Seq<char>|
                #[trigger] crate::registry::model_contains(r.registry_model(), n) <==> (exists|
                    i: int,
                |
                    0 <= i < device_names@.len() && device_names@[i]@ == n),
            forall|i: int| 0 <= i < r.registry_model().len() ==> r.registry_model()[i].1 == 0,
    {
        let ghost dn = device_names@;
        let registry = DeviceRegistry::new(device_names);
        let r = SharedState { credential, registry, store };
        proof {
            assert forall|n: Seq<char>|
                #[trigger] crate::registry::model_contains(r.registry_model(), n) <==> (exists|
                    i: int,
                |
                    0 <= i < dn.len() && dn[i]@ == n) by {
                assert(r.registry.contains_name(n) <==> (exists|i: int|
                    0 <= i < dn.len() && dn[i]@ == n));
            }
        }
        r
    }

    /// Read-only access to the registry, for handlers holding the shared
    /// guard.
    pub fn registry(&self) -> (r: &DeviceRegistry)
        ensures
            r.model() == self.registry_model(),
    {
        &self.registry
    }

    /// Read-only access to the session store.
    pub fn store(&self) -> (r: &SessionStore)
        ensures
            r.sessions() == self.sessions(),
    {
        &self.store
    }

    /// The first half of a login: checks the candidate against the
    /// credential. Succeeds exactly on an exact match, and then yields
    /// the bytes the session file must hold once this token is issued;
    /// any other candidate is `Unauthorized`, and nothing — in memory or
    /// on disk — may change on its account. The caller writes the bytes
    /// durably and only then commits the token with `login_commit`.
    pub fn login_begin(&self, candidate: &String, token: &Vec<u8>) -> (r: ApiResult<Vec<u8>>)
        ensures
            r is Ok <==> candidate@ == self.spec_credential(),
            r matches Ok(b) ==> b@ == spec_encode(self.sessions().push(token@)),
            r matches Err(e) ==> e is Unauthorized,
    {
        if *candidate == self.credential {
            Ok(self.store.encoded_with(token))
        } else {
            Err(ApiError::Unauthorized)
        }
    }

    /// The second half of a login: the caller reports whether the durable
    /// write succeeded. On success the session enters memory, so memory
    /// and disk agree; on a write failure nothing changes in memory —
    /// memory never runs ahead of disk — and the failure is surfaced
    /// with its cause.
    pub fn login_commit(&mut self, token: Vec<u8>, write_result: Result<(), String>) -> (r:
        ApiResult<()>)
        ensures
            write_result is Ok ==> (r is Ok
                && final(self).sessions() == old(self).sessions().push(token@)
                && final(self).spec_credential() == old(self).spec_credential()
                && final(self).registry_model() == old(self).registry_model()),
            write_result matches Err(e) ==> (r matches Err(err)
                && (err matches ApiError::PersistenceFailure { cause } && cause@ == e@)
                && *final(self) == *old(self)),
    {
        match write_result {
            Ok(()) => {
                self.store.add(token);
                Ok(())
            },
            Err(cause) => Err(ApiError::PersistenceFailure { cause }),
        }
    }

    /// Resolves a device name for a handler (the action router under the
    /// shared guard, the refresh handler under the exclusive one).
    /// Succeeds exactly when the name is registered, with the index of
    /// the device bearing it; an unknown name is `NotFound`, carrying
    /// the offending name, and no device is touched.
    pub fn find_device(&self, device: &String) -> (r: ApiResult<usize>)
        ensures
            r matches Ok(i) ==> (i < self.registry_model().len()
                && self.registry_model()[i as int].0 == device@),
            r is Ok <==> crate::registry::model_contains(self.registry_model(), device@),
            r matches Err(e) ==> (e matches ApiError::NotFound { device: d } && d@ == device@),
    {
        match self.registry.lookup(device) {
            Some(i) => Ok(i),
            None => Err(ApiError::NotFound { device: device.clone() }),
        }
    }

    /// The tail of a session refresh: the caller has invoked the driver's
    /// refresh operation for the device `find_device` resolved, exactly
    /// once, and reports its outcome. On success exactly that device's
    /// bookkeeping moves on; on a driver failure nothing in the registry
    /// changes and the failure is surfaced as `UpstreamFailure` with its
    /// cause. Sessions and credential are untouched either way.
    pub fn refresh_finish(&mut self, i: usize, driver_result: Result<(), String>) -> (r: ApiResult<
        (),
    >)
        requires
            i < old(self).registry_model().len(),
        ensures
            driver_result is Ok ==> (r is Ok && final(self).registry_model() == bump(
                old(self).registry_model(),
                i as int,
            )),
            driver_result matches Err(e) ==> (r matches Err(err) && (err matches
                ApiError::UpstreamFailure { cause } && cause@ == e@) && *final(self) == *old(self)),
            final(self).spec_credential() == old(self).spec_credential(),
            final(self).sessions() == old(self).sessions(),
            old(self).wf() ==> final(self).wf(),
    {
        match driver_result {
            Ok(()) => {
                proof {
                    if old(self).wf() {
                        crate::registry::lemma_refresh_touches_exactly_one(
                            old(self).registry_model(),
                            i as int,
                        );
                    }
                }
                self.registry.record_refresh(i);
                Ok(())
            },
            Err(cause) => Err(ApiError::UpstreamFailure { cause }),
        }
    }
}

/// Law: a successful login leaves disk and memory agreed. `login_begin`
/// hands the caller `bytes` for the session file and, once the write is
/// confirmed, `login_commit` leaves `post` in memory; decoding those very
/// bytes yields exactly the sessions `post` holds, so the file on disk
/// and the in-memory store never diverge after a successful login.
pub proof fn lemma_login_keeps_disk_and_memory_agreed(
    pre: SharedState,
    token: Seq<u8>,
    bytes: Seq<u8>,
    post: SharedState,
)
    requires
        forall|i: int| 0 <= i < pre.sessions().len() ==> wf_token(#[trigger] pre.sessions()[i]),
        wf_token(token),
        bytes == spec_encode(pre.sessions().push(token)),
        post.sessions() == pre.sessions().push(token),
    ensures
        spec_decode(bytes) == Some(post.sessions()),
{
    let all = pre.sessions().push(token);
    assert forall|i: int| 0 <= i < all.len() implies wf_token(#[trigger] all[i]) by {
        if i < pre.sessions().len() {
            assert(all[i] == pre.sessions()[i]);
        } else {
            assert(all[i] == token);
        }
    }
    lemma_store_round_trip(all);
}

/// Surfaces the outcome of a device action the driver ran for the action
/// router: the driver's reply passes through unchanged, a driver failure
/// becomes `UpstreamFailure` with the cause preserved.
pub fn action_outcome(outcome: Result<String, String>) -> (r: ApiResult<String>)
    ensures
        outcome matches Ok(v) ==> (r matches Ok(x) && x == v),
        outcome matches Err(e) ==> (r matches Err(err) && (err matches ApiError::UpstreamFailure {
            cause,
        } && cause@ == e@)),
{
    match outcome {
        Ok(v) => Ok(v),
        Err(cause) => Err(ApiError::UpstreamFailure { cause }),
    }
}

} // verus!
