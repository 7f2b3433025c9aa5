//! Bringing a shared replica to local disk, and putting a local one into shared
//! storage.
use crate::error::{failure, EngineError, ErrorCode, ErrorView, MeshError};
use crate::json::{filled_at, JsonMap, ObjectView};
use crate::mesh::migration::{invalid, MeshErrorView};
use crate::mesh::publish::opt_failure;
use crate::mesh::records::{same_checkpoint, same_object, ReplicaRecord, ReplicaView};
use crate::mesh::replicas::{all_hex, object_key, replica_object_key};
use crate::paths::{file_name, final_component, join_path, joined_path, law_final_component_is_plain};
use crate::text::{cat2, text_eq};
use vstd::prelude::*;

verus! {

/// The steps by which a shared replica is brought to local disk.
#[derive(Clone, Copy, Debug, PartialEq, Eq, Structural)]
pub enum FetchStep {
    /// Is the local copy there, with the right digest (`Present` or `Absent`)?
    CheckLocal,
    /// Is the cached copy there (`Present`, `Absent`, or `Corrupt` where its digest
    /// is wrong)?
    CheckCached,
    /// Is the cache root a plain directory (`Present`), or not (`Corrupt`)? (`Error`)
    InspectCorrupt,
    /// Remove the corrupt cache root (`Done` or `Error`).
    RemoveCorrupt,
    /// Keep the shared object from being removed (`Done` or `Error`).
    AcquireRead,
    /// Look up the shared object (`Done` or `Error`).
    Head,
    /// Open the encryption key (`Done` or `Error`).
    OpenKey,
    /// Unpack the object into a fresh directory (`Done` or `Error`).
    Download,
    /// Compare the digest of what was unpacked (`Done` or `Error`).
    VerifyStaged,
    /// Remove what was unpacked (any reply).
    DropStaged,
    /// Give the unpacked checkpoint its name (`Done` or `Error`).
    NameStaged,
    /// Is the cache root a plain directory (`Present`), something else (`Corrupt`),
    /// or not there (`Absent`)? (`Error`)
    InspectRoot,
    /// Remove the cache root (`Done` or `Error`).
    RemoveRoot,
    /// Move what was unpacked into the place of the cache root (`Done` or `Error`).
    Install,
    /// Write the replica's record (`Done` or `Error`).
    PutRecord,
    /// The replica is here.
    Finished,
    /// It is not; see the error.
    Failed,
}

/// What came of a step.
pub enum FetchReply {
    Present,
    Absent,
    Corrupt,
    Done,
    Error(EngineError),
}

/// The value of a [`FetchReply`].
pub enum FetchReplyView {
    Present,
    Absent,
    Corrupt,
    Done,
    Error(ErrorView),
}

impl View for FetchReply {
    type V = FetchReplyView;

    open spec fn view(&self) -> FetchReplyView {
        match self {
            FetchReply::Present => FetchReplyView::Present,
            FetchReply::Absent => FetchReplyView::Absent,
            FetchReply::Corrupt => FetchReplyView::Corrupt,
            FetchReply::Done => FetchReplyView::Done,
            FetchReply::Error(e) => FetchReplyView::Error(e@),
        }
    }
}

/// Whether `reply` is one that `step` can have.
pub open spec fn fetch_accepts(step: FetchStep, reply: FetchReplyView) -> bool {
    match step {
        FetchStep::CheckLocal => reply is Present || reply is Absent,
        FetchStep::CheckCached => reply is Present || reply is Absent || reply is Corrupt,
        FetchStep::InspectCorrupt => reply is Present || reply is Corrupt || reply is Error,
        FetchStep::InspectRoot => reply is Present || reply is Corrupt || reply is Absent || reply is Error,
        FetchStep::Finished | FetchStep::Failed => false,
        _ => reply is Done || reply is Error,
    }
}

/// The parameters under which a replica is used: those of the local record, which
/// holds the secrets, where it is about the same checkpoint; else the shared ones.
pub open spec fn usable_params(shared: ReplicaView, local: Option<ReplicaView>, secrets_ready: bool) -> ObjectView {
    if shared.needs_secrets && local is Some && same_checkpoint(local->0, shared) && secrets_ready {
        local->0.params
    } else {
        shared.params
    }
}

/// What is known about a replica that is being brought here. `shared` is its
/// record, `local` the record of the local copy of the same bytes; `root` the
/// directory of its cache; `secrets_ready`, `has_storage` and `has_store` say
/// what the node has.
pub struct ReplicaFetch {
    shared: ReplicaRecord,
    local: Option<ReplicaRecord>,
    secrets_ready: bool,
    has_storage: bool,
    has_store: bool,
    root: String,
    name: String,
    step: FetchStep,
    error: Option<EngineError>,
}

/// The value of a [`ReplicaFetch`].
pub struct FetchView {
    pub shared: ReplicaView,
    pub local: Option<ReplicaView>,
    pub secrets_ready: bool,
    pub has_storage: bool,
    pub has_store: bool,
    pub root: Seq<char>,
    pub name: Seq<char>,
    pub step: FetchStep,
    pub error: Option<ErrorView>,
}

/// The value of an optional replica record.
pub open spec fn opt_replica(o: Option<ReplicaRecord>) -> Option<ReplicaView> {
    match o {
        Some(r) => Some(r@),
        None => None,
    }
}

impl View for ReplicaFetch {
    type V = FetchView;

    closed spec fn view(&self) -> FetchView {
        FetchView {
            shared: self.shared@,
            local: opt_replica(self.local),
            secrets_ready: self.secrets_ready,
            has_storage: self.has_storage,
            has_store: self.has_store,
            root: self.root@,
            name: self.name@,
            step: self.step,
            error: opt_failure(self.error),
        }
    }
}

/// The failed state with `error`.
pub open spec fn fetch_failed(v: FetchView, error: ErrorView) -> FetchView {
    FetchView { step: FetchStep::Failed, error: Some(error), ..v }
}

/// The state at `step`.
pub open spec fn fetch_at(v: FetchView, step: FetchStep) -> FetchView {
    FetchView { step, ..v }
}

/// The state once no usable local copy was found: the cache comes next.
pub open spec fn cache_next(v: FetchView) -> FetchView {
    let w = FetchView {
        shared: ReplicaView { params: usable_params(v.shared, v.local, v.secrets_ready), ..v.shared },
        ..v
    };
    match final_component(v.shared.snapshot_dir) {
        Some(name) => FetchView { name, step: FetchStep::CheckCached, ..w },
        None => fetch_failed(
            w,
            failure(ErrorCode::Invalid, "replica snapshot path has no valid final component"@),
        ),
    }
}

/// The state once the cache was found empty: the object has to be fetched.
pub open spec fn download_next(v: FetchView) -> FetchView {
    if !v.has_storage {
        fetch_failed(v, failure(ErrorCode::Engine, "shared replica requires S3"@))
    } else if !v.has_store {
        fetch_failed(
            v,
            failure(ErrorCode::Engine, "shared replica read requires the fenced cluster store"@),
        )
    } else {
        fetch_at(v, FetchStep::AcquireRead)
    }
}

/// The state once the checkpoint lies in the cache.
pub open spec fn cached(v: FetchView) -> FetchView {
    FetchView {
        shared: ReplicaView { snapshot_dir: joined_path(v.root, v.name), ..v.shared },
        step: FetchStep::PutRecord,
        ..v
    }
}

/// The error that something else than a plain directory is in the cache's place.
pub open spec fn uncontrolled() -> ErrorView {
    failure(ErrorCode::Invalid, "replica cache root is not a controlled directory"@)
}

/// The state after the present step had `reply`.
pub open spec fn fetch_moved(v: FetchView, reply: FetchReplyView) -> FetchView {
    match (v.step, reply) {
        (FetchStep::VerifyStaged, FetchReplyView::Error(e)) => FetchView {
            step: FetchStep::DropStaged,
            error: Some(e),
            ..v
        },
        (FetchStep::DropStaged, _) => fetch_at(v, FetchStep::Failed),
        (FetchStep::Head, FetchReplyView::Error(e)) => fetch_failed(
            v,
            failure(ErrorCode::Engine, "reading shared replica: "@ + e.message),
        ),
        (_, FetchReplyView::Error(e)) => fetch_failed(v, e),
        (FetchStep::CheckLocal, FetchReplyView::Present) => FetchView {
            shared: ReplicaView {
                snapshot_dir: match v.local {
                    Some(l) => l.snapshot_dir,
                    None => v.shared.snapshot_dir,
                },
                params: usable_params(v.shared, v.local, v.secrets_ready),
                ..v.shared
            },
            step: FetchStep::PutRecord,
            ..v
        },
        (FetchStep::CheckLocal, _) => cache_next(v),
        (FetchStep::CheckCached, FetchReplyView::Present) => cached(v),
        (FetchStep::CheckCached, FetchReplyView::Corrupt) => fetch_at(v, FetchStep::InspectCorrupt),
        (FetchStep::CheckCached, _) => download_next(v),
        (FetchStep::InspectCorrupt, FetchReplyView::Corrupt) => fetch_failed(v, uncontrolled()),
        (FetchStep::InspectCorrupt, _) => fetch_at(v, FetchStep::RemoveCorrupt),
        (FetchStep::RemoveCorrupt, _) => download_next(v),
        (FetchStep::AcquireRead, _) => fetch_at(v, FetchStep::Head),
        (FetchStep::Head, _) => if filled_at(v.shared.params, "encryption_key_id"@) is None {
            fetch_failed(v, failure(ErrorCode::Invalid, "shared replica requires encryption_key_id"@))
        } else {
            fetch_at(v, FetchStep::OpenKey)
        },
        (FetchStep::OpenKey, _) => fetch_at(v, FetchStep::Download),
        (FetchStep::Download, _) => fetch_at(v, FetchStep::VerifyStaged),
        (FetchStep::VerifyStaged, _) => fetch_at(v, FetchStep::NameStaged),
        (FetchStep::NameStaged, _) => fetch_at(v, FetchStep::InspectRoot),
        (FetchStep::InspectRoot, FetchReplyView::Corrupt) => fetch_failed(v, uncontrolled()),
        (FetchStep::InspectRoot, FetchReplyView::Present) => fetch_at(v, FetchStep::RemoveRoot),
        (FetchStep::InspectRoot, _) => fetch_at(v, FetchStep::Install),
        (FetchStep::RemoveRoot, _) => fetch_at(v, FetchStep::Install),
        (FetchStep::Install, _) => cached(v),
        (FetchStep::PutRecord, _) => fetch_at(v, FetchStep::Finished),
        _ => v,
    }
}

/// Whether the state is one that a fetch can be in: a name to be joined is a
/// plain one.
pub open spec fn fetch_ready(v: FetchView) -> bool {
    v.name.len() > 0 ==> v.name[0] != '/'
}

impl ReplicaFetch {
    /// Begins to bring the replica of `shared` here. `local` is the record of the
    /// local replica of the same sandbox; it counts only where it is about the
    /// same bytes.
    pub fn new(
        shared: ReplicaRecord,
        local: Option<ReplicaRecord>,
        secrets_ready: bool,
        has_storage: bool,
        has_store: bool,
        root: String,
    ) -> (r: ReplicaFetch)
        ensures
            fetch_ready(r@),
            ({
                let kept = match local {
                    Some(l) => if same_object(l@, shared@) {
                        Some(l@)
                    } else {
                        None
                    },
                    None => None,
                };
                let v = FetchView {
                    shared: shared@,
                    local: kept,
                    secrets_ready,
                    has_storage,
                    has_store,
                    root: root@,
                    name: Seq::empty(),
                    step: FetchStep::CheckLocal,
                    error: None,
                };
                r@ == if kept is Some {
                    v
                } else {
                    cache_next(v)
                }
            }),
    {
        let kept = match local {
            Some(l) => if l.same_object_as(&shared) {
                Some(l)
            } else {
                None
            },
            None => None,
        };
        let found = kept.is_some();
        let mut fetch = ReplicaFetch {
            shared,
            local: kept,
            secrets_ready,
            has_storage,
            has_store,
            root,
            name: String::new(),
            step: FetchStep::CheckLocal,
            error: None,
        };
        if !found {
            fetch.go_to_cache();
        }
        fetch
    }

    /// The step to perform.
    pub fn step(&self) -> (r: FetchStep)
        ensures
            r == self@.step,
    {
        self.step
    }

    /// The record as it stands.
    pub fn record(&self) -> (r: &ReplicaRecord)
        ensures
            r@ == self@.shared,
    {
        &self.shared
    }

    /// The name that the checkpoint has in the cache.
    pub fn name(&self) -> (r: &String)
        ensures
            r@ == self@.name,
    {
        &self.name
    }

    /// Why the replica is not here.
    pub fn error(self) -> (r: Option<EngineError>)
        ensures
            opt_failure(r) == self@.error,
    {
        self.error
    }

    fn take_local_params(&mut self)
        ensures
            final(self)@ == (FetchView {
                shared: ReplicaView {
                    params: usable_params(old(self)@.shared, old(self)@.local, old(self)@.secrets_ready),
                    ..old(self)@.shared
                },
                ..old(self)@
            }),
    {
        let params = match &self.local {
            Some(l) => if self.shared.needs_secrets && l.same_checkpoint_as(&self.shared) && self.secrets_ready {
                Some(l.params.clone())
            } else {
                None
            },
            None => None,
        };
        if let Some(p) = params {
            self.shared.params = p;
        }
    }

    fn go_to_cache(&mut self)
        ensures
            final(self)@ == cache_next(old(self)@),
            fetch_ready(old(self)@) ==> fetch_ready(final(self)@),
    {
        self.take_local_params();
        match file_name(self.shared.snapshot_dir.as_str()) {
            Some(name) => {
                proof {
                    law_final_component_is_plain(self.shared.snapshot_dir@);
                    assert(name@.contains(name@[0]));
                }
                self.name = name;
                self.step = FetchStep::CheckCached;
            },
            None => self.fail(
                EngineError::invalid("replica snapshot path has no valid final component".to_owned()),
            ),
        }
    }

    fn fail(&mut self, error: EngineError)
        ensures
            final(self)@ == fetch_failed(old(self)@, error@),
    {
        self.error = Some(error);
        self.step = FetchStep::Failed;
    }

    fn go_to_download(&mut self)
        ensures
            final(self)@ == download_next(old(self)@),
    {
        if !self.has_storage {
            self.fail(EngineError::engine("shared replica requires S3".to_owned()));
        } else if !self.has_store {
            self.fail(
                EngineError::engine("shared replica read requires the fenced cluster store".to_owned()),
            );
        } else {
            self.step = FetchStep::AcquireRead;
        }
    }

    fn use_cached(&mut self)
        requires
            fetch_ready(old(self)@),
        ensures
            final(self)@ == cached(old(self)@),
    {
        self.shared.snapshot_dir = join_path(self.root.as_str(), self.name.as_str());
        self.step = FetchStep::PutRecord;
    }

    fn reject_root(&mut self)
        ensures
            final(self)@ == fetch_failed(old(self)@, uncontrolled()),
    {
        self.fail(EngineError::invalid("replica cache root is not a controlled directory".to_owned()));
    }

    /// Takes what came of the step and moves on.
    pub fn resume(&mut self, reply: FetchReply)
        requires
            fetch_accepts(old(self)@.step, reply@),
            fetch_ready(old(self)@),
        ensures
            final(self)@ == fetch_moved(old(self)@, reply@),
            fetch_ready(final(self)@),
    {
        let step = self.step;
        match reply {
            FetchReply::Error(e) => match step {
                FetchStep::VerifyStaged => {
                    self.error = Some(e);
                    self.step = FetchStep::DropStaged;
                },
                FetchStep::DropStaged => {
                    self.step = FetchStep::Failed;
                },
                FetchStep::Head => {
                    let message = cat2("reading shared replica: ", e.message.as_str());
                    self.fail(EngineError::engine(message));
                },
                _ => self.fail(e),
            },
            FetchReply::Present => match step {
                FetchStep::CheckLocal => {
                    self.take_local_params();
                    let dir = match &self.local {
                        Some(l) => Some(l.snapshot_dir.clone()),
                        None => None,
                    };
                    if let Some(d) = dir {
                        self.shared.snapshot_dir = d;
                    }
                    self.step = FetchStep::PutRecord;
                },
                FetchStep::CheckCached => self.use_cached(),
                FetchStep::InspectCorrupt => {
                    self.step = FetchStep::RemoveCorrupt;
                },
                _ => {
                    self.step = FetchStep::RemoveRoot;
                },
            },
            FetchReply::Absent => match step {
                FetchStep::CheckLocal => self.go_to_cache(),
                FetchStep::CheckCached => self.go_to_download(),
                _ => {
                    self.step = FetchStep::Install;
                },
            },
            FetchReply::Corrupt => match step {
                FetchStep::CheckCached => {
                    self.step = FetchStep::InspectCorrupt;
                },
                _ => self.reject_root(),
            },
            FetchReply::Done => match step {
                FetchStep::RemoveCorrupt => self.go_to_download(),
                FetchStep::AcquireRead => {
                    self.step = FetchStep::Head;
                },
                FetchStep::Head => {
                    if self.shared.params.filled_at("encryption_key_id").is_none() {
                        self.fail(
                            EngineError::invalid("shared replica requires encryption_key_id".to_owned()),
                        );
                    } else {
                        self.step = FetchStep::OpenKey;
                    }
                },
                FetchStep::OpenKey => {
                    self.step = FetchStep::Download;
                },
                FetchStep::Download => {
                    self.step = FetchStep::VerifyStaged;
                },
                FetchStep::VerifyStaged => {
                    self.step = FetchStep::NameStaged;
                },
                FetchStep::DropStaged => {
                    self.step = FetchStep::Failed;
                },
                FetchStep::NameStaged => {
                    self.step = FetchStep::InspectRoot;
                },
                FetchStep::RemoveRoot => {
                    self.step = FetchStep::Install;
                },
                FetchStep::Install => self.use_cached(),
                _ => {
                    self.step = FetchStep::Finished;
                },
            },
        }
    }
}

/// Nothing becomes usable that was not verified: a replica is recorded only where
/// its local or cached copy had the right digest, or was installed; and what is
/// installed had the right digest when it was unpacked.
pub proof fn law_used_replica_is_verified(v: FetchView, reply: FetchReplyView)
    requires
        fetch_accepts(v.step, reply),
    ensures
        fetch_moved(v, reply).step == FetchStep::PutRecord ==> ((v.step == FetchStep::CheckLocal || v.step
            == FetchStep::CheckCached) && reply is Present) || (v.step == FetchStep::Install && reply is Done),
        fetch_moved(v, reply).step == FetchStep::Install ==> v.step == FetchStep::InspectRoot || v.step
            == FetchStep::RemoveRoot,
        fetch_moved(v, reply).step == FetchStep::InspectRoot ==> v.step == FetchStep::NameStaged && reply is Done,
        fetch_moved(v, reply).step == FetchStep::NameStaged ==> v.step == FetchStep::VerifyStaged && reply is Done,
{
}

/// The directory of the cache is removed only where it is a plain directory.
pub proof fn law_only_plain_roots_are_removed(v: FetchView, reply: FetchReplyView)
    requires
        fetch_accepts(v.step, reply),
    ensures
        fetch_moved(v, reply).step == FetchStep::RemoveCorrupt ==> v.step == FetchStep::InspectCorrupt
            && reply is Present,
        fetch_moved(v, reply).step == FetchStep::RemoveRoot ==> v.step == FetchStep::InspectRoot
            && reply is Present,
{
}

/// Secrets of another checkpoint are never used with a replica.
pub proof fn law_secrets_belong_to_checkpoint(
    shared: ReplicaView,
    local: Option<ReplicaView>,
    secrets_ready: bool,
)
    requires
        local is None || !same_checkpoint(local->0, shared) || !secrets_ready || !shared.needs_secrets,
    ensures
        usable_params(shared, local, secrets_ready) == shared.params,
{
}

/// A shared record with what the node has of it: the directory of its copy, and
/// the secrets where the replica needs them.
pub fn refresh_replica_metadata(
    shared: ReplicaRecord,
    local_snapshot_dir: Option<&str>,
    local_secrets: Option<&JsonMap>,
) -> (r: ReplicaRecord)
    ensures
        r@ == (ReplicaView {
            snapshot_dir: match local_snapshot_dir {
                Some(d) => d@,
                None => shared@.snapshot_dir,
            },
            params: match local_secrets {
                Some(s) => if shared@.needs_secrets && s@.contains_key("secrets"@) {
                    shared@.params.insert("secrets"@, s@["secrets"@])
                } else {
                    shared@.params
                },
                None => shared@.params,
            },
            ..shared@
        }),
{
    let mut record = shared;
    if let Some(dir) = local_snapshot_dir {
        record.snapshot_dir = dir.to_owned();
    }
    if record.needs_secrets {
        if let Some(params) = local_secrets {
            if let Some(secrets) = params.get("secrets") {
                record.params.insert("secrets".to_owned(), secrets.clone());
            }
        }
    }
    record
}

/// Whether the node's copy of a replica's secrets is complete. `shared` is the
/// shared record, `local` the local one; without a shared store (`clustered`) the
/// local state alone decides.
pub fn secrets_ready(
    clustered: bool,
    shared: Option<&ReplicaRecord>,
    local: Option<&ReplicaRecord>,
    local_ready: bool,
) -> (r: bool)
    ensures
        r == if !clustered {
            local_ready
        } else {
            shared is Some && (!shared->0.needs_secrets || (local is Some && same_object(
                local->0@,
                shared->0@,
            ) && local_ready))
        },
{
    if !clustered {
        return local_ready;
    }
    match shared {
        None => false,
        Some(s) => if !s.needs_secrets {
            true
        } else {
            match local {
                Some(l) => l.same_object_as(s) && local_ready,
                None => false,
            }
        },
    }
}

/// Whether the local record is outdated: no shared record is about its sandbox
/// and object, and its copy is not in use.
pub fn is_stale_replica(local: &ReplicaRecord, shared: &Vec<ReplicaRecord>, in_use: bool) -> (r: bool)
    ensures
        r == (!in_use && forall|i: int|
            0 <= i < shared@.len() ==> !((#[trigger] shared@[i])@.sid == local@.sid && shared@[i]@.object_key
                == local@.object_key)),
{
    let mut i: usize = 0;
    while i < shared.len()
        invariant
            i <= shared@.len(),
            forall|j: int|
                0 <= j < i ==> !((#[trigger] shared@[j])@.sid == local@.sid && shared@[j]@.object_key
                    == local@.object_key),
        decreases shared@.len() - i,
    {
        if text_eq(shared[i].sid.as_str(), local.sid.as_str()) && text_eq(
            shared[i].object_key.as_str(),
            local.object_key.as_str(),
        ) {
            assert(shared@[i as int]@.sid == local@.sid);
            return false;
        }
        i = i + 1;
    }
    !in_use
}

/// The encryption key that a replica in shared storage must name.
pub fn replica_key_id(params: &JsonMap) -> (r: Result<String, MeshError>)
    ensures
        match r {
            Ok(k) => filled_at(params@, "encryption_key_id"@) == Some(k@),
            Err(e) => filled_at(params@, "encryption_key_id"@) is None && e@ == invalid(
                "production replica storage requires encryption_key_id"@,
            ),
        },
{
    match params.filled_at("encryption_key_id") {
        Some(k) => Ok(k),
        None => Err(MeshError::invalid("production replica storage requires encryption_key_id")),
    }
}

/// The encryption key that a replica for other nodes must name: one that they can
/// have.
pub fn portable_key_id(params: &JsonMap) -> (r: Result<String, EngineError>)
    ensures
        match r {
            Ok(k) => filled_at(params@, "encryption_key_id"@) == Some(k@) && k@ != "default"@,
            Err(e) => (filled_at(params@, "encryption_key_id"@) is None || filled_at(
                params@,
                "encryption_key_id"@,
            ) == Some("default"@)) && e@ == failure(
                ErrorCode::Invalid,
                "portable replica requires a non-local encryption_key_id"@,
            ),
        },
{
    match params.filled_at("encryption_key_id") {
        Some(k) => if text_eq(k.as_str(), "default") {
            Err(EngineError::invalid("portable replica requires a non-local encryption_key_id".to_owned()))
        } else {
            Ok(k)
        },
        None => Err(
            EngineError::invalid("portable replica requires a non-local encryption_key_id".to_owned()),
        ),
    }
}

/// Why a replica may not be put under `key`: the key is not the one that belongs
/// to its digest and encryption key, or its generation is out of range.
pub open spec fn put_refusal(
    key: Seq<char>,
    namespace: Seq<char>,
    digest: Seq<char>,
    scope: Seq<char>,
    source_epoch: u64,
) -> Option<MeshErrorView> {
    if digest.len() == 0 || !all_hex(digest) {
        Some(invalid("replica digest is invalid"@))
    } else if key != object_key(namespace, scope, digest) {
        Some(invalid("replica object key does not match its key scope"@))
    } else if source_epoch > i64::MAX {
        Some(invalid("replica source epoch exceeds i64"@))
    } else {
        None
    }
}

/// The generation with which a replica may be put under `object_key`.
pub fn replica_put_admitted(
    object_key: &str,
    namespace: &str,
    digest: &str,
    scope: &str,
    source_epoch: u64,
) -> (r: Result<i64, MeshError>)
    ensures
        match r {
            Ok(epoch) => put_refusal(object_key@, namespace@, digest@, scope@, source_epoch) is None && epoch
                == source_epoch,
            Err(e) => put_refusal(object_key@, namespace@, digest@, scope@, source_epoch) == Some(e@),
        },
{
    let expected = match replica_object_key(namespace, digest, scope) {
        Ok(k) => k,
        Err(e) => return Err(crate::error::engine_to_mesh(e)),
    };
    if !text_eq(object_key, expected.as_str()) {
        return Err(MeshError::invalid("replica object key does not match its key scope"));
    }
    if source_epoch > i64::MAX as u64 {
        return Err(MeshError::invalid("replica source epoch exceeds i64"));
    }
    Ok(source_epoch as i64)
}

/// The steps by which a replica is put.
#[derive(Clone, Copy, Debug, PartialEq, Eq, Structural)]
pub enum PutStep {
    /// Acquire the exclusive right to publish under the key.
    AcquirePublication,
    /// Publish the checkpoint.
    Publish,
    /// Make the published replica the authoritative one.
    CommitPublication,
    /// Write the local record.
    PutLocal,
    /// The replica is put.
    Finished,
    /// It is not.
    Failed,
}

/// The step after `step`, which succeeded or not.
pub open spec fn put_next(step: PutStep, ok: bool) -> PutStep {
    match step {
        PutStep::Finished => PutStep::Finished,
        PutStep::Failed => PutStep::Failed,
        _ => if !ok {
            PutStep::Failed
        } else {
            match step {
                PutStep::AcquirePublication => PutStep::Publish,
                PutStep::Publish => PutStep::CommitPublication,
                PutStep::CommitPublication => PutStep::PutLocal,
                _ => PutStep::Finished,
            }
        },
    }
}

/// The first step: without shared storage only the local record is written.
pub fn put_begins(clustered: bool) -> (r: PutStep)
    ensures
        r == if clustered {
            PutStep::AcquirePublication
        } else {
            PutStep::PutLocal
        },
{
    if clustered {
        PutStep::AcquirePublication
    } else {
        PutStep::PutLocal
    }
}

pub fn put_continues(step: PutStep, ok: bool) -> (r: PutStep)
    ensures
        r == put_next(step, ok),
{
    match step {
        PutStep::Finished => PutStep::Finished,
        PutStep::Failed => PutStep::Failed,
        _ => if !ok {
            PutStep::Failed
        } else {
            match step {
                PutStep::AcquirePublication => PutStep::Publish,
                PutStep::Publish => PutStep::CommitPublication,
                PutStep::CommitPublication => PutStep::PutLocal,
                _ => PutStep::Finished,
            }
        },
    }
}

/// A replica becomes authoritative only once it is published, and the local
/// record of a clustered node is written only after that.
pub proof fn law_commit_follows_publish(step: PutStep, ok: bool)
    ensures
        put_next(step, ok) == PutStep::CommitPublication ==> step == PutStep::Publish && ok,
        put_next(step, ok) == PutStep::PutLocal ==> step == PutStep::CommitPublication && ok,
        put_next(step, ok) == PutStep::Publish ==> step == PutStep::AcquirePublication && ok,
{
}

/// Where its steps succeed, fetching a replica that is neither local nor cached goes in
/// this order: it keeps the object from being removed, looks it up, opens its key,
/// unpacks it, compares its digest, names it, takes the place of what is in the cache
/// and is recorded.
pub proof fn law_fetch_goes_in_order(v: FetchView, key: Seq<char>)
    requires
        v.has_storage,
        v.has_store,
        v.shared.params.contains_key("encryption_key_id"@),
        v.shared.params["encryption_key_id"@] == crate::json::JsonView::Str(key),
        key.len() > 0,
    ensures
        ({
            let at = |step: FetchStep| (FetchView { step, ..v });
            &&& fetch_moved(at(FetchStep::CheckLocal), FetchReplyView::Present).step == FetchStep::PutRecord
            &&& fetch_moved(at(FetchStep::CheckCached), FetchReplyView::Present).step == FetchStep::PutRecord
            &&& fetch_moved(at(FetchStep::CheckCached), FetchReplyView::Absent).step == FetchStep::AcquireRead
            &&& fetch_moved(at(FetchStep::CheckCached), FetchReplyView::Corrupt).step == FetchStep::InspectCorrupt
            &&& fetch_moved(at(FetchStep::InspectCorrupt), FetchReplyView::Present).step == FetchStep::RemoveCorrupt
            &&& fetch_moved(at(FetchStep::InspectCorrupt), FetchReplyView::Corrupt).step == FetchStep::Failed
            &&& fetch_moved(at(FetchStep::RemoveCorrupt), FetchReplyView::Done).step == FetchStep::AcquireRead
            &&& fetch_moved(at(FetchStep::AcquireRead), FetchReplyView::Done).step == FetchStep::Head
            &&& fetch_moved(at(FetchStep::Head), FetchReplyView::Done).step == FetchStep::OpenKey
            &&& fetch_moved(at(FetchStep::OpenKey), FetchReplyView::Done).step == FetchStep::Download
            &&& fetch_moved(at(FetchStep::Download), FetchReplyView::Done).step == FetchStep::VerifyStaged
            &&& fetch_moved(at(FetchStep::VerifyStaged), FetchReplyView::Done).step == FetchStep::NameStaged
            &&& fetch_moved(at(FetchStep::NameStaged), FetchReplyView::Done).step == FetchStep::InspectRoot
            &&& fetch_moved(at(FetchStep::InspectRoot), FetchReplyView::Absent).step == FetchStep::Install
            &&& fetch_moved(at(FetchStep::InspectRoot), FetchReplyView::Present).step == FetchStep::RemoveRoot
            &&& fetch_moved(at(FetchStep::InspectRoot), FetchReplyView::Corrupt).step == FetchStep::Failed
            &&& fetch_moved(at(FetchStep::RemoveRoot), FetchReplyView::Done).step == FetchStep::Install
            &&& fetch_moved(at(FetchStep::Install), FetchReplyView::Done).step == FetchStep::PutRecord
            &&& fetch_moved(at(FetchStep::PutRecord), FetchReplyView::Done).step == FetchStep::Finished
        }),
{
}

/// An error ends a fetch with that error; one in comparing the digest first has what
/// was unpacked removed. Nothing is fetched without storage, without the store that
/// fences it, or without a key.
pub proof fn law_fetch_stops_at_an_error(v: FetchView, e: ErrorView)
    requires
        fetch_accepts(v.step, FetchReplyView::Error(e)),
    ensures
        ({
            let w = fetch_moved(v, FetchReplyView::Error(e));
            &&& v.step == FetchStep::VerifyStaged ==> w.step == FetchStep::DropStaged && w.error == Some(e)
            &&& v.step != FetchStep::VerifyStaged ==> w.step == FetchStep::Failed
            &&& v.step == FetchStep::DropStaged ==> w.error == v.error
            &&& v.step != FetchStep::VerifyStaged && v.step != FetchStep::DropStaged && v.step != FetchStep::Head
                ==> w.error == Some(e)
            &&& w.shared == v.shared
        }),
        v.step == FetchStep::RemoveCorrupt && (!v.has_storage || !v.has_store) ==> fetch_moved(
            v,
            FetchReplyView::Done,
        ).step == FetchStep::Failed && fetch_moved(v, FetchReplyView::Done).error is Some,
        v.step == FetchStep::Head && !v.shared.params.contains_key("encryption_key_id"@) ==> fetch_moved(
            v,
            FetchReplyView::Done,
        ).step == FetchStep::Failed && fetch_moved(v, FetchReplyView::Done).error is Some,
{
}

/// The parameters with the secrets of a local copy are used only where the shared
/// replica needs them, they are ready, and the copy is of the same checkpoint.
pub proof fn law_local_secrets_are_used(shared: ReplicaView, local: ReplicaView)
    requires
        shared.needs_secrets,
        local.source_node == shared.source_node,
        local.source_epoch == shared.source_epoch,
        local.checkpoint_generation == shared.checkpoint_generation,
    ensures
        usable_params(shared, Some(local), true) == local.params,
        usable_params(shared, Some(local), false) == shared.params,
        usable_params(shared, None, true) == shared.params,
{
}

/// A replica is put under the key that its scope and digest give, and no other.
pub proof fn law_replica_key_fits_its_digest(
    key: Seq<char>,
    namespace: Seq<char>,
    digest: Seq<char>,
    scope: Seq<char>,
    source_epoch: u64,
)
    ensures
        put_refusal(key, namespace, digest, scope, source_epoch) is None <==> {
            &&& digest.len() > 0
            &&& forall|i: int| 0 <= i < digest.len() ==> crate::mesh::replicas::is_hex(#[trigger] digest[i])
            &&& key == namespace + "/replicas/by-key/"@ + scope + "/"@ + (digest + ".vbundle"@)
            &&& source_epoch <= i64::MAX
        },
{
}

/// A publication is acquired, published, committed and then kept here; a step that
/// fails ends it.
pub proof fn law_put_goes_in_order()
    ensures
        put_next(PutStep::AcquirePublication, true) == PutStep::Publish,
        put_next(PutStep::Publish, true) == PutStep::CommitPublication,
        put_next(PutStep::CommitPublication, true) == PutStep::PutLocal,
        put_next(PutStep::PutLocal, true) == PutStep::Finished,
        put_next(PutStep::AcquirePublication, false) == PutStep::Failed,
        put_next(PutStep::Publish, false) == PutStep::Failed,
        put_next(PutStep::CommitPublication, false) == PutStep::Failed,
        put_next(PutStep::PutLocal, false) == PutStep::Failed,
{
}

} // verus!
