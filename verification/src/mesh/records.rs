//! Durable records: who owns a sandbox, and which replicas of it exist.
use crate::error::{failure, EngineError, ErrorCode, ErrorView};
use crate::json::{JsonMap, ObjectView};
use crate::mesh::params::{signed, u64_to_i64};
use crate::text::{cat2, text_eq};
use vstd::prelude::*;

verus! {

/// The durable record of a sandbox: what it was created from and who owns it.
/// `created_at` is the creation time as the bits of a floating-point number of
/// seconds; it is carried through.
pub struct CreateRecord {
    pub sid: String,
    pub params: JsonMap,
    pub owner: String,
    pub epoch: i64,
    pub idempotency_key: String,
    pub ha: String,
    pub restart_policy: String,
    pub created_at: u64,
}

/// The value of a [`CreateRecord`].
pub struct RecordView {
    pub sid: Seq<char>,
    pub params: ObjectView,
    pub owner: Seq<char>,
    pub epoch: i64,
    pub idempotency_key: Seq<char>,
    pub ha: Seq<char>,
    pub restart_policy: Seq<char>,
    pub created_at: u64,
}

impl View for CreateRecord {
    type V = RecordView;

    open spec fn view(&self) -> RecordView {
        RecordView {
            sid: self.sid@,
            params: self.params@,
            owner: self.owner@,
            epoch: self.epoch,
            idempotency_key: self.idempotency_key@,
            ha: self.ha@,
            restart_policy: self.restart_policy@,
            created_at: self.created_at,
        }
    }
}

impl CreateRecord {
    pub fn copy(&self) -> (r: CreateRecord)
        ensures
            r@ == self@,
    {
        CreateRecord {
            sid: self.sid.clone(),
            params: self.params.clone(),
            owner: self.owner.clone(),
            epoch: self.epoch,
            idempotency_key: self.idempotency_key.clone(),
            ha: self.ha.clone(),
            restart_policy: self.restart_policy.clone(),
            created_at: self.created_at,
        }
    }

    /// Whether the record is owned by `owner` in generation `epoch`.
    pub fn owned_by(&self, owner: &str, epoch: i64) -> (r: bool)
        ensures
            r == (self@.owner == owner@ && self@.epoch == epoch),
    {
        text_eq(self.owner.as_str(), owner) && self.epoch == epoch
    }
}

/// The value of an optional record.
pub open spec fn opt_record(o: Option<CreateRecord>) -> Option<RecordView> {
    match o {
        Some(r) => Some(r@),
        None => None,
    }
}

/// Why the record of `sid` cannot be rewritten by `owner` in generation
/// `epoch`: there is none, or it belongs to another generation. `fenced` is
/// the message of the second case, up to the sandbox's name.
pub open spec fn rewrite_refusal(
    record: Option<RecordView>,
    sid: Seq<char>,
    owner: Seq<char>,
    epoch: u64,
    fenced: Seq<char>,
) -> Option<ErrorView> {
    match record {
        None => Some(failure(ErrorCode::NotFound, "no create record for sandbox "@ + sid)),
        Some(r) => if r.owner != owner || r.epoch != signed(epoch) {
            Some(failure(ErrorCode::Busy, fenced + sid))
        } else {
            None
        },
    }
}

/// The record of `sid` with the metadata of its restored sandbox, provided that
/// `owner` still owns it in generation `epoch`.
pub fn restored_record(
    record: Option<CreateRecord>,
    sid: &str,
    owner: &str,
    epoch: u64,
    metadata: (JsonMap, String, String),
    fenced: &str,
) -> (r: Result<CreateRecord, EngineError>)
    ensures
        match r {
            Ok(new) => rewrite_refusal(opt_record(record), sid@, owner@, epoch, fenced@) is None && new@ == (
            RecordView {
                params: metadata.0@,
                ha: metadata.1@,
                restart_policy: metadata.2@,
                ..opt_record(record)->0
            }),
            Err(e) => rewrite_refusal(opt_record(record), sid@, owner@, epoch, fenced@) == Some(e@),
        },
{
    match record {
        None => Err(EngineError::not_found(cat2("no create record for sandbox ", sid))),
        Some(current) => {
            if !current.owned_by(owner, u64_to_i64(epoch)) {
                return Err(EngineError::busy(cat2(fenced, sid)));
            }
            Ok(
                CreateRecord {
                    sid: current.sid,
                    params: metadata.0,
                    owner: current.owner,
                    epoch: current.epoch,
                    idempotency_key: current.idempotency_key,
                    ha: metadata.1,
                    restart_policy: metadata.2,
                    created_at: current.created_at,
                },
            )
        },
    }
}

/// The record of a replica: a checkpoint of a sandbox in shared storage, the
/// generation that it was taken of, and what the sandbox was created from.
pub struct ReplicaRecord {
    pub sid: String,
    pub digest: String,
    pub object_key: String,
    pub source_node: String,
    pub source_epoch: u64,
    pub checkpoint_generation: u64,
    pub snapshot_dir: String,
    pub params: JsonMap,
    pub needs_secrets: bool,
}

/// The value of a [`ReplicaRecord`].
pub struct ReplicaView {
    pub sid: Seq<char>,
    pub digest: Seq<char>,
    pub object_key: Seq<char>,
    pub source_node: Seq<char>,
    pub source_epoch: u64,
    pub checkpoint_generation: u64,
    pub snapshot_dir: Seq<char>,
    pub params: ObjectView,
    pub needs_secrets: bool,
}

impl View for ReplicaRecord {
    type V = ReplicaView;

    open spec fn view(&self) -> ReplicaView {
        ReplicaView {
            sid: self.sid@,
            digest: self.digest@,
            object_key: self.object_key@,
            source_node: self.source_node@,
            source_epoch: self.source_epoch,
            checkpoint_generation: self.checkpoint_generation,
            snapshot_dir: self.snapshot_dir@,
            params: self.params@,
            needs_secrets: self.needs_secrets,
        }
    }
}

/// Whether two records are about the same stored bytes.
pub open spec fn same_object(a: ReplicaView, b: ReplicaView) -> bool {
    a.digest == b.digest && a.object_key == b.object_key
}

/// Whether two records are about the same checkpoint of the same generation.
pub open spec fn same_checkpoint(a: ReplicaView, b: ReplicaView) -> bool {
    a.source_node == b.source_node && a.source_epoch == b.source_epoch && a.checkpoint_generation
        == b.checkpoint_generation
}

impl ReplicaRecord {
    /// Whether both records are about the same stored bytes.
    pub fn same_object_as(&self, other: &ReplicaRecord) -> (r: bool)
        ensures
            r == same_object(self@, other@),
    {
        text_eq(self.digest.as_str(), other.digest.as_str()) && text_eq(
            self.object_key.as_str(),
            other.object_key.as_str(),
        )
    }

    /// Whether both records are about the same checkpoint of the same generation.
    pub fn same_checkpoint_as(&self, other: &ReplicaRecord) -> (r: bool)
        ensures
            r == same_checkpoint(self@, other@),
    {
        text_eq(self.source_node.as_str(), other.source_node.as_str()) && self.source_epoch
            == other.source_epoch && self.checkpoint_generation == other.checkpoint_generation
    }
}

/// A record is rewritten only by the owner that it names, in the generation that it
/// names.
pub proof fn law_only_the_owner_rewrites(
    record: RecordView,
    sid: Seq<char>,
    owner: Seq<char>,
    epoch: u64,
    fenced: Seq<char>,
)
    ensures
        rewrite_refusal(Some(record), sid, owner, epoch, fenced) is None <==> record.owner == owner && record.epoch
            == signed(epoch),
        rewrite_refusal(Some(record), sid, owner, epoch, fenced) is Some ==> rewrite_refusal(
            Some(record),
            sid,
            owner,
            epoch,
            fenced,
        )->0.code == ErrorCode::Busy,
        rewrite_refusal(None, sid, owner, epoch, fenced) is Some,
        rewrite_refusal(None, sid, owner, epoch, fenced)->0.code == ErrorCode::NotFound,
{
}

} // verus!
