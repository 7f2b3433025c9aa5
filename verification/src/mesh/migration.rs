//! Moving a sandbox between nodes: the order in which a target takes it over,
//! in which a source takes it back, and in which a deletion completes.
//!
//! Each procedure is a machine. It names the step to perform next; the caller
//! performs it and hands back what came of it.
use crate::error::MeshError;
use crate::json::{bool_at, filled_at, text_at, Json, JsonMap, JsonView, ObjectView};
use crate::mesh::leases::jsons;
use crate::mesh::records::{CreateRecord, RecordView};
use crate::text::text_eq;
use vstd::prelude::*;

verus! {

/// The value of a [`MeshError`].
pub struct MeshErrorView {
    pub code: Seq<char>,
    pub message: Seq<char>,
}

impl View for MeshError {
    type V = MeshErrorView;

    open spec fn view(&self) -> MeshErrorView {
        MeshErrorView { code: self.code@, message: self.message@ }
    }
}

/// The error that the parameters or records are not what they must be.
pub open spec fn invalid(message: Seq<char>) -> MeshErrorView {
    MeshErrorView { code: "invalid"@, message }
}

/// What came of a step.
pub enum StepReply {
    Done,
    Yes,
    No,
    Path(String),
    Record(CreateRecord),
    Leases(Vec<Json>),
    Error(MeshError),
}

/// The value of a [`StepReply`].
pub enum ReplyView {
    Done,
    Yes,
    No,
    Path(Seq<char>),
    Record(RecordView),
    Leases(Seq<JsonView>),
    Error(MeshErrorView),
}

impl View for StepReply {
    type V = ReplyView;

    open spec fn view(&self) -> ReplyView {
        match self {
            StepReply::Done => ReplyView::Done,
            StepReply::Yes => ReplyView::Yes,
            StepReply::No => ReplyView::No,
            StepReply::Path(p) => ReplyView::Path(p@),
            StepReply::Record(r) => ReplyView::Record(r@),
            StepReply::Leases(l) => ReplyView::Leases(jsons(l@)),
            StepReply::Error(e) => ReplyView::Error(e@),
        }
    }
}

/// The steps by which a target takes a sandbox over.
#[derive(Clone, Copy, Debug, PartialEq, Eq, Structural)]
pub enum TargetStep {
    /// Reserve the arrival (`Done` or `Error`).
    Claim,
    /// Tell the source that its sandbox was claimed (`Done` or `Error`).
    NotifySource,
    /// Of a committed migration: does the sandbox exist here (`Yes` or `No`)?
    AskPresent,
    /// Of a committed migration: let it run (`Done` or `Error`).
    Reactivate,
    /// Is the recorded delta directory there (`Yes` or `No`)?
    CheckDelta,
    /// Is the base checkpoint here already (`Path`, `No` or `Error`)?
    LookUpBase,
    /// Fetch the base checkpoint from the source (`Path` or `Error`).
    PullBase,
    /// Fetch the delta checkpoint from the source (`Path` or `Error`).
    PullDelta,
    /// Combine both into a launchable delta (`Path` or `Error`).
    StageDelta,
    /// Write the record with the delta directory (`Record` or `Error`).
    SaveDelta,
    /// Acquire the leases of writable volumes (`Leases` or `Error`).
    AcquireLeases,
    /// Does the sandbox exist here (`Yes` or `No`)?
    AskAdopted,
    /// Launch the sandbox, paused (`Done` or `Error`).
    Adopt,
    /// Write the acquired leases to the sandbox (`Done` or `Error`).
    RecordLeases,
    /// Write the record with the commit marker (`Record` or `Error`).
    Commit,
    /// Let it run (`Done` or `Error`).
    Activate,
    /// Stop the candidate (`Done` or `Error`).
    TearDown,
    /// Release the acquired leases (`Done` or `Error`).
    ReleaseLeases,
    /// The sandbox is taken over.
    Finished,
    /// The migration stays pending; see the error.
    Failed,
}

/// The first thing that a migration intent lacks for fetching its checkpoints.
pub open spec fn fetch_gap(p: ObjectView) -> Option<Seq<char>> {
    if filled_at(p, "_mesh_migration_source_url"@) is None {
        Some("migration intent has no source URL"@)
    } else if filled_at(p, "_mesh_migration_delta_digest"@) is None {
        Some("migration intent has no delta digest"@)
    } else if filled_at(p, "_mesh_migration_base_digest"@) is None {
        Some("migration intent has no base digest"@)
    } else {
        None
    }
}

/// Whether `reply` is one that `step` can have.
pub open spec fn target_accepts(step: TargetStep, reply: ReplyView) -> bool {
    match step {
        TargetStep::AskPresent | TargetStep::CheckDelta | TargetStep::AskAdopted => reply is Yes || reply is No,
        TargetStep::LookUpBase => reply is Path || reply is No || reply is Error,
        TargetStep::PullBase | TargetStep::PullDelta | TargetStep::StageDelta => reply is Path || reply is Error,
        TargetStep::SaveDelta | TargetStep::Commit => reply is Record || reply is Error,
        TargetStep::AcquireLeases => reply is Leases || reply is Error,
        TargetStep::Finished | TargetStep::Failed => false,
        _ => reply is Done || reply is Error,
    }
}

/// Where a delta has to be fetched: the step that begins that.
pub open spec fn fetching(p: ObjectView) -> TargetStep {
    if fetch_gap(p) is Some {
        TargetStep::Failed
    } else {
        TargetStep::LookUpBase
    }
}

/// The step after `step` when it had `reply`; `p` are the record's parameters.
pub open spec fn target_next(step: TargetStep, reply: ReplyView, p: ObjectView) -> TargetStep {
    let failed = reply is Error;
    match step {
        TargetStep::Claim => if failed {
            TargetStep::Failed
        } else {
            TargetStep::NotifySource
        },
        TargetStep::NotifySource => if failed {
            TargetStep::Failed
        } else if bool_at(p, "_mesh_migration_committed"@) == Some(true) {
            TargetStep::AskPresent
        } else if text_at(p, "_mesh_migration_delta_dir"@) is Some {
            TargetStep::CheckDelta
        } else {
            fetching(p)
        },
        TargetStep::AskPresent => if reply is Yes {
            TargetStep::Reactivate
        } else {
            TargetStep::Finished
        },
        TargetStep::Reactivate => if failed {
            TargetStep::Failed
        } else {
            TargetStep::Finished
        },
        TargetStep::CheckDelta => if reply is Yes {
            TargetStep::AcquireLeases
        } else {
            fetching(p)
        },
        TargetStep::LookUpBase => if failed {
            TargetStep::Failed
        } else if reply is Path {
            TargetStep::PullDelta
        } else {
            TargetStep::PullBase
        },
        TargetStep::PullBase => if failed {
            TargetStep::Failed
        } else {
            TargetStep::PullDelta
        },
        TargetStep::PullDelta => if failed {
            TargetStep::Failed
        } else {
            TargetStep::StageDelta
        },
        TargetStep::StageDelta => if failed {
            TargetStep::Failed
        } else {
            TargetStep::SaveDelta
        },
        TargetStep::SaveDelta => if failed {
            TargetStep::Failed
        } else {
            TargetStep::AcquireLeases
        },
        TargetStep::AcquireLeases => if failed {
            TargetStep::Failed
        } else {
            TargetStep::AskAdopted
        },
        TargetStep::AskAdopted => if reply is Yes {
            TargetStep::RecordLeases
        } else {
            TargetStep::Adopt
        },
        TargetStep::Adopt => if failed {
            TargetStep::TearDown
        } else {
            TargetStep::RecordLeases
        },
        TargetStep::RecordLeases => if failed {
            TargetStep::TearDown
        } else {
            TargetStep::Commit
        },
        TargetStep::Commit => if failed {
            TargetStep::TearDown
        } else {
            TargetStep::Activate
        },
        TargetStep::Activate => if failed {
            TargetStep::Failed
        } else {
            TargetStep::Finished
        },
        TargetStep::TearDown => TargetStep::ReleaseLeases,
        TargetStep::ReleaseLeases => TargetStep::Failed,
        TargetStep::Finished => TargetStep::Finished,
        TargetStep::Failed => TargetStep::Failed,
    }
}

/// A migration into this node.
///
/// `delta_dir` is the directory to launch from, `base_dir` and `installed` the
/// fetched checkpoints, `leases` those that were acquired for its volumes.
pub struct TargetMigration {
    record: CreateRecord,
    step: TargetStep,
    delta_dir: String,
    base_dir: String,
    installed: String,
    leases: Vec<Json>,
    error: Option<MeshError>,
}

/// The value of a [`TargetMigration`].
pub struct TargetView {
    pub record: RecordView,
    pub step: TargetStep,
    pub delta_dir: Seq<char>,
    pub base_dir: Seq<char>,
    pub installed: Seq<char>,
    pub leases: Seq<JsonView>,
    pub error: Option<MeshErrorView>,
}

/// The value of an optional error.
pub open spec fn opt_error(e: Option<MeshError>) -> Option<MeshErrorView> {
    match e {
        Some(x) => Some(x@),
        None => None,
    }
}

impl View for TargetMigration {
    type V = TargetView;

    closed spec fn view(&self) -> TargetView {
        TargetView {
            record: self.record@,
            step: self.step,
            delta_dir: self.delta_dir@,
            base_dir: self.base_dir@,
            installed: self.installed@,
            leases: jsons(self.leases@),
            error: opt_error(self.error),
        }
    }
}

/// `record` with one more parameter.
pub open spec fn with_param(record: RecordView, key: Seq<char>, value: JsonView) -> RecordView {
    RecordView { params: record.params.insert(key, value), ..record }
}

/// The migration once its step had `reply`.
pub open spec fn target_moved(v: TargetView, reply: ReplyView) -> TargetView {
    let next = target_next(v.step, reply, v.record.params);
    TargetView {
        step: next,
        record: match reply {
            ReplyView::Record(r) => r,
            ReplyView::Path(p) => if v.step == TargetStep::StageDelta {
                with_param(v.record, "_mesh_migration_delta_dir"@, JsonView::Str(p))
            } else {
                v.record
            },
            ReplyView::Done => if v.step == TargetStep::RecordLeases {
                with_param(v.record, "_mesh_migration_committed"@, JsonView::Bool(true))
            } else {
                v.record
            },
            _ => v.record,
        },
        delta_dir: match reply {
            ReplyView::Path(p) => if v.step == TargetStep::StageDelta {
                p
            } else {
                v.delta_dir
            },
            ReplyView::Yes => if v.step == TargetStep::CheckDelta {
                match text_at(v.record.params, "_mesh_migration_delta_dir"@) {
                    Some(dir) => dir,
                    None => v.delta_dir,
                }
            } else {
                v.delta_dir
            },
            _ => v.delta_dir,
        },
        base_dir: match reply {
            ReplyView::Path(p) => if v.step == TargetStep::LookUpBase || v.step == TargetStep::PullBase {
                p
            } else {
                v.base_dir
            },
            _ => v.base_dir,
        },
        installed: match reply {
            ReplyView::Path(p) => if v.step == TargetStep::PullDelta {
                p
            } else {
                v.installed
            },
            _ => v.installed,
        },
        leases: match reply {
            ReplyView::Leases(l) => l,
            _ => v.leases,
        },
        error: match reply {
            ReplyView::Error(e) => if v.step == TargetStep::TearDown || v.step == TargetStep::ReleaseLeases {
                v.error
            } else {
                Some(e)
            },
            _ => if next == TargetStep::Failed && v.step != TargetStep::ReleaseLeases {
                match fetch_gap(v.record.params) {
                    Some(message) => Some(invalid(message)),
                    None => v.error,
                }
            } else {
                v.error
            },
        },
    }
}

/// What the intent in `params` lacks for fetching its checkpoints.
fn missing_for_fetch(params: &JsonMap) -> (r: Option<MeshError>)
    ensures
        opt_error(r) == match fetch_gap(params@) {
            Some(m) => Some(invalid(m)),
            None => None,
        },
{
    if params.filled_at("_mesh_migration_source_url").is_none() {
        return Some(MeshError::invalid("migration intent has no source URL"));
    }
    if params.filled_at("_mesh_migration_delta_digest").is_none() {
        return Some(MeshError::invalid("migration intent has no delta digest"));
    }
    if params.filled_at("_mesh_migration_base_digest").is_none() {
        return Some(MeshError::invalid("migration intent has no base digest"));
    }
    None
}

impl TargetMigration {
    /// The take-over of the sandbox of `record`, which must hold the token of a
    /// migration.
    pub fn new(record: CreateRecord) -> (r: Result<TargetMigration, MeshError>)
        ensures
            match r {
                Ok(m) => text_at(record@.params, "_mesh_migration_id"@) is Some && m@ == (TargetView {
                    record: record@,
                    step: TargetStep::Claim,
                    delta_dir: Seq::empty(),
                    base_dir: Seq::empty(),
                    installed: Seq::empty(),
                    leases: Seq::empty(),
                    error: None,
                }),
                Err(e) => text_at(record@.params, "_mesh_migration_id"@) is None && e@ == invalid(
                    "migration intent has no token"@,
                ),
            },
    {
        if record.params.text_at("_mesh_migration_id").is_none() {
            return Err(MeshError::invalid("migration intent has no token"));
        }
        let leases: Vec<Json> = Vec::new();
        assert(jsons(leases@) =~= Seq::empty());
        Ok(
            TargetMigration {
                record,
                step: TargetStep::Claim,
                delta_dir: String::new(),
                base_dir: String::new(),
                installed: String::new(),
                leases,
                error: None,
            },
        )
    }

    /// The step to perform.
    pub fn step(&self) -> (r: TargetStep)
        ensures
            r == self@.step,
    {
        self.step
    }

    /// The record as it stands.
    pub fn record(&self) -> (r: &CreateRecord)
        ensures
            r@ == self@.record,
    {
        &self.record
    }

    /// The directory to launch from.
    pub fn delta_dir(&self) -> (r: &String)
        ensures
            r@ == self@.delta_dir,
    {
        &self.delta_dir
    }

    /// The directory of the base checkpoint.
    pub fn base_dir(&self) -> (r: &String)
        ensures
            r@ == self@.base_dir,
    {
        &self.base_dir
    }

    /// The directory of the fetched delta checkpoint.
    pub fn installed(&self) -> (r: &String)
        ensures
            r@ == self@.installed,
    {
        &self.installed
    }

    /// The leases that were acquired: to be written to the sandbox, and to be
    /// released where the migration fails before its commit.
    pub fn leases(&self) -> (r: &Vec<Json>)
        ensures
            jsons(r@) == self@.leases,
    {
        &self.leases
    }

    /// The parameters that the sandbox is launched with and its leases are
    /// acquired for: those of the record, without the migration's own.
    pub fn launch_params(&self) -> (r: JsonMap)
        ensures
            r@ == self@.record.params.restrict(
                Set::new(|k: Seq<char>| !"_mesh_migration_"@.is_prefix_of(k)),
            ),
    {
        self.record.params.without_prefix("_mesh_migration_")
    }

    /// Why the migration stays pending.
    pub fn error(self) -> (r: Option<MeshError>)
        ensures
            opt_error(r) == self@.error,
    {
        self.error
    }

    /// Takes what came of the step and moves on.
    pub fn resume(&mut self, reply: StepReply)
        requires
            target_accepts(old(self)@.step, reply@),
        ensures
            final(self)@ == target_moved(old(self)@, reply@),
    {
        let step = self.step;
        let unfetchable = missing_for_fetch(&self.record.params);
        match reply {
            StepReply::Error(e) => {
                self.step = match step {
                    TargetStep::Adopt => TargetStep::TearDown,
                    TargetStep::RecordLeases => TargetStep::TearDown,
                    TargetStep::Commit => TargetStep::TearDown,
                    TargetStep::TearDown => TargetStep::ReleaseLeases,
                    _ => TargetStep::Failed,
                };
                if step != TargetStep::TearDown && step != TargetStep::ReleaseLeases {
                    self.error = Some(e);
                }
            },
            StepReply::Path(path) => {
                match step {
                    TargetStep::LookUpBase => {
                        self.base_dir = path;
                        self.step = TargetStep::PullDelta;
                    },
                    TargetStep::PullBase => {
                        self.base_dir = path;
                        self.step = TargetStep::PullDelta;
                    },
                    TargetStep::PullDelta => {
                        self.installed = path;
                        self.step = TargetStep::StageDelta;
                    },
                    _ => {
                        self.record.params.insert(
                            "_mesh_migration_delta_dir".to_owned(),
                            Json::Str(path.clone()),
                        );
                        self.delta_dir = path;
                        self.step = TargetStep::SaveDelta;
                    },
                }
            },
            StepReply::Record(record) => {
                self.record = record;
                self.step = if step == TargetStep::SaveDelta {
                    TargetStep::AcquireLeases
                } else {
                    TargetStep::Activate
                };
            },
            StepReply::Leases(leases) => {
                self.leases = leases;
                self.step = TargetStep::AskAdopted;
            },
            StepReply::Yes => {
                self.step = match step {
                    TargetStep::AskPresent => TargetStep::Reactivate,
                    TargetStep::CheckDelta => {
                        if let Some(dir) = self.record.params.text_at("_mesh_migration_delta_dir") {
                            self.delta_dir = dir;
                        }
                        TargetStep::AcquireLeases
                    },
                    _ => TargetStep::RecordLeases,
                };
            },
            StepReply::No => {
                match step {
                    TargetStep::AskPresent => {
                        self.step = TargetStep::Finished;
                    },
                    TargetStep::AskAdopted => {
                        self.step = TargetStep::Adopt;
                    },
                    TargetStep::LookUpBase => {
                        self.step = TargetStep::PullBase;
                    },
                    _ => self.fetch(unfetchable),
                }
            },
            StepReply::Done => {
                match step {
                    TargetStep::Claim => {
                        self.step = TargetStep::NotifySource;
                    },
                    TargetStep::NotifySource => {
                        if matches!(self.record.params.bool_at("_mesh_migration_committed"), Some(true)) {
                            self.step = TargetStep::AskPresent;
                        } else if self.record.params.text_at("_mesh_migration_delta_dir").is_some() {
                            self.step = TargetStep::CheckDelta;
                        } else {
                            self.fetch(unfetchable);
                        }
                    },
                    TargetStep::Adopt => {
                        self.step = TargetStep::RecordLeases;
                    },
                    TargetStep::RecordLeases => {
                        self.record.params.insert("_mesh_migration_committed".to_owned(), Json::Bool(true));
                        self.step = TargetStep::Commit;
                    },
                    TargetStep::TearDown => {
                        self.step = TargetStep::ReleaseLeases;
                    },
                    TargetStep::ReleaseLeases => {
                        self.step = TargetStep::Failed;
                    },
                    _ => {
                        self.step = TargetStep::Finished;
                    },
                }
            },
        }
    }

    fn fetch(&mut self, unfetchable: Option<MeshError>)
        requires
            opt_error(unfetchable) == match fetch_gap(old(self)@.record.params) {
                Some(m) => Some(invalid(m)),
                None => None,
            },
        ensures
            final(self)@ == (TargetView {
                step: fetching(old(self)@.record.params),
                error: match fetch_gap(old(self)@.record.params) {
                    Some(m) => Some(invalid(m)),
                    None => old(self)@.error,
                },
                ..old(self)@
            }),
    {
        match unfetchable {
            Some(e) => {
                self.error = Some(e);
                self.step = TargetStep::Failed;
            },
            None => {
                self.step = TargetStep::LookUpBase;
            },
        }
    }
}

/// A sandbox that arrives runs only after the commit marker was durably written.
pub proof fn law_activation_follows_commit(step: TargetStep, reply: ReplyView, p: ObjectView)
    requires
        target_accepts(step, reply),
    ensures
        target_next(step, reply, p) == TargetStep::Activate ==> step == TargetStep::Commit && reply is Record,
        target_next(step, reply, p) == TargetStep::Commit ==> step == TargetStep::RecordLeases && reply is Done,
        target_next(step, reply, p) == TargetStep::Reactivate ==> step == TargetStep::AskPresent,
        target_next(step, reply, p) == TargetStep::AskPresent ==> step == TargetStep::NotifySource && bool_at(
            p,
            "_mesh_migration_committed"@,
        ) == Some(true),
{
}

/// The steps at which leases are held for a sandbox that is not committed.
pub open spec fn holds_uncommitted_leases(step: TargetStep) -> bool {
    step == TargetStep::AskAdopted || step == TargetStep::Adopt || step == TargetStep::RecordLeases || step
        == TargetStep::Commit
}

/// A migration that fails after it acquired leases, and before its commit, stops
/// its candidate and then releases the leases; and nothing else makes it do so.
pub proof fn law_failed_takeover_releases_leases(step: TargetStep, reply: ReplyView, p: ObjectView)
    requires
        target_accepts(step, reply),
    ensures
        holds_uncommitted_leases(step) && reply is Error ==> target_next(step, reply, p) == TargetStep::TearDown,
        holds_uncommitted_leases(step) ==> target_next(step, reply, p) != TargetStep::Failed,
        step == TargetStep::TearDown ==> target_next(step, reply, p) == TargetStep::ReleaseLeases,
        step == TargetStep::ReleaseLeases ==> target_next(step, reply, p) == TargetStep::Failed,
        target_next(step, reply, p) == TargetStep::TearDown ==> holds_uncommitted_leases(step),
{
}

/// Once a migration is committed, no failure takes the sandbox away again.
pub proof fn law_committed_takeover_is_kept(step: TargetStep, reply: ReplyView, p: ObjectView)
    requires
        step == TargetStep::Activate || step == TargetStep::Reactivate || step == TargetStep::AskPresent,
        target_accepts(step, reply),
    ensures
        target_next(step, reply, p) != TargetStep::TearDown,
        target_next(step, reply, p) != TargetStep::ReleaseLeases,
{
}

/// How many steps a migration can still take.
pub open spec fn target_rank(step: TargetStep) -> nat {
    match step {
        TargetStep::Claim => 16,
        TargetStep::NotifySource => 15,
        TargetStep::CheckDelta => 14,
        TargetStep::LookUpBase => 13,
        TargetStep::PullBase => 12,
        TargetStep::PullDelta => 11,
        TargetStep::StageDelta => 10,
        TargetStep::SaveDelta => 9,
        TargetStep::AcquireLeases => 8,
        TargetStep::AskAdopted => 7,
        TargetStep::Adopt => 6,
        TargetStep::RecordLeases => 5,
        TargetStep::Commit => 4,
        TargetStep::AskPresent => 3,
        TargetStep::Reactivate => 2,
        TargetStep::Activate => 2,
        TargetStep::TearDown => 2,
        TargetStep::ReleaseLeases => 1,
        TargetStep::Finished => 0,
        TargetStep::Failed => 0,
    }
}

/// Every step brings a migration closer to its end.
pub proof fn law_takeover_ends(step: TargetStep, reply: ReplyView, p: ObjectView)
    requires
        target_accepts(step, reply),
    ensures
        target_rank(target_next(step, reply, p)) < target_rank(step),
{
}

/// Whether this node has to go on with the migration that `record` announces.
pub fn converges_here(record: &CreateRecord, node: &str) -> (r: bool)
    ensures
        r == (record@.owner == node@ && text_at(record@.params, "_mesh_migration_id"@) is Some),
{
    text_eq(record.owner.as_str(), node) && record.params.text_at("_mesh_migration_id").is_some()
}

/// Where its steps succeed, a takeover goes from the claim to the end in this order: it
/// claims, tells the source, fetches what is not here, keeps what it fetched, acquires
/// the leases, launches the sandbox unless it exists here, records the leases, commits
/// and only then lets the sandbox run.
pub proof fn law_takeover_goes_in_order(p: ObjectView, path: Seq<char>, record: RecordView, leases: Seq<JsonView>)
    requires
        p.contains_key("_mesh_migration_source_url"@) && p["_mesh_migration_source_url"@] is Str,
        p["_mesh_migration_source_url"@]->Str_0.len() > 0,
        p.contains_key("_mesh_migration_delta_digest"@) && p["_mesh_migration_delta_digest"@] is Str,
        p["_mesh_migration_delta_digest"@]->Str_0.len() > 0,
        p.contains_key("_mesh_migration_base_digest"@) && p["_mesh_migration_base_digest"@] is Str,
        p["_mesh_migration_base_digest"@]->Str_0.len() > 0,
        !p.contains_key("_mesh_migration_committed"@),
    ensures
        target_next(TargetStep::Claim, ReplyView::Done, p) == TargetStep::NotifySource,
        !p.contains_key("_mesh_migration_delta_dir"@) ==> target_next(TargetStep::NotifySource, ReplyView::Done, p)
            == TargetStep::LookUpBase,
        p.contains_key("_mesh_migration_delta_dir"@) && p["_mesh_migration_delta_dir"@] is Str ==> target_next(
            TargetStep::NotifySource,
            ReplyView::Done,
            p,
        ) == TargetStep::CheckDelta,
        target_next(TargetStep::CheckDelta, ReplyView::Yes, p) == TargetStep::AcquireLeases,
        target_next(TargetStep::CheckDelta, ReplyView::No, p) == TargetStep::LookUpBase,
        target_next(TargetStep::LookUpBase, ReplyView::Path(path), p) == TargetStep::PullDelta,
        target_next(TargetStep::LookUpBase, ReplyView::No, p) == TargetStep::PullBase,
        target_next(TargetStep::PullBase, ReplyView::Path(path), p) == TargetStep::PullDelta,
        target_next(TargetStep::PullDelta, ReplyView::Path(path), p) == TargetStep::StageDelta,
        target_next(TargetStep::StageDelta, ReplyView::Path(path), p) == TargetStep::SaveDelta,
        target_next(TargetStep::SaveDelta, ReplyView::Record(record), p) == TargetStep::AcquireLeases,
        target_next(TargetStep::AcquireLeases, ReplyView::Leases(leases), p) == TargetStep::AskAdopted,
        target_next(TargetStep::AskAdopted, ReplyView::No, p) == TargetStep::Adopt,
        target_next(TargetStep::AskAdopted, ReplyView::Yes, p) == TargetStep::RecordLeases,
        target_next(TargetStep::Adopt, ReplyView::Done, p) == TargetStep::RecordLeases,
        target_next(TargetStep::RecordLeases, ReplyView::Done, p) == TargetStep::Commit,
        target_next(TargetStep::Commit, ReplyView::Record(record), p) == TargetStep::Activate,
        target_next(TargetStep::Activate, ReplyView::Done, p) == TargetStep::Finished,
{
}

/// A takeover that was committed before is only let run again, where the sandbox is
/// here.
pub proof fn law_committed_takeover_is_resumed(p: ObjectView)
    requires
        p.contains_key("_mesh_migration_committed"@),
        p["_mesh_migration_committed"@] == JsonView::Bool(true),
    ensures
        target_next(TargetStep::NotifySource, ReplyView::Done, p) == TargetStep::AskPresent,
        target_next(TargetStep::AskPresent, ReplyView::Yes, p) == TargetStep::Reactivate,
        target_next(TargetStep::AskPresent, ReplyView::No, p) == TargetStep::Finished,
        target_next(TargetStep::Reactivate, ReplyView::Done, p) == TargetStep::Finished,
{
}

/// An error before leases are acquired, or once the takeover is committed, leaves it
/// pending with that error; later ones do not replace it.
pub proof fn law_takeover_error_is_kept(v: TargetView, e: MeshErrorView)
    requires
        target_accepts(v.step, ReplyView::Error(e)),
    ensures
        v.step != TargetStep::TearDown && v.step != TargetStep::ReleaseLeases ==> target_moved(
            v,
            ReplyView::Error(e),
        ).error == Some(e),
        v.step == TargetStep::TearDown || v.step == TargetStep::ReleaseLeases ==> target_moved(
            v,
            ReplyView::Error(e),
        ).error == v.error,
        v.step == TargetStep::Claim || v.step == TargetStep::NotifySource || v.step == TargetStep::LookUpBase || v.step
            == TargetStep::PullBase || v.step == TargetStep::PullDelta || v.step == TargetStep::StageDelta || v.step
            == TargetStep::SaveDelta || v.step == TargetStep::AcquireLeases || v.step == TargetStep::Activate || v.step
            == TargetStep::Reactivate ==> target_moved(v, ReplyView::Error(e)).step == TargetStep::Failed,
{
}

/// The record that is committed is the one taken over, marked as committed and nothing
/// else; the record that is saved names the delta that was staged.
pub proof fn law_commit_marks_the_record(v: TargetView, path: Seq<char>, k: Seq<char>)
    ensures
        ({
            let w = target_moved(TargetView { step: TargetStep::RecordLeases, ..v }, ReplyView::Done);
            &&& w.record.params.contains_key("_mesh_migration_committed"@)
            &&& w.record.params["_mesh_migration_committed"@] == JsonView::Bool(true)
            &&& k != "_mesh_migration_committed"@ ==> w.record.params.contains_key(k) == v.record.params.contains_key(k)
                && w.record.params[k] == v.record.params[k]
            &&& w.record.owner == v.record.owner
            &&& w.record.epoch == v.record.epoch
            &&& w.record.sid == v.record.sid
            &&& w.leases == v.leases
        }),
        ({
            let w = target_moved(TargetView { step: TargetStep::StageDelta, ..v }, ReplyView::Path(path));
            &&& w.delta_dir == path
            &&& w.record.params.contains_key("_mesh_migration_delta_dir"@)
            &&& w.record.params["_mesh_migration_delta_dir"@] == JsonView::Str(path)
            &&& k != "_mesh_migration_delta_dir"@ ==> w.record.params.contains_key(k) == v.record.params.contains_key(k)
                && w.record.params[k] == v.record.params[k]
            &&& w.record.owner == v.record.owner
            &&& w.record.epoch == v.record.epoch
        }),
        target_moved(TargetView { step: TargetStep::PullDelta, ..v }, ReplyView::Path(path)).installed == path,
        target_moved(TargetView { step: TargetStep::PullBase, ..v }, ReplyView::Path(path)).base_dir == path,
        target_moved(TargetView { step: TargetStep::LookUpBase, ..v }, ReplyView::Path(path)).base_dir == path,
{
}

} // verus!
