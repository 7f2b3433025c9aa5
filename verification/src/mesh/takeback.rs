//! Taking a sandbox back from a migration that its target did not accept, and
//! completing deletions.
use crate::error::MeshError;
use crate::json::{bool_at, JsonMap, ObjectView};
use crate::mesh::migration::{invalid, opt_error, MeshErrorView, ReplyView, StepReply};
use crate::mesh::params::{source_migration_abort_allowed, target_absent};
use crate::mesh::records::{CreateRecord, RecordView};
use crate::text::{cat2, chars_of, text_eq};
use vstd::prelude::*;

verus! {

/// The source's journal entry about a migration that is under way.
pub struct MigrationCleanup {
    pub sid: String,
    pub base_dir: String,
    pub base_digest: String,
    pub delta_dir: String,
    pub delta_digest: String,
    pub target_url: String,
    pub migration_id: String,
    pub epoch: i64,
    pub schema_version: u32,
    pub source_owner: String,
    pub source_epoch: i64,
    pub target_owner: String,
    pub target_epoch: i64,
    pub token: String,
    pub phase: String,
}

/// The value of a [`MigrationCleanup`].
pub struct CleanupView {
    pub sid: Seq<char>,
    pub base_dir: Seq<char>,
    pub base_digest: Seq<char>,
    pub delta_dir: Seq<char>,
    pub delta_digest: Seq<char>,
    pub target_url: Seq<char>,
    pub migration_id: Seq<char>,
    pub epoch: i64,
    pub schema_version: u32,
    pub source_owner: Seq<char>,
    pub source_epoch: i64,
    pub target_owner: Seq<char>,
    pub target_epoch: i64,
    pub token: Seq<char>,
    pub phase: Seq<char>,
}

impl View for MigrationCleanup {
    type V = CleanupView;

    open spec fn view(&self) -> CleanupView {
        CleanupView {
            sid: self.sid@,
            base_dir: self.base_dir@,
            base_digest: self.base_digest@,
            delta_dir: self.delta_dir@,
            delta_digest: self.delta_digest@,
            target_url: self.target_url@,
            migration_id: self.migration_id@,
            epoch: self.epoch,
            schema_version: self.schema_version,
            source_owner: self.source_owner@,
            source_epoch: self.source_epoch,
            target_owner: self.target_owner@,
            target_epoch: self.target_epoch,
            token: self.token@,
            phase: self.phase@,
        }
    }
}

impl MigrationCleanup {
    fn in_phase(&self, phase: &str) -> (r: MigrationCleanup)
        ensures
            r@ == (CleanupView { phase: phase@, ..self@ }),
    {
        MigrationCleanup {
            sid: self.sid.clone(),
            base_dir: self.base_dir.clone(),
            base_digest: self.base_digest.clone(),
            delta_dir: self.delta_dir.clone(),
            delta_digest: self.delta_digest.clone(),
            target_url: self.target_url.clone(),
            migration_id: self.migration_id.clone(),
            epoch: self.epoch,
            schema_version: self.schema_version,
            source_owner: self.source_owner.clone(),
            source_epoch: self.source_epoch,
            target_owner: self.target_owner.clone(),
            target_epoch: self.target_epoch,
            token: self.token.clone(),
            phase: phase.to_owned(),
        }
    }
}

/// A name that denotes one entry of a directory: not empty, no path, not a
/// reference to a directory.
pub open spec fn safe_component(s: Seq<char>) -> bool {
    s.len() > 0 && s != "."@ && s != ".."@ && !s.contains('/') && !s.contains('\\')
}

fn is_safe_component(s: &str) -> (r: bool)
    ensures
        r == safe_component(s@),
{
    if s.is_empty() || text_eq(s, ".") || text_eq(s, "..") {
        return false;
    }
    let chars = chars_of(s);
    let mut i: usize = 0;
    while i < chars.len()
        invariant
            i <= chars@.len(),
            chars@ == s@,
            forall|j: int| 0 <= j < i ==> chars@[j] != '/' && chars@[j] != '\\',
        decreases chars@.len() - i,
    {
        if chars[i] == '/' || chars[i] == '\\' {
            assert(s@[i as int] == chars@[i as int]);
            return false;
        }
        i = i + 1;
    }
    true
}

/// The phases that a migration is journalled in: before the target is told of it, and
/// at each point from which its abort goes on after a crash.
pub open spec fn journal_phase(phase: Seq<char>) -> bool {
    phase == "prepared"@ || phase == "abort_pending"@ || phase == "restore_pending"@ || phase
        == "complete_pending"@
}

fn is_journal_phase(phase: &str) -> (r: bool)
    ensures
        r == journal_phase(phase@),
{
    text_eq(phase, "prepared") || text_eq(phase, "abort_pending") || text_eq(phase, "restore_pending") || text_eq(
        phase,
        "complete_pending",
    )
}

/// Whether an entry may be written to the journal.
pub open spec fn journalable(c: CleanupView) -> bool {
    &&& c.schema_version == 1
    &&& safe_component(c.sid)
    &&& c.source_owner.len() > 0
    &&& c.target_owner.len() > 0
    &&& c.token.len() > 0
    &&& journal_phase(c.phase)
    &&& c.source_epoch >= 0
    &&& c.target_epoch >= 0
}

/// Writes journal entries into one directory, one file per sandbox.
pub struct MeshEngineAdapter {
    cleanup_dir: String,
}

impl MeshEngineAdapter {
    /// The directory of the journal.
    pub closed spec fn dir(self) -> Seq<char> {
        self.cleanup_dir@
    }

    pub fn new(cleanup_dir: String) -> (r: MeshEngineAdapter)
        ensures
            r.dir() == cleanup_dir@,
    {
        MeshEngineAdapter { cleanup_dir }
    }

    /// The directory of the journal.
    pub fn cleanup_dir(&self) -> (r: &str)
        ensures
            r@ == self.dir(),
    {
        self.cleanup_dir.as_str()
    }

    /// The file of the entry about `sid`.
    pub fn cleanup_path(&self, sid: &str) -> (r: String)
        ensures
            r@ == self.dir() + "/"@ + sid@ + ".json"@,
    {
        let mut out = cat2(self.cleanup_dir.as_str(), "/");
        out.append(sid);
        out.append(".json");
        out
    }

    /// Refuses an entry that may not be written to the journal.
    pub fn validate_cleanup(cleanup: &MigrationCleanup) -> (r: Result<(), MeshError>)
        ensures
            match r {
                Ok(_) => journalable(cleanup@),
                Err(e) => !journalable(cleanup@) && e@ == invalid("invalid migration cleanup journal"@),
            },
    {
        if cleanup.schema_version != 1 || !is_safe_component(cleanup.sid.as_str())
            || cleanup.source_owner.as_str().is_empty() || cleanup.target_owner.as_str().is_empty()
            || cleanup.token.as_str().is_empty() || !is_journal_phase(cleanup.phase.as_str())
            || cleanup.source_epoch < 0 || cleanup.target_epoch < 0 {
            return Err(MeshError::invalid("invalid migration cleanup journal"));
        }
        Ok(())
    }
}

/// What a file of the journal directory is.
#[derive(Clone, Copy, Debug, PartialEq, Eq, Structural)]
pub enum JournalFile {
    /// A write that was interrupted; it is removed.
    Temporary,
    /// An entry.
    Entry,
    /// Something else; it is left alone.
    Other,
}

/// What follows the last dot of a file name that does not start with it.
pub open spec fn extension_of(name: Seq<char>, dot: int) -> bool {
    0 < dot < name.len() && name[dot] == '.' && forall|j: int| dot < j < name.len() ==> name[j] != '.'
}

/// Whether the file name `name` has an extension, and it is `ext`, whatever the
/// case of its letters where `any_case` says so.
pub open spec fn has_extension(name: Seq<char>, ext: Seq<char>, any_case: bool) -> bool {
    exists|dot: int|
        #[trigger] extension_of(name, dot) && name.len() - dot - 1 == ext.len() && forall|j: int|
            0 <= j < ext.len() ==> (name[dot + 1 + j] == ext[j] || (any_case && lower(name[dot + 1 + j])
                == #[trigger] ext[j]))
}

/// The lower-case form of an ASCII letter; other characters are kept.
pub open spec fn lower(c: char) -> char {
    if 'A' <= c <= 'Z' {
        (c as u32 + 32) as char
    } else {
        c
    }
}

fn ends_in(name: &Vec<char>, ext: &Vec<char>, any_case: bool) -> (r: bool)
    ensures
        r == has_extension(name@, ext@, any_case),
{
    let n = name.len();
    let mut dot: usize = n;
    while dot > 0 && name[dot - 1] != '.'
        invariant
            dot <= n == name@.len(),
            forall|j: int| dot <= j < n ==> name@[j] != '.',
        decreases dot,
    {
        dot = dot - 1;
    }
    if dot < 2 {
        assert(forall|d: int| !extension_of(name@, d));
        return false;
    }
    let ghost at = dot - 1;
    assert(extension_of(name@, at as int));
    assert forall|d: int| extension_of(name@, d) implies d == at by {
        if d < at {
            assert(name@[at as int] != '.');
        } else if d > at {
            assert(name@[d] != '.');
        }
    }
    if n - dot != ext.len() {
        return false;
    }
    let mut j: usize = 0;
    while j < ext.len()
        invariant
            j <= ext@.len() == n - dot,
            dot <= n == name@.len(),
            at == dot - 1,
            extension_of(name@, at as int),
            forall|d: int| extension_of(name@, d) ==> d == at,
            forall|k: int|
                0 <= k < j ==> (name@[dot + k] == ext@[k] || (any_case && lower(name@[dot + k])
                    == #[trigger] ext@[k])),
        decreases ext@.len() - j,
    {
        let c = name[dot + j];
        let small: char = if c >= 'A' && c <= 'Z' {
            (c as u8 + 32) as char
        } else {
            c
        };
        if c != ext[j] && !(any_case && small == ext[j]) {
            assert(!has_extension(name@, ext@, any_case)) by {
                if has_extension(name@, ext@, any_case) {
                    let d = choose|d: int| #[trigger]
                        extension_of(name@, d) && name@.len() - d - 1 == ext@.len() && forall|k: int|
                            0 <= k < ext@.len() ==> (name@[d + 1 + k] == ext@[k] || (any_case && lower(
                                name@[d + 1 + k],
                            ) == #[trigger] ext@[k]));
                    assert(d == at);
                    assert(name@[d + 1 + j] == ext@[j as int] || (any_case && lower(name@[d + 1 + j])
                        == ext@[j as int]));
                }
            }
            return false;
        }
        j = j + 1;
    }
    assert(has_extension(name@, ext@, any_case)) by {
        assert forall|k: int| 0 <= k < ext@.len() implies (name@[at + 1 + k] == ext@[k] || (any_case && lower(
            name@[at + 1 + k],
        ) == #[trigger] ext@[k])) by {
            assert(name@[dot + k] == name@[at + 1 + k]);
        }
    }
    true
}

/// What the file `name` of the journal directory is.
pub open spec fn journal_file_of(name: Seq<char>) -> JournalFile {
    if name.len() > 0 && name[0] == '.' && has_extension(name, "tmp"@, true) {
        JournalFile::Temporary
    } else if has_extension(name, "json"@, false) {
        JournalFile::Entry
    } else {
        JournalFile::Other
    }
}

pub fn journal_file(name: &str) -> (r: JournalFile)
    ensures
        r == journal_file_of(name@),
{
    let chars = chars_of(name);
    if chars.len() > 0 && chars[0] == '.' && ends_in(&chars, &chars_of("tmp"), true) {
        JournalFile::Temporary
    } else if ends_in(&chars, &chars_of("json"), false) {
        JournalFile::Entry
    } else {
        JournalFile::Other
    }
}

/// The steps by which a source takes its sandbox back.
#[derive(Clone, Copy, Debug, PartialEq, Eq, Structural)]
pub enum AbortStep {
    /// Read the sandbox's record (`Record`, `No` or `Error`).
    ReadRecord,
    /// Write the journal entry in phase `abort_pending` (`Done` or `Error`).
    JournalAbort,
    /// Fence the target's claim (`Record` of the fresh generation, `No` where the
    /// target may have used it, or `Error`).
    FenceTarget,
    /// Write the journal entry in phase `restore_pending` (`Done` or `Error`).
    JournalRestore,
    /// Restore the local sandbox (`Done` or `Error`).
    Restore,
    /// Write the journal entry in phase `complete_pending` (`Done` or `Error`).
    JournalComplete,
    /// Make the fresh generation the serving one (`Record` or `Error`).
    Complete,
    /// Remove the journal entry (`Done` or `Error`).
    RemoveJournal,
    /// The sandbox is back.
    Finished,
    /// The abort stays pending; see the error.
    Failed,
}

/// Whether `reply` is one that `step` can have.
pub open spec fn abort_accepts(step: AbortStep, reply: ReplyView) -> bool {
    match step {
        AbortStep::ReadRecord | AbortStep::FenceTarget => reply is Record || reply is No || reply is Error,
        AbortStep::Complete => reply is Record || reply is Error,
        AbortStep::Finished | AbortStep::Failed => false,
        _ => reply is Done || reply is Error,
    }
}

/// Whether a journal entry that waits for completion still names the record's
/// generation.
pub open spec fn authoritative(c: CleanupView, current: RecordView) -> bool {
    current.owner == c.source_owner && current.epoch == c.source_epoch
}

/// The step after `step` when it had `reply`.
pub open spec fn abort_next(c: CleanupView, step: AbortStep, reply: ReplyView) -> AbortStep {
    match reply {
        ReplyView::Error(_) | ReplyView::No => AbortStep::Failed,
        ReplyView::Record(r) => match step {
            AbortStep::ReadRecord => if c.phase == "complete_pending"@ {
                if authoritative(c, r) {
                    AbortStep::Complete
                } else {
                    AbortStep::Failed
                }
            } else if c.phase == "abort_pending"@ || c.phase == "restore_pending"@ {
                AbortStep::FenceTarget
            } else {
                AbortStep::JournalAbort
            },
            AbortStep::FenceTarget => if c.phase == "restore_pending"@ {
                AbortStep::Restore
            } else {
                AbortStep::JournalRestore
            },
            _ => AbortStep::RemoveJournal,
        },
        _ => match step {
            AbortStep::JournalAbort => AbortStep::FenceTarget,
            AbortStep::JournalRestore => AbortStep::Restore,
            AbortStep::Restore => AbortStep::JournalComplete,
            AbortStep::JournalComplete => AbortStep::Complete,
            _ => AbortStep::Finished,
        },
    }
}

/// The error that `step` leaves behind with `reply`.
pub open spec fn abort_error(
    c: CleanupView,
    step: AbortStep,
    reply: ReplyView,
    before: Option<MeshErrorView>,
) -> Option<MeshErrorView> {
    match reply {
        ReplyView::Error(e) => Some(e),
        ReplyView::No => Some(
            if step == AbortStep::ReadRecord {
                invalid("source migration record disappeared during abort"@)
            } else {
                MeshErrorView { code: "busy"@, message: "target may have consumed migration token"@ }
            },
        ),
        ReplyView::Record(r) => if step == AbortStep::ReadRecord && c.phase == "complete_pending"@
            && !authoritative(c, r) {
            Some(
                MeshErrorView {
                    code: "busy"@,
                    message: "source migration completion is no longer authoritative"@,
                },
            )
        } else {
            before
        },
        _ => before,
    }
}

/// A source that takes its sandbox back.
///
/// `current` is the record as it was read; `fresh` the generation that serves
/// after the abort; `completed` the record that the completion returned.
pub struct SourceAbort {
    cleanup: MigrationCleanup,
    step: AbortStep,
    current: Option<CreateRecord>,
    fresh: Option<CreateRecord>,
    completed: Option<CreateRecord>,
    error: Option<MeshError>,
}

/// The value of a [`SourceAbort`].
pub struct AbortView {
    pub cleanup: CleanupView,
    pub step: AbortStep,
    pub current: Option<RecordView>,
    pub fresh: Option<RecordView>,
    pub completed: Option<RecordView>,
    pub error: Option<MeshErrorView>,
}

spec fn record_view(o: Option<CreateRecord>) -> Option<RecordView> {
    match o {
        Some(r) => Some(r@),
        None => None,
    }
}

impl View for SourceAbort {
    type V = AbortView;

    closed spec fn view(&self) -> AbortView {
        AbortView {
            cleanup: self.cleanup@,
            step: self.step,
            current: record_view(self.current),
            fresh: record_view(self.fresh),
            completed: record_view(self.completed),
            error: opt_error(self.error),
        }
    }
}

/// The abort once its step had `reply`.
pub open spec fn abort_moved(v: AbortView, reply: ReplyView) -> AbortView {
    AbortView {
        step: abort_next(v.cleanup, v.step, reply),
        error: abort_error(v.cleanup, v.step, reply, v.error),
        current: match reply {
            ReplyView::Record(r) => if v.step == AbortStep::ReadRecord {
                Some(r)
            } else {
                v.current
            },
            _ => v.current,
        },
        fresh: match reply {
            ReplyView::Record(r) => if v.step == AbortStep::FenceTarget || (v.step == AbortStep::ReadRecord
                && v.cleanup.phase == "complete_pending"@) {
                Some(r)
            } else {
                v.fresh
            },
            _ => v.fresh,
        },
        completed: match reply {
            ReplyView::Record(r) => if v.step == AbortStep::Complete {
                Some(r)
            } else {
                v.completed
            },
            _ => v.completed,
        },
        ..v
    }
}

/// What holds of an abort between its steps: what a step needs is there.
pub open spec fn abort_ready(v: AbortView) -> bool {
    &&& v.step == AbortStep::Restore ==> v.current is Some && v.fresh is Some
    &&& (v.step == AbortStep::JournalRestore || v.step == AbortStep::JournalComplete || v.step
        == AbortStep::Complete) ==> v.fresh is Some
    &&& (v.step == AbortStep::JournalAbort || v.step == AbortStep::FenceTarget || v.step
        == AbortStep::JournalRestore) ==> v.current is Some
    &&& (v.step == AbortStep::RemoveJournal || v.step == AbortStep::Finished) ==> v.completed is Some
    &&& v.step == AbortStep::Failed ==> v.error is Some
}

/// The journal entry that a step writes, or else the one that the abort started from.
pub open spec fn entry_of(v: AbortView) -> CleanupView {
    match v.step {
        AbortStep::JournalAbort => CleanupView { phase: "abort_pending"@, ..v.cleanup },
        AbortStep::JournalRestore => CleanupView { phase: "restore_pending"@, ..v.cleanup },
        AbortStep::JournalComplete => CleanupView {
            phase: "complete_pending"@,
            source_epoch: v.fresh->0.epoch,
            ..v.cleanup
        },
        _ => v.cleanup,
    }
}

/// Whether a step writes a journal entry.
pub open spec fn journals(step: AbortStep) -> bool {
    step == AbortStep::JournalAbort || step == AbortStep::JournalRestore || step == AbortStep::JournalComplete
}

/// Every entry that an abort writes may be written, where the one that it started from
/// was sound but for its phase and the fresh generation is one that there can be.
pub proof fn law_journalled_entry_is_accepted(v: AbortView)
    requires
        journals(v.step),
        abort_ready(v),
        journalable(CleanupView { phase: "prepared"@, ..v.cleanup }),
        v.fresh is Some ==> v.fresh->0.epoch >= 0,
    ensures
        journalable(entry_of(v)),
{
}

impl SourceAbort {
    pub fn new(cleanup: MigrationCleanup) -> (r: SourceAbort)
        ensures
            r@ == (AbortView {
                cleanup: cleanup@,
                step: AbortStep::ReadRecord,
                current: None,
                fresh: None,
                completed: None,
                error: None,
            }),
            abort_ready(r@),
    {
        SourceAbort { cleanup, step: AbortStep::ReadRecord, current: None, fresh: None, completed: None, error: None }
    }

    /// The step to perform.
    pub fn step(&self) -> (r: AbortStep)
        ensures
            r == self@.step,
    {
        self.step
    }

    /// The journal entry that the step writes, or else the one that it started
    /// from.
    pub fn journal_entry(&self) -> (r: MigrationCleanup)
        requires
            abort_ready(self@),
        ensures
            r@ == entry_of(self@),
    {
        match self.step {
            AbortStep::JournalAbort => self.cleanup.in_phase("abort_pending"),
            AbortStep::JournalRestore => self.cleanup.in_phase("restore_pending"),
            AbortStep::JournalComplete => {
                let mut entry = self.cleanup.in_phase("complete_pending");
                if let Some(fresh) = &self.fresh {
                    entry.source_epoch = fresh.epoch;
                }
                entry
            },
            _ => self.cleanup.in_phase(self.cleanup.phase.as_str()),
        }
    }

    /// The parameters that the local sandbox is restored with.
    pub fn restore_params(&self) -> (r: JsonMap)
        requires
            abort_ready(self@),
            self@.step == AbortStep::Restore,
        ensures
            r@ == self@.current->0.params.restrict(
                Set::new(|k: Seq<char>| !"_mesh_migration_"@.is_prefix_of(k)),
            ),
    {
        match &self.current {
            Some(record) => record.params.without_prefix("_mesh_migration_"),
            None => JsonMap::new(),
        }
    }

    /// The generation that the completion makes the serving one.
    pub fn fresh(&self) -> (r: Option<&CreateRecord>)
        ensures
            match r {
                Some(x) => self@.fresh == Some(x@),
                None => self@.fresh is None,
            },
    {
        match &self.fresh {
            Some(x) => Some(x),
            None => None,
        }
    }

    /// What came of the abort: the record that serves again, or why it stays
    /// pending.
    pub fn outcome(self) -> (r: Result<CreateRecord, MeshError>)
        requires
            abort_ready(self@),
            self@.step == AbortStep::Finished || self@.step == AbortStep::Failed,
        ensures
            match r {
                Ok(x) => self@.step == AbortStep::Finished && self@.completed == Some(x@),
                Err(e) => self@.step == AbortStep::Failed && self@.error == Some(e@),
            },
    {
        match (self.step, self.completed, self.error) {
            (AbortStep::Finished, Some(record), _) => Ok(record),
            (_, _, Some(e)) => Err(e),
            (_, _, None) => Err(MeshError::invalid("")),
        }
    }

    /// Takes what came of the step and moves on.
    pub fn resume(&mut self, reply: StepReply)
        requires
            abort_accepts(old(self)@.step, reply@),
            abort_ready(old(self)@),
        ensures
            final(self)@ == abort_moved(old(self)@, reply@),
            abort_ready(final(self)@),
    {
        let step = self.step;
        match reply {
            StepReply::Error(e) => {
                self.error = Some(e);
                self.step = AbortStep::Failed;
            },
            StepReply::No => {
                self.error = Some(
                    if step == AbortStep::ReadRecord {
                        MeshError::invalid("source migration record disappeared during abort")
                    } else {
                        MeshError::with_code("target may have consumed migration token".to_owned(), "busy")
                    },
                );
                self.step = AbortStep::Failed;
            },
            StepReply::Record(record) => {
                let phase = self.cleanup.phase.as_str();
                match step {
                    AbortStep::ReadRecord => {
                        if text_eq(phase, "complete_pending") {
                            if record.owned_by(self.cleanup.source_owner.as_str(), self.cleanup.source_epoch) {
                                self.step = AbortStep::Complete;
                            } else {
                                self.error = Some(
                                    MeshError::with_code(
                                        "source migration completion is no longer authoritative".to_owned(),
                                        "busy",
                                    ),
                                );
                                self.step = AbortStep::Failed;
                            }
                            self.fresh = Some(record.copy());
                        } else if text_eq(phase, "abort_pending") || text_eq(phase, "restore_pending") {
                            self.step = AbortStep::FenceTarget;
                        } else {
                            self.step = AbortStep::JournalAbort;
                        }
                        self.current = Some(record);
                    },
                    AbortStep::FenceTarget => {
                        self.step = if text_eq(phase, "restore_pending") {
                            AbortStep::Restore
                        } else {
                            AbortStep::JournalRestore
                        };
                        self.fresh = Some(record);
                    },
                    _ => {
                        self.step = AbortStep::RemoveJournal;
                        self.completed = Some(record);
                    },
                }
            },
            _ => {
                self.step = match step {
                    AbortStep::JournalAbort => AbortStep::FenceTarget,
                    AbortStep::JournalRestore => AbortStep::Restore,
                    AbortStep::Restore => AbortStep::JournalComplete,
                    AbortStep::JournalComplete => AbortStep::Complete,
                    _ => AbortStep::Finished,
                };
            },
        }
    }
}

/// A source restores its sandbox only after the target's claim was fenced, and
/// completes only after the restore was journalled, or where an earlier run had
/// come that far.
pub proof fn law_restore_follows_fence(c: CleanupView, step: AbortStep, reply: ReplyView)
    requires
        abort_accepts(step, reply),
    ensures
        abort_next(c, step, reply) == AbortStep::Restore ==> (step == AbortStep::FenceTarget && reply is Record)
            || step == AbortStep::JournalRestore,
        abort_next(c, step, reply) == AbortStep::JournalRestore ==> step == AbortStep::FenceTarget && reply is Record,
        abort_next(c, step, reply) == AbortStep::Complete ==> step == AbortStep::JournalComplete || (step
            == AbortStep::ReadRecord && c.phase == "complete_pending"@),
        abort_next(c, step, reply) == AbortStep::JournalComplete ==> step == AbortStep::Restore && reply is Done,
        abort_next(c, step, reply) == AbortStep::Finished ==> step == AbortStep::RemoveJournal && reply is Done,
{
}

/// An abort that waits for its completion neither fences nor restores again.
pub proof fn law_completion_is_not_repeated(c: CleanupView, reply: ReplyView)
    requires
        c.phase == "complete_pending"@,
        abort_accepts(AbortStep::ReadRecord, reply),
    ensures
        abort_next(c, AbortStep::ReadRecord, reply) == AbortStep::Complete || abort_next(
            c,
            AbortStep::ReadRecord,
            reply,
        ) == AbortStep::Failed,
{
}

/// How many steps an abort can still take.
pub open spec fn abort_rank(step: AbortStep) -> nat {
    match step {
        AbortStep::ReadRecord => 8,
        AbortStep::JournalAbort => 7,
        AbortStep::FenceTarget => 6,
        AbortStep::JournalRestore => 5,
        AbortStep::Restore => 4,
        AbortStep::JournalComplete => 3,
        AbortStep::Complete => 2,
        AbortStep::RemoveJournal => 1,
        AbortStep::Finished => 0,
        AbortStep::Failed => 0,
    }
}

/// Every step brings an abort closer to its end.
pub proof fn law_abort_ends(c: CleanupView, step: AbortStep, reply: ReplyView)
    requires
        abort_accepts(step, reply),
    ensures
        abort_rank(abort_next(c, step, reply)) < abort_rank(step),
{
}

/// What a source does about a migration of which it does not know the end.
#[derive(Clone, Copy, Debug, PartialEq, Eq, Structural)]
pub enum SourceVerdict {
    /// The target proved that it does not have the sandbox: take it back.
    TakeBack,
    /// The target has it: release what the source still holds.
    Release,
    /// Anything else is ambiguous: wait.
    Wait,
}

/// What a source does when the target answered `status` (`None`: no answer).
pub open spec fn verdict_on(status: Option<ObjectView>) -> SourceVerdict {
    if target_absent(status) {
        SourceVerdict::TakeBack
    } else if status is Some && bool_at(status->0, "committed"@) == Some(true) {
        SourceVerdict::Release
    } else {
        SourceVerdict::Wait
    }
}

pub fn source_verdict(status: Option<&JsonMap>) -> (r: SourceVerdict)
    ensures
        r == verdict_on(
            match status {
                Some(s) => Some(s@),
                None => None,
            },
        ),
{
    if source_migration_abort_allowed(status) {
        return SourceVerdict::TakeBack;
    }
    match status {
        Some(s) => if matches!(s.bool_at("committed"), Some(true)) {
            SourceVerdict::Release
        } else {
            SourceVerdict::Wait
        },
        None => SourceVerdict::Wait,
    }
}

/// A source takes its sandbox back only on the target's explicit word that it is
/// absent and not committed; so source and target never both run it.
pub proof fn law_ambiguity_waits(status: Option<ObjectView>)
    ensures
        status is None ==> verdict_on(status) == SourceVerdict::Wait,
        status is Some && bool_at(status->0, "committed"@) == Some(true) ==> verdict_on(status)
            == SourceVerdict::Release,
        verdict_on(status) == SourceVerdict::TakeBack ==> status is Some && bool_at(status->0, "committed"@)
            != Some(true) && crate::json::text_at(status->0, "state"@) == Some("absent"@),
{
}

/// The steps by which a source lets go of a sandbox that the target has.
#[derive(Clone, Copy, Debug, PartialEq, Eq, Structural)]
pub enum ReleaseStep {
    /// Release the leases of its volumes.
    ReleaseLeases,
    /// Remove its checkpoints; `leases` tells whether the leases were released.
    RemoveArtifacts { leases: bool },
    /// Remove the journal entry.
    RemoveJournal,
    /// Forget that this node owned it.
    ForgetOwner,
    /// Nothing of it is left here.
    Finished,
    /// The journal entry stays, and the release is tried again in the next pass.
    Pending,
}

/// The step after `step`, which succeeded or not.
pub open spec fn release_next(step: ReleaseStep, ok: bool) -> ReleaseStep {
    match step {
        ReleaseStep::ReleaseLeases => ReleaseStep::RemoveArtifacts { leases: ok },
        ReleaseStep::RemoveArtifacts { leases } => if leases && ok {
            ReleaseStep::RemoveJournal
        } else {
            ReleaseStep::Pending
        },
        ReleaseStep::RemoveJournal => if ok {
            ReleaseStep::ForgetOwner
        } else {
            ReleaseStep::Pending
        },
        ReleaseStep::ForgetOwner => ReleaseStep::Finished,
        ReleaseStep::Finished => ReleaseStep::Finished,
        ReleaseStep::Pending => ReleaseStep::Pending,
    }
}

/// The next step by which a source lets go of a sandbox. The checkpoints are removed
/// even where the leases could not be released; the journal entry only where both
/// were.
pub fn release_committed(step: ReleaseStep, ok: bool) -> (r: ReleaseStep)
    ensures
        r == release_next(step, ok),
{
    match step {
        ReleaseStep::ReleaseLeases => ReleaseStep::RemoveArtifacts { leases: ok },
        ReleaseStep::RemoveArtifacts { leases } => if leases && ok {
            ReleaseStep::RemoveJournal
        } else {
            ReleaseStep::Pending
        },
        ReleaseStep::RemoveJournal => if ok {
            ReleaseStep::ForgetOwner
        } else {
            ReleaseStep::Pending
        },
        ReleaseStep::ForgetOwner => ReleaseStep::Finished,
        ReleaseStep::Finished => ReleaseStep::Finished,
        ReleaseStep::Pending => ReleaseStep::Pending,
    }
}

/// The step that a release is at once its steps so far came out as `results`.
pub open spec fn release_after(results: Seq<bool>) -> ReleaseStep
    decreases results.len(),
{
    if results.len() == 0 {
        ReleaseStep::ReleaseLeases
    } else {
        release_next(release_after(results.drop_last()), results.last())
    }
}

/// A source forgets a sandbox only where its leases were released, its checkpoints
/// removed and its journal entry removed before.
pub proof fn law_released_leaves_nothing(results: Seq<bool>)
    ensures
        release_after(results) matches ReleaseStep::RemoveArtifacts { leases } ==> results.len() == 1 && leases
            == results[0],
        release_after(results) == ReleaseStep::RemoveJournal ==> results.len() == 2 && results[0] && results[1],
        release_after(results) == ReleaseStep::ForgetOwner ==> results.len() == 3 && results[0] && results[1]
            && results[2],
        release_after(results) == ReleaseStep::Finished ==> results.len() >= 4 && results[0] && results[1]
            && results[2],
    decreases results.len(),
{
    if results.len() > 0 {
        law_released_leaves_nothing(results.drop_last());
    }
}

/// The steps by which a deletion completes.
#[derive(Clone, Copy, Debug, PartialEq, Eq, Structural)]
pub enum DeleteStep {
    /// Withdraw the sandbox from service.
    Fence,
    /// Stop its candidate.
    TearDown,
    /// Remove its portable history.
    DeleteHistory,
    /// Remove its record.
    Commit,
    /// The deletion is complete.
    Finished,
    /// The deletion is tried again in the next pass.
    Pending,
}

/// The step after `step`, which succeeded or not.
pub open spec fn delete_next(step: DeleteStep, ok: bool) -> DeleteStep {
    match step {
        DeleteStep::Fence => DeleteStep::TearDown,
        DeleteStep::TearDown => if ok {
            DeleteStep::DeleteHistory
        } else {
            DeleteStep::Pending
        },
        DeleteStep::DeleteHistory => if ok {
            DeleteStep::Commit
        } else {
            DeleteStep::Pending
        },
        DeleteStep::Commit => if ok {
            DeleteStep::Finished
        } else {
            DeleteStep::Pending
        },
        DeleteStep::Finished => DeleteStep::Finished,
        DeleteStep::Pending => DeleteStep::Pending,
    }
}

/// Replay a durable delete tombstone in the only safe order: fence, stop the
/// candidate, remove portable history, then commit the removal. A failed step
/// leaves the tombstone for the next pass.
pub fn converge_delete_tombstone(step: DeleteStep, ok: bool) -> (r: DeleteStep)
    ensures
        r == delete_next(step, ok),
{
    match step {
        DeleteStep::Fence => DeleteStep::TearDown,
        DeleteStep::TearDown => if ok {
            DeleteStep::DeleteHistory
        } else {
            DeleteStep::Pending
        },
        DeleteStep::DeleteHistory => if ok {
            DeleteStep::Commit
        } else {
            DeleteStep::Pending
        },
        DeleteStep::Commit => if ok {
            DeleteStep::Finished
        } else {
            DeleteStep::Pending
        },
        DeleteStep::Finished => DeleteStep::Finished,
        DeleteStep::Pending => DeleteStep::Pending,
    }
}

/// The step that a deletion is at once its steps so far came out as `results`.
pub open spec fn delete_after(results: Seq<bool>) -> DeleteStep
    decreases results.len(),
{
    if results.len() == 0 {
        DeleteStep::Fence
    } else {
        delete_next(delete_after(results.drop_last()), results.last())
    }
}

/// A record is removed only where the candidate was stopped and the history
/// removed before.
pub proof fn law_delete_commits_last(results: Seq<bool>)
    ensures
        delete_after(results) == DeleteStep::TearDown ==> results.len() == 1,
        delete_after(results) == DeleteStep::DeleteHistory ==> results.len() == 2 && results[1],
        delete_after(results) == DeleteStep::Commit ==> results.len() == 3 && results[1] && results[2],
        delete_after(results) == DeleteStep::Finished ==> results.len() >= 4 && results[1] && results[2]
            && results[3],
    decreases results.len(),
{
    if results.len() > 0 {
        law_delete_commits_last(results.drop_last());
    }
}

/// Where its steps succeed, taking a migration back goes in this order: it reads the
/// record, notes that it aborts, fences the target, notes that it restores, restores,
/// notes that it completes, completes, and removes the note. An abort that was broken
/// off goes on from what it had noted.
pub proof fn law_abort_goes_in_order(c: CleanupView, current: RecordView, fresh: RecordView)
    ensures
        c.phase == "prepared"@ ==> abort_next(c, AbortStep::ReadRecord, ReplyView::Record(current))
            == AbortStep::JournalAbort,
        c.phase == "abort_pending"@ || c.phase == "restore_pending"@ ==> abort_next(
            c,
            AbortStep::ReadRecord,
            ReplyView::Record(current),
        ) == AbortStep::FenceTarget,
        c.phase == "complete_pending"@ && current.owner == c.source_owner && current.epoch == c.source_epoch
            ==> abort_next(c, AbortStep::ReadRecord, ReplyView::Record(current)) == AbortStep::Complete,
        c.phase == "complete_pending"@ && (current.owner != c.source_owner || current.epoch != c.source_epoch)
            ==> abort_next(c, AbortStep::ReadRecord, ReplyView::Record(current)) == AbortStep::Failed,
        abort_next(c, AbortStep::JournalAbort, ReplyView::Done) == AbortStep::FenceTarget,
        c.phase != "restore_pending"@ ==> abort_next(c, AbortStep::FenceTarget, ReplyView::Record(fresh))
            == AbortStep::JournalRestore,
        c.phase == "restore_pending"@ ==> abort_next(c, AbortStep::FenceTarget, ReplyView::Record(fresh))
            == AbortStep::Restore,
        abort_next(c, AbortStep::JournalRestore, ReplyView::Done) == AbortStep::Restore,
        abort_next(c, AbortStep::Restore, ReplyView::Done) == AbortStep::JournalComplete,
        abort_next(c, AbortStep::JournalComplete, ReplyView::Done) == AbortStep::Complete,
        abort_next(c, AbortStep::Complete, ReplyView::Record(fresh)) == AbortStep::RemoveJournal,
        abort_next(c, AbortStep::RemoveJournal, ReplyView::Done) == AbortStep::Finished,
        abort_next(c, AbortStep::FenceTarget, ReplyView::No) == AbortStep::Failed,
        abort_next(c, AbortStep::ReadRecord, ReplyView::No) == AbortStep::Failed,
{
    reveal_strlit("prepared");
    reveal_strlit("abort_pending");
    reveal_strlit("restore_pending");
    reveal_strlit("complete_pending");
    assert("prepared"@.len() == 8 && "abort_pending"@.len() == 13 && "restore_pending"@.len() == 15
        && "complete_pending"@.len() == 16);
}

/// An abort goes on only where each of its steps succeeds; the error that stops it is
/// kept.
pub proof fn law_abort_stops_at_an_error(v: AbortView, e: MeshErrorView)
    ensures
        abort_moved(v, ReplyView::Error(e)).step == AbortStep::Failed,
        abort_moved(v, ReplyView::Error(e)).error == Some(e),
        abort_moved(v, ReplyView::Error(e)).fresh == v.fresh,
        abort_moved(v, ReplyView::No).error is Some,
{
}

/// What is noted of an abort differs from the migration's entry in its phase alone,
/// and at completion in the generation that the fence gave the source.
pub proof fn law_noted_phase_follows_step(v: AbortView)
    ensures
        v.step == AbortStep::JournalAbort ==> entry_of(v) == (CleanupView { phase: "abort_pending"@, ..v.cleanup }),
        v.step == AbortStep::JournalRestore ==> entry_of(v) == (CleanupView { phase: "restore_pending"@, ..v.cleanup }),
        v.step == AbortStep::JournalComplete && v.fresh is Some ==> entry_of(v) == (CleanupView {
            phase: "complete_pending"@,
            source_epoch: v.fresh->0.epoch,
            ..v.cleanup
        }),
{
}

/// The generation that an aborted migration goes on with is the one the fence gave.
pub proof fn law_fence_gives_the_generation(v: AbortView, fresh: RecordView)
    requires
        v.step == AbortStep::FenceTarget,
    ensures
        abort_moved(v, ReplyView::Record(fresh)).fresh == Some(fresh),
        abort_moved(v, ReplyView::Record(fresh)).current == v.current,
        abort_moved(v, ReplyView::Record(fresh)).cleanup == v.cleanup,
{
}

/// A source takes its sandbox back where the target has nothing of it, lets it go where
/// the target committed, and waits otherwise.
pub proof fn law_source_follows_the_target(status: ObjectView)
    ensures
        status.contains_key("committed"@) && status["committed"@] == crate::json::JsonView::Bool(true) ==> verdict_on(
            Some(status),
        ) == SourceVerdict::Release,
        !status.contains_key("committed"@) && status.contains_key("state"@) && status["state"@]
            == crate::json::JsonView::Str("absent"@) ==> verdict_on(Some(status)) == SourceVerdict::TakeBack,
        !status.contains_key("committed"@) && (!status.contains_key("state"@) || status["state"@]
            != crate::json::JsonView::Str("absent"@)) ==> verdict_on(Some(status)) == SourceVerdict::Wait,
{
}

/// The release of a migrated sandbox is over exactly where its leases were released,
/// its checkpoints and then its journal entry removed; otherwise it is tried again.
pub proof fn law_release_needs_every_step(a: bool, b: bool, c: bool, d: bool)
    ensures
        release_after(seq![a, b, c, d]) == if a && b && c {
            ReleaseStep::Finished
        } else {
            ReleaseStep::Pending
        },
{
    reveal_with_fuel(release_after, 5);
    assert(seq![a, b, c, d].drop_last() =~= seq![a, b, c]);
    assert(seq![a, b, c].drop_last() =~= seq![a, b]);
    assert(seq![a, b].drop_last() =~= seq![a]);
    assert(seq![a].drop_last() =~= Seq::<bool>::empty());
}

/// A deletion is over exactly where the candidate was stopped, its history removed and
/// its record removed; otherwise it is tried again.
pub proof fn law_delete_needs_every_step(a: bool, b: bool, c: bool, d: bool)
    ensures
        delete_after(seq![a, b, c, d]) == if b && c && d {
            DeleteStep::Finished
        } else {
            DeleteStep::Pending
        },
{
    reveal_with_fuel(delete_after, 5);
    assert(seq![a, b, c, d].drop_last() =~= seq![a, b, c]);
    assert(seq![a, b, c].drop_last() =~= seq![a, b]);
    assert(seq![a, b].drop_last() =~= seq![a]);
    assert(seq![a].drop_last() =~= Seq::<bool>::empty());
}

/// Only entries whose sandbox is a plain name, and that name both nodes, are written.
pub proof fn law_journalled_name_is_plain(c: CleanupView)
    ensures
        journalable(c) ==> c.sid.len() > 0 && c.sid != "."@ && c.sid != ".."@ && !c.sid.contains('/')
            && !c.sid.contains('\\') && c.source_owner.len() > 0 && c.target_owner.len() > 0 && c.token.len() > 0
            && c.source_epoch >= 0 && c.target_epoch >= 0 && c.schema_version == 1,
        journalable(c) ==> c.phase == "prepared"@ || c.phase == "abort_pending"@ || c.phase == "restore_pending"@
            || c.phase == "complete_pending"@,
        c.sid.len() > 0 && c.sid != "."@ && c.sid != ".."@ && !c.sid.contains('/') && !c.sid.contains('\\')
            && c.source_owner.len() > 0 && c.target_owner.len() > 0 && c.token.len() > 0 && c.source_epoch >= 0
            && c.target_epoch >= 0 && c.schema_version == 1 && (c.phase == "prepared"@ || c.phase == "abort_pending"@
            || c.phase == "restore_pending"@ || c.phase == "complete_pending"@) ==> journalable(c),
{
}

/// A file of the journal is an entry where its name ends as entries do.
pub proof fn law_json_files_are_entries(stem: Seq<char>)
    requires
        stem.len() > 0,
    ensures
        journal_file_of(stem + seq!['.', 'j', 's', 'o', 'n']) == JournalFile::Entry,
        stem[0] == '.' ==> journal_file_of(stem + seq!['.', 't', 'm', 'p']) == JournalFile::Temporary,
        stem[0] != '.' ==> journal_file_of(stem + seq!['.', 't', 'm', 'p']) == JournalFile::Other,
{
    reveal_strlit("json");
    reveal_strlit("tmp");
    let a = stem + seq!['.', 'j', 's', 'o', 'n'];
    let b = stem + seq!['.', 't', 'm', 'p'];
    let n = stem.len() as int;
    assert(extension_of(a, n));
    assert(extension_of(b, n));
    assert forall|dot: int| #[trigger] extension_of(a, dot) implies dot == n by {
        if dot < n {
            assert(a[n] == '.');
        }
    }
    assert forall|dot: int| #[trigger] extension_of(b, dot) implies dot == n by {
        if dot < n {
            assert(b[n] == '.');
        }
    }
    assert(has_extension(a, "json"@, false));
    assert(!has_extension(a, "tmp"@, true));
    assert(has_extension(b, "tmp"@, true));
    assert(!has_extension(b, "json"@, false));
}

} // verus!
