//! What holds of whole runs of the mesh's procedures, whatever their steps came to.
use crate::json::{bool_at, JsonView};
use crate::mesh::materialize::{fetch_accepts, fetch_moved, FetchReplyView, FetchStep, FetchView};
use crate::mesh::migration::{target_accepts, target_moved, ReplyView, TargetStep, TargetView};
use crate::mesh::publish::{publish_accepts, publish_moved, PublicationView, PublishReplyView, PublishStep};
use crate::mesh::records::ReplicaView;
use crate::mesh::takeback::{abort_accepts, abort_moved, AbortStep, AbortView};
use vstd::prelude::*;

verus! {

/// A migration into a node once its steps had `replies`.
pub open spec fn target_after(v: TargetView, replies: Seq<ReplyView>) -> TargetView
    decreases replies.len(),
{
    if replies.len() == 0 {
        v
    } else {
        target_moved(target_after(v, replies.drop_last()), replies.last())
    }
}

/// Whether each reply is one that its step can have.
pub open spec fn target_run(v: TargetView, replies: Seq<ReplyView>) -> bool
    decreases replies.len(),
{
    replies.len() == 0 || (target_run(v, replies.drop_last()) && target_accepts(
        target_after(v, replies.drop_last()).step,
        replies.last(),
    ))
}

/// Whether a step with a reply of some kind occurred in a run.
pub open spec fn target_had(
    v: TargetView,
    replies: Seq<ReplyView>,
    what: spec_fn(TargetStep, ReplyView) -> bool,
) -> bool
    decreases replies.len(),
{
    replies.len() > 0 && (target_had(v, replies.drop_last(), what) || what(
        target_after(v, replies.drop_last()).step,
        replies.last(),
    ))
}

/// The source was told of the claim.
pub open spec fn source_told() -> spec_fn(TargetStep, ReplyView) -> bool {
    |s: TargetStep, r: ReplyView| s == TargetStep::NotifySource && r is Done
}

/// The leases of writable volumes were acquired.
pub open spec fn leases_acquired() -> spec_fn(TargetStep, ReplyView) -> bool {
    |s: TargetStep, r: ReplyView| s == TargetStep::AcquireLeases && r is Leases
}

/// The leases were written to the sandbox.
pub open spec fn leases_recorded() -> spec_fn(TargetStep, ReplyView) -> bool {
    |s: TargetStep, r: ReplyView| s == TargetStep::RecordLeases && r is Done
}

/// The commit marker was durably written.
pub open spec fn takeover_committed() -> spec_fn(TargetStep, ReplyView) -> bool {
    |s: TargetStep, r: ReplyView| s == TargetStep::Commit && r is Record
}

/// The sandbox was let run.
pub open spec fn takeover_activated() -> spec_fn(TargetStep, ReplyView) -> bool {
    |s: TargetStep, r: ReplyView| s == TargetStep::Activate && r is Done
}

/// The candidate was to be stopped.
pub open spec fn candidate_torn_down() -> spec_fn(TargetStep, ReplyView) -> bool {
    |s: TargetStep, r: ReplyView| s == TargetStep::TearDown
}

/// The leases were to be released.
pub open spec fn leases_given_back() -> spec_fn(TargetStep, ReplyView) -> bool {
    |s: TargetStep, r: ReplyView| s == TargetStep::ReleaseLeases
}

/// The leases that the acquisition in a run brought.
pub open spec fn leases_brought(v: TargetView, replies: Seq<ReplyView>) -> Seq<JsonView>
    decreases replies.len(),
{
    if replies.len() == 0 {
        Seq::empty()
    } else {
        match replies.last() {
            ReplyView::Leases(l) => if target_after(v, replies.drop_last()).step == TargetStep::AcquireLeases {
                l
            } else {
                leases_brought(v, replies.drop_last())
            },
            _ => leases_brought(v, replies.drop_last()),
        }
    }
}

/// At every step of a run the migration holds exactly the leases that the
/// acquisition brought: those are written to the sandbox, and those are released
/// where it fails.
pub proof fn law_takeover_keeps_its_leases(v: TargetView, replies: Seq<ReplyView>)
    requires
        v.step == TargetStep::Claim,
        v.leases == Seq::<JsonView>::empty(),
        target_run(v, replies),
    ensures
        target_after(v, replies).leases == leases_brought(v, replies),
    decreases replies.len(),
{
    if replies.len() > 0 {
        law_takeover_keeps_its_leases(v, replies.drop_last());
    }
}

spec fn before_leases(s: TargetStep) -> bool {
    s == TargetStep::Claim || s == TargetStep::NotifySource || s == TargetStep::AskPresent || s
        == TargetStep::Reactivate || s == TargetStep::CheckDelta || s == TargetStep::LookUpBase || s
        == TargetStep::PullBase || s == TargetStep::PullDelta || s == TargetStep::StageDelta || s
        == TargetStep::SaveDelta || s == TargetStep::AcquireLeases
}

/// A run of a migration into a node, whatever its steps came to:
/// - a sandbox is launched, committed and activated only after the source was told
///   and the leases were acquired;
/// - it is activated only after its leases were written and its commit was durable;
/// - the run ends well only with the activation, or where an earlier run had
///   committed;
/// - where the run fails, acquired leases were given back, unless the takeover was
///   committed; and then its candidate was not torn down.
pub proof fn law_takeover_run(v: TargetView, replies: Seq<ReplyView>)
    requires
        v.step == TargetStep::Claim,
        target_run(v, replies),
    ensures
        ({
            let w = target_after(v, replies);
            let s = w.step;
            &&& (s == TargetStep::Adopt || s == TargetStep::RecordLeases || s == TargetStep::Commit || s
                == TargetStep::Activate) ==> target_had(v, replies, source_told()) && target_had(
                v,
                replies,
                leases_acquired(),
            )
            &&& s == TargetStep::Activate ==> target_had(v, replies, leases_recorded()) && target_had(
                v,
                replies,
                takeover_committed(),
            )
            &&& s == TargetStep::Finished ==> target_had(v, replies, takeover_activated()) || bool_at(
                v.record.params,
                "_mesh_migration_committed"@,
            ) == Some(true)
            &&& s == TargetStep::Failed && target_had(v, replies, leases_acquired()) ==> target_had(
                v,
                replies,
                leases_given_back(),
            ) || target_had(v, replies, takeover_committed())
            &&& target_had(v, replies, takeover_committed()) ==> !target_had(v, replies, candidate_torn_down())
        }),
{
    lemma_takeover_run(v, replies);
}

proof fn lemma_takeover_run(v: TargetView, replies: Seq<ReplyView>)
    requires
        v.step == TargetStep::Claim,
        target_run(v, replies),
    ensures
        ({
            let w = target_after(v, replies);
            let s = w.step;
            let committed = bool_at(v.record.params, "_mesh_migration_committed"@) == Some(true);
            let acquired = target_had(v, replies, leases_acquired());
            let told = target_had(v, replies, source_told());
            let recorded = target_had(v, replies, leases_recorded());
            let durable = target_had(v, replies, takeover_committed());
            let torn = target_had(v, replies, candidate_torn_down());
            let given = target_had(v, replies, leases_given_back());
            &&& (s == TargetStep::Claim || s == TargetStep::NotifySource) ==> w.record == v.record
            &&& before_leases(s) ==> !acquired && !durable
            &&& (s == TargetStep::AskPresent || s == TargetStep::Reactivate) ==> committed
            &&& s != TargetStep::Claim && s != TargetStep::NotifySource && s != TargetStep::Failed ==> told
            &&& (s == TargetStep::AskAdopted || s == TargetStep::Adopt || s == TargetStep::RecordLeases || s
                == TargetStep::Commit) ==> acquired && !durable && !torn
            &&& s == TargetStep::Commit ==> recorded
            &&& s == TargetStep::Activate ==> acquired && recorded && durable && !torn
            &&& (s == TargetStep::TearDown || s == TargetStep::ReleaseLeases) ==> acquired && !durable
            &&& s == TargetStep::Finished ==> target_had(v, replies, takeover_activated()) || committed
            &&& s == TargetStep::Failed && acquired ==> given || durable
            &&& torn ==> !durable && (s == TargetStep::ReleaseLeases || s == TargetStep::Failed)
        }),
    decreases replies.len(),
{
    if replies.len() > 0 {
        lemma_takeover_run(v, replies.drop_last());
    }
}

/// A source's abort once its steps had `replies`.
pub open spec fn abort_after(v: AbortView, replies: Seq<ReplyView>) -> AbortView
    decreases replies.len(),
{
    if replies.len() == 0 {
        v
    } else {
        abort_moved(abort_after(v, replies.drop_last()), replies.last())
    }
}

/// Whether each reply is one that its step can have.
pub open spec fn abort_run(v: AbortView, replies: Seq<ReplyView>) -> bool
    decreases replies.len(),
{
    replies.len() == 0 || (abort_run(v, replies.drop_last()) && abort_accepts(
        abort_after(v, replies.drop_last()).step,
        replies.last(),
    ))
}

/// Whether a step with a reply of some kind occurred in a run.
pub open spec fn abort_had(
    v: AbortView,
    replies: Seq<ReplyView>,
    what: spec_fn(AbortStep, ReplyView) -> bool,
) -> bool
    decreases replies.len(),
{
    replies.len() > 0 && (abort_had(v, replies.drop_last(), what) || what(
        abort_after(v, replies.drop_last()).step,
        replies.last(),
    ))
}

/// The target's claim was fenced.
pub open spec fn target_fenced() -> spec_fn(AbortStep, ReplyView) -> bool {
    |s: AbortStep, r: ReplyView| s == AbortStep::FenceTarget && r is Record
}

/// The local sandbox was restored.
pub open spec fn source_restored() -> spec_fn(AbortStep, ReplyView) -> bool {
    |s: AbortStep, r: ReplyView| s == AbortStep::Restore && r is Done
}

/// The fresh generation was made the serving one.
pub open spec fn abort_completed() -> spec_fn(AbortStep, ReplyView) -> bool {
    |s: AbortStep, r: ReplyView| s == AbortStep::Complete && r is Record
}

/// The journal entry was removed.
pub open spec fn journal_removed() -> spec_fn(AbortStep, ReplyView) -> bool {
    |s: AbortStep, r: ReplyView| s == AbortStep::RemoveJournal && r is Done
}

/// A run of an abort, whatever its steps came to: the sandbox is restored only after
/// the target's claim was fenced; the fresh generation serves only after that, unless
/// an earlier run had come to the completion; and the journal entry is removed only
/// after the completion, with which alone the run ends well.
pub proof fn law_abort_run(v: AbortView, replies: Seq<ReplyView>)
    requires
        v.step == AbortStep::ReadRecord,
        abort_run(v, replies),
    ensures
        ({
            let s = abort_after(v, replies).step;
            let resumed = v.cleanup.phase == "complete_pending"@;
            &&& s == AbortStep::Restore ==> abort_had(v, replies, target_fenced())
            &&& s == AbortStep::Complete ==> resumed || (abort_had(v, replies, target_fenced()) && abort_had(
                v,
                replies,
                source_restored(),
            ))
            &&& s == AbortStep::RemoveJournal ==> abort_had(v, replies, abort_completed())
            &&& s == AbortStep::Finished ==> abort_had(v, replies, abort_completed()) && abort_had(
                v,
                replies,
                journal_removed(),
            )
        }),
{
    lemma_abort_run(v, replies);
}

proof fn lemma_abort_run(v: AbortView, replies: Seq<ReplyView>)
    requires
        v.step == AbortStep::ReadRecord,
        abort_run(v, replies),
    ensures
        ({
            let w = abort_after(v, replies);
            let s = w.step;
            let resumed = v.cleanup.phase == "complete_pending"@;
            let fenced = abort_had(v, replies, target_fenced());
            let restored = abort_had(v, replies, source_restored());
            let completed = abort_had(v, replies, abort_completed());
            &&& w.cleanup == v.cleanup
            &&& (s == AbortStep::JournalRestore || s == AbortStep::Restore) ==> fenced
            &&& s == AbortStep::JournalComplete ==> fenced && restored
            &&& s == AbortStep::Complete ==> resumed || (fenced && restored)
            &&& s == AbortStep::RemoveJournal ==> completed
            &&& s == AbortStep::Finished ==> completed && abort_had(v, replies, journal_removed())
        }),
    decreases replies.len(),
{
    if replies.len() > 0 {
        lemma_abort_run(v, replies.drop_last());
    }
}

/// A publication once its steps had `replies`.
pub open spec fn publish_after(v: PublicationView, replies: Seq<PublishReplyView>) -> PublicationView
    decreases replies.len(),
{
    if replies.len() == 0 {
        v
    } else {
        publish_moved(publish_after(v, replies.drop_last()), replies.last())
    }
}

/// Whether each reply is one that its step can have.
pub open spec fn publish_run(v: PublicationView, replies: Seq<PublishReplyView>) -> bool
    decreases replies.len(),
{
    replies.len() == 0 || (publish_run(v, replies.drop_last()) && publish_accepts(
        publish_after(v, replies.drop_last()).step,
        replies.last(),
    ))
}

/// Whether a step with a reply of some kind occurred in a run.
pub open spec fn publish_had(
    v: PublicationView,
    replies: Seq<PublishReplyView>,
    what: spec_fn(PublishStep, PublishReplyView) -> bool,
) -> bool
    decreases replies.len(),
{
    replies.len() > 0 && (publish_had(v, replies.drop_last(), what) || what(
        publish_after(v, replies.drop_last()).step,
        replies.last(),
    ))
}

/// What lies under the final key was read back and had the right digest.
pub open spec fn published_verified() -> spec_fn(PublishStep, PublishReplyView) -> bool {
    |s: PublishStep, r: PublishReplyView|
        (s == PublishStep::VerifyFinal || s == PublishStep::VerifyPublished) && r is Done
}

/// An upload to the staging key was begun.
pub open spec fn upload_begun() -> spec_fn(PublishStep, PublishReplyView) -> bool {
    |s: PublishStep, r: PublishReplyView| s == PublishStep::Upload
}

/// A copy to the final key was begun.
pub open spec fn copy_begun() -> spec_fn(PublishStep, PublishReplyView) -> bool {
    |s: PublishStep, r: PublishReplyView| s == PublishStep::Copy
}

/// What was staged was read back and had the right digest.
pub open spec fn staged_verified() -> spec_fn(PublishStep, PublishReplyView) -> bool {
    |s: PublishStep, r: PublishReplyView| s == PublishStep::VerifyStaging && r is Done
}

/// The object under the final key was to be removed.
pub open spec fn final_removed() -> spec_fn(PublishStep, PublishReplyView) -> bool {
    |s: PublishStep, r: PublishReplyView| s == PublishStep::RemoveFinal
}

/// The staged object was to be removed.
pub open spec fn staging_removed() -> spec_fn(PublishStep, PublishReplyView) -> bool {
    |s: PublishStep, r: PublishReplyView| s == PublishStep::RemoveStaging
}

/// A run of a publication, whatever its steps came to: it ends well only where what
/// lies under the final key was verified; only what was verified is copied there; a
/// copy that was not verified is taken away again; and what was staged is removed
/// before the run ends.
pub proof fn law_publication_run(v: PublicationView, replies: Seq<PublishReplyView>)
    requires
        v.step == PublishStep::HeadFinal,
        v.error is None,
        publish_run(v, replies),
    ensures
        ({
            let s = publish_after(v, replies).step;
            let over = s == PublishStep::Finished || s == PublishStep::Failed;
            &&& s == PublishStep::Finished ==> publish_had(v, replies, published_verified())
            &&& publish_had(v, replies, copy_begun()) ==> publish_had(v, replies, staged_verified())
            &&& over && publish_had(v, replies, copy_begun()) && !publish_had(v, replies, published_verified())
                ==> publish_had(v, replies, final_removed())
            &&& over && publish_had(v, replies, upload_begun()) ==> publish_had(v, replies, staging_removed())
        }),
{
    lemma_publication_run(v, replies);
}

proof fn lemma_publication_run(v: PublicationView, replies: Seq<PublishReplyView>)
    requires
        v.step == PublishStep::HeadFinal,
        v.error is None,
        publish_run(v, replies),
    ensures
        ({
            let w = publish_after(v, replies);
            let s = w.step;
            let verified = publish_had(v, replies, published_verified());
            let uploaded = publish_had(v, replies, upload_begun());
            let copied = publish_had(v, replies, copy_begun());
            let staged = publish_had(v, replies, staged_verified());
            let removed = publish_had(v, replies, final_removed());
            let cleared = publish_had(v, replies, staging_removed());
            &&& (s == PublishStep::HeadFinal || s == PublishStep::VerifyFinal || s == PublishStep::Upload)
                ==> !uploaded && !copied
            &&& (s == PublishStep::HeadStaging || s == PublishStep::VerifyStaging) ==> !copied
            &&& (s == PublishStep::Copy || s == PublishStep::HeadPublished || s == PublishStep::VerifyPublished)
                ==> staged
            &&& copied ==> staged
            &&& (s != PublishStep::RemoveFinal && s != PublishStep::RemoveStaging && s != PublishStep::Failed)
                ==> w.error is None
            &&& s == PublishStep::RemoveFinal ==> w.error is Some
            &&& s == PublishStep::RemoveStaging && w.error is None ==> verified
            &&& s == PublishStep::RemoveStaging && w.error is Some && copied ==> removed
            &&& s == PublishStep::Finished ==> verified
            &&& s == PublishStep::Failed && copied ==> removed || verified
            &&& (s == PublishStep::Finished || s == PublishStep::Failed) && uploaded ==> cleared
        }),
    decreases replies.len(),
{
    if replies.len() > 0 {
        lemma_publication_run(v, replies.drop_last());
    }
}

/// A fetch once its steps had `replies`.
pub open spec fn fetch_after(v: FetchView, replies: Seq<FetchReplyView>) -> FetchView
    decreases replies.len(),
{
    if replies.len() == 0 {
        v
    } else {
        fetch_moved(fetch_after(v, replies.drop_last()), replies.last())
    }
}

/// Whether each reply is one that its step can have.
pub open spec fn fetch_run(v: FetchView, replies: Seq<FetchReplyView>) -> bool
    decreases replies.len(),
{
    replies.len() == 0 || (fetch_run(v, replies.drop_last()) && fetch_accepts(
        fetch_after(v, replies.drop_last()).step,
        replies.last(),
    ))
}

/// Whether a step with a reply of some kind occurred in a run.
pub open spec fn fetch_had(
    v: FetchView,
    replies: Seq<FetchReplyView>,
    what: spec_fn(FetchStep, FetchReplyView) -> bool,
) -> bool
    decreases replies.len(),
{
    replies.len() > 0 && (fetch_had(v, replies.drop_last(), what) || what(
        fetch_after(v, replies.drop_last()).step,
        replies.last(),
    ))
}

/// A copy that lay here was read and had the right digest.
pub open spec fn local_verified() -> spec_fn(FetchStep, FetchReplyView) -> bool {
    |s: FetchStep, r: FetchReplyView|
        (s == FetchStep::CheckLocal || s == FetchStep::CheckCached) && r is Present
}

/// What was downloaded had the right digest when it was unpacked.
pub open spec fn download_verified() -> spec_fn(FetchStep, FetchReplyView) -> bool {
    |s: FetchStep, r: FetchReplyView| s == FetchStep::VerifyStaged && r is Done
}

/// What was downloaded was installed.
pub open spec fn download_installed() -> spec_fn(FetchStep, FetchReplyView) -> bool {
    |s: FetchStep, r: FetchReplyView| s == FetchStep::Install && r is Done
}

/// Whether two records name the same object: the same bytes under the same key, of
/// the same checkpoint of the same sandbox, with the same need of secrets.
pub open spec fn names_same_object(a: ReplicaView, b: ReplicaView) -> bool {
    a.sid == b.sid && a.digest == b.digest && a.object_key == b.object_key && a.source_node == b.source_node
        && a.source_epoch == b.source_epoch && a.checkpoint_generation == b.checkpoint_generation && a.needs_secrets
        == b.needs_secrets
}

/// A run of a fetch, whatever its steps came to: a replica is recorded, and the run
/// ends well, only where a copy that lay here was verified, or where a download was
/// verified before it was installed; nothing is installed that was not verified; and
/// the record goes on naming the object that was shared.
pub proof fn law_fetch_run(v: FetchView, replies: Seq<FetchReplyView>)
    requires
        v.step == FetchStep::CheckLocal || v.step == FetchStep::CheckCached || v.step == FetchStep::Failed,
        fetch_run(v, replies),
    ensures
        ({
            let s = fetch_after(v, replies).step;
            let used = s == FetchStep::PutRecord || s == FetchStep::Finished;
            &&& used ==> fetch_had(v, replies, local_verified()) || (fetch_had(v, replies, download_verified())
                && fetch_had(v, replies, download_installed()))
            &&& s == FetchStep::Install ==> fetch_had(v, replies, download_verified())
            &&& names_same_object(fetch_after(v, replies).shared, v.shared)
        }),
{
    lemma_fetch_run(v, replies);
}

proof fn lemma_fetch_run(v: FetchView, replies: Seq<FetchReplyView>)
    requires
        v.step == FetchStep::CheckLocal || v.step == FetchStep::CheckCached || v.step == FetchStep::Failed,
        fetch_run(v, replies),
    ensures
        ({
            let s = fetch_after(v, replies).step;
            let verified = fetch_had(v, replies, download_verified());
            let installed = fetch_had(v, replies, download_installed());
            let local = fetch_had(v, replies, local_verified());
            &&& (s == FetchStep::NameStaged || s == FetchStep::InspectRoot || s == FetchStep::RemoveRoot || s
                == FetchStep::Install) ==> verified
            &&& (s == FetchStep::PutRecord || s == FetchStep::Finished) ==> local || (verified && installed)
            &&& names_same_object(fetch_after(v, replies).shared, v.shared)
        }),
    decreases replies.len(),
{
    if replies.len() > 0 {
        lemma_fetch_run(v, replies.drop_last());
    }
}

} // verus!
