//! Publishing a replica, and reading one back.
use crate::error::{failure, EngineError, ErrorCode, ErrorView};
use crate::mesh::replicas::{staged_under, staging_key_for};
use crate::text::{cat2, text_eq};
use vstd::prelude::*;

verus! {

/// The largest object that the storage takes.
pub const LARGEST_OBJECT: u64 = 5_497_558_138_880;

/// The steps by which a replica is published.
#[derive(Clone, Copy, Debug, PartialEq, Eq, Structural)]
pub enum PublishStep {
    /// Look up the final object (`Size`, `Missing` or `Error`).
    HeadFinal,
    /// Read it back and compare its digest (`Done` or `Error`).
    VerifyFinal,
    /// Upload the checkpoint under the staging key (`Done` or `Error`).
    Upload,
    /// Look up the staged object (`Size` or `Error`).
    HeadStaging,
    /// Read it back and compare its digest (`Done` or `Error`).
    VerifyStaging,
    /// Copy it to the final key (`Done` or `Error`).
    Copy,
    /// Look up the final object (`Size` or `Error`).
    HeadPublished,
    /// Read it back and compare its digest (`Done` or `Error`).
    VerifyPublished,
    /// Remove the final object, which is not known to be good (any reply).
    RemoveFinal,
    /// Remove the staged object (`Done`, `Missing` or `Error`).
    RemoveStaging,
    /// The replica is published.
    Finished,
    /// It is not; see the error.
    Failed,
}

/// What came of a step.
pub enum PublishReply {
    Size(u64),
    Missing,
    Done,
    Error(EngineError),
}

/// The value of a [`PublishReply`].
pub enum PublishReplyView {
    Size(u64),
    Missing,
    Done,
    Error(ErrorView),
}

impl View for PublishReply {
    type V = PublishReplyView;

    open spec fn view(&self) -> PublishReplyView {
        match self {
            PublishReply::Size(n) => PublishReplyView::Size(*n),
            PublishReply::Missing => PublishReplyView::Missing,
            PublishReply::Done => PublishReplyView::Done,
            PublishReply::Error(e) => PublishReplyView::Error(e@),
        }
    }
}

/// A replica on its way to its final key.
///
/// `key_error` says why no staging key belongs to the final key; `in_directory`
/// whether the checkpoint lies in a directory that verification can use.
pub struct Publication {
    step: PublishStep,
    key_error: Option<EngineError>,
    staging: String,
    in_directory: bool,
    error: Option<EngineError>,
}

/// The value of a [`Publication`].
pub struct PublicationView {
    pub step: PublishStep,
    pub key_error: Option<ErrorView>,
    pub staging: Seq<char>,
    pub in_directory: bool,
    pub error: Option<ErrorView>,
}

/// The value of an optional error.
pub open spec fn opt_failure(e: Option<EngineError>) -> Option<ErrorView> {
    match e {
        Some(x) => Some(x@),
        None => None,
    }
}

impl View for Publication {
    type V = PublicationView;

    closed spec fn view(&self) -> PublicationView {
        PublicationView {
            step: self.step,
            key_error: opt_failure(self.key_error),
            staging: self.staging@,
            in_directory: self.in_directory,
            error: opt_failure(self.error),
        }
    }
}

/// Whether `reply` is one that `step` can have.
pub open spec fn publish_accepts(step: PublishStep, reply: PublishReplyView) -> bool {
    match step {
        PublishStep::HeadFinal => reply is Size || reply is Missing || reply is Error,
        PublishStep::HeadStaging | PublishStep::HeadPublished => reply is Size || reply is Error,
        PublishStep::RemoveFinal | PublishStep::RemoveStaging => reply is Done || reply is Missing || reply is Error,
        PublishStep::Finished | PublishStep::Failed => false,
        _ => reply is Done || reply is Error,
    }
}

/// What is wrong with what a step found, if anything. The storage's own message
/// is put behind what was being done.
pub open spec fn publish_fault(v: PublicationView, reply: PublishReplyView) -> Option<ErrorView> {
    let no_parent = failure(ErrorCode::Invalid, "replica snapshot has no parent"@);
    match (v.step, reply) {
        (PublishStep::HeadFinal, PublishReplyView::Error(e)) => Some(
            failure(ErrorCode::Engine, "checking shared replica object: "@ + e.message),
        ),
        (PublishStep::HeadFinal, PublishReplyView::Size(n)) => if n > 0 && !v.in_directory {
            Some(no_parent)
        } else {
            None
        },
        (PublishStep::HeadStaging, PublishReplyView::Error(e)) => Some(
            failure(ErrorCode::Engine, "verifying staged replica object: "@ + e.message),
        ),
        (PublishStep::HeadStaging, PublishReplyView::Size(n)) => if n == 0 {
            Some(failure(ErrorCode::Engine, "staged shared replica object is empty"@))
        } else if n > LARGEST_OBJECT {
            Some(
                failure(
                    ErrorCode::Invalid,
                    "staged shared replica object exceeds S3's 5 TiB object limit"@,
                ),
            )
        } else if !v.in_directory {
            Some(no_parent)
        } else {
            None
        },
        (PublishStep::Copy, PublishReplyView::Error(e)) => Some(
            failure(ErrorCode::Engine, "publishing shared replica object: "@ + e.message),
        ),
        (PublishStep::HeadPublished, PublishReplyView::Error(e)) => Some(
            failure(ErrorCode::Engine, "verifying published replica object: "@ + e.message),
        ),
        (PublishStep::HeadPublished, PublishReplyView::Size(n)) => if n == 0 {
            Some(failure(ErrorCode::Engine, "published shared replica object is empty"@))
        } else if !v.in_directory {
            Some(no_parent)
        } else {
            None
        },
        (PublishStep::RemoveStaging, PublishReplyView::Error(e)) => Some(
            failure(ErrorCode::Engine, "removing staged shared replica object: "@ + e.message),
        ),
        (PublishStep::Upload, PublishReplyView::Error(e)) => Some(e),
        (PublishStep::VerifyStaging, PublishReplyView::Error(e)) => Some(e),
        (PublishStep::VerifyPublished, PublishReplyView::Error(e)) => Some(e),
        _ => None,
    }
}

/// The step with which a replica that is not yet published goes on.
pub open spec fn upload_step(v: PublicationView) -> PublishStep {
    if v.key_error is Some {
        PublishStep::Failed
    } else {
        PublishStep::Upload
    }
}

/// The step after the present one.
pub open spec fn publish_next(v: PublicationView, reply: PublishReplyView) -> PublishStep {
    let fault = publish_fault(v, reply) is Some;
    match v.step {
        PublishStep::HeadFinal => if fault {
            PublishStep::Failed
        } else if reply is Size && reply->Size_0 > 0 {
            PublishStep::VerifyFinal
        } else {
            upload_step(v)
        },
        PublishStep::VerifyFinal => if reply is Done {
            PublishStep::Finished
        } else {
            upload_step(v)
        },
        PublishStep::Upload => if fault {
            PublishStep::RemoveStaging
        } else {
            PublishStep::HeadStaging
        },
        PublishStep::HeadStaging => if fault {
            PublishStep::RemoveStaging
        } else {
            PublishStep::VerifyStaging
        },
        PublishStep::VerifyStaging => if fault {
            PublishStep::RemoveStaging
        } else {
            PublishStep::Copy
        },
        PublishStep::Copy => if fault {
            PublishStep::RemoveFinal
        } else {
            PublishStep::HeadPublished
        },
        PublishStep::HeadPublished => if fault {
            PublishStep::RemoveFinal
        } else {
            PublishStep::VerifyPublished
        },
        PublishStep::VerifyPublished => if fault {
            PublishStep::RemoveFinal
        } else {
            PublishStep::RemoveStaging
        },
        PublishStep::RemoveFinal => PublishStep::RemoveStaging,
        PublishStep::RemoveStaging => if fault || v.error is Some {
            PublishStep::Failed
        } else {
            PublishStep::Finished
        },
        PublishStep::Finished => PublishStep::Finished,
        PublishStep::Failed => PublishStep::Failed,
    }
}

/// The publication once its step had `reply`. The first fault is the one that is
/// reported.
pub open spec fn publish_moved(v: PublicationView, reply: PublishReplyView) -> PublicationView {
    let next = publish_next(v, reply);
    PublicationView {
        step: next,
        error: if v.error is Some {
            v.error
        } else if publish_fault(v, reply) is Some {
            publish_fault(v, reply)
        } else if next == PublishStep::Failed {
            v.key_error
        } else {
            None
        },
        ..v
    }
}

impl Publication {
    /// The publication of the replica with `digest` under `final_key`; `nonce`
    /// tells its staging key apart from others.
    pub fn new(final_key: &str, digest: &str, nonce: &str, in_directory: bool) -> (r: Publication)
        ensures
            r@ == (PublicationView {
                step: PublishStep::HeadFinal,
                key_error: match staged_under(final_key@, digest@, nonce@) {
                    Ok(_) => None,
                    Err(e) => Some(e),
                },
                staging: match staged_under(final_key@, digest@, nonce@) {
                    Ok(key) => key,
                    Err(_) => Seq::empty(),
                },
                in_directory,
                error: None,
            }),
    {
        match staging_key_for(final_key, digest, nonce) {
            Ok(staging) => Publication {
                step: PublishStep::HeadFinal,
                key_error: None,
                staging,
                in_directory,
                error: None,
            },
            Err(e) => Publication {
                step: PublishStep::HeadFinal,
                key_error: Some(e),
                staging: String::new(),
                in_directory,
                error: None,
            },
        }
    }

    /// The step to perform.
    pub fn step(&self) -> (r: PublishStep)
        ensures
            r == self@.step,
    {
        self.step
    }

    /// The staging key.
    pub fn staging(&self) -> (r: &String)
        ensures
            r@ == self@.staging,
    {
        &self.staging
    }

    /// Why the replica is not published.
    pub fn error(self) -> (r: Option<EngineError>)
        ensures
            opt_failure(r) == self@.error,
    {
        self.error
    }

    fn fault(&self, reply: &PublishReply) -> (r: Option<EngineError>)
        requires
            publish_accepts(self@.step, reply@),
        ensures
            opt_failure(r) == publish_fault(self@, reply@),
    {
        match reply {
            PublishReply::Error(e) => {
                let prefix = match self.step {
                    PublishStep::HeadFinal => "checking shared replica object: ",
                    PublishStep::HeadStaging => "verifying staged replica object: ",
                    PublishStep::Copy => "publishing shared replica object: ",
                    PublishStep::HeadPublished => "verifying published replica object: ",
                    PublishStep::RemoveStaging => "removing staged shared replica object: ",
                    PublishStep::Upload | PublishStep::VerifyStaging | PublishStep::VerifyPublished => {
                        return Some(EngineError { code: e.code, message: e.message.clone() });
                    },
                    _ => return None,
                };
                Some(EngineError::engine(cat2(prefix, e.message.as_str())))
            },
            PublishReply::Size(n) => {
                if *n == 0 {
                    match self.step {
                        PublishStep::HeadStaging => Some(
                            EngineError::engine("staged shared replica object is empty".to_owned()),
                        ),
                        PublishStep::HeadPublished => Some(
                            EngineError::engine("published shared replica object is empty".to_owned()),
                        ),
                        _ => None,
                    }
                } else if self.step == PublishStep::HeadStaging && *n > LARGEST_OBJECT {
                    Some(
                        EngineError::invalid(
                            "staged shared replica object exceeds S3's 5 TiB object limit".to_owned(),
                        ),
                    )
                } else if !self.in_directory {
                    Some(EngineError::invalid("replica snapshot has no parent".to_owned()))
                } else {
                    None
                }
            },
            _ => None,
        }
    }

    fn begin_upload(&mut self)
        requires
            old(self)@.error is None,
        ensures
            final(self)@ == (PublicationView {
                step: upload_step(old(self)@),
                error: if old(self)@.key_error is Some {
                    old(self)@.key_error
                } else {
                    None
                },
                ..old(self)@
            }),
    {
        match &self.key_error {
            Some(e) => {
                self.error = Some(EngineError { code: e.code, message: e.message.clone() });
                self.step = PublishStep::Failed;
            },
            None => {
                self.step = PublishStep::Upload;
            },
        }
    }

    /// Takes what came of the step and moves on.
    pub fn resume(&mut self, reply: PublishReply)
        requires
            publish_accepts(old(self)@.step, reply@),
            old(self)@.step == PublishStep::HeadFinal || old(self)@.step == PublishStep::VerifyFinal
                ==> old(self)@.error is None,
        ensures
            final(self)@ == publish_moved(old(self)@, reply@),
            final(self)@.step == PublishStep::HeadFinal || final(self)@.step == PublishStep::VerifyFinal
                ==> final(self)@.error is None,
    {
        let fault = self.fault(&reply);
        let faulty = fault.is_some();
        let step = self.step;
        match step {
            PublishStep::HeadFinal => {
                let found = match &reply {
                    PublishReply::Size(n) => *n > 0,
                    _ => false,
                };
                if faulty {
                    self.step = PublishStep::Failed;
                } else if found {
                    self.step = PublishStep::VerifyFinal;
                } else {
                    self.begin_upload();
                    return;
                }
            },
            PublishStep::VerifyFinal => {
                if matches!(reply, PublishReply::Done) {
                    self.step = PublishStep::Finished;
                } else {
                    self.begin_upload();
                }
                return;
            },
            PublishStep::Upload => {
                self.step = if faulty {
                    PublishStep::RemoveStaging
                } else {
                    PublishStep::HeadStaging
                };
            },
            PublishStep::HeadStaging => {
                self.step = if faulty {
                    PublishStep::RemoveStaging
                } else {
                    PublishStep::VerifyStaging
                };
            },
            PublishStep::VerifyStaging => {
                self.step = if faulty {
                    PublishStep::RemoveStaging
                } else {
                    PublishStep::Copy
                };
            },
            PublishStep::Copy => {
                self.step = if faulty {
                    PublishStep::RemoveFinal
                } else {
                    PublishStep::HeadPublished
                };
            },
            PublishStep::HeadPublished => {
                self.step = if faulty {
                    PublishStep::RemoveFinal
                } else {
                    PublishStep::VerifyPublished
                };
            },
            PublishStep::VerifyPublished => {
                self.step = if faulty {
                    PublishStep::RemoveFinal
                } else {
                    PublishStep::RemoveStaging
                };
            },
            PublishStep::RemoveFinal => {
                self.step = PublishStep::RemoveStaging;
            },
            _ => {
                self.step = if faulty || self.error.is_some() {
                    PublishStep::Failed
                } else {
                    PublishStep::Finished
                };
            },
        }
        if self.error.is_none() {
            self.error = fault;
        }
    }
}

/// Only content whose digest was read back and compared makes a publication
/// succeed: what lay under the final key before, or what was copied there.
pub proof fn law_published_is_verified(v: PublicationView, reply: PublishReplyView)
    requires
        publish_accepts(v.step, reply),
    ensures
        publish_next(v, reply) == PublishStep::Finished ==> (v.step == PublishStep::VerifyFinal && reply is Done)
            || (v.step == PublishStep::RemoveStaging && v.error is None),
        publish_next(v, reply) == PublishStep::RemoveStaging && publish_moved(v, reply).error is None ==> v.step
            == PublishStep::RemoveFinal || (v.step == PublishStep::VerifyPublished && reply is Done),
{
}

/// What is copied to the final key was verified before.
pub proof fn law_copied_is_verified(v: PublicationView, reply: PublishReplyView)
    requires
        publish_accepts(v.step, reply),
    ensures
        publish_next(v, reply) == PublishStep::Copy ==> v.step == PublishStep::VerifyStaging && reply is Done,
{
}

/// A copy that could not be verified is removed from the final key before
/// anything else happens, and the publication fails.
pub proof fn law_unverified_copy_is_removed(v: PublicationView, reply: PublishReplyView)
    requires
        publish_accepts(v.step, reply),
    ensures
        (v.step == PublishStep::Copy || v.step == PublishStep::HeadPublished || v.step
            == PublishStep::VerifyPublished) && publish_fault(v, reply) is Some ==> publish_next(v, reply)
            == PublishStep::RemoveFinal && publish_moved(v, reply).error is Some,
        publish_next(v, reply) == PublishStep::RemoveFinal ==> publish_moved(v, reply).error is Some,
        v.step == PublishStep::RemoveFinal ==> publish_next(v, reply) == PublishStep::RemoveStaging,
{
}

/// From the upload on, a publication ends only by removing what it staged.
pub proof fn law_staged_is_removed(v: PublicationView, reply: PublishReplyView)
    requires
        publish_accepts(v.step, reply),
        v.step != PublishStep::HeadFinal,
        v.step != PublishStep::VerifyFinal,
    ensures
        publish_next(v, reply) == PublishStep::Finished || publish_next(v, reply) == PublishStep::Failed ==> v.step
            == PublishStep::RemoveStaging,
{
}

/// The most that is read at once.
pub const CHUNK: u64 = 1_048_576;

/// A download in chunks: how far it came of how much.
#[derive(Clone, Copy, Debug, PartialEq, Eq, Structural)]
pub struct ChunkedRead {
    pub size: u64,
    pub offset: u64,
}

impl ChunkedRead {
    pub fn new(size: u64) -> (r: ChunkedRead)
        ensures
            r == (ChunkedRead { size, offset: 0 }),
    {
        ChunkedRead { size, offset: 0 }
    }

    /// What to read next, from where and how much; nothing when all was read.
    pub fn next(&self) -> (r: Option<(u64, u32)>)
        ensures
            match r {
                Some((from, len)) => self.offset < self.size && from == self.offset && len == if self.size
                    - self.offset < CHUNK {
                    (self.size - self.offset) as int
                } else {
                    CHUNK as int
                },
                None => self.offset >= self.size,
            },
    {
        if self.offset >= self.size {
            return None;
        }
        let left: u64 = self.size - self.offset;
        let len: u64 = if left < CHUNK {
            left
        } else {
            CHUNK
        };
        Some((self.offset, len as u32))
    }

    /// Takes a chunk of `len` bytes. An empty one means that the object is shorter
    /// than it was said to be.
    pub fn take(&mut self, len: u64) -> (r: Result<(), EngineError>)
        ensures
            match r {
                Ok(_) => len > 0 && final(self).size == old(self).size && final(self).offset == if old(self).offset
                    + len > u64::MAX {
                    u64::MAX as int
                } else {
                    old(self).offset + len
                },
                Err(e) => len == 0 && *final(self) == *old(self) && e@ == failure(
                    ErrorCode::Engine,
                    "shared replica ended before its advertised size"@,
                ),
            },
    {
        if len == 0 {
            return Err(EngineError::engine("shared replica ended before its advertised size".to_owned()));
        }
        self.offset = self.offset.saturating_add(len);
        Ok(())
    }
}

/// A download that takes the chunks that it asked for ends exactly at the
/// object's end, and moves towards it with each.
pub proof fn law_chunks_cover_object(r: ChunkedRead, len: int)
    requires
        r.offset < r.size,
        len == if r.size - r.offset < CHUNK {
            r.size - r.offset
        } else {
            CHUNK as int
        },
    ensures
        len > 0,
        r.offset < r.offset + len <= r.size,
{
}

/// What the only entry of an unpacked bundle is.
pub struct RootEntry {
    /// Its name, where that is text.
    pub name: Option<String>,
    /// Whether it is a directory and no link.
    pub directory: bool,
}

/// Why an unpacked bundle does not have the root that it should have; nothing
/// where it does. `expected` is the name that the root must have, if any.
pub open spec fn root_fault(entries: Seq<RootEntry>, expected: Option<Seq<char>>) -> Option<ErrorView> {
    if entries.len() != 1 {
        Some(failure(ErrorCode::Invalid, "replica bundle must contain exactly one root directory"@))
    } else if entries[0].name is None {
        Some(failure(ErrorCode::Invalid, "replica bundle root name is not UTF-8"@))
    } else if expected is Some && expected->0 != entries[0].name->0@ {
        Some(failure(ErrorCode::Invalid, "replica bundle root does not match checkpoint name"@))
    } else if !entries[0].directory {
        Some(failure(ErrorCode::Invalid, "replica bundle root must be a directory"@))
    } else {
        None
    }
}

/// The name of the root of an unpacked bundle: its only entry, a directory, with
/// the expected name.
pub fn extracted_bundle_root(entries: &Vec<RootEntry>, expected_name: Option<&str>) -> (r: Result<
    String,
    EngineError,
>)
    ensures
        ({
            let expected = match expected_name {
                Some(path) => crate::paths::final_component(path@),
                None => None,
            };
            if expected_name is Some && expected is None {
                r matches Err(e) && e@ == failure(ErrorCode::Invalid, "replica bundle root name is invalid"@)
            } else {
                match r {
                    Ok(name) => root_fault(entries@, expected) is None && name@ == entries@[0].name->0@,
                    Err(e) => root_fault(entries@, expected) == Some(e@),
                }
            }
        }),
{
    let expected = match expected_name {
        Some(path) => match crate::paths::file_name(path) {
            Some(name) => Some(name),
            None => return Err(EngineError::invalid("replica bundle root name is invalid".to_owned())),
        },
        None => None,
    };
    if entries.len() != 1 {
        return Err(
            EngineError::invalid("replica bundle must contain exactly one root directory".to_owned()),
        );
    }
    let name = match &entries[0].name {
        Some(n) => n,
        None => return Err(EngineError::invalid("replica bundle root name is not UTF-8".to_owned())),
    };
    if let Some(e) = &expected {
        if !text_eq(e.as_str(), name.as_str()) {
            return Err(
                EngineError::invalid("replica bundle root does not match checkpoint name".to_owned()),
            );
        }
    }
    if !entries[0].directory {
        return Err(EngineError::invalid("replica bundle root must be a directory".to_owned()));
    }
    Ok(name.clone())
}

/// Where its steps succeed, a publication that finds no object goes on in this order:
/// it uploads, looks at what it uploaded, reads it back, copies it, looks at the copy,
/// reads it back, and takes the upload away. An object that is there already and reads
/// back well is left as it is.
pub proof fn law_publication_goes_in_order(v: PublicationView, size: u64)
    requires
        v.in_directory,
        v.key_error is None,
        v.error is None,
        0 < size <= 5_497_558_138_880,
    ensures
        publish_next(PublicationView { step: PublishStep::HeadFinal, ..v }, PublishReplyView::Missing)
            == PublishStep::Upload,
        publish_next(PublicationView { step: PublishStep::HeadFinal, ..v }, PublishReplyView::Size(0))
            == PublishStep::Upload,
        publish_next(PublicationView { step: PublishStep::HeadFinal, ..v }, PublishReplyView::Size(size))
            == PublishStep::VerifyFinal,
        publish_next(PublicationView { step: PublishStep::VerifyFinal, ..v }, PublishReplyView::Done)
            == PublishStep::Finished,
        publish_next(PublicationView { step: PublishStep::Upload, ..v }, PublishReplyView::Done)
            == PublishStep::HeadStaging,
        publish_next(PublicationView { step: PublishStep::HeadStaging, ..v }, PublishReplyView::Size(size))
            == PublishStep::VerifyStaging,
        publish_next(PublicationView { step: PublishStep::VerifyStaging, ..v }, PublishReplyView::Done)
            == PublishStep::Copy,
        publish_next(PublicationView { step: PublishStep::Copy, ..v }, PublishReplyView::Done)
            == PublishStep::HeadPublished,
        publish_next(PublicationView { step: PublishStep::HeadPublished, ..v }, PublishReplyView::Size(size))
            == PublishStep::VerifyPublished,
        publish_next(PublicationView { step: PublishStep::VerifyPublished, ..v }, PublishReplyView::Done)
            == PublishStep::RemoveStaging,
        publish_next(PublicationView { step: PublishStep::RemoveStaging, ..v }, PublishReplyView::Done)
            == PublishStep::Finished,
{
}

/// What goes wrong with an upload or its copy is told, and the first fault stays: an
/// object that is empty, larger than can be kept, or does not read back is not
/// published. An object that is there but does not read back is uploaded anew.
pub proof fn law_publication_faults_are_told(v: PublicationView, e: ErrorView, size: u64)
    requires
        v.error is None,
        v.key_error is None,
    ensures
        ({
            let at = |step: PublishStep| (PublicationView { step, ..v });
            &&& publish_moved(at(PublishStep::HeadStaging), PublishReplyView::Size(0)).error is Some
            &&& size > 5_497_558_138_880 ==> publish_moved(at(PublishStep::HeadStaging), PublishReplyView::Size(size)).error
                is Some
            &&& publish_moved(at(PublishStep::HeadPublished), PublishReplyView::Size(0)).error is Some
            &&& publish_moved(at(PublishStep::Upload), PublishReplyView::Error(e)).error == Some(e)
            &&& publish_moved(at(PublishStep::VerifyStaging), PublishReplyView::Error(e)).error == Some(e)
            &&& publish_moved(at(PublishStep::VerifyPublished), PublishReplyView::Error(e)).error == Some(e)
            &&& publish_moved(at(PublishStep::Copy), PublishReplyView::Error(e)).error is Some
            &&& publish_moved(at(PublishStep::HeadFinal), PublishReplyView::Error(e)).error is Some
            &&& publish_moved(at(PublishStep::VerifyFinal), PublishReplyView::Error(e)).error is None
            &&& publish_next(at(PublishStep::VerifyFinal), PublishReplyView::Error(e)) == PublishStep::Upload
            &&& publish_next(at(PublishStep::HeadStaging), PublishReplyView::Size(0)) == PublishStep::RemoveStaging
            &&& publish_next(at(PublishStep::Upload), PublishReplyView::Error(e)) == PublishStep::RemoveStaging
            &&& publish_next(at(PublishStep::VerifyStaging), PublishReplyView::Error(e)) == PublishStep::RemoveStaging
            &&& publish_next(at(PublishStep::Copy), PublishReplyView::Error(e)) == PublishStep::RemoveFinal
            &&& publish_next(at(PublishStep::HeadPublished), PublishReplyView::Size(0)) == PublishStep::RemoveFinal
            &&& publish_next(at(PublishStep::VerifyPublished), PublishReplyView::Error(e)) == PublishStep::RemoveFinal
            &&& publish_next(at(PublishStep::HeadFinal), PublishReplyView::Error(e)) == PublishStep::Failed
        }),
        forall|w: PublicationView, reply: PublishReplyView|
            w.error is Some ==> (#[trigger] publish_moved(w, reply)).error == w.error,
{
}

/// A bundle holds one directory, whose name can be read, and is the expected one where
/// one is expected; nothing else is a bundle.
pub proof fn law_bundle_has_one_root(entries: Seq<RootEntry>, expected: Option<Seq<char>>)
    ensures
        root_fault(entries, expected) is None <==> {
            &&& entries.len() == 1
            &&& entries[0].name is Some
            &&& entries[0].directory
            &&& expected matches Some(name) ==> entries[0].name->0@ == name
        },
{
}

} // verus!
