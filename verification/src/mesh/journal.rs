//! The journal of migrations that a source has under way: one file for each sandbox,
//! in one directory.
use crate::error::{code_text, engine_to_mesh, EngineError, ErrorCode, MeshError};
use crate::json::{
    i64_of, json_read, json_written, reads_back, text_at, u64_at, Json, JsonMap, JsonView, ObjectView,
};
use crate::mesh::migration::{invalid, MeshErrorView};
use crate::mesh::takeback::{
    extension_of, has_extension, journal_file, journal_file_of, journalable, safe_component, CleanupView, JournalFile,
    MeshEngineAdapter, MigrationCleanup,
};
use crate::text::{cat2, cat5, chars_of, string_of};
use vstd::prelude::*;

verus! {

/// What is written of an entry.
pub open spec fn cleanup_object(c: CleanupView) -> ObjectView {
    Map::<Seq<char>, JsonView>::empty().insert(
        "sid"@,
        JsonView::Str(c.sid),
    ).insert(
        "base_dir"@,
        JsonView::Str(c.base_dir),
    ).insert(
        "base_digest"@,
        JsonView::Str(c.base_digest),
    ).insert(
        "delta_dir"@,
        JsonView::Str(c.delta_dir),
    ).insert(
        "delta_digest"@,
        JsonView::Str(c.delta_digest),
    ).insert(
        "target_url"@,
        JsonView::Str(c.target_url),
    ).insert(
        "migration_id"@,
        JsonView::Str(c.migration_id),
    ).insert(
        "epoch"@,
        JsonView::Int(c.epoch as int),
    ).insert(
        "schema_version"@,
        JsonView::Int(c.schema_version as int),
    ).insert(
        "source_owner"@,
        JsonView::Str(c.source_owner),
    ).insert(
        "source_epoch"@,
        JsonView::Int(c.source_epoch as int),
    ).insert(
        "target_owner"@,
        JsonView::Str(c.target_owner),
    ).insert(
        "target_epoch"@,
        JsonView::Int(c.target_epoch as int),
    ).insert(
        "token"@,
        JsonView::Str(c.token),
    ).insert(
        "phase"@,
        JsonView::Str(c.phase),
    )
}

/// The number under `k`, with a sign.
pub open spec fn i64_at(m: ObjectView, k: Seq<char>) -> Option<i64> {
    if m.contains_key(k) {
        i64_of(m[k])
    } else {
        None
    }
}

fn integer_at(m: &JsonMap, key: &str) -> (r: Option<i64>)
    ensures
        r == i64_at(m@, key@),
{
    match m.get(key) {
        Some(v) => v.as_i64(),
        None => None,
    }
}

/// The entry that an object stands for; what else it holds is ignored.
pub open spec fn read_cleanup(m: ObjectView) -> Option<CleanupView> {
    match (
        text_at(m, "sid"@),
        text_at(m, "base_dir"@),
        text_at(m, "base_digest"@),
        text_at(m, "delta_dir"@),
        text_at(m, "delta_digest"@),
        text_at(m, "target_url"@),
        text_at(m, "migration_id"@),
        i64_at(m, "epoch"@),
        u64_at(m, "schema_version"@),
        text_at(m, "source_owner"@),
        i64_at(m, "source_epoch"@),
        text_at(m, "target_owner"@),
        i64_at(m, "target_epoch"@),
        text_at(m, "token"@),
        text_at(m, "phase"@),
    ) {
        (
            Some(sid),
            Some(base_dir),
            Some(base_digest),
            Some(delta_dir),
            Some(delta_digest),
            Some(target_url),
            Some(migration_id),
            Some(epoch),
            Some(schema_version),
            Some(source_owner),
            Some(source_epoch),
            Some(target_owner),
            Some(target_epoch),
            Some(token),
            Some(phase),
        ) => if schema_version <= u32::MAX {
            Some(
                CleanupView {
                    sid,
                    base_dir,
                    base_digest,
                    delta_dir,
                    delta_digest,
                    target_url,
                    migration_id,
                    epoch,
                    schema_version: schema_version as u32,
                    source_owner,
                    source_epoch,
                    target_owner,
                    target_epoch,
                    token,
                    phase,
                },
            )
        } else {
            None
        },
        _ => None,
    }
}

/// What is written of an entry.
pub fn write_cleanup(c: &MigrationCleanup) -> (r: JsonMap)
    ensures
        r@ == cleanup_object(c@),
{
    let mut m = JsonMap::new();
    m.insert("sid".to_owned(), Json::Str(c.sid.clone()));
    m.insert("base_dir".to_owned(), Json::Str(c.base_dir.clone()));
    m.insert("base_digest".to_owned(), Json::Str(c.base_digest.clone()));
    m.insert("delta_dir".to_owned(), Json::Str(c.delta_dir.clone()));
    m.insert("delta_digest".to_owned(), Json::Str(c.delta_digest.clone()));
    m.insert("target_url".to_owned(), Json::Str(c.target_url.clone()));
    m.insert("migration_id".to_owned(), Json::Str(c.migration_id.clone()));
    m.insert("epoch".to_owned(), Json::Int(c.epoch as i128));
    m.insert("schema_version".to_owned(), Json::Int(c.schema_version as i128));
    m.insert("source_owner".to_owned(), Json::Str(c.source_owner.clone()));
    m.insert("source_epoch".to_owned(), Json::Int(c.source_epoch as i128));
    m.insert("target_owner".to_owned(), Json::Str(c.target_owner.clone()));
    m.insert("target_epoch".to_owned(), Json::Int(c.target_epoch as i128));
    m.insert("token".to_owned(), Json::Str(c.token.clone()));
    m.insert("phase".to_owned(), Json::Str(c.phase.clone()));
    m
}

/// The entry that an object stands for.
pub fn parse_cleanup(m: &JsonMap) -> (r: Option<MigrationCleanup>)
    ensures
        match r {
            Some(c) => read_cleanup(m@) == Some(c@),
            None => read_cleanup(m@) is None,
        },
{
    match (
        m.text_at("sid"),
        m.text_at("base_dir"),
        m.text_at("base_digest"),
        m.text_at("delta_dir"),
        m.text_at("delta_digest"),
        m.text_at("target_url"),
        m.text_at("migration_id"),
        integer_at(m, "epoch"),
        m.u64_at("schema_version"),
        m.text_at("source_owner"),
        integer_at(m, "source_epoch"),
        m.text_at("target_owner"),
        integer_at(m, "target_epoch"),
        m.text_at("token"),
        m.text_at("phase"),
    ) {
        (
            Some(sid),
            Some(base_dir),
            Some(base_digest),
            Some(delta_dir),
            Some(delta_digest),
            Some(target_url),
            Some(migration_id),
            Some(epoch),
            Some(schema_version),
            Some(source_owner),
            Some(source_epoch),
            Some(target_owner),
            Some(target_epoch),
            Some(token),
            Some(phase),
        ) => if schema_version <= u32::MAX as u64 {
            Some(
                MigrationCleanup {
                    sid,
                    base_dir,
                    base_digest,
                    delta_dir,
                    delta_digest,
                    target_url,
                    migration_id,
                    epoch,
                    schema_version: schema_version as u32,
                    source_owner,
                    source_epoch,
                    target_owner,
                    target_epoch,
                    token,
                    phase,
                },
            )
        } else {
            None
        },
        _ => None,
    }
}

/// An entry that is written and read back is the same entry.
pub proof fn law_cleanup_survives(c: CleanupView)
    ensures
        read_cleanup(cleanup_object(c)) == Some(c),
        reads_back(JsonView::Object(cleanup_object(c)), 127),
        cleanup_object(c)["sid"@] == JsonView::Str(c.sid),
        cleanup_object(c)["phase"@] == JsonView::Str(c.phase),
        cleanup_object(c)["token"@] == JsonView::Str(c.token),
        cleanup_object(c)["source_owner"@] == JsonView::Str(c.source_owner),
        cleanup_object(c)["source_epoch"@] == JsonView::Int(c.source_epoch as int),
        cleanup_object(c)["target_owner"@] == JsonView::Str(c.target_owner),
        cleanup_object(c)["target_epoch"@] == JsonView::Int(c.target_epoch as int),
        cleanup_object(c)["migration_id"@] == JsonView::Str(c.migration_id),
{
    reveal_strlit("sid");
    reveal_strlit("base_dir");
    reveal_strlit("base_digest");
    reveal_strlit("delta_dir");
    reveal_strlit("delta_digest");
    reveal_strlit("target_url");
    reveal_strlit("migration_id");
    reveal_strlit("epoch");
    reveal_strlit("schema_version");
    reveal_strlit("source_owner");
    reveal_strlit("source_epoch");
    reveal_strlit("target_owner");
    reveal_strlit("target_epoch");
    reveal_strlit("token");
    reveal_strlit("phase");
    assert("sid"@.len() == 3 && "sid"@[0] == 's');
    assert("base_dir"@.len() == 8 && "base_dir"@[0] == 'b');
    assert("base_digest"@.len() == 11 && "base_digest"@[0] == 'b');
    assert("delta_dir"@.len() == 9 && "delta_dir"@[0] == 'd');
    assert("delta_digest"@.len() == 12 && "delta_digest"@[0] == 'd');
    assert("target_url"@.len() == 10 && "target_url"@[0] == 't');
    assert("migration_id"@.len() == 12 && "migration_id"@[0] == 'm');
    assert("epoch"@.len() == 5 && "epoch"@[0] == 'e');
    assert("schema_version"@.len() == 14 && "schema_version"@[0] == 's');
    assert("source_owner"@.len() == 12 && "source_owner"@[0] == 's');
    assert("source_epoch"@.len() == 12 && "source_epoch"@[0] == 's');
    assert("target_owner"@.len() == 12 && "target_owner"@[0] == 't');
    assert("target_epoch"@.len() == 12 && "target_epoch"@[0] == 't');
    assert("token"@.len() == 5 && "token"@[0] == 't');
    assert("phase"@.len() == 5 && "phase"@[0] == 'p');
    assert("source_owner"@[7] == 'o' && "source_epoch"@[7] == 'e');
    assert("target_owner"@[7] == 'o' && "target_epoch"@[7] == 'e');
    let m = cleanup_object(c);
    assert(u64_at(m, "schema_version"@) == Some(c.schema_version as u64));
    assert(i64_at(m, "epoch"@) == Some(c.epoch));
    assert(i64_at(m, "source_epoch"@) == Some(c.source_epoch));
    assert(i64_at(m, "target_epoch"@) == Some(c.target_epoch));
    assert forall|k: Seq<char>| #[trigger] m.contains_key(k) implies (k.len() > 0 ==> k[0] != '$') && reads_back(
        m[k],
        126,
    ) by {}
}

/// The error that an entry cannot be read.
pub open spec fn unreadable(why: Seq<char>) -> MeshErrorView {
    MeshErrorView {
        code: code_text(ErrorCode::Engine),
        message: "reading migration cleanup record: "@ + why,
    }
}

/// A text without the line feed at its end, where it has one.
pub open spec fn without_line_feed(text: Seq<char>) -> Seq<char> {
    if text.len() > 0 && text.last() == '\n' {
        text.drop_last()
    } else {
        text
    }
}

/// The entry that a file's text stands for, or what is wrong with it.
pub open spec fn entry_in(text: Seq<char>) -> Result<CleanupView, MeshErrorView> {
    match json_read(without_line_feed(text)) {
        Err(why) => Err(unreadable(why)),
        Ok(JsonView::Object(m)) => match read_cleanup(m) {
            Some(c) => Ok(c),
            None => Err(unreadable("a member is missing or is not of its kind"@)),
        },
        Ok(_) => Err(unreadable("not an object"@)),
    }
}

fn unreadable_error(why: &str) -> (r: MeshError)
    ensures
        r@ == unreadable(why@),
{
    engine_to_mesh(EngineError::engine(cat2("reading migration cleanup record: ", why)))
}

/// The entry that a file's text stands for.
pub fn read_entry(text: &str) -> (r: Result<MigrationCleanup, MeshError>)
    ensures
        match r {
            Ok(c) => entry_in(text@) == Ok::<CleanupView, MeshErrorView>(c@),
            Err(e) => entry_in(text@) == Err::<CleanupView, MeshErrorView>(e@),
        },
{
    let chars = chars_of(text);
    let n = chars.len();
    let body = if n > 0 && chars[n - 1] == '\n' {
        let body = string_of(&chars, 0, n - 1);
        assert(body@ =~= text@.drop_last());
        body
    } else {
        text.to_owned()
    };
    match Json::parse(body.as_str()) {
        Err(why) => Err(unreadable_error(why.as_str())),
        Ok(Json::Object(m)) => match parse_cleanup(&m) {
            Some(c) => Ok(c),
            None => Err(unreadable_error("a member is missing or is not of its kind")),
        },
        Ok(_) => Err(unreadable_error("not an object")),
    }
}

/// The name of the file of the entry about `sid`.
pub open spec fn entry_name(sid: Seq<char>) -> Seq<char> {
    sid + ".json"@
}

/// The name of a file in which the entry about `sid` is written before it counts;
/// `unique` tells it from others.
pub open spec fn temporary_name(sid: Seq<char>, unique: Seq<char>) -> Seq<char> {
    "."@ + sid + "."@ + unique + ".tmp"@
}

/// What is written to journal an entry: the text goes to the temporary file, which
/// then takes the place of the entry's file.
pub struct JournalWrite {
    pub path: String,
    pub temporary: String,
    pub text: String,
}

/// The names and texts of files.
pub open spec fn files_view(files: Seq<(String, String)>) -> Seq<(Seq<char>, Seq<char>)> {
    Seq::new(files.len(), |i: int| (files[i].0@, files[i].1@))
}

/// The entries of a list.
pub open spec fn cleanups_view(list: Seq<MigrationCleanup>) -> Seq<CleanupView> {
    Seq::new(list.len(), |i: int| list[i]@)
}

/// The entries that the files of the journal directory hold, in the order of the
/// files; files that are no entries are passed over, and the first one that cannot be
/// read ends it.
pub open spec fn pending_in(files: Seq<(Seq<char>, Seq<char>)>) -> Result<Seq<CleanupView>, MeshErrorView>
    decreases files.len(),
{
    if files.len() == 0 {
        Ok(Seq::empty())
    } else {
        match pending_in(files.drop_last()) {
            Err(e) => Err(e),
            Ok(list) => if journal_file_of(files.last().0) != JournalFile::Entry {
                Ok(list)
            } else {
                match entry_in(files.last().1) {
                    Err(e) => Err(e),
                    Ok(c) => Ok(list.push(c)),
                }
            },
        }
    }
}

proof fn lemma_pending_error(files: Seq<(Seq<char>, Seq<char>)>, n: int)
    requires
        0 <= n <= files.len(),
        pending_in(files.take(n)) is Err,
    ensures
        pending_in(files) == pending_in(files.take(n)),
    decreases files.len() - n,
{
    if n == files.len() {
        assert(files.take(n) =~= files);
    } else {
        assert(files.take(n + 1).drop_last() =~= files.take(n));
        lemma_pending_error(files, n + 1);
    }
}

impl MeshEngineAdapter {
    /// What is written to journal an entry. What is written reads back as the entry.
    pub fn migration_cleanup_persist(&self, cleanup: &MigrationCleanup, unique: &str) -> (r: Result<
        JournalWrite,
        MeshError,
    >)
        ensures
            match r {
                Ok(w) => {
                    &&& journalable(cleanup@)
                    &&& w.path@ == self.dir() + "/"@ + cleanup@.sid + ".json"@
                    &&& w.temporary@ == self.dir() + "/"@ + temporary_name(cleanup@.sid, unique@)
                    &&& w.text@ == json_written(JsonView::Object(cleanup_object(cleanup@))) + "\n"@
                    &&& entry_in(w.text@) == Ok::<CleanupView, MeshErrorView>(cleanup@)
                },
                Err(e) => !journalable(cleanup@) && e@ == invalid("invalid migration cleanup journal"@),
            },
    {
        match Self::validate_cleanup(cleanup) {
            Ok(_) => {},
            Err(e) => return Err(e),
        }
        let path = self.cleanup_path(cleanup.sid.as_str());
        let mut temporary = cat2(self.cleanup_dir(), "/");
        temporary.append(cat5(".", cleanup.sid.as_str(), ".", unique, ".tmp").as_str());
        let value = Json::Object(write_cleanup(cleanup));
        let mut text = value.render();
        let ghost body = text@;
        text.append("\n");
        proof {
            law_cleanup_survives(cleanup@);
            reveal_strlit("\n");
            assert(text@.drop_last() =~= body);
            assert(text@.last() == '\n');
        }
        Ok(JournalWrite { path, temporary, text })
    }

    /// The entries that wait: `files` are the names and texts of the files in the
    /// journal directory.
    pub fn migration_cleanup_pending(files: &Vec<(String, String)>) -> (r: Result<Vec<MigrationCleanup>, MeshError>)
        ensures
            match r {
                Ok(list) => pending_in(files_view(files@)) == Ok::<Seq<CleanupView>, MeshErrorView>(
                    cleanups_view(list@),
                ),
                Err(e) => pending_in(files_view(files@)) == Err::<Seq<CleanupView>, MeshErrorView>(e@),
            },
    {
        let ghost all = files_view(files@);
        let mut out: Vec<MigrationCleanup> = Vec::new();
        let mut i: usize = 0;
        assert(all.take(0) =~= Seq::empty());
        assert(cleanups_view(out@) =~= Seq::empty());
        while i < files.len()
            invariant
                i <= files@.len(),
                all == files_view(files@),
                pending_in(all.take(i as int)) == Ok::<Seq<CleanupView>, MeshErrorView>(cleanups_view(out@)),
            decreases files@.len() - i,
        {
            proof {
                assert(all.take(i + 1).drop_last() =~= all.take(i as int));
                assert(all.take(i + 1).last() == all[i as int]);
            }
            if let JournalFile::Entry = journal_file(files[i].0.as_str()) {
                match read_entry(files[i].1.as_str()) {
                    Err(e) => {
                        proof {
                            lemma_pending_error(all, i + 1);
                        }
                        return Err(e);
                    },
                    Ok(c) => {
                        let ghost before = cleanups_view(out@);
                        out.push(c);
                        assert(cleanups_view(out@) =~= before.push(c@));
                    },
                }
            }
            i = i + 1;
        }
        assert(all.take(i as int) =~= all);
        Ok(out)
    }
}

proof fn lemma_entry_name(sid: Seq<char>)
    requires
        sid.len() > 0,
    ensures
        journal_file_of(entry_name(sid)) == JournalFile::Entry,
{
    reveal_strlit(".json");
    reveal_strlit("json");
    reveal_strlit("tmp");
    let name = entry_name(sid);
    let dot = sid.len() as int;
    assert(name[dot] == '.' && name[dot + 1] == 'j' && name[dot + 2] == 's' && name[dot + 3] == 'o' && name[dot + 4]
        == 'n');
    assert(extension_of(name, dot));
    assert(has_extension(name, "json"@, false));
    assert(!has_extension(name, "tmp"@, true)) by {
        assert forall|d: int| extension_of(name, d) implies d == dot by {
            if d < dot {
                assert(name[dot] != '.');
            } else if d > dot {
                assert(name[d] == '.');
            }
        }
    }
}

/// A write that was interrupted leaves a file that is swept, and is never taken for
/// an entry.
pub proof fn law_interrupted_write_is_swept(sid: Seq<char>, unique: Seq<char>)
    ensures
        journal_file_of(temporary_name(sid, unique)) == JournalFile::Temporary,
{
    reveal_strlit(".");
    reveal_strlit(".tmp");
    reveal_strlit("tmp");
    let name = temporary_name(sid, unique);
    let dot = name.len() - 4;
    assert(name[0] == '.');
    assert(name[dot] == '.' && name[dot + 1] == 't' && name[dot + 2] == 'm' && name[dot + 3] == 'p');
    assert(extension_of(name, dot));
    assert(has_extension(name, "tmp"@, true));
}

/// Whether each entry file of a directory holds an entry, under the name that the
/// entry's sandbox gives it.
pub open spec fn sound_journal(dir: Map<Seq<char>, Seq<char>>) -> bool {
    forall|name: Seq<char>| #[trigger]
        dir.contains_key(name) && journal_file_of(name) == JournalFile::Entry ==> (entry_in(dir[name]) matches Ok(c)
            && name == entry_name(c.sid))
}

/// Whether the files are those of a directory, each once, in some order.
pub open spec fn lists(files: Seq<(Seq<char>, Seq<char>)>, dir: Map<Seq<char>, Seq<char>>) -> bool {
    &&& forall|i: int|
        0 <= i < files.len() ==> dir.contains_key((#[trigger] files[i]).0) && dir[files[i].0] == files[i].1
    &&& forall|i: int, j: int| 0 <= i < j < files.len() ==> (#[trigger] files[i]).0 != (#[trigger] files[j]).0
    &&& forall|name: Seq<char>| #[trigger]
        dir.contains_key(name) ==> exists|i: int| 0 <= i < files.len() && (#[trigger] files[i]).0 == name
}

proof fn lemma_pending(files: Seq<(Seq<char>, Seq<char>)>, dir: Map<Seq<char>, Seq<char>>)
    requires
        sound_journal(dir),
        forall|i: int|
            0 <= i < files.len() ==> dir.contains_key((#[trigger] files[i]).0) && dir[files[i].0] == files[i].1,
        forall|i: int, j: int| 0 <= i < j < files.len() ==> (#[trigger] files[i]).0 != (#[trigger] files[j]).0,
    ensures
        pending_in(files) matches Ok(list) && (forall|k: int|
            0 <= k < list.len() ==> exists|i: int|
                0 <= i < files.len() && (#[trigger] files[i]).0 == entry_name((#[trigger] list[k]).sid)) && (forall|
            k: int,
            l: int,
        | 0 <= k < l < list.len() ==> (#[trigger] list[k]).sid != (#[trigger] list[l]).sid) && (forall|i: int|
            0 <= i < files.len() && journal_file_of((#[trigger] files[i]).0) == JournalFile::Entry ==> list.contains(
                entry_in(files[i].1)->Ok_0,
            )),
    decreases files.len(),
{
    if files.len() > 0 {
        let rest = files.drop_last();
        assert forall|i: int| 0 <= i < rest.len() implies dir.contains_key((#[trigger] rest[i]).0) && dir[rest[i].0]
            == rest[i].1 by {
            assert(rest[i] == files[i]);
        }
        assert forall|i: int, j: int| 0 <= i < j < rest.len() implies (#[trigger] rest[i]).0 != (
        #[trigger] rest[j]).0 by {
            assert(files[i].0 != files[j].0);
        }
        lemma_pending(rest, dir);
        let n = files.len() - 1;
        assert(files[n] == files.last());
        let before = pending_in(rest)->Ok_0;
        let list = pending_in(files)->Ok_0;
        let is_entry = journal_file_of(files[n].0) == JournalFile::Entry;
        assert(dir.contains_key(files[n].0));
        assert(pending_in(files) is Ok);
        assert forall|k: int| 0 <= k < before.len() implies exists|i: int|
            0 <= i < n && (#[trigger] files[i]).0 == entry_name((#[trigger] before[k]).sid) by {
            let i = choose|i: int| 0 <= i < rest.len() && (#[trigger] rest[i]).0 == entry_name(before[k].sid);
            assert(files[i] == rest[i]);
        }
        if is_entry {
            let c = entry_in(files[n].1)->Ok_0;
            assert(list == before.push(c));
            assert forall|k: int, l: int| 0 <= k < l < list.len() implies (#[trigger] list[k]).sid != (
            #[trigger] list[l]).sid by {
                if l == before.len() {
                    let i = choose|i: int| 0 <= i < n && (#[trigger] files[i]).0 == entry_name(before[k].sid);
                    assert(files[i].0 != files[n].0);
                } else {
                    assert(before[k].sid != before[l].sid);
                }
            }
            assert forall|k: int| 0 <= k < list.len() implies exists|i: int|
                0 <= i < files.len() && (#[trigger] files[i]).0 == entry_name((#[trigger] list[k]).sid) by {
                if k < before.len() {
                    assert(list[k] == before[k]);
                } else {
                    assert(files[n].0 == entry_name(list[k].sid));
                }
            }
        }
        assert forall|i: int|
            0 <= i < files.len() && journal_file_of((#[trigger] files[i]).0) == JournalFile::Entry implies list.contains(
            entry_in(files[i].1)->Ok_0,
        ) by {
            if i < n {
                assert(rest[i] == files[i]);
                let c = entry_in(rest[i].1)->Ok_0;
                assert(before.contains(c));
                let k = choose|k: int| 0 <= k < before.len() && before[k] == c;
                assert(list[k] == c);
            } else {
                assert(list[before.len() as int] == entry_in(files[i].1)->Ok_0);
            }
        }
    }
}

/// An entry that was journalled waits, exactly as it was and as the only one about
/// its sandbox, whatever else the directory holds and in whatever order it is read;
/// and the journal stays sound. (`text` is what was written: it reads back as the
/// entry.)
pub proof fn law_journalled_entry_is_pending(
    dir: Map<Seq<char>, Seq<char>>,
    c: CleanupView,
    text: Seq<char>,
    files: Seq<(Seq<char>, Seq<char>)>,
)
    requires
        sound_journal(dir),
        journalable(c),
        entry_in(text) == Ok::<CleanupView, MeshErrorView>(c),
        lists(files, dir.insert(entry_name(c.sid), text)),
    ensures
        sound_journal(dir.insert(entry_name(c.sid), text)),
        pending_in(files) matches Ok(list) && exists|i: int|
            0 <= i < list.len() && #[trigger] list[i] == c && forall|k: int|
                0 <= k < list.len() && k != i ==> (#[trigger] list[k]).sid != c.sid,
{
    let after = dir.insert(entry_name(c.sid), text);
    assert(safe_component(c.sid));
    assert forall|name: Seq<char>| #[trigger]
        after.contains_key(name) && journal_file_of(name) == JournalFile::Entry implies (entry_in(
        after[name],
    ) matches Ok(x) && name == entry_name(x.sid)) by {
        if name != entry_name(c.sid) {
            assert(dir.contains_key(name));
        }
    }
    lemma_pending(files, after);
    lemma_entry_name(c.sid);
    let list = pending_in(files)->Ok_0;
    assert(after.contains_key(entry_name(c.sid)));
    let f = choose|i: int| 0 <= i < files.len() && (#[trigger] files[i]).0 == entry_name(c.sid);
    assert(files[f].1 == text);
    assert(list.contains(c));
    let i = choose|i: int| 0 <= i < list.len() && list[i] == c;
    assert forall|k: int| 0 <= k < list.len() && k != i implies (#[trigger] list[k]).sid != c.sid by {
        if k < i {
            assert(list[k].sid != list[i].sid);
        } else {
            assert(list[i].sid != list[k].sid);
        }
    }
    assert(list[i] == c);
}

/// Once its file was removed, no entry about a sandbox waits; and the journal stays
/// sound.
pub proof fn law_removed_entry_is_gone(
    dir: Map<Seq<char>, Seq<char>>,
    sid: Seq<char>,
    files: Seq<(Seq<char>, Seq<char>)>,
)
    requires
        sound_journal(dir),
        lists(files, dir.remove(entry_name(sid))),
    ensures
        sound_journal(dir.remove(entry_name(sid))),
        pending_in(files) matches Ok(list) && forall|k: int|
            0 <= k < list.len() ==> (#[trigger] list[k]).sid != sid,
{
    let after = dir.remove(entry_name(sid));
    assert forall|name: Seq<char>| #[trigger]
        after.contains_key(name) && journal_file_of(name) == JournalFile::Entry implies (entry_in(
        after[name],
    ) matches Ok(x) && name == entry_name(x.sid)) by {
        assert(dir.contains_key(name));
    }
    lemma_pending(files, after);
    let list = pending_in(files)->Ok_0;
    assert forall|k: int| 0 <= k < list.len() implies (#[trigger] list[k]).sid != sid by {
        let i = choose|i: int| 0 <= i < files.len() && (#[trigger] files[i]).0 == entry_name(list[k].sid);
        assert(after.contains_key(files[i].0));
    }
}

} // verus!
