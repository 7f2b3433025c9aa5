//! The journal of leases: what is written of them, read back after a restart.
use crate::error::{failure, EngineError, ErrorCode, ErrorView};
use crate::json::{json_read, Json, JsonMap, JsonView, ObjectView};
use crate::net::allocator::{EntryView, LeaseEntry};
use crate::text::{opt_text, trim, trimmed};
use crate::textmap::TextMap;
use vstd::prelude::*;

verus! {

/// What is written of a lease.
pub open spec fn entry_json(entry: EntryView) -> JsonView {
    let network = Map::<Seq<char>, JsonView>::empty().insert("network"@, JsonView::Str(entry.network));
    JsonView::Object(
        match entry.tap {
            Some(tap) => network.insert("tap"@, JsonView::Str(tap)),
            None => network,
        },
    )
}

/// The lease that a value stands for.
pub open spec fn read_entry(value: JsonView) -> Option<EntryView> {
    match value {
        JsonView::Object(m) => if m.contains_key("network"@) {
            match m["network"@] {
                JsonView::Str(network) => if !m.contains_key("tap"@) || m["tap"@] is Null {
                    Some(EntryView { network, tap: None })
                } else {
                    match m["tap"@] {
                        JsonView::Str(tap) => Some(EntryView { network, tap: Some(tap) }),
                        _ => None,
                    }
                },
                _ => None,
            }
        } else {
            None
        },
        _ => None,
    }
}

/// What is written of leases.
pub open spec fn leases_json(leases: Map<Seq<char>, EntryView>) -> ObjectView {
    leases.map_values(|e: EntryView| entry_json(e))
}

/// Whether every value of a journal stands for a lease.
pub open spec fn journal_sound(journal: ObjectView) -> bool {
    forall|n: Seq<char>| #[trigger] journal.contains_key(n) ==> read_entry(journal[n]) is Some
}

/// The leases that a journal stands for.
pub open spec fn read_leases(journal: ObjectView) -> Map<Seq<char>, EntryView> {
    journal.map_values(|v: JsonView| read_entry(v)->0)
}

fn write_entry(entry: &LeaseEntry) -> (r: Json)
    ensures
        r@ == entry_json(entry@),
{
    let mut m = JsonMap::new();
    m.insert("network".to_owned(), Json::Str(entry.network.clone()));
    match &entry.tap {
        Some(tap) => {
            m.insert("tap".to_owned(), Json::Str(tap.clone()));
        },
        None => {},
    }
    Json::Object(m)
}

fn parse_entry(value: &Json) -> (r: Option<LeaseEntry>)
    ensures
        match r {
            Some(e) => read_entry(value@) == Some(e@),
            None => read_entry(value@) is None,
        },
{
    match value {
        Json::Object(m) => match m.get("network") {
            Some(Json::Str(network)) => match m.get("tap") {
                None => Some(LeaseEntry { network: network.clone(), tap: None }),
                Some(Json::Null) => Some(LeaseEntry { network: network.clone(), tap: None }),
                Some(Json::Str(tap)) => Some(LeaseEntry { network: network.clone(), tap: Some(tap.clone()) }),
                Some(_) => None,
            },
            _ => None,
        },
        _ => None,
    }
}

/// What is written of leases.
pub fn write_leases(leases: &TextMap<LeaseEntry>) -> (r: JsonMap)
    ensures
        r@ == leases_json(leases@),
{
    let mut out = JsonMap::new();
    let n = leases.len();
    let mut i: usize = 0;
    let ghost keys = leases.keys();
    assert(out@ =~= Map::empty());
    while i < n
        invariant
            i <= n,
            n == keys.len(),
            keys == leases.keys(),
            forall|k: Seq<char>| leases@.contains_key(k) <==> keys.contains(k),
            forall|k: Seq<char>| #[trigger] out@.contains_key(k) <==> keys.take(i as int).contains(k),
            forall|k: Seq<char>| #[trigger] out@.contains_key(k) ==> out@[k] == entry_json(leases@[k]),
        decreases n - i,
    {
        let ghost before = out@;
        let value = write_entry(leases.value_at(i));
        out.insert(leases.key_at(i).clone(), value);
        proof {
            let a = keys.take(i as int);
            let b = keys.take(i + 1);
            assert(b =~= a.push(keys[i as int]));
            assert forall|k: Seq<char>| #[trigger] out@.contains_key(k) <==> b.contains(k) by {
                if a.contains(k) {
                    let j = choose|j: int| 0 <= j < a.len() && a[j] == k;
                    assert(b[j] == k);
                }
                assert(b[i as int] == keys[i as int]);
                if b.contains(k) {
                    let j = choose|j: int| 0 <= j < b.len() && b[j] == k;
                    if j < i {
                        assert(a[j] == k);
                    }
                }
                assert(before.contains_key(k) <==> a.contains(k));
            }
        }
        i = i + 1;
    }
    assert(keys.take(i as int) =~= keys);
    assert(out@ =~= leases_json(leases@));
    out
}

/// The leases that a journal stands for; none where one of its values stands for
/// no lease.
pub fn parse_leases(journal: &JsonMap) -> (r: Option<TextMap<LeaseEntry>>)
    ensures
        match r {
            Some(leases) => journal_sound(journal@) && leases@ == read_leases(journal@),
            None => !journal_sound(journal@),
        },
{
    let mut out: TextMap<LeaseEntry> = TextMap::new();
    let n = journal.len();
    let ghost pairs = journal.pairs();
    let mut i: usize = 0;
    assert(out@ =~= Map::empty());
    while i < n
        invariant
            i <= n,
            n == pairs.len(),
            pairs == journal.pairs(),
            forall|j: int|
                0 <= j < pairs.len() ==> journal@.contains_key((#[trigger] pairs[j]).0) && journal@[pairs[j].0]
                    == pairs[j].1,
            forall|k: Seq<char>| #[trigger]
                journal@.contains_key(k) ==> exists|j: int| 0 <= j < pairs.len() && (#[trigger] pairs[j]).0 == k,
            forall|j: int| 0 <= j < i ==> out@.contains_key((#[trigger] pairs[j]).0),
            forall|k: Seq<char>| #[trigger]
                out@.contains_key(k) ==> journal@.contains_key(k) && read_entry(journal@[k]) == Some(out@[k]),
        decreases n - i,
    {
        let name = journal.name_at(i).clone();
        match parse_entry(journal.value_at(i)) {
            None => {
                assert(journal@.contains_key(pairs[i as int].0));
                return None;
            },
            Some(entry) => {
                out.insert(name, entry);
            },
        }
        i = i + 1;
    }
    proof {
        assert forall|k: Seq<char>| #[trigger] journal@.contains_key(k) implies out@.contains_key(k) by {
            let j = choose|j: int| 0 <= j < pairs.len() && (#[trigger] pairs[j]).0 == k;
            assert(out@.contains_key(pairs[j].0));
        }
        assert(journal_sound(journal@));
        assert(out@ =~= read_leases(journal@));
    }
    Some(out)
}

/// The leases that the text of a journal stands for, or what is wrong with it. One
/// that is not there, or is blank, holds none.
pub open spec fn leases_in(text: Option<Seq<char>>) -> Result<Map<Seq<char>, EntryView>, ErrorView> {
    match text {
        None => Ok(Map::empty()),
        Some(t) => if trimmed(t).len() == 0 {
            Ok(Map::empty())
        } else {
            match json_read(t) {
                Err(e) => Err(failure(ErrorCode::Engine, e)),
                Ok(JsonView::Object(journal)) => if journal_sound(journal) {
                    Ok(read_leases(journal))
                } else {
                    Err(failure(ErrorCode::Engine, "a lease of the network journal cannot be read"@))
                },
                Ok(_) => Err(failure(ErrorCode::Engine, "the network journal is not an object"@)),
            }
        },
    }
}

/// The leases that the text of a journal stands for.
pub fn load_leases(text: Option<&str>) -> (r: Result<TextMap<LeaseEntry>, EngineError>)
    ensures
        ({
            let given = match text {
                Some(t) => Some(t@),
                None => None,
            };
            match r {
                Ok(leases) => leases_in(given) == Ok::<Map<Seq<char>, EntryView>, ErrorView>(leases@),
                Err(e) => leases_in(given) == Err::<Map<Seq<char>, EntryView>, ErrorView>(e@),
            }
        }),
{
    let text = match text {
        Some(t) => t,
        None => return Ok(TextMap::new()),
    };
    if trim(text).as_str().is_empty() {
        return Ok(TextMap::new());
    }
    match Json::parse(text) {
        Err(e) => Err(EngineError::engine(e)),
        Ok(Json::Object(journal)) => match parse_leases(&journal) {
            Some(leases) => Ok(leases),
            None => Err(EngineError::engine("a lease of the network journal cannot be read".to_owned())),
        },
        Ok(_) => Err(EngineError::engine("the network journal is not an object".to_owned())),
    }
}

/// Leases that are written and read back are the same leases.
pub proof fn law_leases_survive_restart(leases: Map<Seq<char>, EntryView>)
    ensures
        journal_sound(leases_json(leases)),
        read_leases(leases_json(leases)) == leases,
{
    reveal_strlit("network");
    reveal_strlit("tap");
    assert("network"@.len() == 7 && "tap"@.len() == 3);
    assert forall|e: EntryView| read_entry(#[trigger] entry_json(e)) == Some(e) by {}
    let journal = leases_json(leases);
    assert forall|n: Seq<char>| #[trigger] journal.contains_key(n) implies read_entry(journal[n]) is Some by {
        assert(journal[n] == entry_json(leases[n]));
    }
    assert(read_leases(journal) =~= leases);
}

/// What a journal's writer is told: what to write, or whom to tell when it is
/// written.
pub enum JournalMsg {
    Persist(String),
    Flush(u64),
}

/// The last text that messages want written.
pub open spec fn latest(messages: Seq<JournalMsg>) -> Option<Seq<char>>
    decreases messages.len(),
{
    if messages.len() == 0 {
        None
    } else {
        match messages.last() {
            JournalMsg::Persist(text) => Some(text@),
            JournalMsg::Flush(_) => latest(messages.drop_last()),
        }
    }
}

/// Whom messages want told, in their order.
pub open spec fn waiting(messages: Seq<JournalMsg>) -> Seq<u64>
    decreases messages.len(),
{
    if messages.len() == 0 {
        Seq::empty()
    } else {
        match messages.last() {
            JournalMsg::Persist(_) => waiting(messages.drop_last()),
            JournalMsg::Flush(id) => waiting(messages.drop_last()).push(id),
        }
    }
}

/// What comes of the messages that are waiting: the last text is written, and then
/// everyone who waits is told.
pub fn coalesce(messages: &Vec<JournalMsg>) -> (r: (Option<String>, Vec<u64>))
    ensures
        opt_text(r.0) == latest(messages@),
        r.1@ == waiting(messages@),
{
    let mut text: Option<String> = None;
    let mut acks: Vec<u64> = Vec::new();
    let mut i: usize = 0;
    assert(messages@.take(0) =~= Seq::empty());
    assert(acks@ =~= Seq::empty());
    while i < messages.len()
        invariant
            i <= messages@.len(),
            opt_text(text) == latest(messages@.take(i as int)),
            acks@ == waiting(messages@.take(i as int)),
        decreases messages@.len() - i,
    {
        assert(messages@.take(i + 1).drop_last() =~= messages@.take(i as int));
        assert(messages@.take(i + 1).last() == messages@[i as int]);
        match &messages[i] {
            JournalMsg::Persist(t) => {
                text = Some(t.clone());
            },
            JournalMsg::Flush(id) => {
                acks.push(*id);
            },
        }
        i = i + 1;
    }
    assert(messages@.take(i as int) =~= messages@);
    (text, acks)
}

/// Of several texts that are to be written the last one counts, and whoever waits is
/// told, in order.
pub proof fn law_last_text_is_written(messages: Seq<JournalMsg>, message: JournalMsg)
    ensures
        message matches JournalMsg::Persist(text) ==> latest(messages.push(message)) == Some(text@) && waiting(
            messages.push(message),
        ) == waiting(messages),
        message matches JournalMsg::Flush(id) ==> latest(messages.push(message)) == latest(messages) && waiting(
            messages.push(message),
        ) == waiting(messages).push(id),
        latest(Seq::empty()) is None,
        waiting(Seq::empty()).len() == 0,
{
    assert(messages.push(message).drop_last() =~= messages);
}

} // verus!
