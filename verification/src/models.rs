//! What requests to the API hold.
use crate::json::{Json, JsonMap, JsonView, ObjectView};
use crate::registry::lifecycle::PersistencePolicy;
use crate::text::{opt_text, text_eq};
use crate::textmap::TextMap;
use vstd::prelude::*;

verus! {

/// How many clones one request may ask for.
pub const MAX_FORK_CLONES: u32 = 32;

/// The bits of 300.0, the default timeout in seconds.
pub const DEFAULT_TIMEOUT_BITS: u64 = 0x4072_c000_0000_0000;

/// A lazily mounted bucket. Its credentials are for the request alone: they are
/// never written.
pub struct S3MountSpec {
    pub uri: String,
    pub endpoint: Option<String>,
    pub region: Option<String>,
    pub read_only: bool,
    pub access_key: Option<String>,
    pub secret_key: Option<String>,
    pub session_token: Option<String>,
}

pub ghost struct MountView {
    pub uri: Seq<char>,
    pub endpoint: Option<Seq<char>>,
    pub region: Option<Seq<char>>,
    pub read_only: bool,
    pub access_key: Option<Seq<char>>,
    pub secret_key: Option<Seq<char>>,
    pub session_token: Option<Seq<char>>,
}

impl View for S3MountSpec {
    type V = MountView;

    open spec fn view(&self) -> MountView {
        MountView {
            uri: self.uri@,
            endpoint: opt_text(self.endpoint),
            region: opt_text(self.region),
            read_only: self.read_only,
            access_key: opt_text(self.access_key),
            secret_key: opt_text(self.secret_key),
            session_token: opt_text(self.session_token),
        }
    }
}

/// The text under a name that may be missing or null; `None` where something else
/// stands there.
pub open spec fn opt_text_at(m: ObjectView, k: Seq<char>) -> Option<Option<Seq<char>>> {
    if !m.contains_key(k) || m[k] is Null {
        Some(None)
    } else {
        match m[k] {
            JsonView::Str(s) => Some(Some(s)),
            _ => None,
        }
    }
}

fn parse_opt_text(m: &JsonMap, k: &str) -> (r: Option<Option<String>>)
    ensures
        match r {
            Some(o) => opt_text_at(m@, k@) == Some(opt_text(o)),
            None => opt_text_at(m@, k@) is None,
        },
{
    match m.get(k) {
        None => Some(None),
        Some(Json::Null) => Some(None),
        Some(Json::Str(s)) => Some(Some(s.clone())),
        Some(_) => None,
    }
}

/// Whether a mount's request may hold a name.
pub open spec fn is_mount_field(k: Seq<char>) -> bool {
    k == "uri"@ || k == "endpoint"@ || k == "region"@ || k == "read_only"@ || k == "access_key"@ || k
        == "secret_key"@ || k == "session_token"@
}

fn mount_field(k: &str) -> (r: bool)
    ensures
        r == is_mount_field(k@),
{
    text_eq(k, "uri") || text_eq(k, "endpoint") || text_eq(k, "region") || text_eq(k, "read_only") || text_eq(
        k,
        "access_key",
    ) || text_eq(k, "secret_key") || text_eq(k, "session_token")
}

/// Whether the bucket is mounted without changes, where that is said.
pub open spec fn read_only_at(m: ObjectView) -> Option<bool> {
    if !m.contains_key("read_only"@) {
        Some(false)
    } else {
        match m["read_only"@] {
            JsonView::Bool(b) => Some(b),
            _ => None,
        }
    }
}

/// The mount that a request asks for: its address alone, or an object with its
/// address and nothing that a mount does not have.
pub open spec fn read_mount(value: JsonView) -> Option<MountView> {
    match value {
        JsonView::Str(uri) => Some(
            MountView {
                uri,
                endpoint: None,
                region: None,
                read_only: false,
                access_key: None,
                secret_key: None,
                session_token: None,
            },
        ),
        JsonView::Object(m) => if forall|k: Seq<char>| #[trigger] m.contains_key(k) ==> is_mount_field(k) {
            match (
                crate::json::text_at(m, "uri"@),
                opt_text_at(m, "endpoint"@),
                opt_text_at(m, "region"@),
                read_only_at(m),
                opt_text_at(m, "access_key"@),
                opt_text_at(m, "secret_key"@),
                opt_text_at(m, "session_token"@),
            ) {
                (
                    Some(uri),
                    Some(endpoint),
                    Some(region),
                    Some(read_only),
                    Some(access_key),
                    Some(secret_key),
                    Some(session_token),
                ) => Some(MountView { uri, endpoint, region, read_only, access_key, secret_key, session_token }),
                _ => None,
            }
        } else {
            None
        },
        _ => None,
    }
}

/// What is written of an optional text.
pub open spec fn opt_text_json(o: Option<Seq<char>>) -> JsonView {
    match o {
        Some(s) => JsonView::Str(s),
        None => JsonView::Null,
    }
}

fn write_opt_text(o: &Option<String>) -> (r: Json)
    ensures
        r@ == opt_text_json(opt_text(*o)),
{
    match o {
        Some(s) => Json::Str(s.clone()),
        None => Json::Null,
    }
}

/// What is written of a mount.
pub open spec fn mount_object(v: MountView) -> ObjectView {
    Map::<Seq<char>, JsonView>::empty().insert("uri"@, JsonView::Str(v.uri)).insert(
        "endpoint"@,
        opt_text_json(v.endpoint),
    ).insert("region"@, opt_text_json(v.region)).insert("read_only"@, JsonView::Bool(v.read_only))
}

fn only_mount_fields(m: &JsonMap) -> (r: bool)
    ensures
        r == forall|k: Seq<char>| #[trigger] m@.contains_key(k) ==> is_mount_field(k),
{
    let n = m.len();
    let ghost pairs = m.pairs();
    let mut i: usize = 0;
    while i < n
        invariant
            i <= n,
            n == pairs.len(),
            pairs == m.pairs(),
            forall|j: int| 0 <= j < pairs.len() ==> m@.contains_key((#[trigger] pairs[j]).0),
            forall|k: Seq<char>| #[trigger]
                m@.contains_key(k) ==> exists|j: int| 0 <= j < pairs.len() && (#[trigger] pairs[j]).0 == k,
            forall|j: int| 0 <= j < i ==> is_mount_field((#[trigger] pairs[j]).0),
        decreases n - i,
    {
        if !mount_field(m.name_at(i).as_str()) {
            assert(m@.contains_key(pairs[i as int].0));
            return false;
        }
        i = i + 1;
    }
    assert forall|k: Seq<char>| #[trigger] m@.contains_key(k) implies is_mount_field(k) by {
        let j = choose|j: int| 0 <= j < pairs.len() && (#[trigger] pairs[j]).0 == k;
        assert(is_mount_field(pairs[j].0));
    }
    true
}

impl S3MountSpec {
    /// The mount that a request asks for.
    pub fn parse(value: &Json) -> (r: Option<S3MountSpec>)
        ensures
            match r {
                Some(m) => read_mount(value@) == Some(m@),
                None => read_mount(value@) is None,
            },
    {
        match value {
            Json::Str(uri) => Some(
                S3MountSpec {
                    uri: uri.clone(),
                    endpoint: None,
                    region: None,
                    read_only: false,
                    access_key: None,
                    secret_key: None,
                    session_token: None,
                },
            ),
            Json::Object(m) => {
                if !only_mount_fields(m) {
                    return None;
                }
                let read_only = match m.get("read_only") {
                    None => Some(false),
                    Some(Json::Bool(b)) => Some(*b),
                    Some(_) => None,
                };
                match (
                    m.text_at("uri"),
                    parse_opt_text(m, "endpoint"),
                    parse_opt_text(m, "region"),
                    read_only,
                    parse_opt_text(m, "access_key"),
                    parse_opt_text(m, "secret_key"),
                    parse_opt_text(m, "session_token"),
                ) {
                    (
                        Some(uri),
                        Some(endpoint),
                        Some(region),
                        Some(read_only),
                        Some(access_key),
                        Some(secret_key),
                        Some(session_token),
                    ) => Some(
                        S3MountSpec { uri, endpoint, region, read_only, access_key, secret_key, session_token },
                    ),
                    _ => None,
                }
            },
            _ => None,
        }
    }

    /// What is written of the mount.
    pub fn write(&self) -> (r: JsonMap)
        ensures
            r@ == mount_object(self@),
    {
        let mut m = JsonMap::new();
        m.insert("uri".to_owned(), Json::Str(self.uri.clone()));
        m.insert("endpoint".to_owned(), write_opt_text(&self.endpoint));
        m.insert("region".to_owned(), write_opt_text(&self.region));
        m.insert("read_only".to_owned(), Json::Bool(self.read_only));
        m
    }
}

/// Credentials are not written.
pub proof fn law_credentials_are_not_written(v: MountView)
    ensures
        !mount_object(v).contains_key("access_key"@),
        !mount_object(v).contains_key("secret_key"@),
        !mount_object(v).contains_key("session_token"@),
{
    lemma_mount_names();
}

/// A mount that is written and read back has everything but its credentials.
pub proof fn law_mount_survives_without_credentials(v: MountView)
    ensures
        read_mount(JsonView::Object(mount_object(v))) == Some(
            MountView { access_key: None, secret_key: None, session_token: None, ..v },
        ),
{
    lemma_mount_names();
    let m = mount_object(v);
    assert(forall|k: Seq<char>| #[trigger] m.contains_key(k) ==> is_mount_field(k));
}

proof fn lemma_mount_names()
    ensures
        "uri"@.len() == 3,
        "endpoint"@.len() == 8,
        "region"@.len() == 6,
        "read_only"@.len() == 9,
        "access_key"@.len() == 10 && "access_key"@[0] == 'a',
        "secret_key"@.len() == 10 && "secret_key"@[0] == 's',
        "session_token"@.len() == 13,
{
    reveal_strlit("uri");
    reveal_strlit("endpoint");
    reveal_strlit("region");
    reveal_strlit("read_only");
    reveal_strlit("access_key");
    reveal_strlit("secret_key");
    reveal_strlit("session_token");
}

/// Whether every value of a request's mounts asks for a mount.
pub open spec fn mounts_sound(m: ObjectView) -> bool {
    forall|k: Seq<char>| #[trigger] m.contains_key(k) ==> read_mount(m[k]) is Some
}

/// The mounts that a request asks for, by where they are mounted.
pub fn parse_mounts(m: &JsonMap) -> (r: Option<TextMap<S3MountSpec>>)
    ensures
        match r {
            Some(mounts) => mounts_sound(m@) && mounts@ == m@.map_values(|v: JsonView| read_mount(v)->0),
            None => !mounts_sound(m@),
        },
{
    let mut out: TextMap<S3MountSpec> = TextMap::new();
    let n = m.len();
    let ghost pairs = m.pairs();
    let mut i: usize = 0;
    assert(out@ =~= Map::empty());
    while i < n
        invariant
            i <= n,
            n == pairs.len(),
            pairs == m.pairs(),
            forall|j: int|
                0 <= j < pairs.len() ==> m@.contains_key((#[trigger] pairs[j]).0) && m@[pairs[j].0] == pairs[j].1,
            forall|k: Seq<char>| #[trigger]
                m@.contains_key(k) ==> exists|j: int| 0 <= j < pairs.len() && (#[trigger] pairs[j]).0 == k,
            forall|j: int| 0 <= j < i ==> out@.contains_key((#[trigger] pairs[j]).0),
            forall|k: Seq<char>| #[trigger]
                out@.contains_key(k) ==> m@.contains_key(k) && read_mount(m@[k]) == Some(out@[k]),
        decreases n - i,
    {
        let name = m.name_at(i).clone();
        match S3MountSpec::parse(m.value_at(i)) {
            None => {
                assert(m@.contains_key(pairs[i as int].0));
                return None;
            },
            Some(mount) => {
                out.insert(name, mount);
            },
        }
        i = i + 1;
    }
    proof {
        assert forall|k: Seq<char>| #[trigger] m@.contains_key(k) implies out@.contains_key(k) by {
            let j = choose|j: int| 0 <= j < pairs.len() && (#[trigger] pairs[j]).0 == k;
            assert(out@.contains_key(pairs[j].0));
        }
        assert(mounts_sound(m@));
        assert(out@ =~= m@.map_values(|v: JsonView| read_mount(v)->0));
    }
    Some(out)
}

/// An interface of a sandbox on a routed network.
pub struct NicSpec {
    pub vpc: String,
    pub ipv4: Json,
    pub default: bool,
}

/// What the creation of a sandbox is asked for with. Times are seconds, given as
/// the bits of floating-point numbers where fractions are allowed.
pub struct SandboxCreate {
    pub image: Option<String>,
    pub template: Option<String>,
    pub dockerfile: Option<String>,
    pub context: String,
    pub name: Option<String>,
    pub cpus: u32,
    pub memory: u32,
    pub disk_mb: u32,
    pub timeout: Option<u64>,
    pub timeout_secs: Option<u64>,
    pub idle_timeout_secs: Option<u64>,
    pub activity_threshold_bytes: Option<u64>,
    pub persistence: Option<PersistencePolicy>,
    pub workdir: Option<String>,
    pub env: Option<TextMap<String>>,
    pub secrets: Option<Vec<Json>>,
    pub credentials: Option<Vec<String>>,
    pub volumes: Option<JsonMap>,
    pub s3_mounts: Option<TextMap<S3MountSpec>>,
    pub tags: Option<TextMap<String>>,
    pub fs_dir: Option<String>,
    pub block_network: bool,
    pub ports: Option<Vec<u16>>,
    pub egress_allow: Option<Vec<String>>,
    pub egress_allow_domains: Option<Vec<String>>,
    pub inbound_cidr_allowlist: Option<Vec<String>>,
    pub nics: Option<Vec<NicSpec>>,
    pub readiness_probe: Option<Json>,
    pub pool_size: u32,
    pub remote_page_url: Option<String>,
    pub remote_page_token: Option<String>,
    pub remote_page_digest: Option<String>,
    pub ha: Option<String>,
    pub arch: Option<String>,
    pub idempotency_key: Option<String>,
    pub command: Option<Vec<String>>,
    pub s3_restore_tags: Option<TextMap<String>>,
    pub owner_tenant: String,
    pub encryption_key_id: String,
}

impl Default for SandboxCreate {
    fn default() -> (r: SandboxCreate)
        ensures
            r.image is None && r.template is None && r.dockerfile is None && r.name is None,
            r.context@ == "."@,
            r.cpus == 1 && r.memory == 512 && r.disk_mb == 1024,
            r.timeout == Some(DEFAULT_TIMEOUT_BITS) && r.timeout_secs is None && r.idle_timeout_secs is None,
            r.activity_threshold_bytes is None && r.persistence is None && r.workdir is None && r.env is None,
            r.secrets is None && r.credentials is None && r.volumes is None && r.s3_mounts is None,
            r.tags is None && r.fs_dir is None && r.block_network && r.ports is None,
            r.egress_allow is None && r.egress_allow_domains is None && r.inbound_cidr_allowlist is None,
            r.nics is None && r.readiness_probe is None && r.pool_size == 0,
            r.remote_page_url is None && r.remote_page_token is None && r.remote_page_digest is None,
            r.ha is None && r.arch is None && r.idempotency_key is None && r.command is None,
            r.s3_restore_tags is None,
            r.owner_tenant@ == "default"@ && r.encryption_key_id@ == "default"@,
    {
        SandboxCreate {
            image: None,
            template: None,
            dockerfile: None,
            context: ".".to_owned(),
            name: None,
            cpus: 1,
            memory: 512,
            disk_mb: 1024,
            timeout: Some(DEFAULT_TIMEOUT_BITS),
            timeout_secs: None,
            idle_timeout_secs: None,
            activity_threshold_bytes: None,
            persistence: None,
            workdir: None,
            env: None,
            secrets: None,
            credentials: None,
            volumes: None,
            s3_mounts: None,
            tags: None,
            fs_dir: None,
            block_network: true,
            ports: None,
            egress_allow: None,
            egress_allow_domains: None,
            inbound_cidr_allowlist: None,
            nics: None,
            readiness_probe: None,
            pool_size: 0,
            remote_page_url: None,
            remote_page_token: None,
            remote_page_digest: None,
            ha: None,
            arch: None,
            idempotency_key: None,
            command: None,
            s3_restore_tags: None,
            owner_tenant: "default".to_owned(),
            encryption_key_id: "default".to_owned(),
        }
    }
}

/// A command that is run in a sandbox.
pub struct ExecBody {
    pub cmd: Vec<String>,
    pub workdir: Option<String>,
    pub cwd: Option<String>,
    pub env: Option<TextMap<String>>,
    pub timeout: Option<u64>,
    pub tty: bool,
}

impl Default for ExecBody {
    fn default() -> (r: ExecBody)
        ensures
            r.cmd@.len() == 0 && r.workdir is None && r.cwd is None && r.env is None && r.timeout is None && !r.tty,
    {
        ExecBody { cmd: Vec::new(), workdir: None, cwd: None, env: None, timeout: None, tty: false }
    }
}

/// A snapshot of a sandbox.
#[derive(Debug)]
pub struct SnapshotBody {
    pub name: Option<String>,
    pub stop: bool,
}

impl Default for SnapshotBody {
    fn default() -> (r: SnapshotBody)
        ensures
            r.name is None && !r.stop,
    {
        SnapshotBody { name: None, stop: false }
    }
}

/// A snapshot of a sandbox's files.
#[derive(Debug)]
pub struct SnapshotFsBody {
    pub name: Option<String>,
}

impl Default for SnapshotFsBody {
    fn default() -> (r: SnapshotFsBody)
        ensures
            r.name is None,
    {
        SnapshotFsBody { name: None }
    }
}

/// More time for a sandbox.
#[derive(Debug)]
pub struct ExtendBody {
    pub secs: u64,
}

/// The end of a sandbox, with the exit code that was seen.
#[derive(Debug)]
pub struct StopBody {
    pub returncode: Option<i64>,
}

impl Default for StopBody {
    fn default() -> (r: StopBody)
        ensures
            r.returncode is None,
    {
        StopBody { returncode: None }
    }
}

/// The network policy of a sandbox.
#[derive(Debug)]
pub struct NetworkBody {
    pub block_network: Option<bool>,
    pub cidr_allow: Option<Vec<String>>,
    pub domain_allow: Option<Vec<String>>,
}

impl Default for NetworkBody {
    fn default() -> (r: NetworkBody)
        ensures
            r.block_network is None && r.cidr_allow is None && r.domain_allow is None,
    {
        NetworkBody { block_network: None, cidr_allow: None, domain_allow: None }
    }
}

/// A sandbox out of a snapshot.
pub struct RestoreBody {
    pub name: Option<String>,
    pub agent: Option<bool>,
    pub extra: JsonMap,
}

impl Default for RestoreBody {
    fn default() -> (r: RestoreBody)
        ensures
            r.name is None && r.agent is None && r.extra@ == Map::<Seq<char>, JsonView>::empty(),
    {
        RestoreBody { name: None, agent: None, extra: JsonMap::new() }
    }
}

/// Several sandboxes out of one snapshot.
pub struct ForkBody {
    pub count: u32,
    pub extra: JsonMap,
}

/// The size of a pool.
pub struct PoolPutBody {
    pub size: u32,
    pub extra: JsonMap,
}

/// The node that a sandbox is moved to.
#[derive(Debug)]
pub struct MigrateBody {
    pub target: String,
}

} // verus!
