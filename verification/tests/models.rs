//! Request bodies.
use vmond::json::{Json, JsonMap};
use vmond::models::{parse_mounts, S3MountSpec, SandboxCreate};

fn text(s: &str) -> Json {
    Json::Str(s.to_owned())
}

fn object(members: Vec<(&str, Json)>) -> Json {
    let mut map = JsonMap::new();
    for (key, value) in members {
        map.insert(key.to_owned(), value);
    }
    Json::Object(map)
}

#[test]
fn s3_mounts_accept_uri_shorthand_and_never_serialize_credentials() {
    let mut given = JsonMap::new();
    given.insert("/mnt/public".to_owned(), text("s3://public/prefix"));
    given.insert(
        "/mnt/private".to_owned(),
        object(vec![
            ("uri", text("s3://private")),
            ("access_key", text("access")),
            ("secret_key", text("secret")),
            ("session_token", text("session")),
        ]),
    );
    let mounts = parse_mounts(&given).expect("S3 mount request parses");
    let public = mounts.get("/mnt/public").expect("mounts");
    assert_eq!(public.uri, "s3://public/prefix");
    assert!(!public.read_only);
    let private = mounts.get("/mnt/private").expect("mounts");
    assert_eq!(private.access_key.as_deref(), Some("access"));

    let wire = private.write();
    assert!(wire.get("access_key").is_none());
    assert!(wire.get("secret_key").is_none());
    assert!(wire.get("session_token").is_none());
    assert_eq!(wire.text_at("uri"), Some("s3://private".to_owned()));
}

#[test]
fn a_written_mount_reads_back_without_its_credentials() {
    let mount = S3MountSpec::parse(&object(vec![
        ("uri", text("s3://private")),
        ("endpoint", text("http://store")),
        ("region", text("eu")),
        ("read_only", Json::Bool(true)),
        ("secret_key", text("secret")),
    ]))
    .unwrap();
    let again = S3MountSpec::parse(&Json::Object(mount.write())).unwrap();
    assert_eq!(again.uri, "s3://private");
    assert_eq!(again.endpoint.as_deref(), Some("http://store"));
    assert_eq!(again.region.as_deref(), Some("eu"));
    assert!(again.read_only);
    assert_eq!(again.secret_key, None);
}

#[test]
fn malformed_mounts_are_refused() {
    assert!(S3MountSpec::parse(&Json::Bool(true)).is_none());
    assert!(S3MountSpec::parse(&object(vec![])).is_none());
    assert!(S3MountSpec::parse(&object(vec![("uri", Json::Bool(true))])).is_none());
    assert!(S3MountSpec::parse(&object(vec![("uri", text("s3://b")), ("unknown", text("x"))])).is_none());
    assert!(S3MountSpec::parse(&object(vec![("uri", text("s3://b")), ("read_only", text("yes"))])).is_none());
}

#[test]
fn a_creation_starts_from_its_defaults() {
    let request = SandboxCreate::default();
    assert_eq!(request.context, ".");
    assert_eq!(request.cpus, 1);
    assert_eq!(request.memory, 512);
    assert_eq!(request.disk_mb, 1024);
    assert_eq!(request.timeout.map(f64::from_bits), Some(300.0));
    assert!(request.block_network);
    assert_eq!(request.owner_tenant, "default");
    assert_eq!(request.encryption_key_id, "default");
}
