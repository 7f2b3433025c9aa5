//! Templates and checkpoints that peers hand to one another.
use vmond::error::{EngineError, ErrorCode};
use vmond::json::{Json, JsonMap};
use vmond::mesh::transfer::{
    bundle_for_digest, bundled, extracted_template_root, install_lazy_template_stub, install_pulled_indexed,
    install_pulled_snapshot, install_pulled_template, is_memory_page, marker_digest, memory_file,
    metadata_bundle_for_digest, next_install_step, page_for_digest, page_offset, peer_address, page_host,
    pull_outcome, remote_page_metadata_value, remote_page_url, replica_url, snapshot_bundle_for_path, state_file, template_name_from_marker,
    template_url, unknown_digest, validate_digest, IndexedDigest, InstallStep, MemoryRead, RemotePageMetadata, Standing,
};
use vmond::net::addr::IpAddr;

fn digest() -> String {
    "0123456789abcdef".repeat(4)
}

fn marker(members: Vec<(&str, &str)>) -> Json {
    let mut map = JsonMap::new();
    for (key, value) in members {
        map.insert(key.to_owned(), Json::Str(value.to_owned()));
    }
    Json::Object(map)
}

fn failed() -> EngineError {
    EngineError::engine("io failed".to_owned())
}

#[test]
fn digests_are_lowercase_sha256() {
    assert!(validate_digest(digest().as_str()).is_ok());
    for bad in ["", "abc", "0123456789ABCDEF0123456789ABCDEF0123456789ABCDEF0123456789ABCDEF"] {
        let error = validate_digest(bad).unwrap_err();
        assert_eq!(error.code, ErrorCode::Invalid);
        assert_eq!(error.message, "template digest must be a lowercase SHA-256 hex digest");
    }
    assert!(validate_digest("g".repeat(64).as_str()).is_err());
}

#[test]
fn a_replica_is_exported_with_its_own_digest_only() {
    let d = digest();
    let bundle = snapshot_bundle_for_path("/snap".to_owned(), d.as_str(), true, Ok(d.clone())).unwrap();
    assert_eq!(bundle.dir, "/snap");
    assert!(!bundle.metadata_only);
    assert_eq!(bundle.filename, format!("{}.vbundle", d));
    assert_eq!(bundle.media_type, "application/octet-stream");
    let error = match snapshot_bundle_for_path("/snap".to_owned(), d.as_str(), true, Ok("f".repeat(64))) {
        Err(e) => e,
        Ok(_) => panic!("the digest differs"),
    };
    assert_eq!(error.message, "replica export digest mismatch");
    let error = match snapshot_bundle_for_path("/snap".to_owned(), d.as_str(), false, Ok(d.clone())) {
        Err(e) => e,
        Ok(_) => panic!("the directory is missing"),
    };
    assert_eq!(error.code, ErrorCode::NotFound);
    assert_eq!(error.message, "replica export is unavailable");
    assert!(snapshot_bundle_for_path("/snap".to_owned(), "short", true, Ok("short".to_owned())).is_err());
    assert!(snapshot_bundle_for_path("/snap".to_owned(), d.as_str(), true, Err(failed())).is_err());
}

#[test]
fn metadata_bundles_leave_memory_out() {
    let d = digest();
    let whole = bundle_for_digest(d.as_str(), Ok(Some("/tpl".to_owned()))).unwrap();
    let light = metadata_bundle_for_digest(d.as_str(), Ok(Some("/tpl".to_owned()))).unwrap();
    assert_eq!(whole.filename, format!("{}.vbundle", d));
    assert_eq!(light.filename, format!("{}.metadata.vbundle", d));
    assert_eq!(light.media_type, "application/x-vmon-bundle");
    assert!(is_memory_page("/tpl/memory.3.bin"));
    assert!(!is_memory_page("/tpl/vmstate.3.bin"));
    assert!(bundled(&whole, "/tpl/memory.3.bin"));
    assert!(!bundled(&light, "/tpl/memory.3.bin"));
    assert!(bundled(&light, "/tpl/vmstate.3.bin"));
    match bundle_for_digest(d.as_str(), Ok(None)) {
        Err(e) => {
            assert_eq!(e.code, ErrorCode::NotFound);
            assert_eq!(e.message, "unknown template");
        }
        Ok(_) => panic!("there is no such template"),
    }
    assert!(metadata_bundle_for_digest(d.as_str(), Err(failed())).is_err());
    assert_eq!(unknown_digest("abc").message, "unknown template digest abc");
}

#[test]
fn pages_come_from_the_current_generation() {
    assert_eq!(memory_file("/tpl", " 7\n").unwrap(), "/tpl/memory.7.bin");
    assert_eq!(memory_file("/tpl", "7a").unwrap_err().message, "template has invalid snapshot generation");
    assert_eq!(state_file("7\n"), "vmstate.7.bin");
    assert_eq!(page_offset(3), 12288);
    assert_eq!(page_offset(u64::MAX), u64::MAX);
    let found = || Ok(Some("/tpl".to_owned()));
    let memory = |len: u64, read: usize| {
        let mut bytes = vec![7; read];
        bytes[0] = 1;
        Ok(MemoryRead { len, bytes })
    };
    let seven = || Ok("7".to_owned());
    let page = page_for_digest(found(), seven(), memory(8192, 4096), 1).unwrap();
    assert_eq!((page.len(), page[0], page[4095]), (4096, 1, 7));
    assert_eq!(page_for_digest(found(), seven(), memory(8192, 5000), 0).unwrap().len(), 4096);
    let outside = page_for_digest(found(), seven(), memory(8192, 1), 9).unwrap_err();
    assert_eq!(outside.code, ErrorCode::NotFound);
    assert_eq!(outside.message, "template page 9 is outside the memory image");
    assert!(page_for_digest(found(), seven(), memory(8191, 4095), 1).is_err());
    assert!(page_for_digest(found(), seven(), memory(8192, 4095), 1).is_err());
    assert!(page_for_digest(found(), seven(), memory(u64::MAX, 4096), u64::MAX).is_err());
    assert!(page_for_digest(found(), Ok("x".to_owned()), memory(4096, 4096), 0).is_err());
    assert!(page_for_digest(Ok(None), seven(), memory(4096, 4096), 0).is_err());
    assert!(page_for_digest(found(), Err(failed()), memory(4096, 4096), 0).is_err());
    assert!(page_for_digest(found(), seven(), Err(failed()), 0).is_err());
}

#[test]
fn page_addresses_follow_the_peer() {
    let d = digest();
    assert_eq!(template_url("http://peer:1//", d.as_str(), false), format!("http://peer:1/v1/templates/{}", d));
    assert_eq!(template_url("http://peer:1", d.as_str(), true), format!("http://peer:1/v1/templates/{}/metadata", d));
    assert_eq!(
        remote_page_url("http://Peer.example:8000/", d.as_str(), None).unwrap(),
        format!("http://peer.example:8000/v1/templates/{}/pages", d)
    );
    assert_eq!(
        remote_page_url("http://peer:8000", d.as_str(), Some(IpAddr::V4(0x0a00_0001))).unwrap(),
        format!("http://10.0.0.1:8000/v1/templates/{}/pages", d)
    );
    assert_eq!(
        remote_page_url("http://peer", d.as_str(), Some(IpAddr::V6(1))).unwrap(),
        format!("http://[::1]/v1/templates/{}/pages", d)
    );
    assert_eq!(
        remote_page_url("https://peer", d.as_str(), Some(IpAddr::V4(1))).unwrap(),
        format!("https://peer/v1/templates/{}/pages", d)
    );
    assert_eq!(remote_page_url("not a url", d.as_str(), None).unwrap_err().message, "invalid peer URL");
    assert_eq!(remote_page_url("mailto:a@b", d.as_str(), None).unwrap_err().message, "invalid peer URL");
    assert!(remote_page_url("http://peer", "short", None).is_err());
    let parts = peer_address("http://peer:81/").unwrap();
    assert_eq!(page_host(&parts), Some(("peer".to_owned(), 81)));
    let parts = peer_address("https://peer").unwrap();
    assert_eq!(page_host(&parts), None);
}

#[test]
fn replica_addresses_escape_what_they_carry() {
    let d = digest();
    assert_eq!(
        replica_url("http://peer:8000/", "box 1", "a/b c", d.as_str()).unwrap(),
        format!("http://peer:8000/v1/replicas/box%201/{}?object_key=a%2Fb+c", d)
    );
    assert_eq!(
        replica_url("http://peer", "", "k", d.as_str()).unwrap_err().message,
        "replica snapshot sid is required"
    );
    assert_eq!(
        replica_url("mailto:a@b", "sid", "k", d.as_str()).unwrap_err().message,
        "peer URL cannot accept a replica path"
    );
    assert_eq!(replica_url("::", "sid", "k", d.as_str()).unwrap_err().message, "invalid peer URL");
    assert!(replica_url("http://peer", "sid", "k", "short").is_err());
}

#[test]
fn page_metadata_reads_back() {
    let d = digest();
    let kept = RemotePageMetadata::describe("http://peer:8000/", d.as_str(), None).unwrap();
    assert_eq!(kept.peer_url, "http://peer:8000");
    let again = RemotePageMetadata::parse(&kept.write()).unwrap();
    assert_eq!(again.peer_url, kept.peer_url);
    assert_eq!(again.digest, d);
    assert_eq!(again.page_url, kept.page_url);
    let written = remote_page_metadata_value("http://peer:8000/", d.as_str(), None).ok().unwrap();
    assert_eq!(written.text_at("page_url"), Some(again.page_url));
    assert!(remote_page_metadata_value("http://peer", "short", None).is_err());
    assert!(RemotePageMetadata::parse(&JsonMap::new()).is_none());
    assert!(RemotePageMetadata::describe("http://peer", "short", None).is_err());
}

#[test]
fn template_names_are_plain_components() {
    let d = digest();
    let name = |m: Json, dir: &str| template_name_from_marker(&m, dir, d.as_str());
    assert_eq!(name(marker(vec![("tpl_name", "base")]), "/x/dir"), "base");
    assert_eq!(name(marker(vec![("tpl_name", "../../etc/base")]), "/x/dir"), "base");
    assert_eq!(name(marker(vec![]), "/x/dir"), "dir");
    assert_eq!(name(marker(vec![("tpl_name", "..")]), "/x/dir"), "tpl-0123456789ab");
    assert_eq!(name(marker(vec![]), "/"), "tpl-0123456789ab");
    assert_eq!(marker_digest(&marker(vec![("content_digest", d.as_str())])), Some(d.clone()));
    assert_eq!(marker_digest(&marker(vec![("content_digest", "short")])), None);
    assert_eq!(marker_digest(&Json::Null), None);
}

#[test]
fn only_verified_trees_are_installed() {
    let d = digest();
    let m = marker(vec![("tpl_name", "base")]);
    assert_eq!(install_pulled_template("/templates", "/staged", &m, d.as_str(), Ok(d.clone())).unwrap(), "/templates/base");
    let other = || Ok("f".repeat(64));
    assert_eq!(
        install_pulled_template("/templates", "/staged", &m, d.as_str(), other()).unwrap_err().message,
        "pulled template digest mismatch"
    );
    assert_eq!(
        install_pulled_indexed("/templates", "/staged", &m, d.as_str(), other(), IndexedDigest::Checkpoint)
            .unwrap_err()
            .message,
        "pulled migration checkpoint digest mismatch"
    );
    assert!(install_pulled_template("/templates", "/staged", &m, d.as_str(), Err(failed())).is_err());
    assert!(install_pulled_snapshot("/cache", "/staged/snap", d.as_str(), Ok(d.clone())).is_ok());
    assert!(install_pulled_snapshot("/cache", "/staged/snap", d.as_str(), other()).is_err());
    assert_eq!(next_install_step(Standing::Nothing), InstallStep::Place);
    assert_eq!(next_install_step(Standing::Same), InstallStep::Reuse);
    assert_eq!(next_install_step(Standing::Other), InstallStep::Replace);
}

#[test]
fn a_lazy_stub_needs_its_state_and_root() {
    let d = digest();
    let m = marker(vec![("tpl_name", "base"), ("content_digest", d.as_str())]);
    let stub = |generation: Result<String, EngineError>, state: bool, root: bool| {
        install_lazy_template_stub("/templates", "/staged", &m, d.as_str(), generation, state, root)
    };
    assert_eq!(stub(Ok("3\n".to_owned()), true, true).unwrap(), "/templates/remote-base");
    assert!(stub(Ok("3".to_owned()), false, true).is_err());
    assert!(stub(Ok("3".to_owned()), true, false).is_err());
    assert!(stub(Err(failed()), true, true).is_err());
}

#[test]
fn an_archive_has_one_marked_root() {
    assert_eq!(extracted_template_root(true, &vec![]).unwrap(), None);
    assert_eq!(extracted_template_root(false, &vec![(true, false), (false, true), (true, true)]).unwrap(), Some(2));
    assert_eq!(
        extracted_template_root(false, &vec![(true, false)]).unwrap_err().message,
        "template archive did not contain an agent-ready marker"
    );
}

#[test]
fn an_interrupted_pull_fails() {
    assert!(pull_outcome(Ok(()), None).is_ok());
    assert_eq!(pull_outcome(Ok(()), Some(failed())).unwrap_err().message, "io failed");
    assert!(pull_outcome(Err(failed()), None).is_err());
}
