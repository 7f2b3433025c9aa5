//! Orchestration: heartbeats, placement, scaling, routes, and what a scheduler
//! answers.
use vmond::error::ErrorCode;
use vmond::json::{json_eq, Json, JsonMap};
use vmond::orch::answers::{
    annotate_all, annotate_clones, annotate_fork, annotate_list, info, locate_snapshot, merged_snapshots, mesh_status,
    no_room_for_shell, shell_sandbox, shell_target, snapshot_missing, stream_sandbox, FirstFrame, ShellFrame, ShellTarget,
    StreamKind,
};
use vmond::orch::autoscaler::{desired_workers, fleet_totals, Autoscaler, AutoscalerOptions, Plan, Ratio};
use vmond::orch::idem::{
    after_create, after_hold, await_winner, idem_key, idempotency_key, pending_marker, read_request, HoldPoll, HoldReply, HoldStep,
    HoldUpdate, WaitStep,
};
use vmond::orch::keys;
use vmond::orch::routes::{
    annotate_value, annotate_view, resolve_cached, resolve_probed, resolve_stored, value_sid, value_state, view_sid,
    view_state, watch_looks_again, Resolved,
    RouteCache, RouteTarget, StoredRoute,
};
use vmond::orch::sched::{worker_bearer, CreateLoop, CreateOutcome, CreateReply, SchedCore, SchedGrpcOptions};
use vmond::orch::server::{
    bridge_query_token, creates_since, instance_name, instance_of, require_bearer, scales_now, validate_auth,
    RequestHead, SchedulerOptions,
};
use vmond::orch::status::{batch_error, coded, create_retryable, empty_item_error, Code, Status};
use vmond::orch::table::{choose_candidate, Candidate, PlacementNeeds, TableConfig, WorkerTable};
use vmond::orch::worker::{
    live_usage, parse_linux_available_memory_mib, stored_worker_id, OrchWorker, OrchWorkerOptions,
};
use vmond::orch::{
    heartbeat_text, is_live_state, now_ms, parse_heartbeat, parse_route, read_heartbeat_text, read_route_text, route_text, write_heartbeat, write_route, Resources, SandboxRoute, WIRE_VERSION, WorkerHeartbeat,
};

const SEC: u64 = 1_000_000_000;

fn read(raw: &str) -> Json {
    Json::parse(raw).ok().unwrap()
}

fn object(raw: &str) -> JsonMap {
    match read(raw) {
        Json::Object(m) => m,
        _ => panic!("not an object"),
    }
}

fn text(items: &[&str]) -> Vec<String> {
    items.iter().map(|s| s.to_string()).collect()
}

fn base_heartbeat() -> WorkerHeartbeat {
    WorkerHeartbeat {
        ver: WIRE_VERSION,
        wid: "w1".to_owned(),
        url: "http://a:1".to_owned(),
        arch: "aarch64".to_owned(),
        backend: "hvf".to_owned(),
        seq: 10,
        ts_ms: 1_000,
        caps: Resources { vcpus: 8, mem_mib: 16_384 },
        used: Resources::default(),
        running: 0,
        accepting: true,
        draining: false,
        net_rx_bytes: None,
        net_tx_bytes: None,
    }
}

fn heartbeat(wid: &str, used_mem: u64) -> WorkerHeartbeat {
    WorkerHeartbeat {
        wid: wid.to_owned(),
        url: format!("http://{wid}:8000"),
        seq: 1,
        ts_ms: 1,
        caps: Resources { vcpus: 8, mem_mib: 8_192 },
        used: Resources { vcpus: 0, mem_mib: used_mem },
        ..base_heartbeat()
    }
}

fn table() -> WorkerTable {
    WorkerTable::new(TableConfig::from_dead_after(5 * SEC))
}

fn needs(mem_mib: u64) -> PlacementNeeds {
    PlacementNeeds { cpus: 1, mem_mib, arch: None }
}

fn on_arm(mem_mib: u64) -> PlacementNeeds {
    PlacementNeeds { cpus: 1, mem_mib, arch: Some("aarch64".to_owned()) }
}

#[test]
fn heartbeat_ordering_prefers_wall_clock_then_seq() {
    let base = base_heartbeat();
    let mut restarted = base.clone();
    restarted.seq = 1;
    restarted.ts_ms = 2_000;
    assert!(restarted.newer_than(&base));
    let mut same_tick = base.clone();
    same_tick.seq = 11;
    assert!(same_tick.newer_than(&base));
    assert!(!base.newer_than(&base));
}

#[test]
fn wire_roundtrip_and_unknown_fields_tolerated() {
    let json = r#"{"ver":1,"wid":"w","url":"http://h:1","arch":"x86_64","backend":"kvm",
        "seq":1,"ts_ms":5,"caps":{"vcpus":1,"mem_mib":2},"used":{"vcpus":0,"mem_mib":0},
        "running":0,"accepting":true,"draining":false,
        "sbs":[{"sid":"sb-legacy","state":"running"}],"future_field":42}"#;
    let heartbeat = read_heartbeat_text(json).unwrap();
    assert_eq!(heartbeat.wid, "w");
    assert!(read_heartbeat_text("[]").is_none());
    assert!(read_heartbeat_text("{").is_none());
    let route = SandboxRoute {
        sid: "sb-1".to_owned(),
        wid: "w".to_owned(),
        url: "http://h:1".to_owned(),
        state: "running".to_owned(),
        ts_ms: 5,
        result: None,
    };
    let encoded = route_text(&route);
    assert!(!encoded.contains("result"));
    assert!(!write_route(&route).contains_key("result"));
    assert!(parse_route(&write_route(&route)).is_some());
    assert!(read_route_text("7").is_none());
    let decoded = read_route_text(&encoded).unwrap();
    assert_eq!(
        (decoded.sid, decoded.wid, decoded.url, decoded.state, decoded.ts_ms, decoded.result),
        (route.sid, route.wid, route.url, route.state, route.ts_ms, route.result)
    );
}

#[test]
fn heartbeats_are_written_and_refused() {
    let mut beat = base_heartbeat();
    beat.net_rx_bytes = Some(7);
    let written = write_heartbeat(&beat);
    assert!(json_eq(written.get("net_tx_bytes").unwrap(), &Json::Null));
    assert_eq!(read_heartbeat_text(&heartbeat_text(&beat)).unwrap().net_rx_bytes, Some(7));
    let back = parse_heartbeat(&written).unwrap();
    assert_eq!((back.wid, back.seq, back.caps, back.net_rx_bytes), (beat.wid, beat.seq, beat.caps, Some(7)));
    let mut broken = write_heartbeat(&base_heartbeat());
    broken.insert("running".to_owned(), Json::Str("many".to_owned()));
    assert!(parse_heartbeat(&broken).is_none());
    let mut broken = write_heartbeat(&base_heartbeat());
    broken.insert("ver".to_owned(), Json::Int(1 << 32));
    assert!(parse_heartbeat(&broken).is_none());
    let mut route = object(r#"{"sid":"s","wid":"w","url":"u","state":"stopped","ts_ms":1,"result":-9}"#);
    assert_eq!(parse_route(&route).unwrap().result, Some(-9));
    route.remove("state");
    assert!(parse_route(&route).is_none());
}

#[test]
fn keys_and_states() {
    assert_eq!(keys::worker("a"), "vmon:o:w:a");
    assert_eq!(keys::sandbox("a"), "vmon:o:sb:a");
    assert_eq!(keys::drain("a"), "vmon:o:drain:a");
    assert!(is_live_state("running") && is_live_state("paused"));
    assert!(!is_live_state("suspended") && !is_live_state("stopped"));
    assert_eq!(now_ms(Some(1 << 64)), 0);
    assert_eq!(now_ms(Some(12)), 12);
    assert_eq!(now_ms(None), 0);
}

#[test]
fn needs_parse_defaults_and_overrides() {
    let defaults = PlacementNeeds::from_create_json(&read("{}"));
    assert_eq!((defaults.cpus, defaults.mem_mib, defaults.arch), (1, 512, None));
    let explicit = PlacementNeeds::from_create_json(&read(
        r#"{"cpus": 4, "memory": 2048, "arch": "x86_64", "image": "ubuntu"}"#,
    ));
    assert_eq!((explicit.cpus, explicit.mem_mib, explicit.arch), (4, 2048, Some("x86_64".to_owned())));
    let odd = PlacementNeeds::from_create_json(&read(r#"{"cpus": 0, "memory": -1, "arch": "  "}"#));
    assert_eq!((odd.cpus, odd.mem_mib, odd.arch), (1, 512, None));
    let none = PlacementNeeds::from_create_json(&Json::Null);
    assert_eq!((none.cpus, none.mem_mib), (1, 512));
}

#[test]
fn pick_filters_capacity_arch_drain_and_exclusions() {
    let mut table = table();
    table.upsert(heartbeat("full", 8_192), 0);
    let mut draining = heartbeat("draining", 0);
    draining.draining = true;
    table.upsert(draining, 0);
    let mut wrong_arch = heartbeat("intel", 0);
    wrong_arch.arch = "x86_64".to_owned();
    table.upsert(wrong_arch, 0);
    table.upsert(heartbeat("free", 0), 0);

    for _attempt in 0..64 {
        let placement = table.pick(0, &on_arm(512), &Vec::new()).expect("one eligible worker");
        assert_eq!(placement.wid, "free");
        table.release(placement);
    }
    assert!(table.pick(0, &on_arm(512), &text(&["free"])).is_none());
    assert!(table.pick(0, &needs(16_384), &Vec::new()).is_none());
}

#[test]
fn inflight_reservations_gate_and_release() {
    let mut table = table();
    table.upsert(heartbeat("only", 0), 0);
    let first = table.pick(0, &needs(5_000), &Vec::new()).expect("first fits");
    assert!(table.pick(0, &needs(5_000), &Vec::new()).is_none());
    table.release(first);
    assert!(table.pick(0, &needs(5_000), &Vec::new()).is_some());
}

#[test]
fn po2_prefers_less_loaded_and_penalties_stick() {
    let mut table = table();
    table.upsert(heartbeat("busy", 7_000), 0);
    table.upsert(heartbeat("idle", 0), 0);
    let mut idle_wins = 0;
    for _attempt in 0..64 {
        let placement = table.pick(0, &needs(256), &Vec::new()).expect("either fits");
        if placement.wid == "idle" {
            idle_wins += 1;
        }
        table.release(placement);
    }
    assert!(idle_wins > 32, "idle worker won only {idle_wins}/64 draws");

    table.penalize("idle", 0, 60 * SEC);
    for _attempt in 0..16 {
        let placement = table.pick(0, &needs(256), &Vec::new()).expect("busy still fits");
        assert_eq!(placement.wid, "busy");
        table.release(placement);
    }
}

#[test]
fn stale_heartbeats_do_not_roll_back_and_reap_forgets() {
    let ms = 1_000_000;
    let mut table = WorkerTable::new(TableConfig { dead_after: 10 * ms, reap_after: 10 * ms });
    let mut fresh = heartbeat("w", 1_000);
    fresh.ts_ms = 10;
    table.upsert(fresh, 0);
    let mut stale = heartbeat("w", 0);
    stale.ts_ms = 5;
    table.upsert(stale, 0);
    assert_eq!(table.live(0)[0].used.mem_mib, 1_000);
    assert_eq!(table.url_of("w").unwrap(), "http://w:8000");
    assert!(table.url_of("x").is_none());

    assert!(table.live(30 * ms).is_empty());
    let reaped = table.reap(30 * ms);
    assert_eq!(reaped.len(), 1);
    assert_eq!(reaped[0].wid, "w");
    assert!(table.is_empty());
}

#[test]
fn heartbeats_of_other_versions_are_skipped() {
    let mut table = table();
    let mut other = heartbeat("w", 0);
    other.ver = 2;
    table.upsert(other, 0);
    assert_eq!(table.len(), 0);
    assert_eq!(TableConfig::from_dead_after(7).reap_after, 21);
}

#[test]
fn draws_lead_to_the_lighter_worker() {
    let weigh = |wid: &str, reserved: u64| Candidate { wid: wid.to_owned(), reserved, caps: 10 };
    let list = vec![weigh("a", 9), weigh("b", 1), weigh("c", 1)];
    assert_eq!(choose_candidate(&list, 0, 1), 1);
    assert_eq!(choose_candidate(&list, 1, 3), 1);
    assert_eq!(choose_candidate(&list, 2, 1), 2);
    assert_eq!(choose_candidate(&list, 3, 6), 0);
    assert_eq!(choose_candidate(&vec![weigh("a", 9)], 5, 7), 0);
}

#[test]
fn a_forgotten_worker_does_not_get_reservations_back() {
    let mut table = table();
    table.upsert(heartbeat("w", 0), 0);
    let old = table.pick(0, &needs(5_000), &Vec::new()).unwrap();
    assert_eq!(table.reap(100 * SEC).len(), 1);
    table.upsert(heartbeat("w", 0), 100 * SEC);
    let fresh = table.pick(100 * SEC, &needs(5_000), &Vec::new()).unwrap();
    table.release(old);
    assert!(table.pick(100 * SEC, &needs(5_000), &Vec::new()).is_none());
    table.release(fresh);
    assert!(table.pick(100 * SEC, &needs(5_000), &Vec::new()).is_some());
}

fn options(min: u64, max: u64) -> AutoscalerOptions {
    AutoscalerOptions { min, max, ..AutoscalerOptions::default() }
}

fn beat(wid: &str, used_mem: u64, running: u64) -> WorkerHeartbeat {
    WorkerHeartbeat { running, caps: Resources { vcpus: 8, mem_mib: 1_000 }, ..heartbeat(wid, used_mem) }
}

#[test]
fn desired_workers_math() {
    assert_eq!(desired_workers(0, 0, 0, &options(2, 10)), 2);
    assert_eq!(desired_workers(0, 0, 0, &options(0, 10)), 1);
    assert_eq!(desired_workers(3, 500, 0, &options(0, 2)), 1);
    assert_eq!(desired_workers(4, 1_000, 10_000, &options(1, 10)), 1);
    assert_eq!(desired_workers(2, 9_000, 10_000, &options(1, 10)), 3);
    assert_eq!(desired_workers(2, 9_000, 10_000, &options(1, 2)), 2);
    assert_eq!(desired_workers(4, 0, 4_000, &options(3, 10)), 3);
    assert_eq!(desired_workers(2, 0, 2_000, &options(0, 10)), 0);
}

#[test]
fn desired_workers_at_the_limits() {
    assert_eq!(desired_workers(usize::MAX, u64::MAX, 1, &options(0, u64::MAX)), u64::MAX);
    assert_eq!(desired_workers(7, 1, 10, &options(0, 10)), 1);
    let odd = AutoscalerOptions { target_util: Ratio { num: 0, den: 1 }, ..options(0, 10) };
    assert_eq!(desired_workers(2, 9_000, 10_000, &odd), 3);
    let full = AutoscalerOptions { target_util: Ratio { num: 1, den: 1 }, ..options(0, 10) };
    assert_eq!(desired_workers(2, 9_000, 10_000, &full), 2);
    let third = AutoscalerOptions { target_util: Ratio { num: 1, den: 3 }, ..options(0, 10) };
    assert_eq!(desired_workers(1, 1_000, 1_000, &third), 3);
    let tiny = AutoscalerOptions { target_util: Ratio { num: 1, den: u64::MAX }, ..options(0, 10) };
    assert_eq!(desired_workers(1, 1, 1_000, &tiny), 10);
    assert_eq!(desired_workers(1, 0, 1_000, &tiny), 0);
    let near = AutoscalerOptions {
        target_util: Ratio { num: u64::MAX - 1, den: u64::MAX },
        ..options(0, u64::MAX)
    };
    assert_eq!(desired_workers(usize::MAX, u64::MAX, u64::MAX, &near), u64::MAX);
    assert_eq!(desired_workers(2, 1_000, 1_000, &near), 3);
    assert!(fleet_totals(&vec![beat("a", u64::MAX, 0), beat("b", 1, 0)]).is_none());
}

#[test]
fn plan_latches_up_cooldown() {
    let fleet = vec![beat("a", 900, 1), beat("b", 900, 1)];
    let mut scaler = Autoscaler::new(options(1, 10));
    let now = 1_000 * SEC;
    assert!(matches!(scaler.plan(&fleet, now), Plan::Up { desired: 3, delta: 1 }));
    assert!(matches!(scaler.tick(&fleet, now - SEC).plan, Plan::Up { .. }));
    assert!(matches!(scaler.plan(&fleet, now), Plan::Hold));
    assert!(matches!(scaler.plan(&fleet, now + 30 * SEC), Plan::Up { desired: 3, delta: 1 }));
    assert!(matches!(Autoscaler::new(options(0, 0)).plan(&fleet, now), Plan::Hold));
}

#[test]
fn plan_drains_again_what_is_being_drained() {
    let drained = WorkerHeartbeat { draining: true, ..beat("b", 100, 3) };
    let fleet = vec![beat("a", 100, 0), drained];
    match Autoscaler::new(options(1, 10)).plan(&fleet, 1_000 * SEC) {
        Plan::Down { desired, drain } => {
            assert_eq!(desired, 1);
            assert_eq!(drain, text(&["b"]));
        },
        _ => panic!("expected a Down plan"),
    }
    let two = vec![
        beat("c", 100, 0),
        WorkerHeartbeat { draining: true, ..beat("d", 100, 9) },
        beat("a", 100, 4),
        WorkerHeartbeat { draining: true, ..beat("b", 100, 3) },
    ];
    match Autoscaler::new(options(1, 10)).plan(&two, 1_000 * SEC) {
        Plan::Down { desired, drain } => {
            assert_eq!(desired, 1);
            assert_eq!(drain, text(&["b", "d", "c"]));
        },
        _ => panic!("expected a Down plan"),
    }
}

#[test]
fn plan_drains_emptiest_and_latches_down_cooldown() {
    let fleet = vec![beat("busy", 300, 5), beat("idle", 300, 0), beat("mid", 300, 2), beat("low", 300, 1)];
    let mut scaler = Autoscaler::new(options(1, 10));
    let now = 1_000 * SEC;
    match scaler.plan(&fleet, now) {
        Plan::Down { desired, drain } => {
            assert_eq!(desired, 2);
            assert_eq!(drain, text(&["idle", "low"]));
        },
        _ => panic!("expected a Down plan"),
    }
    assert!(matches!(scaler.tick(&fleet, now - 60 * SEC).plan, Plan::Down { .. }));
    assert!(matches!(scaler.plan(&fleet, now), Plan::Hold));
    assert!(matches!(scaler.plan(&fleet, now + 241 * SEC), Plan::Down { .. }));
}

#[test]
fn tick_down_sets_drain_keys_and_env_contract() {
    let fleet = vec![beat("full", 0, 3), beat("one", 0, 1), beat("zero", 0, 0)];
    let mut opts = options(1, 10);
    opts.scale_down_cmd = Some("hook".to_owned());
    opts.drain_ttl = 5;
    let mut scaler = Autoscaler::new(opts);
    let tick = scaler.tick(&fleet, 1_000 * SEC);
    let hook = tick.hook.unwrap();
    assert_eq!(
        format!(
            "{} {} {} {}|{}",
            hook.desired,
            hook.delta,
            hook.live,
            hook.drain_wids.unwrap(),
            hook.idle_wids.unwrap()
        ),
        "1 -2 3 zero one|zero"
    );
    assert_eq!(tick.drain_keys, vec![keys::drain("zero"), keys::drain("one")]);
    assert_eq!(tick.drain_ttl_ms, 1);
    assert!(matches!(scaler.plan(&fleet, 1_001 * SEC), Plan::Hold));
    let mut up = options(1, 10);
    up.scale_up_cmd = Some("grow".to_owned());
    let hook = Autoscaler::new(up).tick(&vec![beat("a", 900, 1), beat("b", 900, 1)], 0).hook.unwrap();
    assert_eq!((hook.cmd, hook.desired, hook.delta, hook.live), ("grow".into(), "3".into(), "1".into(), "2".into()));
    assert!(hook.drain_wids.is_none());
}

fn worker(max_sandboxes: u64) -> OrchWorker {
    OrchWorker::new(worker_options(max_sandboxes, 0))
}

fn worker_options(max_sandboxes: u64, memory_reserve_mib: u64) -> OrchWorkerOptions {
    OrchWorkerOptions {
        redis_url: "redis://127.0.0.1:1".to_owned(),
        wid: "w1".to_owned(),
        url: "http://worker:8000".to_owned(),
        arch: "aarch64".to_owned(),
        backend: "hvf".to_owned(),
        caps: Resources { vcpus: 8, mem_mib: 16_384 },
        heartbeat: 10_000_000,
        dead_after: 250_000_000,
        max_sandboxes,
        memory_reserve_mib,
    }
}

fn view(sid: &str, status: &str, cpus: u64, memory: u64) -> Json {
    read(&format!(
        r#"{{"id":"{sid}","name":"{sid}","status":"{status}","cpus":{cpus},"memory":{memory}}}"#
    ))
}

#[test]
fn build_heartbeat_counts_live_views_and_flips_accepting() {
    let mut unbounded = worker(0);
    let views = || {
        vec![
            view("sb-a", "running", 2, 1024),
            view("sb-b", "paused", 1, 512),
            view("sb-c", "stopped", 4, 4096),
        ]
    };
    let heartbeat = unbounded.build_heartbeat(&views(), Some(8192), 77, Some((5, 6)));
    assert_eq!(heartbeat.running, 2);
    assert_eq!(heartbeat.used, Resources { vcpus: 3, mem_mib: 8192 });
    assert_eq!(heartbeat.caps, Resources { vcpus: 8, mem_mib: 16_384 });
    assert!(heartbeat.accepting);
    assert!(!heartbeat.draining);
    assert_eq!(heartbeat.ts_ms, 77);
    assert_eq!((heartbeat.net_rx_bytes, heartbeat.net_tx_bytes), (Some(5), Some(6)));
    let next = unbounded.build_heartbeat(&views(), Some(8192), 78, None);
    assert_eq!(next.seq, heartbeat.seq + 1);
    assert!(!unbounded.build_heartbeat(&views(), None, 79, None).accepting);

    let mut bounded = worker(2);
    assert!(!bounded.build_heartbeat(&views(), Some(8192), 0, None).accepting);
    let two: Vec<Json> = views().into_iter().skip(1).collect();
    assert!(bounded.build_heartbeat(&two, Some(8192), 0, None).accepting);
    assert!(live_usage(&vec![view("a", "running", u64::MAX, 0), view("b", "running", 1, 0)]).is_none());
}

#[test]
fn admission_uses_memory_headroom_and_optional_count_ceiling() {
    let mut memory_bound = worker(0);
    let mut guards = Vec::new();
    for _ in 0..32 {
        guards.push(memory_bound.admit_with_available(32_768).expect("ample headroom"));
    }
    assert_eq!(memory_bound.inflight(), 32);
    for guard in guards {
        memory_bound.leave(guard);
    }
    assert_eq!(memory_bound.inflight(), 0);

    let mut reserved = OrchWorker::new(worker_options(0, 16_384));
    let rejected = reserved.admit_with_available(16_384).expect_err("at the reserve");
    assert_eq!(rejected.code, ErrorCode::Busy);
    assert_eq!(
        rejected.message,
        "worker memory reserve reached (16384 MiB available, 16384 MiB reserved)"
    );
    assert_eq!(reserved.inflight(), 0);
    reserved.admit_with_available(16_385).expect("one MiB above the reserve");

    let mut bounded = worker(2);
    let first = bounded.admit_with_available(u64::MAX).expect("first slot");
    bounded.admit_with_available(u64::MAX).expect("second slot");
    let rejected = bounded.admit_with_available(u64::MAX).expect_err("hard ceiling");
    assert_eq!(rejected.code, ErrorCode::Busy);
    assert_eq!(rejected.message, "worker at capacity (2 sandboxes)");
    bounded.leave(first);
    bounded.admit_with_available(u64::MAX).expect("slot freed");
    bounded.set_draining(true);
    let drained = bounded.admit_with_available(u64::MAX).expect_err("draining");
    assert_eq!(drained.code, ErrorCode::Busy);
    assert_eq!(drained.message, "worker is draining");
    let reporting = worker(0);
    assert_eq!(reporting.redis_url(), "redis://127.0.0.1:1");
    assert_eq!((reporting.heartbeat(), reporting.key_lifetime_ms()), (10_000_000, 250));
    let unknown = worker(0).admit_create(Err("no meminfo".to_owned())).expect_err("unknown memory");
    assert_eq!(unknown.message, "worker memory headroom unavailable: no meminfo");
}

#[test]
fn linux_available_memory_uses_memavailable() {
    let meminfo = "MemTotal:       131072000 kB\nMemFree: 1024 kB\nMemAvailable:   33554432 kB\n";
    assert_eq!(parse_linux_available_memory_mib(meminfo), Some(32_768));
    assert_eq!(parse_linux_available_memory_mib("MemFree: 12 kB\n"), None);
    assert_eq!(parse_linux_available_memory_mib("MemAvailable: x\nMemAvailable: 2048 kB"), Some(2));
}

#[test]
fn publish_and_flush_write_worker_key_and_routes_only_on_change() {
    let mut worker = worker(0);
    let views = vec![view("sb-a", "running", 1, 256)];
    assert!(worker.enqueue_route_changes(&views));
    let routes = worker.drain_batch(5);
    assert_eq!(routes.len(), 1);
    assert_eq!((routes[0].wid.as_str(), routes[0].state.as_str(), routes[0].result), ("w1", "running", None));
    assert!(!worker.enqueue_route_changes(&views));
    assert!(worker.drain_batch(6).is_empty());

    let mut stopped = object(r#"{"id":"sb-a","name":"sb-a","status":"stopped","cpus":1,"memory":256}"#);
    stopped.insert("returncode".to_owned(), Json::Int(0));
    assert!(worker.enqueue_route_changes(&vec![Json::Object(stopped)]));
    let routes = worker.drain_batch(7);
    assert_eq!((routes[0].state.as_str(), routes[0].result, routes[0].ts_ms), ("stopped", Some(0), 7));

    assert!(worker.enqueue_route_changes(&Vec::new()));
    let routes = worker.drain_batch(8);
    assert_eq!(routes.len(), 1);
    assert_eq!((routes[0].state.as_str(), routes[0].result), ("terminated", Some(0)));
    assert!(!worker.enqueue_route_changes(&Vec::new()));
    assert!(worker.drain_batch(9).is_empty());
}

#[test]
fn route_queue_coalesces_latest_state_per_sandbox() {
    let mut worker = worker(0);
    worker.enqueue_route_changes(&vec![view("sb-a", "running", 1, 256)]);
    let mut stopped = object(r#"{"id":"sb-a","name":"sb-a","status":"stopped"}"#);
    stopped.insert("returncode".to_owned(), Json::Int(7));
    worker.enqueue_route_changes(&vec![Json::Object(stopped)]);
    assert_eq!(worker.queued(), 1);
    let routes = worker.drain_batch(1);
    assert_eq!((routes[0].state.as_str(), routes[0].result), ("stopped", Some(7)));
    assert_eq!(worker.queued(), 0);
}

#[test]
fn routes_that_could_not_be_written_come_back() {
    let mut worker = worker(0);
    worker.enqueue_route_changes(&vec![view("a", "running", 1, 1), view("b", "running", 1, 1)]);
    let failed = worker.drain_batch(1);
    assert_eq!(worker.queued(), 0);
    worker.enqueue_route_changes(&vec![view("a", "paused", 1, 1), view("b", "running", 1, 1)]);
    worker.requeue(&failed);
    let mut states: Vec<(String, String)> =
        worker.drain_batch(2).into_iter().map(|r| (r.sid, r.state)).collect();
    states.sort();
    assert_eq!(states, vec![("a".into(), "paused".into()), ("b".into(), "running".into())]);
    let many: Vec<Json> = (0..600).map(|i| view(&format!("s{i}"), "running", 1, 1)).collect();
    worker.enqueue_route_changes(&many);
    assert_eq!(worker.drain_batch(3).len(), 512);
    assert_eq!(worker.wid(), "w1");
    assert_eq!(worker.url(), "http://worker:8000");
}

#[test]
fn drain_key_stops_admission_via_publish() {
    let mut worker = worker(0);
    worker.set_draining(true);
    let heartbeat = worker.build_heartbeat(&Vec::new(), Some(8192), 1, None);
    assert!(heartbeat.draining);
    assert!(!heartbeat.accepting);
    let rejected = worker.admit_create(Ok(8192)).expect_err("draining worker must reject");
    assert_eq!(rejected.code, ErrorCode::Busy);
}

#[test]
fn worker_names_are_kept() {
    assert_eq!(stored_worker_id(Some(&" id-1\n".to_owned())).unwrap(), "id-1");
    assert!(stored_worker_id(Some(&"\n".to_owned())).is_none());
    assert!(stored_worker_id(None).is_none());
}

#[test]
fn annotates_views_and_extracts_identity() {
    let raw = r#"{"name":"sb-1","status":"running","cpus":2}"#;
    let annotated = annotate_view(raw, "w1", "http://worker:8000");
    let view: serde_json::Value = serde_json::from_str(&annotated).expect("annotated json");
    assert_eq!(view["node"], "w1");
    assert_eq!(view["endpoint"], "http://worker:8000");
    assert_eq!(view["cpus"], 2, "original fields must survive");
    assert_eq!(view_sid(&annotated).as_deref(), Some("sb-1"));
    assert_eq!(view_state(&annotated), "running");
    assert_eq!(annotate_view("not-json", "w", "u"), "not-json");
    assert_eq!(annotate_view("[1]", "w", "u"), "[1]");
    assert!(view_sid(r#"{"name":1,"id":"x"}"#).is_none());
    assert_eq!(view_sid(r#"{"id":"x"}"#).as_deref(), Some("x"));
    assert!(view_sid("not-json").is_none());
    assert_eq!(view_state("not-json"), "running");
    let value = annotate_value(read(raw), &RouteTarget { wid: "w".to_owned(), url: "u".to_owned() });
    assert_eq!(value_sid(&value).as_deref(), Some("sb-1"));
    assert_eq!(value_state(&value), "running");
}

#[test]
fn retryable_create_codes_match_admission_contract() {
    assert!(create_retryable(Code::Aborted));
    assert!(create_retryable(Code::Unavailable));
    assert!(create_retryable(Code::DeadlineExceeded));
    assert!(!create_retryable(Code::InvalidArgument));
    assert!(!create_retryable(Code::NotFound));
}

#[test]
fn scheduler_statuses_carry_stable_codes() {
    let status = coded(Code::Aborted, "busy", true, "no capacity".to_owned());
    assert_eq!(status.code, Code::Aborted);
    assert_eq!(status.vmon_code.as_deref(), Some("busy"));
    assert_eq!(status.retryable, Some(true));
}

fn bare(code: Code, message: &str) -> Status {
    Status { code, message: message.to_owned(), vmon_code: None, retryable: None }
}

#[test]
fn batch_errors_carry_stable_codes() {
    let busy = batch_error(&coded(Code::Aborted, "busy", true, "no capacity".to_owned()));
    assert_eq!(busy.code, "busy");
    assert_eq!(busy.message, "no capacity");
    let untold = batch_error(&bare(Code::Aborted, "worker at capacity"));
    assert_eq!(untold.code, "busy");
    let invalid = batch_error(&bare(Code::InvalidArgument, "bad spec"));
    assert_eq!(invalid.code, "invalid");
    assert_eq!(batch_error(&bare(Code::Internal, "x")).code, "engine_error");
    assert_eq!(batch_error(&bare(Code::NotFound, "x")).code, "not_found");
    assert_eq!(batch_error(&bare(Code::DeadlineExceeded, "x")).code, "deadline");
    assert_eq!(empty_item_error().message, "batch item carries no create payload");
}

#[test]
fn admitted_views_report_starting_state() {
    assert_eq!(view_state(r#"{"name":"sb-1","status":"starting"}"#), "starting");
    assert_eq!(view_state(r#"{"name":"sb-1"}"#), "running");
}

#[test]
fn sandboxes_are_resolved_step_by_step() {
    let mut cache = RouteCache::new();
    let mut workers = table();
    workers.upsert(heartbeat("w", 0), 0);
    assert!(matches!(resolve_cached(&cache, &workers, ""), Resolved::Failed(s) if s.message == "sandbox id is required"));
    assert!(matches!(resolve_cached(&cache, &workers, "sb"), Resolved::LookUp));
    let route = |state: &str| SandboxRoute {
        sid: "sb".to_owned(),
        wid: "w".to_owned(),
        url: "http://old".to_owned(),
        state: state.to_owned(),
        ts_ms: 0,
        result: None,
    };
    assert!(matches!(
        resolve_stored(&mut cache, &workers, "sb", StoredRoute::Found(route("lost"))),
        Resolved::Failed(s) if s.message == "sandbox sb was lost with worker w" && s.code == Code::NotFound
    ));
    assert!(matches!(resolve_stored(&mut cache, &workers, "sb", StoredRoute::Missing), Resolved::Probe));
    assert!(matches!(
        resolve_stored(&mut cache, &workers, "sb", StoredRoute::Found(route("running"))),
        Resolved::Owner(t) if t.url == "http://w:8000"
    ));
    assert!(matches!(resolve_cached(&cache, &workers, "sb"), Resolved::Owner(t) if t.wid == "w"));
    cache.drop_route("sb");
    assert_eq!(resolve_probed(&mut cache, "sb", None).unwrap_err().message, "sandbox sb not found");
    let hit = RouteTarget { wid: "x".to_owned(), url: "http://x".to_owned() };
    assert_eq!(resolve_probed(&mut cache, "sb", Some(hit)).unwrap().wid, "x");
    assert_eq!(cache.get("sb").unwrap().url, "http://x");
    assert!(watch_looks_again(true, Some(Code::NotFound), false));
    assert!(!watch_looks_again(false, Some(Code::NotFound), false));
    assert!(!watch_looks_again(true, Some(Code::NotFound), true));
    assert!(!watch_looks_again(true, None, false));
}

#[test]
fn a_create_goes_from_worker_to_worker() {
    let mut core = SchedCore { table: table(), cache: RouteCache::new(), created: 0 };
    core.table.upsert(heartbeat("a", 0), 0);
    core.table.upsert(heartbeat("b", 0), 0);
    let mut create = CreateLoop::new(on_arm(512), 3);
    let first = create.next_worker(&mut core.table, 0).unwrap();
    let busy = coded(Code::Aborted, "busy", true, "full".to_owned());
    assert!(matches!(create.settle(&mut core, CreateReply::Refused(busy), 0), CreateOutcome::Again));
    let second = create.next_worker(&mut core.table, 0).unwrap();
    assert_ne!(first.wid, second.wid);
    let view = r#"{"name":"sb-1","status":"starting"}"#.to_owned();
    match create.settle(&mut core, CreateReply::Created(view), 0) {
        CreateOutcome::Created { view, route } => {
            assert_eq!(route, Some(("sb-1".to_owned(), "starting".to_owned())));
            assert_eq!(object(&view).text_at("node").unwrap(), second.wid);
        },
        _ => panic!("the second worker takes it"),
    }
    assert_eq!(core.created, 1);
    assert_eq!(core.cache.get("sb-1").unwrap().wid, second.wid);

    let mut create = CreateLoop::new(on_arm(512), 3);
    create.next_worker(&mut core.table, 10 * SEC);
    let mut create = CreateLoop::new(on_arm(512), 0);
    let target = create.next_worker(&mut core.table, 5 * SEC).unwrap();
    assert!(matches!(create.settle(&mut core, CreateReply::TimedOut, 5 * SEC), CreateOutcome::Again));
    assert!(create.next_worker(&mut core.table, 5 * SEC).is_none());
    let status = create.give_up(2);
    assert_eq!(status.message, format!("create on worker {} timed out", target.wid));
    assert_eq!(status.code, Code::DeadlineExceeded);
}

#[test]
fn a_create_without_workers_is_told_so() {
    let mut core = SchedCore { table: table(), cache: RouteCache::new(), created: 0 };
    let mut create = CreateLoop::new(on_arm(512), 3);
    assert!(create.next_worker(&mut core.table, 0).is_none());
    let status = create.give_up(0);
    assert_eq!(
        status.message,
        "no worker with capacity for 512 MiB (arch Some(\"aarch64\")); 0 live workers"
    );
    let mut create = CreateLoop::new(needs(1), 3);
    core.table.upsert(heartbeat("a", 0), 0);
    create.next_worker(&mut core.table, 0).unwrap();
    let invalid = bare(Code::InvalidArgument, "bad spec");
    assert!(matches!(
        create.settle(&mut core, CreateReply::Refused(invalid), 0),
        CreateOutcome::Failed(s) if s.message == "bad spec"
    ));
    create.next_worker(&mut core.table, 0).unwrap();
    let unreachable = bare(Code::Unavailable, "invalid worker URL");
    assert!(matches!(
        create.settle(&mut core, CreateReply::NoChannel(unreachable), 0),
        CreateOutcome::Failed(s) if s.message == "invalid worker URL"
    ));
    assert!(CreateLoop::new(needs(1), 0).give_up(1).message.contains("(arch None); 1 live workers"));
}

#[test]
fn worker_tokens_have_to_be_metadata() {
    let with = |token: &str| SchedGrpcOptions { worker_token: Some(token.to_owned()), ..SchedGrpcOptions::default() };
    assert_eq!(worker_bearer(&with("t0ken")).unwrap().unwrap(), "Bearer t0ken");
    assert_eq!(worker_bearer(&with("a\nb")).unwrap_err().message, "worker token is not valid metadata");
    assert!(worker_bearer(&with("tab\there")).is_ok());
    assert!(worker_bearer(&with("\u{7f}")).is_err());
    assert!(worker_bearer(&with("\u{e9}")).is_ok());
    assert!(worker_bearer(&SchedGrpcOptions::default()).unwrap().is_none());
    assert_eq!(SchedGrpcOptions::default().create_retries, 3);
}

#[test]
fn idempotent_creates_have_one_winner() {
    assert_eq!(idem_key("k"), "vmon:o:idem:k");
    assert_eq!(idempotency_key(&read(r#"{"idempotency_key":"k"}"#)).unwrap(), "k");
    assert!(idempotency_key(&read(r#"{"idempotency_key":""}"#)).is_none());
    let (needs, key) = read_request(r#"{"cpus":2,"memory":64,"idempotency_key":"k"}"#).ok().unwrap();
    assert_eq!((needs.cpus, needs.mem_mib), (2, 64));
    assert_eq!(key.as_deref(), Some("k"));
    match read_request("{") {
        Err(status) => assert_eq!(status.message, "invalid create spec JSON"),
        Ok(_) => panic!("the request is malformed"),
    }
    assert_eq!(after_hold(false, HoldReply::Taken), HoldStep::CreateFreely);
    assert_eq!(after_hold(true, HoldReply::Taken), HoldStep::CreateAsWinner);
    assert_eq!(after_hold(true, HoldReply::HeldElsewhere), HoldStep::AwaitWinner);
    assert_eq!(after_hold(true, HoldReply::Unavailable), HoldStep::CreateFreely);
    let recorded = match after_create(Some(r#"{"name":"sb"}"#)) {
        HoldUpdate::Record(text) => text,
        _ => panic!("the winner is recorded"),
    };
    assert_eq!(recorded, "sid:sb");
    assert!(matches!(after_create(None), HoldUpdate::Release));
    assert!(matches!(after_create(Some("null")), HoldUpdate::Keep));
    assert!(matches!(await_winner(HoldPoll::Value(recorded), true), WaitStep::Fetch(s) if s == "sb"));
    let pending = || HoldPoll::Value(pending_marker("sched-1"));
    assert!(matches!(await_winner(pending(), false), WaitStep::Sleep));
    assert!(matches!(
        await_winner(pending(), true),
        WaitStep::Fail(s) if s.message == "idempotent create still in progress elsewhere"
    ));
    assert!(matches!(
        await_winner(HoldPoll::Absent, false),
        WaitStep::Fail(s) if s.message == "idempotent create released by another scheduler; retry"
    ));
    assert!(matches!(await_winner(HoldPoll::Unavailable, false), WaitStep::Sleep));
}

#[test]
fn answers_are_merged_and_routed() {
    let merged = merged_snapshots(&vec![text(&["b", "a"]), Vec::new(), text(&["c", "a"])]);
    assert_eq!(merged, text(&["a", "b", "c"]));
    let answers = vec![None, Some(text(&["x"])), Some(text(&["s", "x"]))];
    assert_eq!(locate_snapshot("s", &answers), Some(2));
    assert_eq!(locate_snapshot("x", &answers), Some(1));
    assert_eq!(locate_snapshot("y", &answers), None);
    assert_eq!(snapshot_missing("y").message, "snapshot y not found on any live worker");

    let target = RouteTarget { wid: "w".to_owned(), url: "u".to_owned() };
    let (views, routes) = annotate_all(&vec![read(r#"{"id":"a"}"#), Json::Int(3)], &target);
    assert_eq!(views[0].as_object().unwrap().text_at("endpoint").unwrap(), "u");
    assert!(json_eq(&views[1], &Json::Int(3)));
    assert_eq!(routes, vec![("a".to_owned(), "running".to_owned())]);
    let body = object(r#"{"clones":[{"name":"c1","status":"starting"},7],"other":1}"#);
    let (body, routes) = annotate_clones(body, &target);
    assert_eq!(routes, vec![("c1".to_owned(), "starting".to_owned())]);
    assert!(body.contains_key("other"));
    let (plain, routes) = annotate_clones(object(r#"{"clones":"none"}"#), &target);
    assert_eq!(plain.text_at("clones").unwrap(), "none");
    assert!(routes.is_empty());

    let (forked, routes) = annotate_fork(r#"{"clones":[{"id":"c2"}]}"#, &target);
    assert_eq!(forked, r#"{"clones":[{"endpoint":"u","id":"c2","node":"w"}]}"#);
    assert_eq!(routes, vec![("c2".to_owned(), "running".to_owned())]);
    let (odd, routes) = annotate_fork("7", &target);
    assert_eq!(odd, "7");
    assert!(routes.is_empty());
    let listed = annotate_list(&text(&[r#"{"id":"a"}"#, "?"]), &target);
    assert_eq!(listed, text(&[r#"{"endpoint":"u","id":"a","node":"w"}"#, "?"]));

    let live = vec![beat("a", 100, 1), beat("b", 200, 2)];
    let doc = info("1.0", "sched-x", &live, 5);
    assert_eq!(doc.u64_at("workers_live"), Some(2));
    assert_eq!(doc.u64_at("workers_known"), Some(5));
    assert_eq!(doc.u64_at("running"), Some(3));
    assert_eq!(doc.get("used").unwrap().as_object().unwrap().u64_at("mem_mib"), Some(300));
    let roster = mesh_status("sched-x", &live);
    assert_eq!(roster.bool_at("mesh"), Some(false));
    let orch = roster.get("orch").unwrap().as_object().unwrap();
    assert_eq!(orch.text_at("scheduler").unwrap(), "sched-x");
    assert!(matches!(orch.get("workers"), Some(Json::Array(workers)) if workers.len() == 2));
}

#[test]
fn streams_name_their_sandbox_first() {
    assert_eq!(stream_sandbox(StreamKind::Exec, FirstFrame::Names("sb".to_owned())).unwrap(), "sb");
    assert_eq!(
        stream_sandbox(StreamKind::Exec, FirstFrame::Missing).unwrap_err().message,
        "empty exec stream"
    );
    assert_eq!(
        stream_sandbox(StreamKind::PtyOpen, FirstFrame::Names(String::new())).unwrap_err().message,
        "first pty-open frame must be a pty_open payload naming a sandbox"
    );
    assert_eq!(
        stream_sandbox(StreamKind::PtyAttach, FirstFrame::Other).unwrap_err().message,
        "first pty-attach frame must be a pty_attach payload naming a sandbox"
    );
    assert_eq!(shell_sandbox(&read(r#"{"name":"sb"}"#)).unwrap(), "sb");
    assert!(shell_sandbox(&read(r#"{"name":""}"#)).is_none());
    assert!(shell_sandbox(&Json::Null).is_none());
    let params = |s: &str| ShellFrame::Params(s.to_owned());
    assert!(matches!(shell_target(&params(r#"{"name":"sb"}"#)), Ok(ShellTarget::Sandbox(sid)) if sid == "sb"));
    assert!(matches!(shell_target(&params("  ")), Ok(ShellTarget::Fresh(needs)) if needs.mem_mib == 512));
    assert!(matches!(shell_target(&params(r#"{"memory":64}"#)), Ok(ShellTarget::Fresh(needs)) if needs.mem_mib == 64));
    assert!(matches!(shell_target(&params("{")), Err(s) if s.message == "invalid shell params JSON"));
    assert!(matches!(shell_target(&ShellFrame::Missing), Err(s) if s.message == "empty shell stream"));
    assert!(matches!(
        shell_target(&ShellFrame::Other),
        Err(s) if s.message == "first shell frame must carry shell params JSON"
    ));
    assert_eq!(no_room_for_shell().code, Code::Aborted);
}

#[test]
fn tokenless_schedulers_are_loopback_only() {
    let loopback = SchedulerOptions::default();
    assert!(validate_auth(&loopback).is_ok());
    let exposed = SchedulerOptions { listen: "0.0.0.0:8100".to_owned(), ..SchedulerOptions::default() };
    assert!(validate_auth(&exposed).is_err());
    let with_token = SchedulerOptions {
        listen: "0.0.0.0:8100".to_owned(),
        token: Some("secret".to_owned()),
        ..SchedulerOptions::default()
    };
    assert!(validate_auth(&with_token).is_ok());
    let six = SchedulerOptions { listen: "[::1]:8100".to_owned(), ..SchedulerOptions::default() };
    assert!(validate_auth(&six).is_ok());
}

fn head(get: bool, path: &str, upgrading: bool, token: Option<&str>) -> RequestHead {
    RequestHead {
        is_get: get,
        path: path.to_owned(),
        authorization: None,
        upgrade: if upgrading { Some("websocket".to_owned()) } else { None },
        query_token: token.map(str::to_owned),
    }
}

#[test]
fn bridge_query_tokens_are_limited_to_grpc_upgrades() {
    assert_eq!(bridge_query_token(&head(true, "/grpc", true, Some("a b"))).as_deref(), Some("a b"));
    assert_eq!(bridge_query_token(&head(true, "/grpc", true, Some("t"))).as_deref(), Some("t"));
    assert_eq!(bridge_query_token(&head(true, "/grpc", false, Some("t"))), None);
    assert_eq!(bridge_query_token(&head(false, "/grpc", true, Some("t"))), None);
    assert_eq!(bridge_query_token(&head(true, "/vmon.v1.SystemService/Info", true, Some("t"))), None);
}

#[test]
fn requests_are_let_in_by_token() {
    let token = "secret".to_owned();
    let mut request = head(false, "/vmon.v1.SandboxService/Create", false, None);
    assert!(require_bearer(None, &request));
    assert!(!require_bearer(Some(&token), &request));
    request.authorization = Some("Bearer secret".to_owned());
    assert!(require_bearer(Some(&token), &request));
    request.authorization = Some("Bearer wrong".to_owned());
    assert!(!require_bearer(Some(&token), &request));
    request.authorization = Some("Basic secret".to_owned());
    assert!(!require_bearer(Some(&token), &request));
    assert!(require_bearer(Some(&token), &head(true, "/healthz", false, None)));
    assert!(!require_bearer(Some(&token), &head(false, "/healthz", false, None)));
    let mut socket = head(true, "/grpc", true, Some("secret"));
    assert!(require_bearer(Some(&token), &socket));
    socket.upgrade = Some("WebSocket".to_owned());
    assert!(require_bearer(Some(&token), &socket));
    socket.authorization = Some("Basic x".to_owned());
    assert!(require_bearer(Some(&token), &socket));
}

#[test]
fn schedulers_have_names_and_rounds() {
    assert_eq!(instance_of(&vec![0, 1, 0xab, 0xff, 16, 9]), "sched-0001abff1009");
    let name = instance_name();
    assert!(name.starts_with("sched-") && name.len() == 18);
    assert_ne!(name, instance_name());
    assert!(scales_now(true, 10, 5, 15));
    assert!(!scales_now(true, 10, 6, 15));
    assert!(!scales_now(false, 0, 0, 15));
    assert_eq!(creates_since(5, 3), 2);
    assert_eq!(creates_since(3, 5), 0);
}
