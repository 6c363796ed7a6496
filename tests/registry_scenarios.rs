use rnacos_naming::model::{Instance, InstanceKey, InstanceRegisterParam, InstanceShortKey, ServiceKey};
use rnacos_naming::raft::{NamingRaftReq, NamingRaftResult};
use rnacos_naming::registry::{ChangeKind, LoadResult, NamingError, NamingRegistry};

fn svc(name: &str) -> ServiceKey {
    ServiceKey::new("public", "DEFAULT", name)
}

fn instance(service: &str, ip: &str, port: u32, ephemeral: bool) -> Instance {
    Instance {
        ip: ip.to_string(),
        port,
        weight_milli: 1000,
        enabled: true,
        healthy: true,
        ephemeral,
        metadata: Vec::new(),
        namespace_id: "public".to_string(),
        group_name: "DEFAULT".to_string(),
        service_name: service.to_string(),
        cluster_name: "DEFAULT".to_string(),
        app_name: String::new(),
        last_modified_millis: 0,
        last_heartbeat_millis: 0,
    }
}

fn param(service: &str, ip: &str, port: u32, last_modified_millis: i64) -> InstanceRegisterParam {
    let mut p = InstanceRegisterParam::default();
    p.ip = ip.to_string();
    p.port = port;
    p.ephemeral = false;
    p.namespace_id = "public".to_string();
    p.group_name = "DEFAULT".to_string();
    p.service_name = service.to_string();
    p.last_modified_millis = last_modified_millis;
    p
}

fn key(service: &str, ip: &str, port: u32) -> InstanceKey {
    InstanceKey::new(&svc(service), &InstanceShortKey::new(ip, port))
}

fn query_all(r: &NamingRegistry, service: &str) -> Vec<Instance> {
    r.query(&svc(service), &Vec::new(), false).unwrap()
}

#[test]
fn ephemeral_register_heartbeat_expire() {
    let mut r = NamingRegistry::new();
    r.subscribe(&svc("svcA"), 7);
    let added = r.register_instance(instance("svcA", "10.0.0.1", 8080, true), 0).unwrap().unwrap();
    assert_eq!(added.kind, ChangeKind::Added);
    assert_eq!(added.revision, 1);
    assert_eq!(r.subscribers(&svc("svcA")), vec![7]);
    let events = r.expire_ephemeral(71_000, 60_000, 10_000);
    assert!(query_all(&r, "svcA").is_empty());
    assert_eq!(events.len(), 1);
    assert_eq!(events[0].kind, ChangeKind::Removed);
    assert_eq!(events[0].revision, 2);
    assert_eq!(events[0].service.service_name, "svcA");
    assert_eq!(events[0].host.ip, "10.0.0.1");
    assert_eq!(events[0].host.port, 8080);
    assert_eq!(r.revision(&svc("svcA")), 2);
}

#[test]
fn heartbeat_keeps_instance_alive() {
    let mut r = NamingRegistry::new();
    r.register_instance(instance("svcA", "10.0.0.1", 8080, true), 0).unwrap();
    r.heartbeat(&key("svcA", "10.0.0.1", 8080), 50_000).unwrap();
    let events = r.expire_ephemeral(71_000, 60_000, 10_000);
    assert!(events.is_empty());
    assert_eq!(query_all(&r, "svcA").len(), 1);
    assert_eq!(query_all(&r, "svcA")[0].last_heartbeat_millis, 50_000);
}

#[test]
fn perpetual_register_via_log() {
    let mut r = NamingRegistry::new();
    let req = NamingRaftReq::RegisterInstance { param: param("svcB", "10.0.0.2", 9090, 1000) };
    let (res, ev) = r.apply_raft(req).unwrap();
    assert!(ev.is_some());
    match res {
        NamingRaftResult::InstanceInfo(i) => assert_eq!(i.port, 9090),
        NamingRaftResult::NoInstance => panic!("expected the instance"),
    }
    let got = query_all(&r, "svcB");
    assert_eq!(got.len(), 1);
    assert!(got[0].healthy);
    let host = InstanceShortKey::new("10.0.0.2", 9090);
    let events = r.apply_sniff(&host, &vec![svc("svcB")], false);
    assert_eq!(events.len(), 1);
    assert_eq!(events[0].kind, ChangeKind::HealthChanged);
    let got = query_all(&r, "svcB");
    assert!(!got[0].healthy);
}

#[test]
fn perpetual_idempotent_replay() {
    let mut r = NamingRegistry::new();
    let req = NamingRaftReq::RegisterInstance { param: param("svcB", "10.0.0.2", 9090, 1000) };
    r.apply_raft(req.clone()).unwrap();
    let first = r.build_snapshot();
    let rev = r.revision(&svc("svcB"));
    let (_, ev) = r.apply_raft(req).unwrap();
    assert!(ev.is_none());
    assert_eq!(r.revision(&svc("svcB")), rev);
    assert_eq!(rev, 1);
    let second = r.build_snapshot();
    assert_eq!(format!("{:?}", first), format!("{:?}", second));
}

#[test]
fn newer_perpetual_write_replaces_older() {
    let mut r = NamingRegistry::new();
    r.apply_raft(NamingRaftReq::RegisterInstance { param: param("svcB", "10.0.0.2", 9090, 1000) }).unwrap();
    let mut p = param("svcB", "10.0.0.2", 9090, 2000);
    p.weight_milli = 3000;
    r.apply_raft(NamingRaftReq::UpdateInstance { param: p }).unwrap();
    assert_eq!(query_all(&r, "svcB")[0].weight_milli, 3000);
    assert_eq!(r.revision(&svc("svcB")), 2);
    let mut old = param("svcB", "10.0.0.2", 9090, 1500);
    old.weight_milli = 5;
    r.apply_raft(NamingRaftReq::UpdateInstance { param: old }).unwrap();
    assert_eq!(query_all(&r, "svcB")[0].weight_milli, 3000);
}

#[test]
fn update_of_absent_perpetual_is_not_found() {
    let mut r = NamingRegistry::new();
    let res = r.apply_raft(NamingRaftReq::UpdateInstance { param: param("svcB", "10.0.0.2", 9090, 1000) });
    assert!(matches!(res, Err(NamingError::NotFound)));
}

#[test]
fn log_remove_and_replayed_remove() {
    let mut r = NamingRegistry::new();
    r.apply_raft(NamingRaftReq::RegisterInstance { param: param("svcB", "10.0.0.2", 9090, 1000) }).unwrap();
    let k = key("svcB", "10.0.0.2", 9090);
    let (res, ev) = r.apply_raft(NamingRaftReq::RemoveInstance(k.clone())).unwrap();
    assert!(matches!(res, NamingRaftResult::NoInstance));
    assert_eq!(ev.unwrap().kind, ChangeKind::Removed);
    let (_, ev) = r.apply_raft(NamingRaftReq::RemoveInstance(k)).unwrap();
    assert!(ev.is_none());
    assert!(query_all(&r, "svcB").is_empty());
}

#[test]
fn log_refuses_ephemeral_records() {
    let mut r = NamingRegistry::new();
    let mut p = param("svcB", "10.0.0.2", 9090, 1000);
    p.ephemeral = true;
    let res = r.apply_raft(NamingRaftReq::RegisterInstance { param: p });
    assert!(matches!(res, Err(NamingError::InvariantViolation)));
    assert!(query_all(&r, "svcB").is_empty());
}

#[test]
fn log_remove_of_ephemeral_is_refused() {
    let mut r = NamingRegistry::new();
    r.register_instance(instance("svcA", "10.0.0.1", 8080, true), 0).unwrap();
    let res = r.apply_raft(NamingRaftReq::RemoveInstance(key("svcA", "10.0.0.1", 8080)));
    assert!(matches!(res, Err(NamingError::InvariantViolation)));
    assert_eq!(query_all(&r, "svcA").len(), 1);
}

#[test]
fn snapshot_round_trip_thousand_instances() {
    let mut r = NamingRegistry::new();
    for s in 0..20u32 {
        for i in 0..50u32 {
            let p = param(&format!("svc{}", s), &format!("10.1.{}.{}", s, i), 8000 + i, 1);
            r.apply_raft(NamingRaftReq::RegisterInstance { param: p }).unwrap();
        }
    }
    let records = r.build_snapshot();
    assert_eq!(records.len(), 1000);
    let mut fresh = NamingRegistry::new();
    fresh.begin_load();
    assert!(matches!(fresh.load_snapshot(&records), LoadResult::Success));
    let all = fresh.list_all_perpetual();
    assert_eq!(all.len(), 1000);
    let mut before: Vec<String> = r.list_all_perpetual().iter().map(|i| format!("{}/{}:{}", i.service_name, i.ip, i.port)).collect();
    let mut after: Vec<String> = all.iter().map(|i| format!("{}/{}:{}", i.service_name, i.ip, i.port)).collect();
    before.sort();
    after.sort();
    assert_eq!(before, after);
    let again = fresh.build_snapshot();
    assert_eq!(format!("{:?}", records), format!("{:?}", again));
}

#[test]
fn polarity_violation_on_update() {
    let mut r = NamingRegistry::new();
    r.register_instance(instance("svcA", "10.0.0.1", 8080, true), 0).unwrap();
    let res = r.update_instance(instance("svcA", "10.0.0.1", 8080, false), 5);
    assert!(matches!(res, Err(NamingError::InvariantViolation)));
    let got = query_all(&r, "svcA");
    assert_eq!(got.len(), 1);
    assert!(got[0].ephemeral);
    assert_eq!(r.revision(&svc("svcA")), 1);
}

#[test]
fn empty_service_returns_empty_list() {
    let r = NamingRegistry::new();
    let got = r.query(&svc("nothing"), &Vec::new(), true).unwrap();
    assert!(got.is_empty());
}

#[test]
fn protect_threshold_returns_full_set() {
    let mut r = NamingRegistry::new();
    r.register_instance(instance("svcA", "10.0.0.1", 1, true), 0).unwrap();
    let mut sick = instance("svcA", "10.0.0.2", 2, true);
    sick.healthy = false;
    r.register_instance(sick, 0).unwrap();
    assert_eq!(r.query(&svc("svcA"), &Vec::new(), true).unwrap().len(), 1);
    r.set_protect_threshold(&svc("svcA"), 80);
    let got = r.query(&svc("svcA"), &Vec::new(), true).unwrap();
    assert_eq!(got.len(), 2);
    r.set_protect_threshold(&svc("svcA"), 50);
    assert_eq!(r.query(&svc("svcA"), &Vec::new(), true).unwrap().len(), 1);
}

#[test]
fn disabled_instance_is_stored_but_not_returned() {
    let mut r = NamingRegistry::new();
    let mut off = instance("svcA", "10.0.0.1", 1, true);
    off.enabled = false;
    r.register_instance(off, 0).unwrap();
    assert!(query_all(&r, "svcA").is_empty());
    assert!(r.get_instance(&key("svcA", "10.0.0.1", 1)).is_some());
}

#[test]
fn query_filters_clusters() {
    let mut r = NamingRegistry::new();
    let mut a = instance("svcA", "10.0.0.1", 1, true);
    a.cluster_name = "east".to_string();
    r.register_instance(a, 0).unwrap();
    r.register_instance(instance("svcA", "10.0.0.2", 2, true), 0).unwrap();
    let got = r.query(&svc("svcA"), &vec!["east".to_string()], false).unwrap();
    assert_eq!(got.len(), 1);
    assert_eq!(got[0].ip, "10.0.0.1");
    assert_eq!(query_all(&r, "svcA").len(), 2);
}

#[test]
fn heartbeat_of_unknown_instance_is_not_found() {
    let mut r = NamingRegistry::new();
    assert!(matches!(r.heartbeat(&key("svcA", "10.0.0.9", 1), 10), Err(NamingError::NotFound)));
}

#[test]
fn heartbeat_of_perpetual_instance_is_refused() {
    let mut r = NamingRegistry::new();
    r.apply_raft(NamingRaftReq::RegisterInstance { param: param("svcB", "10.0.0.2", 9090, 1000) }).unwrap();
    assert!(matches!(r.heartbeat(&key("svcB", "10.0.0.2", 9090), 10), Err(NamingError::InvariantViolation)));
}

#[test]
fn queries_wait_for_snapshot_load() {
    let mut r = NamingRegistry::new();
    r.begin_load();
    assert!(matches!(r.query(&svc("svcA"), &Vec::new(), false), Err(NamingError::Unavailable)));
    assert!(matches!(r.load_snapshot(&Vec::new()), LoadResult::Success));
    assert!(r.query(&svc("svcA"), &Vec::new(), false).is_ok());
}

#[test]
fn load_refuses_ephemeral_record_and_clears_perpetual() {
    let mut r = NamingRegistry::new();
    r.apply_raft(NamingRaftReq::RegisterInstance { param: param("svcB", "10.0.0.2", 9090, 1000) }).unwrap();
    r.register_instance(instance("svcA", "10.0.0.1", 8080, true), 0).unwrap();
    let mut bad = param("svcC", "10.0.0.3", 1, 1);
    bad.ephemeral = true;
    assert!(matches!(r.load_snapshot(&vec![bad]), LoadResult::Error(_)));
    assert!(r.list_all_perpetual().is_empty());
    assert_eq!(query_all(&r, "svcA").len(), 1);
}

#[test]
fn load_refuses_record_meeting_ephemeral_instance() {
    let mut r = NamingRegistry::new();
    r.register_instance(instance("svcA", "10.0.0.1", 8080, true), 0).unwrap();
    let clash = param("svcA", "10.0.0.1", 8080, 1);
    assert!(matches!(r.load_snapshot(&vec![clash]), LoadResult::Error(_)));
}

#[test]
fn transfer_backup_only_when_asked() {
    let mut r = NamingRegistry::new();
    r.apply_raft(NamingRaftReq::RegisterInstance { param: param("svcB", "10.0.0.2", 9090, 1000) }).unwrap();
    assert!(r.transfer_backup(false).is_none());
    let recs = r.transfer_backup(true).unwrap();
    assert_eq!(recs.len(), 1);
    assert_eq!(recs[0].cluster_name.as_deref(), Some("DEFAULT"));
}

#[test]
fn remove_instance_present_and_absent() {
    let mut r = NamingRegistry::new();
    r.register_instance(instance("svcA", "10.0.0.1", 8080, true), 0).unwrap();
    let ev = r.remove_instance(&key("svcA", "10.0.0.1", 8080)).unwrap().unwrap();
    assert_eq!(ev.kind, ChangeKind::Removed);
    assert_eq!(ev.revision, 2);
    assert!(r.remove_instance(&key("svcA", "10.0.0.1", 8080)).unwrap().is_none());
}

#[test]
fn subscribe_twice_and_unsubscribe() {
    let mut r = NamingRegistry::new();
    r.subscribe(&svc("svcA"), 3);
    r.subscribe(&svc("svcA"), 3);
    r.subscribe(&svc("svcA"), 4);
    assert_eq!(r.subscribers(&svc("svcA")), vec![3, 4]);
    r.unsubscribe(&svc("svcA"), 3);
    assert_eq!(r.subscribers(&svc("svcA")), vec![4]);
}

#[test]
fn idle_services_are_collected_after_timeout() {
    let mut r = NamingRegistry::new();
    r.register_instance(instance("svcA", "10.0.0.1", 8080, true), 0).unwrap();
    r.register_instance(instance("svcB", "10.0.0.2", 8080, true), 0).unwrap();
    r.subscribe(&svc("svcB"), 1);
    r.remove_instance(&key("svcA", "10.0.0.1", 8080)).unwrap();
    r.remove_instance(&key("svcB", "10.0.0.2", 8080)).unwrap();
    assert_eq!(r.collect_idle_services(1_000, 30_000), 0);
    assert_eq!(r.collect_idle_services(20_000, 30_000), 0);
    assert_eq!(r.revision(&svc("svcA")), 2);
    assert_eq!(r.collect_idle_services(31_000, 30_000), 1);
    assert_eq!(r.revision(&svc("svcA")), 0);
    assert_eq!(r.revision(&svc("svcB")), 2);
    r.register_instance(instance("svcB", "10.0.0.2", 8080, true), 40_000).unwrap();
    assert_eq!(r.collect_idle_services(100_000, 30_000), 0);
}

#[test]
fn duplicate_metadata_keys_are_refused() {
    let mut r = NamingRegistry::new();
    let mut bad = instance("svcA", "10.0.0.1", 8080, true);
    bad.metadata = vec![("k".to_string(), "1".to_string()), ("k".to_string(), "2".to_string())];
    assert!(matches!(r.register_instance(bad, 0), Err(NamingError::InvariantViolation)));
    assert!(query_all(&r, "svcA").is_empty());
    let mut good = instance("svcA", "10.0.0.1", 8080, true);
    good.metadata = vec![("k".to_string(), "1".to_string()), ("j".to_string(), "1".to_string())];
    assert!(r.register_instance(good, 0).is_ok());
    let mut p = param("svcB", "10.0.0.2", 1, 1);
    p.metadata = vec![("a".to_string(), "x".to_string()), ("a".to_string(), "x".to_string())];
    assert!(matches!(r.apply_raft(NamingRaftReq::RegisterInstance { param: p.clone() }), Err(NamingError::InvariantViolation)));
    assert!(matches!(r.load_snapshot(&vec![p]), LoadResult::Error(_)));
}

#[test]
fn load_creates_services_of_records() {
    let mut r = NamingRegistry::new();
    r.apply_raft(NamingRaftReq::RegisterInstance { param: param("svcB", "10.0.0.2", 9090, 1000) }).unwrap();
    let records = r.build_snapshot();
    let mut fresh = NamingRegistry::new();
    assert!(matches!(fresh.load_snapshot(&records), LoadResult::Success));
    assert_eq!(fresh.revision(&svc("svcB")), 0);
    fresh.subscribe(&svc("svcB"), 9);
    let ev = fresh.apply_sniff(&InstanceShortKey::new("10.0.0.2", 9090), &vec![svc("svcB")], false);
    assert_eq!(ev.len(), 1);
    assert_eq!(ev[0].revision, 1);
    assert_eq!(ev[0].service.service_name, "svcB");
    assert_eq!(ev[0].host.port, 9090);
}
