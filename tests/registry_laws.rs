use rnacos_naming::model::{Instance, InstanceKey, InstanceRegisterParam, InstanceShortKey, ServiceKey};
use rnacos_naming::raft::NamingRaftReq;
use rnacos_naming::registry::{NamingError, NamingRegistry};

fn svc(name: &str) -> ServiceKey {
    ServiceKey::new("ns", "G", name)
}

fn inst(service: &str, port: u32, ephemeral: bool, lm: i64) -> Instance {
    Instance {
        ip: "10.9.9.9".to_string(),
        port,
        weight_milli: 1000,
        enabled: true,
        healthy: true,
        ephemeral,
        metadata: vec![("zone".to_string(), "a".to_string())],
        namespace_id: "ns".to_string(),
        group_name: "G".to_string(),
        service_name: service.to_string(),
        cluster_name: "DEFAULT".to_string(),
        app_name: "app".to_string(),
        last_modified_millis: lm,
        last_heartbeat_millis: 0,
    }
}

fn param(service: &str, port: u32, lm: i64) -> InstanceRegisterParam {
    InstanceRegisterParam::from_instance(&inst(service, port, false, lm))
}

#[test]
fn polarity_sets_stay_disjoint() {
    let mut r = NamingRegistry::new();
    r.register_instance(inst("s", 1, true, 0), 0).unwrap();
    r.apply_raft(NamingRaftReq::RegisterInstance { param: param("s", 2, 1) }).unwrap();
    assert!(matches!(r.register_instance(inst("s", 1, false, 5), 0), Err(NamingError::InvariantViolation)));
    assert!(matches!(r.apply_raft(NamingRaftReq::RegisterInstance { param: param("s", 1, 9) }), Err(NamingError::InvariantViolation)));
    let all = r.query(&svc("s"), &Vec::new(), false).unwrap();
    assert_eq!(all.len(), 2);
    let perpetual = r.list_all_perpetual();
    assert_eq!(perpetual.len(), 1);
    assert_eq!(perpetual[0].port, 2);
}

#[test]
fn same_log_gives_same_snapshot() {
    let log = vec![
        NamingRaftReq::RegisterInstance { param: param("a", 1, 1) },
        NamingRaftReq::RegisterInstance { param: param("b", 2, 1) },
        NamingRaftReq::UpdateInstance { param: param("a", 1, 2) },
        NamingRaftReq::RemoveInstance(InstanceKey::new(&svc("b"), &InstanceShortKey::new("10.9.9.9", 2))),
    ];
    let mut x = NamingRegistry::new();
    let mut y = NamingRegistry::new();
    for req in log.iter() {
        let _ = x.apply_raft(req.clone());
        let _ = y.apply_raft(req.clone());
        let _ = y.apply_raft(req.clone());
    }
    assert_eq!(format!("{:?}", x.build_snapshot()), format!("{:?}", y.build_snapshot()));
    assert_eq!(x.build_snapshot().len(), 1);
}

#[test]
fn revisions_rise_with_each_change() {
    let mut r = NamingRegistry::new();
    let mut seen = Vec::new();
    seen.push(r.register_instance(inst("s", 1, true, 0), 0).unwrap().unwrap().revision);
    seen.push(r.register_instance(inst("s", 2, true, 0), 0).unwrap().unwrap().revision);
    seen.push(r.update_instance(inst("s", 1, true, 0), 4).unwrap().unwrap().revision);
    seen.push(r.remove_instance(&InstanceKey::new(&svc("s"), &InstanceShortKey::new("10.9.9.9", 2))).unwrap().unwrap().revision);
    assert_eq!(seen, vec![1, 2, 3, 4]);
    assert_eq!(r.revision(&svc("other")), 0);
}

#[test]
fn expired_instance_absent_on_two_ticks() {
    let mut r = NamingRegistry::new();
    r.register_instance(inst("s", 1, true, 0), 0).unwrap();
    r.register_instance(inst("s", 2, true, 0), 40_000).unwrap();
    r.expire_ephemeral(61_000, 60_000, 10_000);
    let k = InstanceKey::new(&svc("s"), &InstanceShortKey::new("10.9.9.9", 1));
    assert!(r.get_instance(&k).is_none());
    r.expire_ephemeral(61_500, 60_000, 10_000);
    assert!(r.get_instance(&k).is_none());
    assert_eq!(r.query(&svc("s"), &Vec::new(), false).unwrap().len(), 1);
}

#[test]
fn expiry_budget_bounds_one_pass() {
    let mut r = NamingRegistry::new();
    for p in 0..5u32 {
        r.register_instance(inst("s", p, true, 0), 0).unwrap();
    }
    let first = r.expire_ephemeral(100_000, 60_000, 2);
    assert_eq!(first.len(), 2);
    let second = r.expire_ephemeral(100_500, 60_000, 2);
    assert_eq!(second.len(), 2);
    let third = r.expire_ephemeral(101_000, 60_000, 2);
    assert_eq!(third.len(), 1);
    assert!(r.query(&svc("s"), &Vec::new(), false).unwrap().is_empty());
}

#[test]
fn snapshot_build_load_build_same_records() {
    let mut r = NamingRegistry::new();
    r.register_instance(inst("s", 1, true, 0), 0).unwrap();
    r.apply_raft(NamingRaftReq::RegisterInstance { param: param("s", 2, 3) }).unwrap();
    r.apply_raft(NamingRaftReq::RegisterInstance { param: param("t", 3, 4) }).unwrap();
    let records = r.build_snapshot();
    r.load_snapshot(&records);
    assert_eq!(format!("{:?}", records), format!("{:?}", r.build_snapshot()));
    assert_eq!(r.query(&svc("s"), &Vec::new(), false).unwrap().len(), 2);
}

#[test]
fn last_sniff_outcome_wins() {
    let mut r = NamingRegistry::new();
    r.apply_raft(NamingRaftReq::RegisterInstance { param: param("a", 7, 1) }).unwrap();
    r.apply_raft(NamingRaftReq::RegisterInstance { param: param("b", 7, 1) }).unwrap();
    let host = InstanceShortKey::new("10.9.9.9", 7);
    let keys = vec![svc("a"), svc("b"), svc("missing")];
    r.apply_sniff(&host, &keys, false);
    r.apply_sniff(&host, &keys, true);
    assert_eq!(r.revision(&svc("a")), 3);
    let events = r.apply_sniff(&host, &keys, false);
    assert_eq!(events.len(), 2);
    assert_eq!(events[0].revision, 4);
    assert_eq!(events[0].service.service_name, "a");
    assert_eq!(events[1].service.service_name, "b");
    assert_eq!(r.revision(&svc("b")), 4);
    for name in ["a", "b"] {
        let got = r.query(&svc(name), &Vec::new(), false).unwrap();
        assert!(!got[0].healthy);
    }
    assert!(r.apply_sniff(&host, &keys, false).is_empty());
}

#[test]
fn sniff_leaves_ephemeral_instances_alone() {
    let mut r = NamingRegistry::new();
    r.register_instance(inst("a", 7, true, 0), 0).unwrap();
    let events = r.apply_sniff(&InstanceShortKey::new("10.9.9.9", 7), &vec![svc("a")], false);
    assert!(events.is_empty());
    assert!(r.query(&svc("a"), &Vec::new(), false).unwrap()[0].healthy);
}
