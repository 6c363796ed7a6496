use rnacos_naming::config::{AppSysConfig, EnvSettings, NamingSysConfig};
use rnacos_naming::ids::{gen_uuid, uuid_bytes_to_id};
use rnacos_naming::model::{InstanceRegisterParam};
use rnacos_naming::sniffing::{NetSniffing, NetSniffingResult, SniffAction};
use rnacos_naming::user::{PrivilegeGroup, UserDo, UserDto};
use rnacos_naming::model::InstanceShortKey;

fn empty_settings() -> EnvSettings {
    EnvSettings {
        config_db_file: None,
        config_db_dir: None,
        config_max_content: None,
        http_port: None,
        http_console_port: None,
        enable_no_auth_console: None,
        http_workers: None,
        grpc_port: None,
        raft_node_id: None,
        raft_node_addr: None,
        raft_auto_init: None,
        raft_join_addr: None,
        raft_snapshot_log_size: None,
        console_login_timeout: None,
        console_login_one_hour_limit: None,
        gmt_fixed_offset_hours: None,
        openapi_login_timeout: None,
        openapi_login_one_minute_limit: None,
        openapi_enable_auth: None,
        cluster_token: None,
    }
}

#[test]
fn naming_config_defaults() {
    let c = NamingSysConfig::new();
    assert_eq!(c.once_time_check_size, 10000);
    assert_eq!(c.service_time_out_millis, 30000);
    assert_eq!(c.instance_metadata_time_out_millis, 60000);
}

#[test]
fn app_config_defaults_and_addresses() {
    let c = AppSysConfig::from_settings(empty_settings());
    assert_eq!(c.http_port, 8848);
    assert_eq!(c.grpc_port, 9848);
    assert_eq!(c.http_console_port, 10848);
    assert_eq!(c.config_db_dir, "nacos_db");
    assert_eq!(c.config_db_file, "config.db");
    assert_eq!(c.config_max_content, 10 * 1024 * 1024);
    assert_eq!(c.raft_node_id, 1);
    assert!(c.raft_auto_init);
    assert_eq!(c.raft_node_addr, "127.0.0.1:9848");
    assert_eq!(c.raft_snapshot_log_size, 10000);
    assert_eq!(c.console_login_timeout, 86400);
    assert_eq!(c.openapi_login_one_minute_limit, 100);
    assert!(!c.enable_no_auth_console);
    assert_eq!(c.cluster_token, "");
    assert_eq!(c.get_grpc_addr(), "0.0.0.0:9848");
    assert_eq!(c.get_http_addr(), "0.0.0.0:8848");
    assert_eq!(c.get_http_console_addr(), "0.0.0.0:10848");
}

#[test]
fn app_config_derived_from_http_port_and_node() {
    let mut s = empty_settings();
    s.http_port = Some(80);
    s.raft_node_id = Some(2);
    let c = AppSysConfig::from_settings(s);
    assert_eq!(c.grpc_port, 1080);
    assert_eq!(c.http_console_port, 2080);
    assert!(!c.raft_auto_init);
    assert_eq!(c.raft_node_addr, "127.0.0.1:1080");
    assert_eq!(c.get_http_addr(), "0.0.0.0:80");
    let mut s = empty_settings();
    s.http_port = Some(65000);
    let c = AppSysConfig::from_settings(s);
    assert_eq!(c.grpc_port, 464);
}

#[test]
fn default_register_param() {
    let p = InstanceRegisterParam::default();
    assert_eq!(p.weight_milli, 1000);
    assert!(p.enabled && p.healthy && p.ephemeral);
    assert!(p.cluster_name.is_none());
    let i = p.to_instance();
    assert_eq!(i.cluster_name, "DEFAULT");
    assert_eq!(i.app_name, "");
}

#[test]
fn sniff_retry_reports_once() {
    let n = NetSniffing::new(200, 100);
    assert_eq!(n.after_probe(0, false), SniffAction::RetryAfter(100));
    assert_eq!(n.after_probe(1, true), SniffAction::Report(true));
    assert_eq!(n.after_probe(1, false), SniffAction::Report(false));
    assert_eq!(n.after_probe(0, true), SniffAction::Report(true));
    assert_eq!(NetSniffing::probe_result(false), NetSniffingResult::ProbeResult(false));
    assert_eq!(NetSniffing::probe_port(&InstanceShortKey::new("10.0.0.3", 7000)), Some(7000));
    assert_eq!(NetSniffing::probe_port(&InstanceShortKey::new("10.0.0.3", 65535)), Some(65535));
    assert_eq!(NetSniffing::probe_port(&InstanceShortKey::new("10.0.0.3", 70000)), None);
    assert_eq!(NetSniffing::max_in_flight(4), 128);
    assert_eq!(NetSniffing::max_in_flight(usize::MAX), usize::MAX);
}

#[test]
fn uuid_bytes_fold_into_id() {
    let b: [u8; 16] = [0, 0, 0, 1, 0, 0, 0, 2, 0, 0, 0, 0, 0, 0, 0, 3];
    assert_eq!(uuid_bytes_to_id(b), ((2u64 << 32) | 3) as i64);
    let c: [u8; 16] = [0xff; 16];
    assert_eq!(uuid_bytes_to_id(c), -1);
    let x = gen_uuid();
    let y = gen_uuid();
    assert_ne!(x, y);
}

fn user(flags: Option<u32>) -> UserDo {
    UserDo {
        username: "alice".to_string(),
        password: "SECRET-REDACTED".to_string(),
        nickname: "Al".to_string(),
        gmt_create: 10,
        gmt_modified: 20,
        enable: true,
        roles: vec!["admin".to_string()],
        extend_info: Vec::new(),
        password_hash: Some("h".to_string()),
        namespace_privilege_flags: flags,
        namespace_white_list: vec!["dev".to_string(), "dev".to_string(), "test".to_string()],
        namespace_black_list: vec!["prod".to_string()],
    }
}

#[test]
fn namespace_privilege_enabled_uses_lists() {
    let g = user(Some(1)).build_namespace_privilege();
    assert!(g.enabled);
    assert!(!g.whitelist_is_all);
    assert_eq!(g.whitelist.as_ref().unwrap(), &vec!["dev".to_string(), "test".to_string()]);
    assert!(g.check_permission(&"dev".to_string()));
    assert!(!g.check_permission(&"prod".to_string()));
    assert!(!g.check_permission(&"other".to_string()));
    let g = user(Some(1 | 2)).build_namespace_privilege();
    assert!(g.check_permission(&"other".to_string()));
    assert!(!g.check_permission(&"prod".to_string()));
    let g = user(Some(1 | 2 | 4)).build_namespace_privilege();
    assert!(!g.check_permission(&"dev".to_string()));
}

#[test]
fn namespace_privilege_disabled_admits_all() {
    for flags in [None, Some(0), Some(2), Some(256)] {
        let g = user(flags).build_namespace_privilege();
        assert!(g.whitelist.is_none());
        assert!(g.check_permission(&"prod".to_string()));
    }
    let g = PrivilegeGroup::new(0, None, None);
    assert!(!g.check_permission(&"x".to_string()));
}

#[test]
fn user_dto_hides_password() {
    let d = UserDto::from_user_do(user(Some(1)));
    assert_eq!(d.username, "alice");
    assert!(d.password.is_none());
    assert_eq!(d.password_hash.as_deref(), Some("h"));
    assert_eq!(d.gmt_create, Some(10_000));
    assert_eq!(d.gmt_modified, Some(20_000));
    assert_eq!(d.roles.unwrap(), vec!["admin".to_string()]);
    assert_eq!(d.nickname.as_deref(), Some("Al"));
    assert!(d.namespace_privilege.unwrap().enabled);
}

#[test]
fn addresses_at_port_edges() {
    let mut s = empty_settings();
    s.http_port = Some(0);
    s.grpc_port = Some(65535);
    s.http_console_port = Some(7);
    let c = AppSysConfig::from_settings(s);
    assert_eq!(c.get_http_addr(), "0.0.0.0:0");
    assert_eq!(c.get_grpc_addr(), "0.0.0.0:65535");
    assert_eq!(c.get_http_console_addr(), "0.0.0.0:7");
    assert_eq!(c.raft_node_addr, "127.0.0.1:65535");
}
