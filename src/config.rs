use vstd::prelude::*;

verus! {

/// Timing and batch limits of the naming registry.
#[derive(Clone, Debug)]
pub struct NamingSysConfig {
    pub once_time_check_size: usize,
    pub service_time_out_millis: u64,
    pub instance_metadata_time_out_millis: u64,
}

impl NamingSysConfig {
    pub fn new() -> (r: Self)
        ensures
            r.once_time_check_size == 10000,
            r.service_time_out_millis == 30000,
            r.instance_metadata_time_out_millis == 60000,
    {
        NamingSysConfig {
            once_time_check_size: 10000,
            service_time_out_millis: 30000,
            instance_metadata_time_out_millis: 60000,
        }
    }
}

/// The character of a decimal digit.
pub open spec fn digit_char(d: nat) -> char {
    seq!['0', '1', '2', '3', '4', '5', '6', '7', '8', '9'][(d % 10) as int]
}

/// The decimal text of a natural number, without leading zeros.
pub open spec fn decimal(n: nat) -> Seq<char>
    decreases n,
{
    if n < 10 {
        seq![digit_char(n)]
    } else {
        decimal(n / 10).push(digit_char(n % 10))
    }
}

fn append_digit(s: &mut String, d: u16)
    requires
        d < 10,
    ensures
        final(s)@ == old(s)@.push(digit_char(d as nat)),
{
    proof {
        reveal_strlit("0");
        reveal_strlit("1");
        reveal_strlit("2");
        reveal_strlit("3");
        reveal_strlit("4");
        reveal_strlit("5");
        reveal_strlit("6");
        reveal_strlit("7");
        reveal_strlit("8");
        reveal_strlit("9");
    }
    let ghost before = s@;
    match d {
        0 => s.append("0"),
        1 => s.append("1"),
        2 => s.append("2"),
        3 => s.append("3"),
        4 => s.append("4"),
        5 => s.append("5"),
        6 => s.append("6"),
        7 => s.append("7"),
        8 => s.append("8"),
        _ => s.append("9"),
    }
    assert(s@ =~= before.push(digit_char(d as nat)));
}

/// Appends the decimal digits of `n`.
fn append_decimal(s: &mut String, n: u16)
    ensures
        final(s)@ == old(s)@ + decimal(n as nat),
    decreases n,
{
    let ghost before = s@;
    if n >= 10 {
        append_decimal(s, n / 10);
    }
    append_digit(s, n % 10);
    assert(s@ =~= before + decimal(n as nat));
}

/// The text of the address that listens on every interface at `port`.
pub open spec fn any_addr(port: u16) -> Seq<char> {
    seq!['0', '.', '0', '.', '0', '.', '0', ':'] + decimal(port as nat)
}

/// The text of the loopback address at `port`.
pub open spec fn loopback_addr(port: u16) -> Seq<char> {
    seq!['1', '2', '7', '.', '0', '.', '0', '.', '1', ':'] + decimal(port as nat)
}

fn listen_addr(port: u16) -> (r: String)
    ensures
        r@ == any_addr(port),
{
    let mut s = String::from_str("0.0.0.0:");
    proof {
        reveal_strlit("0.0.0.0:");
    }
    append_decimal(&mut s, port);
    assert(s@ =~= any_addr(port));
    s
}

fn loopback_text(port: u16) -> (r: String)
    ensures
        r@ == loopback_addr(port),
{
    let mut s = String::from_str("127.0.0.1:");
    proof {
        reveal_strlit("127.0.0.1:");
    }
    append_decimal(&mut s, port);
    assert(s@ =~= loopback_addr(port));
    s
}

/// Settings as read from the environment: each one present only when it was
/// set and could be read.
#[derive(Clone, Debug)]
pub struct EnvSettings {
    pub config_db_file: Option<String>,
    pub config_db_dir: Option<String>,
    pub config_max_content: Option<usize>,
    pub http_port: Option<u16>,
    pub http_console_port: Option<u16>,
    pub enable_no_auth_console: Option<bool>,
    pub http_workers: Option<usize>,
    pub grpc_port: Option<u16>,
    pub raft_node_id: Option<u64>,
    pub raft_node_addr: Option<String>,
    pub raft_auto_init: Option<bool>,
    pub raft_join_addr: Option<String>,
    pub raft_snapshot_log_size: Option<u64>,
    pub console_login_timeout: Option<i32>,
    pub console_login_one_hour_limit: Option<u32>,
    pub gmt_fixed_offset_hours: Option<i32>,
    pub openapi_login_timeout: Option<i32>,
    pub openapi_login_one_minute_limit: Option<u32>,
    pub openapi_enable_auth: Option<bool>,
    pub cluster_token: Option<String>,
}

pub open spec fn text_or(o: Option<String>, d: Seq<char>) -> Seq<char> {
    match o {
        Some(s) => s@,
        None => d,
    }
}

/// A port a fixed distance above another, wrapping past the largest port.
pub open spec fn port_above(p: u16, d: u16) -> u16 {
    ((p as int + d as int) % 65536) as u16
}

fn text_or_default(o: Option<String>, d: &str) -> (r: String)
    ensures
        r@ == text_or(o, d@),
{
    match o {
        Some(s) => s,
        None => String::from_str(d),
    }
}

/// Process-wide settings of the server.
#[derive(Clone, Debug)]
pub struct AppSysConfig {
    pub config_db_file: String,
    pub config_db_dir: String,
    pub config_max_content: usize,
    pub http_port: u16,
    pub http_console_port: u16,
    pub enable_no_auth_console: bool,
    pub http_workers: Option<usize>,
    pub grpc_port: u16,
    pub raft_node_id: u64,
    pub raft_node_addr: String,
    pub raft_auto_init: bool,
    pub raft_join_addr: String,
    pub raft_snapshot_log_size: u64,
    pub console_login_timeout: i32,
    pub console_login_one_hour_limit: u32,
    pub gmt_fixed_offset_hours: Option<i32>,
    pub openapi_login_timeout: i32,
    pub openapi_login_one_minute_limit: u32,
    pub openapi_enable_auth: bool,
    pub cluster_token: String,
}

impl AppSysConfig {

    /// The settings, with the default of each one that is absent. The gRPC
    /// and console ports default to 1000 and 2000 above the HTTP port, the
    /// Raft address to the loopback address at the gRPC port, and the node
    /// bootstraps a cluster by default when it is node 1.
    pub fn from_settings(s: EnvSettings) -> (r: Self)
        ensures
            r.config_db_file@ == text_or(s.config_db_file, "config.db"@),
            r.config_db_dir@ == text_or(s.config_db_dir, "nacos_db"@),
            r.config_max_content == s.config_max_content.unwrap_or(10485760),
            r.http_port == s.http_port.unwrap_or(8848),
            r.grpc_port == s.grpc_port.unwrap_or(port_above(r.http_port, 1000)),
            r.http_console_port == s.http_console_port.unwrap_or(port_above(r.http_port, 2000)),
            r.http_workers == s.http_workers,
            r.raft_node_id == s.raft_node_id.unwrap_or(1),
            r.raft_node_addr@ == text_or(s.raft_node_addr, loopback_addr(r.grpc_port)),
            r.raft_auto_init == s.raft_auto_init.unwrap_or(r.raft_node_id == 1),
            r.raft_join_addr@ == text_or(s.raft_join_addr, Seq::empty()),
            r.raft_snapshot_log_size == s.raft_snapshot_log_size.unwrap_or(10000),
            r.console_login_timeout == s.console_login_timeout.unwrap_or(86400),
            r.console_login_one_hour_limit == s.console_login_one_hour_limit.unwrap_or(5),
            r.openapi_login_timeout == s.openapi_login_timeout.unwrap_or(3600),
            r.openapi_login_one_minute_limit == s.openapi_login_one_minute_limit.unwrap_or(100),
            r.enable_no_auth_console == s.enable_no_auth_console.unwrap_or(false),
            r.gmt_fixed_offset_hours == s.gmt_fixed_offset_hours,
            r.openapi_enable_auth == s.openapi_enable_auth.unwrap_or(false),
            r.cluster_token@ == text_or(s.cluster_token, Seq::empty()),
    {
        let http_port = s.http_port.unwrap_or(8848);
        let grpc_port = s.grpc_port.unwrap_or(((http_port as u32 + 1000) % 65536) as u16);
        let http_console_port = s.http_console_port.unwrap_or(
            ((http_port as u32 + 2000) % 65536) as u16,
        );
        let raft_node_id = s.raft_node_id.unwrap_or(1);
        let raft_node_addr = match s.raft_node_addr {
            Some(a) => a,
            None => loopback_text(grpc_port),
        };
        proof {
            reveal_strlit("config.db");
            reveal_strlit("nacos_db");
            reveal_strlit("");
        }
        AppSysConfig {
            config_db_file: text_or_default(s.config_db_file, "config.db"),
            config_db_dir: text_or_default(s.config_db_dir, "nacos_db"),
            config_max_content: s.config_max_content.unwrap_or(10485760),
            http_port,
            http_console_port,
            enable_no_auth_console: s.enable_no_auth_console.unwrap_or(false),
            http_workers: s.http_workers,
            grpc_port,
            raft_node_id,
            raft_node_addr,
            raft_auto_init: s.raft_auto_init.unwrap_or(raft_node_id == 1),
            raft_join_addr: text_or_default(s.raft_join_addr, ""),
            raft_snapshot_log_size: s.raft_snapshot_log_size.unwrap_or(10000),
            console_login_timeout: s.console_login_timeout.unwrap_or(86400),
            console_login_one_hour_limit: s.console_login_one_hour_limit.unwrap_or(5),
            gmt_fixed_offset_hours: s.gmt_fixed_offset_hours,
            openapi_login_timeout: s.openapi_login_timeout.unwrap_or(3600),
            openapi_login_one_minute_limit: s.openapi_login_one_minute_limit.unwrap_or(100),
            openapi_enable_auth: s.openapi_enable_auth.unwrap_or(false),
            cluster_token: text_or_default(s.cluster_token, ""),
        }
    }
    pub fn get_grpc_addr(&self) -> (r: String)
        ensures
            r@ == any_addr(self.grpc_port),
    {
        listen_addr(self.grpc_port)
    }

    pub fn get_http_addr(&self) -> (r: String)
        ensures
            r@ == any_addr(self.http_port),
    {
        listen_addr(self.http_port)
    }

    pub fn get_http_console_addr(&self) -> (r: String)
        ensures
            r@ == any_addr(self.http_console_port),
    {
        listen_addr(self.http_console_port)
    }
}

} // verus!
