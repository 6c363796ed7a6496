use vstd::prelude::*;

verus! {

/// The abstract identity of a service: namespace, group and service name.
pub type ServiceKeyView = (Seq<char>, Seq<char>, Seq<char>);

/// The abstract identity of an instance: its service and its host.
pub type InstanceKeyView = (Seq<char>, Seq<char>, Seq<char>, Seq<char>, u32);

/// The abstract metadata of an instance: its entries in order.
pub type MetadataView = Seq<(Seq<char>, Seq<char>)>;

pub open spec fn key_of(svc: ServiceKeyView, ip: Seq<char>, port: u32) -> InstanceKeyView {
    (svc.0, svc.1, svc.2, ip, port)
}

pub open spec fn metadata_view(m: Seq<(String, String)>) -> MetadataView {
    m.map_values(|e: (String, String)| (e.0@, e.1@))
}

pub open spec fn str_views(v: Seq<String>) -> Seq<Seq<char>> {
    v.map_values(|s: String| s@)
}

/// Whether `s` is among `names`.
pub fn contains_name(names: &Vec<String>, s: &String) -> (r: bool)
    ensures
        r == str_views(names@).contains(s@),
{
    let mut i: usize = 0;
    while i < names.len()
        invariant
            i <= names.len(),
            forall|x: int| 0 <= x < i ==> names@[x]@ != s@,
        decreases names.len() - i,
    {
        if names[i] == *s {
            assert(str_views(names@)[i as int] == s@);
            return true;
        }
        i = i + 1;
    }
    proof {
        if str_views(names@).contains(s@) {
            let x = choose|x: int| 0 <= x < str_views(names@).len() && str_views(names@)[x] == s@;
            assert(names@[x]@ == s@);
        }
    }
    false
}

/// No key occurs twice among the entries: they form a mapping.
pub open spec fn entries_unique(m: MetadataView) -> bool {
    forall|i: int, j: int| 0 <= i < j < m.len() ==> m[i].0 != m[j].0
}

/// Whether no key occurs twice among the entries.
pub fn has_unique_keys(m: &Vec<(String, String)>) -> (r: bool)
    ensures
        r == entries_unique(metadata_view(m@)),
{
    let ghost mv = metadata_view(m@);
    let mut i: usize = 0;
    while i < m.len()
        invariant
            i <= m.len(),
            mv == metadata_view(m@),
            forall|a: int, b: int| 0 <= a < b < mv.len() && a < i ==> mv[a].0 != mv[b].0,
        decreases m.len() - i,
    {
        let mut j: usize = i + 1;
        while j < m.len()
            invariant
                i < m.len(),
                i < j <= m.len(),
                mv == metadata_view(m@),
                forall|a: int, b: int| 0 <= a < b < mv.len() && a < i ==> mv[a].0 != mv[b].0,
                forall|b: int| i < b < j ==> mv[i as int].0 != mv[b].0,
            decreases m.len() - j,
        {
            if m[i].0 == m[j].0 {
                assert(mv[i as int].0 == mv[j as int].0);
                return false;
            }
            j = j + 1;
        }
        i = i + 1;
    }
    true
}

/// Identifies a service.
#[derive(Clone, Debug)]
pub struct ServiceKey {
    pub namespace_id: String,
    pub group_name: String,
    pub service_name: String,
}

impl View for ServiceKey {
    type V = ServiceKeyView;

    open spec fn view(&self) -> ServiceKeyView {
        (self.namespace_id@, self.group_name@, self.service_name@)
    }
}

impl ServiceKey {
    pub fn new(namespace_id: &str, group_name: &str, service_name: &str) -> (r: Self)
        ensures
            r@ == (namespace_id@, group_name@, service_name@),
    {
        ServiceKey {
            namespace_id: String::from_str(namespace_id),
            group_name: String::from_str(group_name),
            service_name: String::from_str(service_name),
        }
    }

    pub fn same_as(&self, other: &ServiceKey) -> (r: bool)
        ensures
            r == (self@ == other@),
    {
        self.namespace_id == other.namespace_id && self.group_name == other.group_name
            && self.service_name == other.service_name
    }

    pub fn duplicate(&self) -> (r: ServiceKey)
        ensures
            r@ == self@,
    {
        ServiceKey {
            namespace_id: self.namespace_id.clone(),
            group_name: self.group_name.clone(),
            service_name: self.service_name.clone(),
        }
    }
}

/// Identifies an instance within its service.
#[derive(Clone, Debug)]
pub struct InstanceShortKey {
    pub ip: String,
    pub port: u32,
}

impl View for InstanceShortKey {
    type V = (Seq<char>, u32);

    open spec fn view(&self) -> (Seq<char>, u32) {
        (self.ip@, self.port)
    }
}

impl InstanceShortKey {
    pub fn new(ip: &str, port: u32) -> (r: Self)
        ensures
            r@ == (ip@, port),
    {
        InstanceShortKey { ip: String::from_str(ip), port }
    }
}

/// Identifies an instance globally.
#[derive(Clone, Debug)]
pub struct InstanceKey {
    pub namespace_id: String,
    pub group_name: String,
    pub service_name: String,
    pub ip: String,
    pub port: u32,
}

impl View for InstanceKey {
    type V = InstanceKeyView;

    open spec fn view(&self) -> InstanceKeyView {
        (self.namespace_id@, self.group_name@, self.service_name@, self.ip@, self.port)
    }
}

impl InstanceKey {
    pub fn new(service: &ServiceKey, host: &InstanceShortKey) -> (r: Self)
        ensures
            r@ == key_of(service@, host.ip@, host.port),
    {
        InstanceKey {
            namespace_id: service.namespace_id.clone(),
            group_name: service.group_name.clone(),
            service_name: service.service_name.clone(),
            ip: host.ip.clone(),
            port: host.port,
        }
    }

    pub fn service_key(&self) -> (r: ServiceKey)
        ensures
            r@ == (self@.0, self@.1, self@.2),
    {
        ServiceKey {
            namespace_id: self.namespace_id.clone(),
            group_name: self.group_name.clone(),
            service_name: self.service_name.clone(),
        }
    }

    pub fn short_key(&self) -> (r: InstanceShortKey)
        ensures
            r@ == (self@.3, self@.4),
    {
        InstanceShortKey { ip: self.ip.clone(), port: self.port }
    }
}

/// The abstract value of an instance.
pub struct InstanceView {
    pub ip: Seq<char>,
    pub port: u32,
    pub weight_milli: u32,
    pub enabled: bool,
    pub healthy: bool,
    pub ephemeral: bool,
    pub metadata: MetadataView,
    pub namespace_id: Seq<char>,
    pub group_name: Seq<char>,
    pub service_name: Seq<char>,
    pub cluster_name: Seq<char>,
    pub app_name: Seq<char>,
    pub last_modified_millis: i64,
    pub last_heartbeat_millis: i64,
}

impl InstanceView {
    pub open spec fn key(self) -> InstanceKeyView {
        (self.namespace_id, self.group_name, self.service_name, self.ip, self.port)
    }

    pub open spec fn service_key(self) -> ServiceKeyView {
        (self.namespace_id, self.group_name, self.service_name)
    }
}

/// A registered endpoint of a service. The weight is held in thousandths
/// (`1000` is a weight of one).
#[derive(Clone, Debug)]
pub struct Instance {
    pub ip: String,
    pub port: u32,
    pub weight_milli: u32,
    pub enabled: bool,
    pub healthy: bool,
    pub ephemeral: bool,
    pub metadata: Vec<(String, String)>,
    pub namespace_id: String,
    pub group_name: String,
    pub service_name: String,
    pub cluster_name: String,
    pub app_name: String,
    pub last_modified_millis: i64,
    pub last_heartbeat_millis: i64,
}

impl View for Instance {
    type V = InstanceView;

    open spec fn view(&self) -> InstanceView {
        InstanceView {
            ip: self.ip@,
            port: self.port,
            weight_milli: self.weight_milli,
            enabled: self.enabled,
            healthy: self.healthy,
            ephemeral: self.ephemeral,
            metadata: metadata_view(self.metadata@),
            namespace_id: self.namespace_id@,
            group_name: self.group_name@,
            service_name: self.service_name@,
            cluster_name: self.cluster_name@,
            app_name: self.app_name@,
            last_modified_millis: self.last_modified_millis,
            last_heartbeat_millis: self.last_heartbeat_millis,
        }
    }
}

pub fn copy_metadata(m: &Vec<(String, String)>) -> (r: Vec<(String, String)>)
    ensures
        r@ == m@,
{
    let mut out: Vec<(String, String)> = Vec::new();
    let mut i: usize = 0;
    while i < m.len()
        invariant
            i <= m.len(),
            out@ == m@.take(i as int),
        decreases m.len() - i,
    {
        let k = m[i].0.clone();
        let v = m[i].1.clone();
        out.push((k, v));
        i = i + 1;
        assert(out@ =~= m@.take(i as int));
    }
    assert(m@.take(m.len() as int) =~= m@);
    out
}

impl Instance {
    pub fn duplicate(&self) -> (r: Instance)
        ensures
            r@ == self@,
    {
        Instance {
            ip: self.ip.clone(),
            port: self.port,
            weight_milli: self.weight_milli,
            enabled: self.enabled,
            healthy: self.healthy,
            ephemeral: self.ephemeral,
            metadata: copy_metadata(&self.metadata),
            namespace_id: self.namespace_id.clone(),
            group_name: self.group_name.clone(),
            service_name: self.service_name.clone(),
            cluster_name: self.cluster_name.clone(),
            app_name: self.app_name.clone(),
            last_modified_millis: self.last_modified_millis,
            last_heartbeat_millis: self.last_heartbeat_millis,
        }
    }

    pub fn key(&self) -> (r: InstanceKey)
        ensures
            r@ == self@.key(),
    {
        InstanceKey {
            namespace_id: self.namespace_id.clone(),
            group_name: self.group_name.clone(),
            service_name: self.service_name.clone(),
            ip: self.ip.clone(),
            port: self.port,
        }
    }

    pub fn service_key(&self) -> (r: ServiceKey)
        ensures
            r@ == self@.service_key(),
    {
        ServiceKey {
            namespace_id: self.namespace_id.clone(),
            group_name: self.group_name.clone(),
            service_name: self.service_name.clone(),
        }
    }

    pub fn short_key(&self) -> (r: InstanceShortKey)
        ensures
            r@ == (self@.ip, self@.port),
    {
        InstanceShortKey { ip: self.ip.clone(), port: self.port }
    }

    pub fn has_key(&self, k: &InstanceKey) -> (r: bool)
        ensures
            r == (self@.key() == k@),
    {
        self.port == k.port && self.ip == k.ip && self.namespace_id == k.namespace_id
            && self.group_name == k.group_name && self.service_name == k.service_name
    }

    pub fn in_service(&self, k: &ServiceKey) -> (r: bool)
        ensures
            r == (self@.service_key() == k@),
    {
        self.namespace_id == k.namespace_id && self.group_name == k.group_name
            && self.service_name == k.service_name
    }
}

/// The abstract value of a registration record.
pub struct RegisterParamView {
    pub ip: Seq<char>,
    pub port: u32,
    pub weight_milli: u32,
    pub enabled: bool,
    pub healthy: bool,
    pub ephemeral: bool,
    pub metadata: MetadataView,
    pub namespace_id: Seq<char>,
    pub group_name: Seq<char>,
    pub service_name: Seq<char>,
    pub cluster_name: Option<Seq<char>>,
    pub app_name: Option<Seq<char>>,
    pub last_modified_millis: i64,
}

pub open spec fn opt_view(o: Option<String>) -> Option<Seq<char>> {
    match o {
        Some(s) => Some(s@),
        None => None,
    }
}

/// The record that registers an instance through the replicated log and that
/// a snapshot holds for each perpetual instance.
#[derive(Clone, Debug)]
pub struct InstanceRegisterParam {
    pub ip: String,
    pub port: u32,
    pub weight_milli: u32,
    pub enabled: bool,
    pub healthy: bool,
    pub ephemeral: bool,
    pub metadata: Vec<(String, String)>,
    pub namespace_id: String,
    pub group_name: String,
    pub service_name: String,
    pub cluster_name: Option<String>,
    pub app_name: Option<String>,
    pub last_modified_millis: i64,
}

impl View for InstanceRegisterParam {
    type V = RegisterParamView;

    open spec fn view(&self) -> RegisterParamView {
        RegisterParamView {
            ip: self.ip@,
            port: self.port,
            weight_milli: self.weight_milli,
            enabled: self.enabled,
            healthy: self.healthy,
            ephemeral: self.ephemeral,
            metadata: metadata_view(self.metadata@),
            namespace_id: self.namespace_id@,
            group_name: self.group_name@,
            service_name: self.service_name@,
            cluster_name: opt_view(self.cluster_name),
            app_name: opt_view(self.app_name),
            last_modified_millis: self.last_modified_millis,
        }
    }
}

/// The cluster an instance joins when its record names none.
pub open spec fn default_cluster() -> Seq<char> {
    seq!['D', 'E', 'F', 'A', 'U', 'L', 'T']
}

/// The instance that a record describes.
pub open spec fn instance_of_param(p: RegisterParamView) -> InstanceView {
    InstanceView {
        ip: p.ip,
        port: p.port,
        weight_milli: p.weight_milli,
        enabled: p.enabled,
        healthy: p.healthy,
        ephemeral: p.ephemeral,
        metadata: p.metadata,
        namespace_id: p.namespace_id,
        group_name: p.group_name,
        service_name: p.service_name,
        cluster_name: match p.cluster_name {
            Some(c) => c,
            None => default_cluster(),
        },
        app_name: match p.app_name {
            Some(a) => a,
            None => Seq::empty(),
        },
        last_modified_millis: p.last_modified_millis,
        last_heartbeat_millis: 0,
    }
}

/// The record that describes an instance.
pub open spec fn param_of_instance(i: InstanceView) -> RegisterParamView {
    RegisterParamView {
        ip: i.ip,
        port: i.port,
        weight_milli: i.weight_milli,
        enabled: i.enabled,
        healthy: i.healthy,
        ephemeral: i.ephemeral,
        metadata: i.metadata,
        namespace_id: i.namespace_id,
        group_name: i.group_name,
        service_name: i.service_name,
        cluster_name: Some(i.cluster_name),
        app_name: Some(i.app_name),
        last_modified_millis: i.last_modified_millis,
    }
}

impl Default for InstanceRegisterParam {
    /// A record with weight one, enabled, healthy and ephemeral, and empty names.
    fn default() -> (r: Self)
        ensures
            r@ == (RegisterParamView {
                ip: Seq::empty(),
                port: 0,
                weight_milli: 1000,
                enabled: true,
                healthy: true,
                ephemeral: true,
                metadata: Seq::empty(),
                namespace_id: Seq::empty(),
                group_name: Seq::empty(),
                service_name: Seq::empty(),
                cluster_name: None,
                app_name: None,
                last_modified_millis: 0,
            }),
    {
        let r = InstanceRegisterParam {
            ip: String::new(),
            port: 0,
            weight_milli: 1000,
            enabled: true,
            healthy: true,
            ephemeral: true,
            metadata: Vec::new(),
            namespace_id: String::new(),
            group_name: String::new(),
            service_name: String::new(),
            cluster_name: None,
            app_name: None,
            last_modified_millis: 0,
        };
        assert(metadata_view(r.metadata@) =~= Seq::empty());
        r
    }
}

impl InstanceRegisterParam {
    /// The record that describes `instance`.
    pub fn from_instance(instance: &Instance) -> (r: Self)
        ensures
            r@ == param_of_instance(instance@),
    {
        InstanceRegisterParam {
            ip: instance.ip.clone(),
            port: instance.port,
            weight_milli: instance.weight_milli,
            enabled: instance.enabled,
            healthy: instance.healthy,
            ephemeral: instance.ephemeral,
            metadata: copy_metadata(&instance.metadata),
            namespace_id: instance.namespace_id.clone(),
            group_name: instance.group_name.clone(),
            service_name: instance.service_name.clone(),
            cluster_name: Some(instance.cluster_name.clone()),
            app_name: Some(instance.app_name.clone()),
            last_modified_millis: instance.last_modified_millis,
        }
    }

    /// The instance that this record describes.
    pub fn to_instance(&self) -> (r: Instance)
        ensures
            r@ == instance_of_param(self@),
    {
        let cluster_name = match &self.cluster_name {
            Some(c) => c.clone(),
            None => {
                let d = String::from_str("DEFAULT");
                proof {
                    reveal_strlit("DEFAULT");
                }
                assert(d@ =~= default_cluster());
                d
            },
        };
        let app_name = match &self.app_name {
            Some(a) => a.clone(),
            None => String::new(),
        };
        Instance {
            ip: self.ip.clone(),
            port: self.port,
            weight_milli: self.weight_milli,
            enabled: self.enabled,
            healthy: self.healthy,
            ephemeral: self.ephemeral,
            metadata: copy_metadata(&self.metadata),
            namespace_id: self.namespace_id.clone(),
            group_name: self.group_name.clone(),
            service_name: self.service_name.clone(),
            cluster_name,
            app_name,
            last_modified_millis: self.last_modified_millis,
            last_heartbeat_millis: 0,
        }
    }
}

} // verus!
