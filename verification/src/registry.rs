//! Service registry: instances of named services, each registered under
//! the node path `/services/<service>/<instance>`.
use vstd::prelude::*;

use std::collections::HashMap;

use crate::error::ErrorCode;
use crate::model::{NodePath, has_parent_segment, normalize_path};
use crate::strmap::{StrMap, entries_insert, entries_remove, has_key, key_pos, keys_unique, lookup, map_entries, lemma_map_entries, lemma_key_pos, lemma_lookup_insert, lemma_remove_unique};
use crate::text::{owned, push_char, push_str_chars};

verus! {

/// The health of an instance.
#[derive(Debug, Clone, Copy, PartialEq, Eq, Structural)]
pub enum HealthStatus {
    Healthy,
    Unhealthy,
    Unknown,
}

/// An instance as a value.
pub struct ServiceInstanceView {
    pub instance_id: Seq<char>,
    pub service_name: Seq<char>,
    pub host: Seq<char>,
    pub port: u16,
    pub health: HealthStatus,
    pub metadata: Map<String, String>,
}

/// One running instance of a service.
#[derive(Debug)]
pub struct ServiceInstance {
    /// Chosen by the client; unique within its service.
    pub instance_id: String,
    pub service_name: String,
    pub host: String,
    pub port: u16,
    pub health: HealthStatus,
    /// Free-form key/value metadata.
    pub metadata: HashMap<String, String>,
}

impl View for ServiceInstance {
    type V = ServiceInstanceView;

    open spec fn view(&self) -> ServiceInstanceView {
        ServiceInstanceView {
            instance_id: self.instance_id@,
            service_name: self.service_name@,
            host: self.host@,
            port: self.port,
            health: self.health,
            metadata: self.metadata@,
        }
    }
}

impl Clone for ServiceInstance {
    fn clone(&self) -> (r: ServiceInstance)
        ensures
            r@ == self@,
    {
        ServiceInstance {
            instance_id: self.instance_id.clone(),
            service_name: self.service_name.clone(),
            host: self.host.clone(),
            port: self.port,
            health: self.health,
            metadata: self.metadata.clone(),
        }
    }
}

/// The instances of one service, as listed.
#[derive(Debug, Clone)]
pub struct ServiceInstances {
    pub service_name: String,
    pub instances: Vec<ServiceInstance>,
}

/// The instance with another health.
pub open spec fn with_health(i: ServiceInstanceView, health: HealthStatus) -> ServiceInstanceView {
    ServiceInstanceView {
        instance_id: i.instance_id,
        service_name: i.service_name,
        host: i.host,
        port: i.port,
        health,
        metadata: i.metadata,
    }
}

/// The text `/services/`.
pub open spec fn services_root() -> Seq<char> {
    seq!['/', 's', 'e', 'r', 'v', 'i', 'c', 'e', 's', '/']
}

/// The path text of an instance of a service.
pub open spec fn instance_path_text(service: Seq<char>, id: Seq<char>) -> Seq<char> {
    services_root() + service + seq!['/'] + id
}

/// Instances by id, as values.
pub open spec fn instance_entries_view(m: Seq<(Seq<char>, ServiceInstance)>) -> Seq<(Seq<char>, ServiceInstanceView)> {
    map_entries(m, |i: ServiceInstance| i@)
}

/// The instances of a service by id, as values.
pub open spec fn instances_view(m: StrMap<ServiceInstance>) -> Seq<(Seq<char>, ServiceInstanceView)> {
    instance_entries_view(m@)
}

/// The registry as values.
pub open spec fn registry_view(e: Seq<(Seq<char>, StrMap<ServiceInstance>)>) -> Seq<(Seq<char>, Seq<(Seq<char>, ServiceInstanceView)>)> {
    map_entries(e, |m: StrMap<ServiceInstance>| instances_view(m))
}

/// The instances of `service` (none if it has no entry).
pub open spec fn service_entries(v: Seq<(Seq<char>, Seq<(Seq<char>, ServiceInstanceView)>)>, service: Seq<char>) -> Seq<(Seq<char>, ServiceInstanceView)> {
    match lookup(v, service) {
        Some(s) => s,
        None => Seq::empty(),
    }
}

/// The registry after registering `inst` under its service and id.
pub open spec fn registered(v: Seq<(Seq<char>, Seq<(Seq<char>, ServiceInstanceView)>)>, inst: ServiceInstanceView) -> Seq<(Seq<char>, Seq<(Seq<char>, ServiceInstanceView)>)> {
    entries_insert(v, inst.service_name, entries_insert(service_entries(v, inst.service_name), inst.instance_id, inst))
}

/// Unregistering an instance: the registry afterwards, or the refusal
/// when the service or the instance is unknown. A service left without
/// instances is dropped.
pub open spec fn unregister_result(v: Seq<(Seq<char>, Seq<(Seq<char>, ServiceInstanceView)>)>, service: Seq<char>, id: Seq<char>) -> Result<Seq<(Seq<char>, Seq<(Seq<char>, ServiceInstanceView)>)>, ErrorCode> {
    match lookup(v, service) {
        None => Err(ErrorCode::ServiceNotFound),
        Some(s) => if !has_key(s, id) {
            Err(ErrorCode::ServiceNotFound)
        } else if entries_remove(s, id).len() == 0 {
            Ok(entries_remove(v, service))
        } else {
            Ok(entries_insert(v, service, entries_remove(s, id)))
        },
    }
}

/// Setting an instance's health: the registry afterwards, or the refusal
/// when the service or the instance is unknown.
pub open spec fn health_result(v: Seq<(Seq<char>, Seq<(Seq<char>, ServiceInstanceView)>)>, service: Seq<char>, id: Seq<char>, health: HealthStatus) -> Result<Seq<(Seq<char>, Seq<(Seq<char>, ServiceInstanceView)>)>, ErrorCode> {
    match lookup(v, service) {
        None => Err(ErrorCode::ServiceNotFound),
        Some(s) => match lookup(s, id) {
            None => Err(ErrorCode::ServiceNotFound),
            Some(i) => Ok(entries_insert(v, service, entries_insert(s, id, with_health(i, health)))),
        },
    }
}

proof fn lemma_instances_view(m: Seq<(Seq<char>, ServiceInstance)>, k: Seq<char>, i: ServiceInstance)
    requires
        keys_unique(m),
    ensures
        keys_unique(instance_entries_view(m)),
        key_pos(instance_entries_view(m), k) == key_pos(m, k),
        lookup(instance_entries_view(m), k) == (match lookup(m, k) {
            Some(x) => Some(x@),
            None => None::<ServiceInstanceView>,
        }),
        instance_entries_view(entries_insert(m, k, i)) == entries_insert(instance_entries_view(m), k, i@),
        instance_entries_view(entries_remove(m, k)) == entries_remove(instance_entries_view(m), k),
{
    lemma_map_entries(m, |i: ServiceInstance| i@, k, i);
}

proof fn lemma_registry_view(e: Seq<(Seq<char>, StrMap<ServiceInstance>)>, k: Seq<char>, m: StrMap<ServiceInstance>)
    requires
        keys_unique(e),
    ensures
        keys_unique(registry_view(e)),
        key_pos(registry_view(e), k) == key_pos(e, k),
        lookup(registry_view(e), k) == (match lookup(e, k) {
            Some(x) => Some(instances_view(x)),
            None => None::<Seq<(Seq<char>, ServiceInstanceView)>>,
        }),
        registry_view(entries_insert(e, k, m)) == entries_insert(registry_view(e), k, instances_view(m)),
        registry_view(entries_remove(e, k)) == entries_remove(registry_view(e), k),
{
    lemma_map_entries(e, |m: StrMap<ServiceInstance>| instances_view(m), k, m);
}

/// A copy of the instances of one service, in order.
fn clone_instances(m: &StrMap<ServiceInstance>) -> (r: Vec<ServiceInstance>)
    ensures
        r@.map_values(|i: ServiceInstance| i@) == instances_view(*m).map_values(|e: (Seq<char>, ServiceInstanceView)| e.1),
{
    let ghost iv = instances_view(*m);
    let mut out: Vec<ServiceInstance> = Vec::new();
    let mut i: usize = 0;
    while i < m.len()
        invariant
            i <= m@.len(),
            iv == instances_view(*m),
            out@.len() == i,
            forall|j: int| 0 <= j < i ==> (#[trigger] out@[j])@ == iv[j].1,
        decreases m@.len() - i,
    {
        out.push(m.value_at(i).clone());
        i = i + 1;
    }
    assert(out@.map_values(|i: ServiceInstance| i@) =~= iv.map_values(|e: (Seq<char>, ServiceInstanceView)| e.1));
    out
}

/// The registered instances, by service.
#[derive(Debug)]
pub struct ServiceRegistry {
    instances: StrMap<StrMap<ServiceInstance>>,
}

impl View for ServiceRegistry {
    type V = Seq<(Seq<char>, Seq<(Seq<char>, ServiceInstanceView)>)>;

    /// Each service with its instances, in registration order.
    closed spec fn view(&self) -> Seq<(Seq<char>, Seq<(Seq<char>, ServiceInstanceView)>)> {
        registry_view(self.instances@)
    }
}

impl Default for ServiceRegistry {
    fn default() -> (r: ServiceRegistry)
        ensures
            r@ == Seq::<(Seq<char>, Seq<(Seq<char>, ServiceInstanceView)>)>::empty(),
    {
        ServiceRegistry::new()
    }
}

impl ServiceRegistry {
    /// An empty registry.
    pub fn new() -> (r: ServiceRegistry)
        ensures
            r@ == Seq::<(Seq<char>, Seq<(Seq<char>, ServiceInstanceView)>)>::empty(),
    {
        let r = ServiceRegistry { instances: StrMap::new() };
        assert(r@ =~= Seq::<(Seq<char>, Seq<(Seq<char>, ServiceInstanceView)>)>::empty());
        r
    }

    /// Registers an instance, replacing one with the same service and id,
    /// and gives its node path. Names that do not give a valid path are
    /// refused.
    pub fn register(&mut self, instance: ServiceInstance) -> (r: Result<NodePath, ErrorCode>)
        ensures
            has_parent_segment(instance_path_text(instance@.service_name, instance@.instance_id)) ==> {
                &&& r matches Err(e) && e == ErrorCode::InvalidPath
                &&& final(self)@ == old(self)@
            },
            !has_parent_segment(instance_path_text(instance@.service_name, instance@.instance_id)) ==> {
                &&& r matches Ok(p) && p@ == normalize_path(instance_path_text(instance@.service_name, instance@.instance_id))
                &&& final(self)@ == registered(old(self)@, instance@)
            },
    {
        let mut text = String::new();
        push_str_chars(&mut text, "/services/");
        push_str_chars(&mut text, instance.service_name.as_str());
        push_char(&mut text, '/');
        push_str_chars(&mut text, instance.instance_id.as_str());
        proof {
            reveal_strlit("/services/");
            assert(text@ =~= instance_path_text(instance@.service_name, instance@.instance_id));
        }
        let path = match NodePath::parse(text.as_str()) {
            Ok(p) => p,
            Err(_) => return Err(ErrorCode::InvalidPath),
        };
        let service_name = instance.service_name.clone();
        let instance_id = instance.instance_id.clone();
        let ghost inst = instance@;
        proof {
            use_type_invariant(&self.instances);
            let m: StrMap<ServiceInstance> = vstd::pervasive::arbitrary();
            lemma_registry_view(self.instances@, service_name@, m);
            lemma_key_pos(self.instances@, service_name@);
        }
        match self.instances.find(service_name.as_str()) {
            Some(i) => {
                let mut inner = self.instances.replace_value_at(i, StrMap::new());
                proof {
                    use_type_invariant(&inner);
                    lemma_instances_view(inner@, instance_id@, instance);
                }
                inner.insert(instance_id, instance);
                let ghost new_inner = inner;
                proof { lemma_registry_view(old(self).instances@, service_name@, new_inner); }
                self.instances.set_value_at(i, inner);
                assert(self.instances@ =~= entries_insert(old(self).instances@, service_name@, new_inner));
                assert(service_entries(old(self)@, service_name@) == instances_view(old(self).instances@[i as int].1));
                assert(instances_view(new_inner) == entries_insert(service_entries(old(self)@, service_name@), instance_id@, inst));
                assert(self@ == registered(old(self)@, inst));
            },
            None => {
                let mut inner: StrMap<ServiceInstance> = StrMap::new();
                proof {
                    lemma_instances_view(inner@, instance_id@, instance);
                    assert(instance_entries_view(inner@) =~= Seq::<(Seq<char>, ServiceInstanceView)>::empty());
                }
                inner.insert(instance_id, instance);
                let ghost new_inner = inner;
                proof {
                    lemma_registry_view(old(self).instances@, service_name@, new_inner);
                    assert(service_entries(old(self)@, inst.service_name) =~= Seq::<(Seq<char>, ServiceInstanceView)>::empty());
                }
                self.instances.insert(service_name, inner);
                assert(self@ == registered(old(self)@, inst));
            },
        }
        Ok(path)
    }

    /// Unregisters an instance (see `unregister_result`).
    pub fn unregister(&mut self, service_name: &str, instance_id: &str) -> (r: Result<(), ErrorCode>)
        ensures
            match unregister_result(old(self)@, service_name@, instance_id@) {
                Ok(v) => r is Ok && final(self)@ == v,
                Err(e) => r matches Err(e2) && e2 == e && final(self)@ == old(self)@,
            },
    {
        proof {
            use_type_invariant(&self.instances);
            let m: StrMap<ServiceInstance> = vstd::pervasive::arbitrary();
            lemma_registry_view(self.instances@, service_name@, m);
            lemma_key_pos(self.instances@, service_name@);
        }
        let i = match self.instances.find(service_name) {
            None => return Err(ErrorCode::ServiceNotFound),
            Some(i) => i,
        };
        let inner_ref = self.instances.value_at(i);
        proof {
            let x: ServiceInstance = vstd::pervasive::arbitrary();
            use_type_invariant(inner_ref);
            lemma_instances_view(self.instances@[i as int].1@, instance_id@, x);
            lemma_key_pos(self.instances@[i as int].1@, instance_id@);
        }
        if !inner_ref.contains_key(instance_id) {
            return Err(ErrorCode::ServiceNotFound);
        }
        let mut inner = self.instances.replace_value_at(i, StrMap::new());
        let ghost mid = self.instances@;
        let _ = inner.remove(instance_id);
        if inner.is_empty() {
            proof {
                use_type_invariant(&self.instances);
                lemma_key_pos(mid, service_name@);
                assert(mid[i as int].0 == service_name@);
            }
            let _ = self.instances.remove(service_name);
            proof {
                assert(instances_view(inner) =~= Seq::<(Seq<char>, ServiceInstanceView)>::empty());
            }
            assert(self.instances@ =~= entries_remove(old(self).instances@, service_name@));
        } else {
            let ghost new_inner = inner;
            proof { lemma_registry_view(old(self).instances@, service_name@, new_inner); }
            self.instances.set_value_at(i, inner);
            assert(self.instances@ =~= entries_insert(old(self).instances@, service_name@, new_inner));
        }
        Ok(())
    }

    /// The instances of a service, in registration order; none for an
    /// unknown service.
    pub fn list(&self, service_name: &str) -> (r: Result<ServiceInstances, ErrorCode>)
        ensures
            r matches Ok(si)
                && si.service_name@ == service_name@
                && si.instances@.map_values(|i: ServiceInstance| i@)
                    == service_entries(self@, service_name@).map_values(|e: (Seq<char>, ServiceInstanceView)| e.1),
    {
        proof {
            use_type_invariant(&self.instances);
            let m: StrMap<ServiceInstance> = vstd::pervasive::arbitrary();
            lemma_registry_view(self.instances@, service_name@, m);
        }
        let instances = match self.instances.get(service_name) {
            Some(m) => clone_instances(m),
            None => {
                let v: Vec<ServiceInstance> = Vec::new();
                assert(v@.map_values(|i: ServiceInstance| i@) =~= Seq::<(Seq<char>, ServiceInstanceView)>::empty().map_values(|e: (Seq<char>, ServiceInstanceView)| e.1));
                v
            },
        };
        Ok(ServiceInstances { service_name: owned(service_name), instances })
    }

    /// The names of the registered services, in registration order.
    pub fn list_services(&self) -> (r: Vec<String>)
        ensures
            r@.map_values(|s: String| s@) == self@.map_values(|e: (Seq<char>, Seq<(Seq<char>, ServiceInstanceView)>)| e.0),
    {
        let ghost v = self@;
        let mut out: Vec<String> = Vec::new();
        let mut i: usize = 0;
        while i < self.instances.len()
            invariant
                i <= v.len(),
                v == self@,
                v.len() == self.instances@.len(),
                out@.len() == i,
                forall|j: int| 0 <= j < i ==> (#[trigger] out@[j])@ == v[j].0,
            decreases v.len() - i,
        {
            assert(v[i as int].0 == self.instances@[i as int].0);
            out.push(self.instances.key_at(i).clone());
            i = i + 1;
        }
        assert(out@.map_values(|s: String| s@) =~= v.map_values(|e: (Seq<char>, Seq<(Seq<char>, ServiceInstanceView)>)| e.0));
        out
    }

    /// The number of instances of a service.
    pub fn instance_count(&self, service_name: &str) -> (r: usize)
        ensures
            r == service_entries(self@, service_name@).len(),
    {
        proof {
            use_type_invariant(&self.instances);
            let m: StrMap<ServiceInstance> = vstd::pervasive::arbitrary();
            lemma_registry_view(self.instances@, service_name@, m);
        }
        match self.instances.get(service_name) {
            Some(m) => m.len(),
            None => 0,
        }
    }

    /// One instance of a service.
    pub fn get(&self, service_name: &str, instance_id: &str) -> (r: Option<ServiceInstance>)
        ensures
            match lookup(service_entries(self@, service_name@), instance_id@) {
                Some(x) => r matches Some(i) && i@ == x,
                None => r is None,
            },
    {
        proof {
            use_type_invariant(&self.instances);
            let m: StrMap<ServiceInstance> = vstd::pervasive::arbitrary();
            lemma_registry_view(self.instances@, service_name@, m);
        }
        match self.instances.get(service_name) {
            Some(m) => {
                proof {
                    use_type_invariant(m);
                    let x: ServiceInstance = vstd::pervasive::arbitrary();
                    lemma_instances_view(m@, instance_id@, x);
                }
                match m.get(instance_id) {
                    Some(i) => Some(i.clone()),
                    None => None,
                }
            },
            None => None,
        }
    }

    /// Sets the health of an instance (see `health_result`).
    pub fn update_health(&mut self, service_name: &str, instance_id: &str, health: HealthStatus) -> (r: Result<(), ErrorCode>)
        ensures
            match health_result(old(self)@, service_name@, instance_id@, health) {
                Ok(v) => r is Ok && final(self)@ == v,
                Err(e) => r matches Err(e2) && e2 == e && final(self)@ == old(self)@,
            },
    {
        proof {
            use_type_invariant(&self.instances);
            let m: StrMap<ServiceInstance> = vstd::pervasive::arbitrary();
            lemma_registry_view(self.instances@, service_name@, m);
            lemma_key_pos(self.instances@, service_name@);
        }
        let i = match self.instances.find(service_name) {
            None => return Err(ErrorCode::ServiceNotFound),
            Some(i) => i,
        };
        let inner_ref = self.instances.value_at(i);
        proof {
            use_type_invariant(inner_ref);
            let x: ServiceInstance = vstd::pervasive::arbitrary();
            lemma_instances_view(inner_ref@, instance_id@, x);
            lemma_key_pos(inner_ref@, instance_id@);
        }
        let j = match inner_ref.find(instance_id) {
            None => return Err(ErrorCode::ServiceNotFound),
            Some(j) => j,
        };
        let mut inner = self.instances.replace_value_at(i, StrMap::new());
        let ghost before = inner@;
        let placeholder = ServiceInstance {
            instance_id: String::new(),
            service_name: String::new(),
            host: String::new(),
            port: 0,
            health: HealthStatus::Unknown,
            metadata: HashMap::new(),
        };
        let mut inst = inner.replace_value_at(j, placeholder);
        let ghost x0 = inst@;
        inst.health = health;
        assert(inst@ == with_health(x0, health));
        inner.set_value_at(j, inst);
        let ghost new_inner = inner;
        proof {
            lemma_instances_view(before, instance_id@, inst);
            assert(inner@ =~= entries_insert(before, instance_id@, inst));
            lemma_registry_view(old(self).instances@, service_name@, new_inner);
        }
        self.instances.set_value_at(i, inner);
        assert(self.instances@ =~= entries_insert(old(self).instances@, service_name@, new_inner));
        Ok(())
    }

    /// Removes every instance of every service.
    pub fn clear(&mut self)
        ensures
            final(self)@ == Seq::<(Seq<char>, Seq<(Seq<char>, ServiceInstanceView)>)>::empty(),
    {
        self.instances.clear();
        assert(self@ =~= Seq::<(Seq<char>, Seq<(Seq<char>, ServiceInstanceView)>)>::empty());
    }
}

/// After registering an instance, looking it up under its service and id
/// gives it back.
pub proof fn lemma_register_then_get(v: Seq<(Seq<char>, Seq<(Seq<char>, ServiceInstanceView)>)>, inst: ServiceInstanceView)
    ensures
        lookup(service_entries(registered(v, inst), inst.service_name), inst.instance_id) == Some(inst),
{
    let s = entries_insert(service_entries(v, inst.service_name), inst.instance_id, inst);
    lemma_lookup_insert(v, inst.service_name, s);
    lemma_lookup_insert(service_entries(v, inst.service_name), inst.instance_id, inst);
}

/// After an instance is unregistered, looking it up finds nothing.
pub proof fn lemma_unregister_then_get(v: Seq<(Seq<char>, Seq<(Seq<char>, ServiceInstanceView)>)>, service: Seq<char>, id: Seq<char>)
    requires
        keys_unique(v),
        keys_unique(service_entries(v, service)),
        unregister_result(v, service, id) is Ok,
    ensures
        lookup(service_entries(unregister_result(v, service, id)->Ok_0, service), id) is None,
{
    let s = service_entries(v, service);
    lemma_remove_unique(s, id);
    lemma_remove_unique(v, service);
    lemma_lookup_insert(v, service, entries_remove(s, id));
}

/// After the health of an instance is set, looking it up shows that health.
pub proof fn lemma_update_health_then_get(v: Seq<(Seq<char>, Seq<(Seq<char>, ServiceInstanceView)>)>, service: Seq<char>, id: Seq<char>, health: HealthStatus)
    requires
        health_result(v, service, id, health) is Ok,
    ensures
        lookup(service_entries(health_result(v, service, id, health)->Ok_0, service), id) matches Some(i) && i.health == health,
{
    let s = service_entries(v, service);
    let i = lookup(s, id)->0;
    let s2 = entries_insert(s, id, with_health(i, health));
    lemma_lookup_insert(v, service, s2);
    lemma_lookup_insert(s, id, with_health(i, health));
}

} // verus!
