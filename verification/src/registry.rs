//! The handle registry: a concurrent store mapping each native handle to its
//! typed wrapper, and the layer's mirror of every intercepted call that
//! succeeded at the runtime. Lookups of handles this layer never created, or
//! already destroyed, surface as an invalid-handle error.

use dashmap::DashMap;
use std::collections::hash_map::RandomState;
use vstd::prelude::*;

use crate::errors::LayerError;
use crate::god_actions::{GodActionSet, GodState};
use crate::path_map::PathMap;
use crate::god_actions::{
    spec_rest_boolean, spec_rest_float, spec_rest_pose, spec_rest_vector2f, ActionState,
    BooleanState, FloatState, PoseState, Vector2fState,
};
use crate::wrappers::{
    spec_readings_valid, spec_resolutions_align, spec_session_built, spec_suggestions_built,
    spec_synced, ActionSetWrapper, ActionWrapper, AttachedAction, AttachedActionSets, AttachedSet,
    InstanceWrapper, ProfileSuggestion, Resolution, SessionWrapper, SubactionCollection,
    SyncReading,
};
use crate::xrapplication_info::ActionType;

verus! {

/// Registry key namespace of instance handles.
pub const TAG_INSTANCE: u8 = 1;

/// Registry key namespace of session handles.
pub const TAG_SESSION: u8 = 2;

/// Registry key namespace of action-set handles.
pub const TAG_ACTION_SET: u8 = 3;

/// Registry key namespace of action handles.
pub const TAG_ACTION: u8 = 4;

/// One wrapper as stored in the registry. The four handle namespaces of the
/// wrapped API are kept apart by the key's tag, so numerically equal handles
/// of different kinds never collide.
#[derive(Debug, Clone)]
pub enum RegistryEntry {
    Instance(InstanceWrapper),
    Session(SessionWrapper),
    ActionSet(ActionSetWrapper),
    Action(ActionWrapper),
}

#[verifier::external_type_specification]
#[verifier::external_body]
#[verifier::reject_recursive_types(K)]
#[verifier::reject_recursive_types(V)]
#[verifier::reject_recursive_types(S)]
pub struct ExDashMap<K, V, S>(DashMap<K, V, S>);

/// A registry key: a native handle tagged with its kind's namespace.
pub type HandleKey = (u8, u64);

/// The shape of the registry's concurrent map: wrappers keyed by tagged
/// native handle.
pub type RegistryMap = DashMap<(u8, u64), RegistryEntry, RandomState>;

/// What the concurrent map holds, keyed by tagged handle.
pub uninterp spec fn dashmap_entries(m: RegistryMap) -> Map<(u8, u64), RegistryEntry>;

/// A registry content map with nothing in it.
pub open spec fn empty_entries() -> Map<HandleKey, RegistryEntry> {
    Map::empty()
}

/// Relies on dashmap::DashMap::insert: binds the key to the value and
/// returns the value it replaced, if any.
#[verifier::external_body]
fn dashmap_insert(m: &mut RegistryMap, k: (u8, u64), v: RegistryEntry) -> (prev: Option<
    RegistryEntry,
>)
    ensures
        dashmap_entries(*final(m)) == dashmap_entries(*old(m)).insert(k, v),
        match prev {
            Some(p) => dashmap_entries(*old(m)).contains_key(k) && p == dashmap_entries(
                *old(m),
            )[k],
            None => !dashmap_entries(*old(m)).contains_key(k),
        },
{
    m.insert(k, v)
}

/// Relies on dashmap::DashMap::get: returns the value bound to the key; the
/// returned copy is a clone of plain data, equal to the stored value.
#[verifier::external_body]
fn dashmap_get(m: &RegistryMap, k: (u8, u64)) -> (r: Option<RegistryEntry>)
    ensures
        match r {
            Some(v) => dashmap_entries(*m).contains_key(k) && v == dashmap_entries(*m)[k],
            None => !dashmap_entries(*m).contains_key(k),
        },
{
    m.get(&k).map(|entry| entry.value().clone())
}

/// Relies on dashmap::DashMap::remove: unbinds the key, returning the value
/// that was bound to it.
#[verifier::external_body]
fn dashmap_remove(m: &mut RegistryMap, k: (u8, u64)) -> (r: Option<RegistryEntry>)
    ensures
        dashmap_entries(*final(m)) == dashmap_entries(*old(m)).remove(k),
        match r {
            Some(v) => dashmap_entries(*old(m)).contains_key(k) && v == dashmap_entries(
                *old(m),
            )[k],
            None => !dashmap_entries(*old(m)).contains_key(k),
        },
{
    m.remove(&k).map(|(_, v)| v)
}

/// The concurrent store of every live wrapper, keyed by tagged native
/// handle. Operations on different handles touch different shards of the
/// underlying map and do not block each other.
#[derive(Debug)]
pub struct HandleRegistry {
    map: RegistryMap,
}

impl HandleRegistry {
    /// Everything the registry holds.
    pub closed spec fn entries(&self) -> Map<(u8, u64), RegistryEntry> {
        dashmap_entries(self.map)
    }

    /// Every entry sits in its kind's namespace, under its own handle, and
    /// every stored session satisfies its invariant.
    pub open spec fn inv(&self) -> bool {
        forall|k: (u8, u64)|
            self.entries().contains_key(k) ==> match #[trigger] self.entries()[k] {
                RegistryEntry::Instance(w) => k.0 == TAG_INSTANCE && w.handle == k.1,
                RegistryEntry::Session(w) => k.0 == TAG_SESSION && w.handle == k.1 && w.inv(),
                RegistryEntry::ActionSet(w) => k.0 == TAG_ACTION_SET && w.handle == k.1,
                RegistryEntry::Action(w) => k.0 == TAG_ACTION && w.handle == k.1
                    && w.bindings.wf(),
            }
    }

    /// The instance stored under a handle, if any.
    pub open spec fn spec_instance(&self, h: u64) -> Option<InstanceWrapper> {
        if self.entries().contains_key((TAG_INSTANCE, h)) {
            match self.entries()[(TAG_INSTANCE, h)] {
                RegistryEntry::Instance(w) => Some(w),
                _ => None,
            }
        } else {
            None
        }
    }

    /// The session stored under a handle, if any.
    pub open spec fn spec_session(&self, h: u64) -> Option<SessionWrapper> {
        if self.entries().contains_key((TAG_SESSION, h)) {
            match self.entries()[(TAG_SESSION, h)] {
                RegistryEntry::Session(w) => Some(w),
                _ => None,
            }
        } else {
            None
        }
    }

    /// The action set stored under a handle, if any.
    pub open spec fn spec_action_set(&self, h: u64) -> Option<ActionSetWrapper> {
        if self.entries().contains_key((TAG_ACTION_SET, h)) {
            match self.entries()[(TAG_ACTION_SET, h)] {
                RegistryEntry::ActionSet(w) => Some(w),
                _ => None,
            }
        } else {
            None
        }
    }

    /// The action stored under a handle, if any.
    pub open spec fn spec_action(&self, h: u64) -> Option<ActionWrapper> {
        if self.entries().contains_key((TAG_ACTION, h)) {
            match self.entries()[(TAG_ACTION, h)] {
                RegistryEntry::Action(w) => Some(w),
                _ => None,
            }
        } else {
            None
        }
    }

    /// An empty registry. Relies on dashmap::DashMap::new: a fresh map holds
    /// nothing.
    #[verifier::external_body]
    pub fn new() -> (r: HandleRegistry)
        ensures
            r.entries() == empty_entries(),
    {
        HandleRegistry { map: DashMap::new() }
    }

    /// Looks an instance up; a handle never registered, already destroyed,
    /// or of another kind is invalid.
    pub fn lookup_instance(&self, h: u64) -> (r: Result<InstanceWrapper, LayerError>)
        requires
            self.inv(),
        ensures
            match r {
                Ok(w) => self.spec_instance(h) == Some(w),
                Err(e) => e == LayerError::HandleInvalid && self.spec_instance(h) is None,
            },
    {
        match dashmap_get(&self.map, (TAG_INSTANCE, h)) {
            Some(RegistryEntry::Instance(w)) => Ok(w),
            Some(_) => Err(LayerError::HandleInvalid),
            None => Err(LayerError::HandleInvalid),
        }
    }

    /// Looks a session up.
    pub fn lookup_session(&self, h: u64) -> (r: Result<SessionWrapper, LayerError>)
        requires
            self.inv(),
        ensures
            match r {
                Ok(w) => self.spec_session(h) == Some(w) && w.inv(),
                Err(e) => e == LayerError::HandleInvalid && self.spec_session(h) is None,
            },
    {
        match dashmap_get(&self.map, (TAG_SESSION, h)) {
            Some(RegistryEntry::Session(w)) => Ok(w),
            Some(_) => Err(LayerError::HandleInvalid),
            None => Err(LayerError::HandleInvalid),
        }
    }

    /// Looks an action set up.
    pub fn lookup_action_set(&self, h: u64) -> (r: Result<ActionSetWrapper, LayerError>)
        requires
            self.inv(),
        ensures
            match r {
                Ok(w) => self.spec_action_set(h) == Some(w),
                Err(e) => e == LayerError::HandleInvalid && self.spec_action_set(h) is None,
            },
    {
        match dashmap_get(&self.map, (TAG_ACTION_SET, h)) {
            Some(RegistryEntry::ActionSet(w)) => Ok(w),
            Some(_) => Err(LayerError::HandleInvalid),
            None => Err(LayerError::HandleInvalid),
        }
    }

    /// Looks an action up.
    pub fn lookup_action(&self, h: u64) -> (r: Result<ActionWrapper, LayerError>)
        requires
            self.inv(),
        ensures
            match r {
                Ok(w) => self.spec_action(h) == Some(w) && w.bindings.wf(),
                Err(e) => e == LayerError::HandleInvalid && self.spec_action(h) is None,
            },
    {
        match dashmap_get(&self.map, (TAG_ACTION, h)) {
            Some(RegistryEntry::Action(w)) => Ok(w),
            Some(_) => Err(LayerError::HandleInvalid),
            None => Err(LayerError::HandleInvalid),
        }
    }

    /// Stores an instance under its handle, replacing any previous entry in
    /// that slot.
    fn put_instance(&mut self, w: InstanceWrapper)
        requires
            old(self).inv(),
        ensures
            final(self).inv(),
            final(self).entries() == old(self).entries().insert(
                (TAG_INSTANCE, w.handle),
                RegistryEntry::Instance(w),
            ),
    {
        let k = (TAG_INSTANCE, w.handle);
        dashmap_insert(&mut self.map, k, RegistryEntry::Instance(w));
    }

    /// Stores a session under its handle.
    fn put_session(&mut self, w: SessionWrapper)
        requires
            old(self).inv(),
            w.inv(),
        ensures
            final(self).inv(),
            final(self).entries() == old(self).entries().insert(
                (TAG_SESSION, w.handle),
                RegistryEntry::Session(w),
            ),
    {
        let k = (TAG_SESSION, w.handle);
        dashmap_insert(&mut self.map, k, RegistryEntry::Session(w));
    }

    /// Stores an action set under its handle.
    fn put_action_set(&mut self, w: ActionSetWrapper)
        requires
            old(self).inv(),
        ensures
            final(self).inv(),
            final(self).entries() == old(self).entries().insert(
                (TAG_ACTION_SET, w.handle),
                RegistryEntry::ActionSet(w),
            ),
    {
        let k = (TAG_ACTION_SET, w.handle);
        dashmap_insert(&mut self.map, k, RegistryEntry::ActionSet(w));
    }

    /// Stores an action under its handle.
    fn put_action(&mut self, w: ActionWrapper)
        requires
            old(self).inv(),
            w.bindings.wf(),
        ensures
            final(self).inv(),
            final(self).entries() == old(self).entries().insert(
                (TAG_ACTION, w.handle),
                RegistryEntry::Action(w),
            ),
    {
        let k = (TAG_ACTION, w.handle);
        dashmap_insert(&mut self.map, k, RegistryEntry::Action(w));
    }

    /// Removes an instance's entry; the handle is invalid afterwards, and
    /// children looking their parent up fail gracefully.
    pub fn destroy_instance(&mut self, h: u64) -> (r: Result<InstanceWrapper, LayerError>)
        requires
            old(self).inv(),
        ensures
            final(self).inv(),
            match r {
                Ok(w) => old(self).spec_instance(h) == Some(w) && final(self).entries() == old(self).entries().remove((TAG_INSTANCE, h)),
                Err(e) => e == LayerError::HandleInvalid && old(self).spec_instance(h) is None
                    && final(self).entries() == old(self).entries(),
            },
    {
        match dashmap_remove(&mut self.map, (TAG_INSTANCE, h)) {
            Some(RegistryEntry::Instance(w)) => Ok(w),
            _ => {
                proof {
                    assert(self.entries() =~= old(self).entries().remove((TAG_INSTANCE, h)));
                    assert(self.entries() =~= old(self).entries());
                }
                Err(LayerError::HandleInvalid)
            },
        }
    }

    /// Removes a session's entry.
    pub fn destroy_session(&mut self, h: u64) -> (r: Result<SessionWrapper, LayerError>)
        requires
            old(self).inv(),
        ensures
            final(self).inv(),
            match r {
                Ok(w) => old(self).spec_session(h) == Some(w) && final(self).entries() == old(self).entries().remove((TAG_SESSION, h)),
                Err(e) => e == LayerError::HandleInvalid && old(self).spec_session(h) is None
                    && final(self).entries() == old(self).entries(),
            },
    {
        match dashmap_remove(&mut self.map, (TAG_SESSION, h)) {
            Some(RegistryEntry::Session(w)) => Ok(w),
            _ => {
                proof {
                    assert(self.entries() =~= old(self).entries().remove((TAG_SESSION, h)));
                    assert(self.entries() =~= old(self).entries());
                }
                Err(LayerError::HandleInvalid)
            },
        }
    }

    /// Removes an action set's entry.
    pub fn destroy_action_set(&mut self, h: u64) -> (r: Result<ActionSetWrapper, LayerError>)
        requires
            old(self).inv(),
        ensures
            final(self).inv(),
            match r {
                Ok(w) => old(self).spec_action_set(h) == Some(w) && final(self).entries() == old(self).entries().remove((TAG_ACTION_SET, h)),
                Err(e) => e == LayerError::HandleInvalid && old(self).spec_action_set(h) is None
                    && final(self).entries() == old(self).entries(),
            },
    {
        match dashmap_remove(&mut self.map, (TAG_ACTION_SET, h)) {
            Some(RegistryEntry::ActionSet(w)) => Ok(w),
            _ => {
                proof {
                    assert(self.entries() =~= old(self).entries().remove((TAG_ACTION_SET, h)));
                    assert(self.entries() =~= old(self).entries());
                }
                Err(LayerError::HandleInvalid)
            },
        }
    }

    /// Removes an action's entry.
    pub fn destroy_action(&mut self, h: u64) -> (r: Result<ActionWrapper, LayerError>)
        requires
            old(self).inv(),
        ensures
            final(self).inv(),
            match r {
                Ok(w) => old(self).spec_action(h) == Some(w) && final(self).entries() == old(self).entries().remove((TAG_ACTION, h)),
                Err(e) => e == LayerError::HandleInvalid && old(self).spec_action(h) is None
                    && final(self).entries() == old(self).entries(),
            },
    {
        match dashmap_remove(&mut self.map, (TAG_ACTION, h)) {
            Some(RegistryEntry::Action(w)) => Ok(w),
            _ => {
                proof {
                    assert(self.entries() =~= old(self).entries().remove((TAG_ACTION, h)));
                    assert(self.entries() =~= old(self).entries());
                }
                Err(LayerError::HandleInvalid)
            },
        }
    }
}

impl HandleRegistry {
    /// Mirrors a successful instance creation: registers the wrapper, with
    /// its god action sets built eagerly by the caller, under the fresh
    /// handle. A handle already present is a boundary error and nothing
    /// changes.
    pub fn create_api_layer_instance(
        &mut self,
        handle: u64,
        application_name: String,
        application_version: u32,
        engine_name: String,
        engine_version: u32,
        god_action_sets: Vec<GodActionSet>,
    ) -> (r: Result<(), LayerError>)
        requires
            old(self).inv(),
        ensures
            final(self).inv(),
            r is Ok <==> old(self).spec_instance(handle) is None,
            r is Err ==> final(self).entries() == old(self).entries() && r == Err::<
                (),
                LayerError,
            >(LayerError::HandleInvalid),
            r is Ok ==> {
                &&& final(self).spec_instance(handle) matches Some(w) && w.handle == handle
                    && w.sessions@ =~= Seq::<u64>::empty() && w.action_sets@ =~= Seq::<
                    u64,
                >::empty() && w.god_action_sets == god_action_sets && w.application_name
                    == application_name && w.application_version == application_version
                    && w.engine_name == engine_name && w.engine_version == engine_version
                &&& forall|k: (u8, u64)|
                    k != (TAG_INSTANCE, handle) ==> (#[trigger] final(self).entries().contains_key(
                        k,
                    )) == old(self).entries().contains_key(k) && (old(self).entries().contains_key(k) ==> final(self).entries()[k] == old(self).entries()[k])
            },
    {
        match self.lookup_instance(handle) {
            Ok(_) => {
                return Err(LayerError::HandleInvalid);
            },
            Err(_) => {},
        }
        let w = InstanceWrapper {
            handle,
            sessions: Vec::new(),
            action_sets: Vec::new(),
            god_action_sets,
            application_name,
            application_version,
            engine_name,
            engine_version,
        };
        self.put_instance(w);
        Ok(())
    }

    /// Mirrors a successful session creation, after the god action sets were
    /// attached to the runtime: seeds the session's god states from the
    /// resolutions, links it under its instance, and returns the
    /// suggested-binding pairs to forward for every profile of the
    /// catalogue, whether or not the application asked for it.
    pub fn create_session(
        &mut self,
        instance_handle: u64,
        session_handle: u64,
        resolved: &Vec<Vec<(u64, u64)>>,
    ) -> (r: Result<Vec<ProfileSuggestion>, LayerError>)
        requires
            old(self).inv(),
        ensures
            final(self).inv(),
            r is Err ==> final(self).entries() == old(self).entries(),
            r is Ok <==> old(self).spec_instance(instance_handle) is Some && old(self).spec_session(session_handle) is None && spec_resolutions_align(
                old(self).spec_instance(instance_handle).unwrap().god_action_sets@,
                resolved.deep_view(),
            ),
            r is Ok ==> {
                let inst = old(self).spec_instance(instance_handle).unwrap();
                &&& final(self).spec_session(session_handle) matches Some(s)
                    && spec_session_built(
                    s,
                    session_handle,
                    instance_handle,
                    inst.god_action_sets@,
                    resolved.deep_view(),
                )
                &&& spec_suggestions_built(
                    r.unwrap()@,
                    inst.god_action_sets@,
                    resolved.deep_view(),
                )
                &&& final(self).spec_instance(instance_handle) matches Some(w)
                    && w.sessions@ == inst.sessions@.push(session_handle) && w.handle
                    == inst.handle && w.action_sets == inst.action_sets && w.god_action_sets
                    == inst.god_action_sets && w.application_name == inst.application_name
                    && w.application_version == inst.application_version && w.engine_name
                    == inst.engine_name && w.engine_version == inst.engine_version
                &&& forall|k: (u8, u64)|
                    k != (TAG_INSTANCE, instance_handle) && k != (TAG_SESSION, session_handle)
                        ==> (#[trigger] final(self).entries().contains_key(k)) == old(self).entries().contains_key(k) && (old(self).entries().contains_key(k) ==> final(self).entries()[k] == old(self).entries()[k])
            },
    {
        let mut inst = match self.lookup_instance(instance_handle) {
            Ok(w) => w,
            Err(e) => {
                return Err(e);
            },
        };
        match self.lookup_session(session_handle) {
            Ok(_) => {
                return Err(LayerError::HandleInvalid);
            },
            Err(_) => {},
        }
        let (s, sugg) = match SessionWrapper::new(
            session_handle,
            instance_handle,
            &inst.god_action_sets,
            resolved,
        ) {
            Ok(p) => p,
            Err(e) => {
                return Err(e);
            },
        };
        inst.sessions.push(session_handle);
        self.put_session(s);
        self.put_instance(inst);
        Ok(sugg)
    }

    /// Mirrors a successful action-set creation: registers the wrapper and
    /// appends its handle to the instance's child list.
    pub fn create_action_set(
        &mut self,
        instance_handle: u64,
        handle: u64,
        name: String,
        localized_name: String,
        priority: u32,
    ) -> (r: Result<(), LayerError>)
        requires
            old(self).inv(),
        ensures
            final(self).inv(),
            r is Err ==> final(self).entries() == old(self).entries(),
            r is Ok <==> old(self).spec_instance(instance_handle) is Some && old(self).spec_action_set(handle) is None,
            r is Ok ==> {
                let inst = old(self).spec_instance(instance_handle).unwrap();
                &&& final(self).spec_action_set(handle) matches Some(w) && w.handle == handle
                    && w.instance == instance_handle && w.actions@ =~= Seq::<u64>::empty()
                    && w.name == name && w.localized_name == localized_name && w.priority
                    == priority
                &&& final(self).spec_instance(instance_handle) matches Some(iw)
                    && iw.action_sets@ == inst.action_sets@.push(handle) && iw.sessions
                    == inst.sessions && iw.handle == inst.handle && iw.god_action_sets
                    == inst.god_action_sets
                &&& forall|k: (u8, u64)|
                    k != (TAG_INSTANCE, instance_handle) && k != (TAG_ACTION_SET, handle) ==> (
                    #[trigger] final(self).entries().contains_key(k)) == old(self).entries().contains_key(k) && (old(self).entries().contains_key(k) ==> final(self).entries()[k] == old(self).entries()[k])
            },
    {
        let mut inst = match self.lookup_instance(instance_handle) {
            Ok(w) => w,
            Err(e) => {
                return Err(e);
            },
        };
        match self.lookup_action_set(handle) {
            Ok(_) => {
                return Err(LayerError::HandleInvalid);
            },
            Err(_) => {},
        }
        let w = ActionSetWrapper {
            handle,
            instance: instance_handle,
            actions: Vec::new(),
            name,
            localized_name,
            priority,
        };
        inst.action_sets.push(handle);
        self.put_action_set(w);
        self.put_instance(inst);
        Ok(())
    }

    /// Mirrors a successful action creation: registers the wrapper with an
    /// empty binding map and appends its handle to its set's ordered child
    /// list, exactly once.
    pub fn create_action(
        &mut self,
        action_set_handle: u64,
        handle: u64,
        name: String,
        localized_name: String,
        action_type: ActionType,
        subaction_paths: Vec<u64>,
    ) -> (r: Result<(), LayerError>)
        requires
            old(self).inv(),
        ensures
            final(self).inv(),
            r is Err ==> final(self).entries() == old(self).entries(),
            r is Ok <==> old(self).spec_action_set(action_set_handle) is Some && old(self).spec_action(handle) is None,
            r is Ok ==> {
                let set = old(self).spec_action_set(action_set_handle).unwrap();
                &&& final(self).spec_action(handle) matches Some(w) && w.handle == handle
                    && w.action_set == action_set_handle && w.name == name && w.localized_name
                    == localized_name && w.action_type == action_type && w.subaction_paths
                    == subaction_paths && w.bindings@ =~= Map::<u64, Vec<u64>>::empty()
                &&& final(self).spec_action_set(action_set_handle) matches Some(sw)
                    && sw.actions@ == set.actions@.push(handle) && sw.handle == set.handle
                    && sw.instance == set.instance && sw.name == set.name && sw.localized_name
                    == set.localized_name && sw.priority == set.priority
                &&& forall|k: (u8, u64)|
                    k != (TAG_ACTION_SET, action_set_handle) && k != (TAG_ACTION, handle) ==> (
                    #[trigger] final(self).entries().contains_key(k)) == old(self).entries().contains_key(k) && (old(self).entries().contains_key(k) ==> final(self).entries()[k] == old(self).entries()[k])
            },
    {
        let mut set = match self.lookup_action_set(action_set_handle) {
            Ok(w) => w,
            Err(e) => {
                return Err(e);
            },
        };
        match self.lookup_action(handle) {
            Ok(_) => {
                return Err(LayerError::HandleInvalid);
            },
            Err(_) => {},
        }
        let w = ActionWrapper {
            handle,
            action_set: action_set_handle,
            name,
            action_type,
            subaction_paths,
            localized_name,
            bindings: PathMap::new(),
        };
        set.actions.push(handle);
        self.put_action(w);
        self.put_action_set(set);
        Ok(())
    }
}

impl SessionWrapper {
    /// Upgrades the session's back-reference: the owning instance, or an
    /// invalid-handle error if it was destroyed.
    pub fn instance(&self, registry: &HandleRegistry) -> (r: Result<InstanceWrapper, LayerError>)
        requires
            registry.inv(),
        ensures
            match r {
                Ok(w) => registry.spec_instance(self.instance) == Some(w),
                Err(e) => e == LayerError::HandleInvalid && registry.spec_instance(
                    self.instance,
                ) is None,
            },
    {
        registry.lookup_instance(self.instance)
    }
}

impl ActionSetWrapper {
    /// Upgrades the set's back-reference: the owning instance, or an
    /// invalid-handle error if it was destroyed.
    pub fn instance(&self, registry: &HandleRegistry) -> (r: Result<InstanceWrapper, LayerError>)
        requires
            registry.inv(),
        ensures
            match r {
                Ok(w) => registry.spec_instance(self.instance) == Some(w),
                Err(e) => e == LayerError::HandleInvalid && registry.spec_instance(
                    self.instance,
                ) is None,
            },
    {
        registry.lookup_instance(self.instance)
    }
}

impl ActionWrapper {
    /// Upgrades the action's back-reference: the owning action set, or an
    /// invalid-handle error if it was destroyed.
    pub fn action_set(&self, registry: &HandleRegistry) -> (r: Result<
        ActionSetWrapper,
        LayerError,
    >)
        requires
            registry.inv(),
        ensures
            match r {
                Ok(w) => registry.spec_action_set(self.action_set) == Some(w),
                Err(e) => e == LayerError::HandleInvalid && registry.spec_action_set(
                    self.action_set,
                ) is None,
            },
    {
        registry.lookup_action_set(self.action_set)
    }
}

/// The binding paths one suggestion batch names for one action, in order.
pub open spec fn spec_paths_for(suggested: Seq<(u64, u64)>, a: u64) -> Seq<u64>
    decreases suggested.len(),
{
    if suggested.len() == 0 {
        Seq::empty()
    } else {
        let rest = spec_paths_for(suggested.drop_last(), a);
        if suggested.last().0 == a {
            rest.push(suggested.last().1)
        } else {
            rest
        }
    }
}


/// How one action's wrapper looks after a suggestion batch for one profile
/// was mirrored: the profile's binding list replaced by the batch's paths
/// for that action, everything else kept.
pub open spec fn spec_action_updated(
    pre: HandleRegistry,
    post: HandleRegistry,
    suggested: Seq<(u64, u64)>,
    profile: u64,
    a: u64,
) -> bool {
    let oldw = pre.spec_action(a).unwrap();
    &&& post.spec_action(a) matches Some(w)
    &&& w.handle == oldw.handle
    &&& w.action_set == oldw.action_set
    &&& w.name == oldw.name
    &&& w.action_type == oldw.action_type
    &&& w.subaction_paths == oldw.subaction_paths
    &&& w.localized_name == oldw.localized_name
    &&& w.bindings@.contains_key(profile)
    &&& w.bindings@[profile]@ == spec_paths_for(suggested, a)
    &&& forall|pr: u64|
        pr != profile ==> (#[trigger] w.bindings@.contains_key(pr)) == oldw.bindings@.contains_key(
            pr,
        ) && (oldw.bindings@.contains_key(pr) ==> w.bindings@[pr] == oldw.bindings@[pr])
}

impl HandleRegistry {
    /// Mirrors a successful suggest-bindings call for one profile: each
    /// named action's binding map takes, under that profile, exactly the
    /// paths the application suggested for it in this call, in order,
    /// replacing any earlier suggestion for the profile. Actions not named
    /// and every other entry stay untouched; an unknown handle changes
    /// nothing.
    pub fn suggest_interaction_profile_bindings(
        &mut self,
        instance_handle: u64,
        profile: u64,
        suggested: &Vec<(u64, u64)>,
    ) -> (r: Result<(), LayerError>)
        requires
            old(self).inv(),
        ensures
            final(self).inv(),
            r is Err ==> final(self).entries() == old(self).entries(),
            r is Ok <==> old(self).spec_instance(instance_handle) is Some && (forall|k: int|
                0 <= k < suggested@.len() ==> old(self).spec_action(
                    (#[trigger] suggested@[k]).0,
                ) is Some),
            r is Ok ==> {
                &&& forall|a: u64|
                    (exists|k: int| 0 <= k < suggested@.len() && (#[trigger] suggested@[k]).0 == a)
                        ==> spec_action_updated(*old(self), *final(self), suggested@, profile, a)
                &&& forall|k: (u8, u64)|
                    (k.0 != TAG_ACTION || (forall|j: int|
                        0 <= j < suggested@.len() ==> (#[trigger] suggested@[j]).0 != k.1)) ==> (
                    #[trigger] final(self).entries().contains_key(k)) == old(self).entries().contains_key(k) && (old(self).entries().contains_key(k) ==> final(self).entries()[k] == old(self).entries()[k])
            },
    {
        match self.lookup_instance(instance_handle) {
            Ok(_) => {},
            Err(e) => {
                return Err(e);
            },
        }
        let n = suggested.len();
        let mut k: usize = 0;
        while k < n
            invariant
                0 <= k <= n,
                n == suggested@.len(),
                self.inv(),
                self.entries() == old(self).entries(),
                forall|kk: int|
                    0 <= kk < k ==> self.spec_action((#[trigger] suggested@[kk]).0) is Some,
            decreases n - k,
        {
            match self.lookup_action(suggested[k].0) {
                Ok(_) => {},
                Err(e) => {
                    return Err(e);
                },
            }
            k = k + 1;
        }
        let mut k: usize = 0;
        while k < n
            invariant
                0 <= k <= n,
                n == suggested@.len(),
                self.inv(),
                forall|kk: int|
                    0 <= kk < n ==> old(self).spec_action((#[trigger] suggested@[kk]).0) is Some,
                forall|a: u64|
                    (exists|j: int| 0 <= j < k && (#[trigger] suggested@[j]).0 == a)
                        ==> spec_action_updated(*old(self), *self, suggested@, profile, a),
                forall|kk: (u8, u64)|
                    (kk.0 != TAG_ACTION || (forall|j: int|
                        0 <= j < k ==> (#[trigger] suggested@[j]).0 != kk.1)) ==> (
                    #[trigger] self.entries().contains_key(kk)) == old(self).entries().contains_key(kk) && (old(self).entries().contains_key(kk)
                        ==> self.entries()[kk] == old(self).entries()[kk]),
            decreases n - k,
        {
            let a = suggested[k].0;
            let mut seen = false;
            let mut j: usize = 0;
            while j < k
                invariant
                    0 <= j <= k <= n,
                    n == suggested@.len(),
                    a == suggested@[k as int].0,
                    seen == exists|jj: int| 0 <= jj < j && (#[trigger] suggested@[jj]).0 == a,
                decreases k - j,
            {
                if suggested[j].0 == a {
                    seen = true;
                    proof {
                        assert(suggested@[j as int].0 == a);
                    }
                    j = k;
                } else {
                    j = j + 1;
                }
            }
            if !seen {
                let mut list: Vec<u64> = Vec::new();
                let mut m: usize = 0;
                while m < n
                    invariant
                        0 <= m <= n,
                        n == suggested@.len(),
                        a == suggested@[k as int].0,
                        list@ == spec_paths_for(suggested@.take(m as int), a),
                    decreases n - m,
                {
                    proof {
                        assert(suggested@.take(m + 1).drop_last() =~= suggested@.take(m as int));
                        assert(suggested@.take(m + 1).last() == suggested@[m as int]);
                    }
                    if suggested[m].0 == a {
                        list.push(suggested[m].1);
                    }
                    m = m + 1;
                }
                proof {
                    assert(suggested@.take(n as int) =~= suggested@);
                }
                let mut w = match self.lookup_action(a) {
                    Ok(w) => w,
                    Err(_) => {
                        proof {
                            let kk = k as int;
                            assert(old(self).spec_action(suggested@[kk].0) is Some);
                            assert(false);
                        }
                        return Err(LayerError::HandleInvalid);
                    },
                };
                w.bindings.insert(profile, list);
                let ghost pre_reg = *self;
                self.put_action(w);
                proof {
                    assert(forall|j: int| 0 <= j < k ==> (#[trigger] suggested@[j]).0 != a);
                    assert(pre_reg.entries().contains_key((TAG_ACTION, a)) == old(self).entries().contains_key((TAG_ACTION, a)));
                    assert(pre_reg.spec_action(a) == old(self).spec_action(a));
                    assert(self.spec_action(a) matches Some(ww) && ww == w);
                    let oldw = old(self).spec_action(a).unwrap();
                    assert(w.handle == oldw.handle);
                    assert(w.bindings@.contains_key(profile));
                    assert(w.bindings@[profile]@ == spec_paths_for(suggested@, a));
                    assert(forall|pr: u64|
                        pr != profile ==> (#[trigger] w.bindings@.contains_key(pr))
                            == oldw.bindings@.contains_key(pr) && (oldw.bindings@.contains_key(pr)
                            ==> w.bindings@[pr] == oldw.bindings@[pr]));
                    assert(spec_action_updated(*old(self), *self, suggested@, profile, a));
                    assert forall|a2: u64|
                        (exists|j: int| 0 <= j < k + 1 && (#[trigger] suggested@[j]).0 == a2)
                            implies spec_action_updated(
                        *old(self),
                        *self,
                        suggested@,
                        profile,
                        a2,
                    ) by {
                        if a2 == a {
                        } else {
                            let j0 = choose|j: int|
                                0 <= j < k + 1 && (#[trigger] suggested@[j]).0 == a2;
                            assert(suggested@[j0].0 == a2 && a2 != a);
                            assert(j0 < k);
                            assert(spec_action_updated(
                                *old(self),
                                pre_reg,
                                suggested@,
                                profile,
                                a2,
                            ));
                            assert(self.entries()[(TAG_ACTION, a2)] == pre_reg.entries()[(
                                TAG_ACTION,
                                a2,
                            )]);
                        }
                    }
                    assert forall|kk: (u8, u64)|
                        (kk.0 != TAG_ACTION || (forall|j: int|
                            0 <= j < k + 1 ==> (#[trigger] suggested@[j]).0 != kk.1)) implies (
                    #[trigger] self.entries().contains_key(kk)) == old(self).entries().contains_key(kk) && (old(self).entries().contains_key(kk)
                        ==> self.entries()[kk] == old(self).entries()[kk]) by {
                        if kk.0 == TAG_ACTION {
                            assert(suggested@[k as int].0 != kk.1);
                        }
                        assert(kk != (TAG_ACTION, a));
                        assert(self.entries().contains_key(kk) == pre_reg.entries().contains_key(
                            kk,
                        ));
                        assert(pre_reg.entries().contains_key(kk) ==> self.entries()[kk]
                            == pre_reg.entries()[kk]);
                    }
                }
            } else {
                proof {
                    assert forall|a2: u64|
                        (exists|j: int| 0 <= j < k + 1 && (#[trigger] suggested@[j]).0 == a2)
                            implies spec_action_updated(
                        *old(self),
                        *self,
                        suggested@,
                        profile,
                        a2,
                    ) by {
                        let j0 = choose|j: int|
                            0 <= j < k + 1 && (#[trigger] suggested@[j]).0 == a2;
                        if j0 == k {
                            let jj = choose|jj: int|
                                0 <= jj < k && (#[trigger] suggested@[jj]).0 == a;
                            assert(suggested@[jj].0 == a2);
                        }
                    }
                }
            }
            k = k + 1;
        }
        Ok(())
    }

    /// Mirrors a successful sync call: refreshes the named session's caches
    /// from the freshly observed values.
    pub fn sync_actions(&mut self, session_handle: u64, readings: &Vec<SyncReading>) -> (r: Result<
        (),
        LayerError,
    >)
        requires
            old(self).inv(),
        ensures
            final(self).inv(),
            r is Err ==> final(self).entries() == old(self).entries(),
            r is Ok <==> old(self).spec_session(session_handle) is Some && spec_readings_valid(
                old(self).spec_session(session_handle).unwrap(),
                readings@,
            ),
            r is Ok ==> {
                &&& final(self).spec_session(session_handle) matches Some(s) && spec_synced(
                    old(self).spec_session(session_handle).unwrap(),
                    s,
                    readings@,
                )
                &&& forall|k: (u8, u64)|
                    k != (TAG_SESSION, session_handle) ==> (#[trigger] final(self).entries().contains_key(k)) == old(self).entries().contains_key(k) && (old(self).entries().contains_key(k) ==> final(self).entries()[k] == old(self).entries()[k])
            },
    {
        let mut s = match self.lookup_session(session_handle) {
            Ok(s) => s,
            Err(e) => {
                return Err(e);
            },
        };
        match s.sync_actions(readings) {
            Ok(()) => {},
            Err(e) => {
                return Err(e);
            },
        }
        self.put_session(s);
        Ok(())
    }

    /// Serves a boolean state query for a session: a pure read of the cache,
    /// never a call to the runtime. Only an invalid session handle is an
    /// error.
    pub fn get_action_state_boolean(&self, session_handle: u64, action: u64, subaction_path: u64) -> (r:
        Result<BooleanState, LayerError>)
        requires
            self.inv(),
        ensures
            r is Ok <==> self.spec_session(session_handle) is Some,
            r matches Ok(st) ==> st == self.spec_session(session_handle).unwrap().spec_query_boolean(
                action,
                subaction_path,
            ),
    {
        let s = match self.lookup_session(session_handle) {
            Ok(s) => s,
            Err(e) => {
                return Err(e);
            },
        };
        Ok(s.get_action_state_boolean(action, subaction_path))
    }

    /// Serves a float state query for a session from the cache.
    pub fn get_action_state_float(&self, session_handle: u64, action: u64, subaction_path: u64) -> (r:
        Result<FloatState, LayerError>)
        requires
            self.inv(),
        ensures
            r is Ok <==> self.spec_session(session_handle) is Some,
            r matches Ok(st) ==> st == self.spec_session(session_handle).unwrap().spec_query_float(
                action,
                subaction_path,
            ),
    {
        let s = match self.lookup_session(session_handle) {
            Ok(s) => s,
            Err(e) => {
                return Err(e);
            },
        };
        Ok(s.get_action_state_float(action, subaction_path))
    }

    /// Serves a 2D state query for a session from the cache.
    pub fn get_action_state_vector2f(
        &self,
        session_handle: u64,
        action: u64,
        subaction_path: u64,
    ) -> (r: Result<Vector2fState, LayerError>)
        requires
            self.inv(),
        ensures
            r is Ok <==> self.spec_session(session_handle) is Some,
            r matches Ok(st) ==> st == self.spec_session(session_handle).unwrap().spec_query_vector2f(
                action,
                subaction_path,
            ),
    {
        let s = match self.lookup_session(session_handle) {
            Ok(s) => s,
            Err(e) => {
                return Err(e);
            },
        };
        Ok(s.get_action_state_vector2f(action, subaction_path))
    }

    /// Serves a pose state query for a session from the cache.
    pub fn get_action_state_pose(&self, session_handle: u64, action: u64, subaction_path: u64) -> (r:
        Result<PoseState, LayerError>)
        requires
            self.inv(),
        ensures
            r is Ok <==> self.spec_session(session_handle) is Some,
            r matches Ok(st) ==> st == self.spec_session(session_handle).unwrap().spec_query_pose(
                action,
                subaction_path,
            ),
    {
        let s = match self.lookup_session(session_handle) {
            Ok(s) => s,
            Err(e) => {
                return Err(e);
            },
        };
        Ok(s.get_action_state_pose(action, subaction_path))
    }
}

/// The resolutions one profile's suggested binding paths give rise to: one
/// per path that names an existing god state, in suggestion order, carrying
/// the god state's subaction path.
pub open spec fn spec_profile_resolutions(
    gs: Map<u64, PathMap<GodState>>,
    profile: u64,
    paths: Seq<u64>,
) -> Seq<Resolution>
    decreases paths.len(),
{
    if paths.len() == 0 {
        Seq::empty()
    } else {
        let rest = spec_profile_resolutions(gs, profile, paths.drop_last());
        let b = paths.last();
        if gs.contains_key(profile) && gs[profile]@.contains_key(b) {
            rest.push(Resolution { profile, binding: b, subaction: gs[profile]@[b].subaction_path })
        } else {
            rest
        }
    }
}

/// The resolutions of one action: its binding map's entries in insertion
/// order, each profile's paths resolved against the session's god states.
pub open spec fn spec_action_resolutions(
    gs: Map<u64, PathMap<GodState>>,
    entries: Seq<(u64, Vec<u64>)>,
) -> Seq<Resolution>
    decreases entries.len(),
{
    if entries.len() == 0 {
        Seq::empty()
    } else {
        spec_action_resolutions(gs, entries.drop_last()) + spec_profile_resolutions(
            gs,
            entries.last().0,
            entries.last().1@,
        )
    }
}

/// Every resolution of a profile's paths names an existing god state.
pub proof fn lemma_profile_resolutions_valid(
    gs: Map<u64, PathMap<GodState>>,
    profile: u64,
    paths: Seq<u64>,
)
    ensures
        forall|q: int|
            0 <= q < spec_profile_resolutions(gs, profile, paths).len() ==> {
                let res = #[trigger] spec_profile_resolutions(gs, profile, paths)[q];
                &&& gs.contains_key(res.profile)
                &&& gs[res.profile]@.contains_key(res.binding)
            },
    decreases paths.len(),
{
    if paths.len() > 0 {
        lemma_profile_resolutions_valid(gs, profile, paths.drop_last());
        let rest = spec_profile_resolutions(gs, profile, paths.drop_last());
        let whole = spec_profile_resolutions(gs, profile, paths);
        assert forall|q: int| 0 <= q < whole.len() implies {
            let res = #[trigger] whole[q];
            &&& gs.contains_key(res.profile)
            &&& gs[res.profile]@.contains_key(res.binding)
        } by {
            if q < rest.len() {
                assert(whole[q] == rest[q]);
            }
        }
    }
}

/// Every resolution of an action names an existing god state.
pub proof fn lemma_action_resolutions_valid(
    gs: Map<u64, PathMap<GodState>>,
    entries: Seq<(u64, Vec<u64>)>,
)
    ensures
        forall|q: int|
            0 <= q < spec_action_resolutions(gs, entries).len() ==> {
                let res = #[trigger] spec_action_resolutions(gs, entries)[q];
                &&& gs.contains_key(res.profile)
                &&& gs[res.profile]@.contains_key(res.binding)
            },
    decreases entries.len(),
{
    if entries.len() > 0 {
        lemma_action_resolutions_valid(gs, entries.drop_last());
        lemma_profile_resolutions_valid(gs, entries.last().0, entries.last().1@);
        let rest = spec_action_resolutions(gs, entries.drop_last());
        let part = spec_profile_resolutions(gs, entries.last().0, entries.last().1@);
        let whole = spec_action_resolutions(gs, entries);
        assert forall|q: int| 0 <= q < whole.len() implies {
            let res = #[trigger] whole[q];
            &&& gs.contains_key(res.profile)
            &&& gs[res.profile]@.contains_key(res.binding)
        } by {
            if q < rest.len() {
                assert(whole[q] == rest[q]);
            } else {
                assert(whole[q] == part[q - rest.len()]);
            }
        }
    }
}

/// Whether the application's attach call can be mirrored: the session exists
/// and was never attached, every named set and every action of those sets is
/// live, and no action appears twice.
pub open spec fn spec_attach_ok(
    reg: HandleRegistry,
    session_handle: u64,
    set_handles: Seq<u64>,
) -> bool {
    &&& reg.spec_session(session_handle) matches Some(s) && s.attached is None
    &&& forall|i: int|
        0 <= i < set_handles.len() ==> reg.spec_action_set(#[trigger] set_handles[i]) is Some
    &&& forall|i: int, j: int|
        #![trigger reg.spec_action_set(set_handles[i]).unwrap().actions@[j]]
        0 <= i < set_handles.len() && 0 <= j < reg.spec_action_set(
            set_handles[i],
        ).unwrap().actions@.len() ==> reg.spec_action(
            reg.spec_action_set(set_handles[i]).unwrap().actions@[j],
        ) is Some
    &&& forall|i1: int, j1: int, i2: int, j2: int|
        #![trigger reg.spec_action_set(set_handles[i1]).unwrap().actions@[j1], reg.spec_action_set(set_handles[i2]).unwrap().actions@[j2]]
        0 <= i1 < set_handles.len() && 0 <= j1 < reg.spec_action_set(
            set_handles[i1],
        ).unwrap().actions@.len() && 0 <= i2 < set_handles.len() && 0 <= j2
            < reg.spec_action_set(set_handles[i2]).unwrap().actions@.len() && (i1 != i2 || j1
            != j2) ==> reg.spec_action_set(set_handles[i1]).unwrap().actions@[j1]
            != reg.spec_action_set(set_handles[i2]).unwrap().actions@[j2]
}

/// What the attachment record of a session holds right after the
/// application attached its sets: one entry per named set, one per action of
/// each set, with the action's bindings resolved against the god states; the
/// per-action cache holds one empty collection per action.
pub open spec fn spec_attached(
    reg: HandleRegistry,
    pre: SessionWrapper,
    post: SessionWrapper,
    set_handles: Seq<u64>,
) -> bool {
    &&& post.handle == pre.handle
    &&& post.instance == pre.instance
    &&& post.god_states == pre.god_states
    &&& post.attached matches Some(rec) && {
        let rec = post.attached.unwrap();
        &&& rec.sets@.len() == set_handles.len()
        &&& forall|i: int|
            0 <= i < set_handles.len() ==> (#[trigger] rec.sets@[i]).set == set_handles[i]
                && rec.sets@[i].actions@.len() == reg.spec_action_set(
                set_handles[i],
            ).unwrap().actions@.len()
        &&& forall|i: int, j: int|
            #![trigger rec.sets@[i].actions@[j]]
            0 <= i < set_handles.len() && 0 <= j < rec.sets@[i].actions@.len() ==> {
                let aw = reg.spec_action(
                    reg.spec_action_set(set_handles[i]).unwrap().actions@[j],
                ).unwrap();
                let aa = rec.sets@[i].actions@[j];
                &&& aa.action == aw.handle
                &&& aa.action_type == aw.action_type
                &&& aa.resolutions@ == spec_action_resolutions(pre.god_states@, aw.bindings.seq())
            }
    }
    &&& forall|a: u64|
        post.cached_action_states@.contains_key(a) <==> exists|i: int, j: int|
            0 <= i < post.attached.unwrap().sets@.len() && 0 <= j
                < post.attached.unwrap().sets@[i].actions@.len() && (
            #[trigger] post.attached.unwrap().sets@[i].actions@[j]).action == a
    &&& forall|a: u64|
        post.cached_action_states@.contains_key(a)
            ==> (#[trigger] post.cached_action_states@[a])@ =~= Map::<u64, ActionState>::empty()
}

impl HandleRegistry {
    /// Mirrors a successful attach call: computes the session's attachment
    /// record once (attaching twice is refused), resolving every suggested
    /// binding of every action of the named sets against the session's god
    /// states, and initializes the per-action state cache. On any failure
    /// nothing changes.
    pub fn attach_session_action_sets(&mut self, session_handle: u64, set_handles: &Vec<u64>) -> (r:
        Result<(), LayerError>)
        requires
            old(self).inv(),
        ensures
            final(self).inv(),
            r is Err ==> final(self).entries() == old(self).entries(),
            r is Ok <==> spec_attach_ok(*old(self), session_handle, set_handles@),
            r == Err::<(), LayerError>(LayerError::ActionsetsAlreadyAttached) <==> (old(self).spec_session(session_handle) matches Some(s) && s.attached is Some),
            r == Err::<(), LayerError>(LayerError::HandleInvalid) ==> old(self).spec_session(
                session_handle,
            ) is None || (exists|i: int|
                0 <= i < set_handles@.len() && old(self).spec_action_set(
                    #[trigger] set_handles@[i],
                ) is None) || (exists|i: int, j: int|
                0 <= i < set_handles@.len() && 0 <= j < old(self).spec_action_set(
                    set_handles@[i],
                ).unwrap().actions@.len() && old(self).spec_action(
                    #[trigger] old(self).spec_action_set(set_handles@[i]).unwrap().actions@[j],
                ) is None),
            r is Ok ==> {
                &&& final(self).spec_session(session_handle) matches Some(post) && spec_attached(
                    *old(self),
                    old(self).spec_session(session_handle).unwrap(),
                    post,
                    set_handles@,
                )
                &&& forall|k: (u8, u64)|
                    k != (TAG_SESSION, session_handle) ==> (#[trigger] final(self).entries().contains_key(k)) == old(self).entries().contains_key(k) && (old(self).entries().contains_key(k) ==> final(self).entries()[k] == old(self).entries()[k])
            },
    {
        let mut s = match self.lookup_session(session_handle) {
            Ok(s) => s,
            Err(e) => {
                return Err(e);
            },
        };
        if s.attached.is_some() {
            return Err(LayerError::ActionsetsAlreadyAttached);
        }
        let n = set_handles.len();
        let mut sets_rec: Vec<AttachedSet> = Vec::new();
        let mut cache: PathMap<SubactionCollection> = PathMap::new();
        let mut i: usize = 0;
        while i < n
            invariant
                0 <= i <= n,
                n == set_handles@.len(),
                self.inv(),
                self.entries() == old(self).entries(),
                self.spec_session(session_handle) == Some(s),
                s.inv(),
                s.attached is None,
                sets_rec@.len() == i,
                cache.wf(),
                forall|a: u64|
                    cache@.contains_key(a) ==> (#[trigger] cache@[a]).wf() && cache@[a]@
                        =~= Map::<u64, ActionState>::empty(),
                forall|ii: int|
                    0 <= ii < i ==> self.spec_action_set(#[trigger] set_handles@[ii]) is Some,
                forall|ii: int|
                    0 <= ii < i ==> (#[trigger] sets_rec@[ii]).set == set_handles@[ii]
                        && sets_rec@[ii].actions@.len() == self.spec_action_set(
                        set_handles@[ii],
                    ).unwrap().actions@.len(),
                forall|ii: int, j: int|
                    #![trigger sets_rec@[ii].actions@[j]]
                    0 <= ii < i && 0 <= j < sets_rec@[ii].actions@.len() ==> {
                        let aw = self.spec_action(
                            self.spec_action_set(set_handles@[ii]).unwrap().actions@[j],
                        ).unwrap();
                        let aa = sets_rec@[ii].actions@[j];
                        &&& self.spec_action(
                            self.spec_action_set(set_handles@[ii]).unwrap().actions@[j],
                        ) is Some
                        &&& aa.action == aw.handle
                        &&& aa.action_type == aw.action_type
                        &&& aa.resolutions@ == spec_action_resolutions(
                            s.god_states@,
                            aw.bindings.seq(),
                        )
                    },
                forall|a: u64|
                    cache@.contains_key(a) <==> exists|ii: int, j: int|
                        0 <= ii < i && 0 <= j < sets_rec@[ii].actions@.len() && (
                        #[trigger] sets_rec@[ii].actions@[j]).action == a,
                forall|i1: int, j1: int, i2: int, j2: int|
                    #![trigger sets_rec@[i1].actions@[j1], sets_rec@[i2].actions@[j2]]
                    0 <= i1 < i && 0 <= j1 < sets_rec@[i1].actions@.len() && 0 <= i2 < i && 0 <= j2
                        < sets_rec@[i2].actions@.len() && (i1 != i2 || j1 != j2)
                        ==> sets_rec@[i1].actions@[j1].action != sets_rec@[i2].actions@[j2].action,
            decreases n - i,
        {
            let set = match self.lookup_action_set(set_handles[i]) {
                Ok(w) => w,
                Err(e) => {
                    proof {
                        assert(old(self).spec_action_set(set_handles@[i as int]) is None);
                        assert(!spec_attach_ok(*old(self), session_handle, set_handles@));
                    }
                    return Err(e);
                },
            };
            let na = set.actions.len();
            let mut actions_rec: Vec<AttachedAction> = Vec::new();
            let mut j: usize = 0;
            while j < na
                invariant
                    0 <= j <= na,
                    0 <= i < n,
                    n == set_handles@.len(),
                    self.inv(),
                    self.entries() == old(self).entries(),
                    self.spec_session(session_handle) == Some(s),
                    s.inv(),
                    s.attached is None,
                    self.spec_action_set(set_handles@[i as int]) == Some(set),
                    na == set.actions@.len(),
                    sets_rec@.len() == i,
                    actions_rec@.len() == j,
                    cache.wf(),
                    forall|a: u64|
                        cache@.contains_key(a) ==> (#[trigger] cache@[a]).wf() && cache@[a]@
                            =~= Map::<u64, ActionState>::empty(),
                    forall|ii: int|
                        0 <= ii < i ==> self.spec_action_set(#[trigger] set_handles@[ii]) is Some,
                    forall|ii: int|
                        0 <= ii < i ==> (#[trigger] sets_rec@[ii]).set == set_handles@[ii]
                            && sets_rec@[ii].actions@.len() == self.spec_action_set(
                            set_handles@[ii],
                        ).unwrap().actions@.len(),
                    forall|ii: int, jj: int|
                        #![trigger sets_rec@[ii].actions@[jj]]
                        0 <= ii < i && 0 <= jj < sets_rec@[ii].actions@.len() ==> {
                            let aw = self.spec_action(
                                self.spec_action_set(set_handles@[ii]).unwrap().actions@[jj],
                            ).unwrap();
                            let aa = sets_rec@[ii].actions@[jj];
                            &&& self.spec_action(
                                self.spec_action_set(set_handles@[ii]).unwrap().actions@[jj],
                            ) is Some
                            &&& aa.action == aw.handle
                            &&& aa.action_type == aw.action_type
                            &&& aa.resolutions@ == spec_action_resolutions(
                                s.god_states@,
                                aw.bindings.seq(),
                            )
                        },
                    forall|jj: int|
                        0 <= jj < j ==> {
                            let aw = self.spec_action(set.actions@[jj]).unwrap();
                            let aa = (#[trigger] actions_rec@[jj]);
                            &&& self.spec_action(set.actions@[jj]) is Some
                            &&& aa.action == aw.handle
                            &&& aa.action == set.actions@[jj]
                            &&& aa.action_type == aw.action_type
                            &&& aa.resolutions@ == spec_action_resolutions(
                                s.god_states@,
                                aw.bindings.seq(),
                            )
                        },
                    forall|a: u64|
                        cache@.contains_key(a) <==> (exists|ii: int, jj: int|
                            0 <= ii < i && 0 <= jj < sets_rec@[ii].actions@.len() && (
                            #[trigger] sets_rec@[ii].actions@[jj]).action == a) || (exists|jj: int|
                            0 <= jj < j && (#[trigger] actions_rec@[jj]).action == a),
                    forall|i1: int, j1: int, i2: int, j2: int|
                        #![trigger sets_rec@[i1].actions@[j1], sets_rec@[i2].actions@[j2]]
                        0 <= i1 < i && 0 <= j1 < sets_rec@[i1].actions@.len() && 0 <= i2 < i && 0
                            <= j2 < sets_rec@[i2].actions@.len() && (i1 != i2 || j1 != j2)
                            ==> sets_rec@[i1].actions@[j1].action
                            != sets_rec@[i2].actions@[j2].action,
                    forall|j1: int, j2: int|
                        0 <= j1 < j2 < j ==> (#[trigger] actions_rec@[j1]).action != (
                        #[trigger] actions_rec@[j2]).action,
                    forall|ii: int, j1: int, j2: int|
                        #![trigger sets_rec@[ii].actions@[j1], actions_rec@[j2]]
                        0 <= ii < i && 0 <= j1 < sets_rec@[ii].actions@.len() && 0 <= j2 < j
                            ==> sets_rec@[ii].actions@[j1].action != actions_rec@[j2].action,
                decreases na - j,
            {
                let aw = match self.lookup_action(set.actions[j]) {
                    Ok(w) => w,
                    Err(e) => {
                        proof {
                            assert(old(self).spec_action_set(set_handles@[i as int]) == Some(set));
                            assert(old(self).spec_action(
                                old(self).spec_action_set(
                                    set_handles@[i as int],
                                ).unwrap().actions@[j as int],
                            ) is None);
                            assert(!spec_attach_ok(*old(self), session_handle, set_handles@));
                        }
                        return Err(e);
                    },
                };
                if cache.contains_key(aw.handle) {
                    proof {
                        assert(aw.handle == set.actions@[j as int]);
                        if spec_attach_ok(*old(self), session_handle, set_handles@) {
                            if exists|ii: int, jj: int|
                                0 <= ii < i && 0 <= jj < sets_rec@[ii].actions@.len() && (
                                #[trigger] sets_rec@[ii].actions@[jj]).action == aw.handle {
                                let (ii, jj) = choose|ii: int, jj: int|
                                    0 <= ii < i && 0 <= jj < sets_rec@[ii].actions@.len() && (
                                    #[trigger] sets_rec@[ii].actions@[jj]).action == aw.handle;
                                let earlier = self.spec_action_set(
                                    set_handles@[ii],
                                ).unwrap().actions@[jj];
                                assert(sets_rec@[ii].actions@[jj].action == earlier);
                                assert(old(self).spec_action_set(set_handles@[ii]).unwrap().actions@[jj]
                                    == old(self).spec_action_set(
                                    set_handles@[i as int],
                                ).unwrap().actions@[j as int]);
                                assert(false);
                            } else {
                                let jj = choose|jj: int|
                                    0 <= jj < j && (#[trigger] actions_rec@[jj]).action
                                        == aw.handle;
                                assert(actions_rec@[jj].action == set.actions@[jj]);
                                assert(old(self).spec_action_set(
                                    set_handles@[i as int],
                                ).unwrap().actions@[jj] == old(self).spec_action_set(
                                    set_handles@[i as int],
                                ).unwrap().actions@[j as int]);
                                assert(false);
                            }
                        }
                    }
                    return Err(LayerError::BuildFailed);
                }
                let ghost cache_pre = cache@;
                cache.insert(aw.handle, PathMap::new());
                let ne = aw.bindings.len();
                let mut rs: Vec<Resolution> = Vec::new();
                let mut e: usize = 0;
                proof {
                    assert(aw.bindings.seq().take(0) =~= Seq::<(u64, Vec<u64>)>::empty());
                }
                while e < ne
                    invariant
                        0 <= e <= ne,
                        ne == aw.bindings.seq().len(),
                        s.inv(),
                        rs@ == spec_action_resolutions(
                            s.god_states@,
                            aw.bindings.seq().take(e as int),
                        ),
                    decreases ne - e,
                {
                    let entry = aw.bindings.entry_at(e);
                    let profile = entry.0;
                    let paths = &entry.1;
                    let np = paths.len();
                    let mut q: usize = 0;
                    let ghost rs_pre = rs@;
                    proof {
                        assert(paths@.take(0) =~= Seq::<u64>::empty());
                    }
                    while q < np
                        invariant
                            0 <= q <= np,
                            np == paths@.len(),
                            s.inv(),
                            rs@ == rs_pre + spec_profile_resolutions(
                                s.god_states@,
                                profile,
                                paths@.take(q as int),
                            ),
                        decreases np - q,
                    {
                        proof {
                            assert(paths@.take(q + 1).drop_last() =~= paths@.take(q as int));
                            assert(paths@.take(q + 1).last() == paths@[q as int]);
                        }
                        let b = paths[q];
                        match s.god_states.get(profile) {
                            Some(inner) => {
                                match inner.get(b) {
                                    Some(g) => {
                                        rs.push(
                                            Resolution {
                                                profile,
                                                binding: b,
                                                subaction: g.subaction_path,
                                            },
                                        );
                                        proof {
                                            assert(rs@ =~= rs_pre + spec_profile_resolutions(
                                                s.god_states@,
                                                profile,
                                                paths@.take(q + 1),
                                            ));
                                        }
                                    },
                                    None => {
                                        proof {
                                            assert(rs@ =~= rs_pre + spec_profile_resolutions(
                                                s.god_states@,
                                                profile,
                                                paths@.take(q + 1),
                                            ));
                                        }
                                    },
                                }
                            },
                            None => {
                                proof {
                                    assert(rs@ =~= rs_pre + spec_profile_resolutions(
                                        s.god_states@,
                                        profile,
                                        paths@.take(q + 1),
                                    ));
                                }
                            },
                        }
                        q = q + 1;
                    }
                    proof {
                        assert(paths@.take(np as int) =~= paths@);
                        assert(aw.bindings.seq().take(e + 1).drop_last() =~= aw.bindings.seq().take(
                            e as int,
                        ));
                        assert(aw.bindings.seq().take(e + 1).last() == aw.bindings.seq()[e as int]);
                        assert(aw.bindings.seq()[e as int] == *entry);
                        assert(rs@ =~= spec_action_resolutions(
                            s.god_states@,
                            aw.bindings.seq().take(e + 1),
                        ));
                    }
                    e = e + 1;
                }
                proof {
                    assert(aw.bindings.seq().take(ne as int) =~= aw.bindings.seq());
                }
                let ghost acts_pre = actions_rec@;
                actions_rec.push(
                    AttachedAction {
                        action: aw.handle,
                        action_type: aw.action_type,
                        resolutions: rs,
                    },
                );
                proof {
                    assert(actions_rec@[j as int].action == aw.handle);
                    assert forall|a: u64| cache@.contains_key(a) <==> ((exists|ii: int, jj: int|
                        0 <= ii < i && 0 <= jj < sets_rec@[ii].actions@.len() && (
                        #[trigger] sets_rec@[ii].actions@[jj]).action == a) || (exists|jj: int|
                        0 <= jj < j + 1 && (#[trigger] actions_rec@[jj]).action == a)) by {
                        if cache@.contains_key(a) {
                            if a == aw.handle {
                                assert(actions_rec@[j as int].action == a);
                            } else {
                                assert(cache_pre.contains_key(a));
                                if exists|jj: int|
                                    0 <= jj < j && (#[trigger] acts_pre[jj]).action == a {
                                    let jj = choose|jj: int|
                                        0 <= jj < j && (#[trigger] acts_pre[jj]).action == a;
                                    assert(actions_rec@[jj].action == a);
                                }
                            }
                        }
                        if exists|ii: int, jj: int|
                            0 <= ii < i && 0 <= jj < sets_rec@[ii].actions@.len() && (
                            #[trigger] sets_rec@[ii].actions@[jj]).action == a {
                            assert(cache_pre.contains_key(a));
                            assert(cache@.contains_key(a));
                        }
                        if exists|jj: int|
                            0 <= jj < j + 1 && (#[trigger] actions_rec@[jj]).action == a {
                            let jj = choose|jj: int|
                                0 <= jj < j + 1 && (#[trigger] actions_rec@[jj]).action == a;
                            if jj == j {
                                assert(a == aw.handle);
                                assert(cache@.contains_key(a));
                            } else {
                                assert(acts_pre[jj].action == a);
                                assert(cache_pre.contains_key(a));
                                assert(cache@.contains_key(a));
                            }
                        }
                    }
                }
                j = j + 1;
            }
            let ghost full_actions = actions_rec@;
            let ghost sets_pre = sets_rec@;
            sets_rec.push(AttachedSet { set: set_handles[i], actions: actions_rec });
            proof {
                assert(sets_rec@[i as int].actions@ == full_actions);
                assert forall|a: u64| cache@.contains_key(a) <==> (exists|ii: int, jj: int|
                    0 <= ii < i + 1 && 0 <= jj < sets_rec@[ii].actions@.len() && (
                    #[trigger] sets_rec@[ii].actions@[jj]).action == a) by {
                    if cache@.contains_key(a) {
                        if exists|ii: int, jj: int|
                            0 <= ii < i && 0 <= jj < sets_pre[ii].actions@.len() && (
                            #[trigger] sets_pre[ii].actions@[jj]).action == a {
                            let (ii, jj) = choose|ii: int, jj: int|
                                0 <= ii < i && 0 <= jj < sets_pre[ii].actions@.len() && (
                                #[trigger] sets_pre[ii].actions@[jj]).action == a;
                            assert(sets_rec@[ii].actions@[jj].action == a);
                        } else {
                            let jj = choose|jj: int|
                                0 <= jj < na && (#[trigger] full_actions[jj]).action == a;
                            assert(sets_rec@[i as int].actions@[jj].action == a);
                        }
                    }
                    if exists|ii: int, jj: int|
                        0 <= ii < i + 1 && 0 <= jj < sets_rec@[ii].actions@.len() && (
                        #[trigger] sets_rec@[ii].actions@[jj]).action == a {
                        let (ii, jj) = choose|ii: int, jj: int|
                            0 <= ii < i + 1 && 0 <= jj < sets_rec@[ii].actions@.len() && (
                            #[trigger] sets_rec@[ii].actions@[jj]).action == a;
                        if ii == i {
                            assert(full_actions[jj].action == a);
                            assert(cache@.contains_key(a));
                        } else {
                            assert(sets_pre[ii].actions@[jj].action == a);
                            assert(cache@.contains_key(a));
                        }
                    }
                }
            }
            i = i + 1;
        }
        let ghost pre_session = s;
        let rec = AttachedActionSets { sets: sets_rec };
        proof {
            assert forall|ii: int, j: int|
                #![trigger rec.sets@[ii].actions@[j]]
                0 <= ii < rec.sets@.len() && 0 <= j < rec.sets@[ii].actions@.len() implies forall|
                q: int,
            |
                0 <= q < rec.sets@[ii].actions@[j].resolutions@.len() ==> {
                    let res = #[trigger] rec.sets@[ii].actions@[j].resolutions@[q];
                    &&& s.god_states@.contains_key(res.profile)
                    &&& s.god_states@[res.profile]@.contains_key(res.binding)
                } by {
                let aw = self.spec_action(
                    self.spec_action_set(set_handles@[ii]).unwrap().actions@[j],
                ).unwrap();
                lemma_action_resolutions_valid(s.god_states@, aw.bindings.seq());
            }
        }
        proof {
            assert forall|i1: int, j1: int, i2: int, j2: int|
                #![trigger old(self).spec_action_set(set_handles@[i1]).unwrap().actions@[j1], old(self).spec_action_set(set_handles@[i2]).unwrap().actions@[j2]]
                0 <= i1 < set_handles@.len() && 0 <= j1 < old(self).spec_action_set(
                    set_handles@[i1],
                ).unwrap().actions@.len() && 0 <= i2 < set_handles@.len() && 0 <= j2 < old(self).spec_action_set(set_handles@[i2]).unwrap().actions@.len() && (i1 != i2 || j1
                    != j2) implies old(self).spec_action_set(set_handles@[i1]).unwrap().actions@[j1]
                != old(self).spec_action_set(set_handles@[i2]).unwrap().actions@[j2] by {
                let h1 = old(self).spec_action_set(set_handles@[i1]).unwrap().actions@[j1];
                let h2 = old(self).spec_action_set(set_handles@[i2]).unwrap().actions@[j2];
                assert(old(self).spec_action(h1) is Some);
                assert(old(self).entries().contains_key((TAG_ACTION, h1)));
                assert(old(self).spec_action(h1).unwrap().handle == h1);
                assert(old(self).spec_action(h2) is Some);
                assert(old(self).entries().contains_key((TAG_ACTION, h2)));
                assert(old(self).spec_action(h2).unwrap().handle == h2);
                assert(sets_rec@[i1].actions@[j1].action == h1);
                assert(sets_rec@[i2].actions@[j2].action == h2);
                assert(sets_rec@[i1].actions@[j1].action != sets_rec@[i2].actions@[j2].action);
            }
            assert forall|i1: int, j1: int|
                #![trigger old(self).spec_action_set(set_handles@[i1]).unwrap().actions@[j1]]
                0 <= i1 < set_handles@.len() && 0 <= j1 < old(self).spec_action_set(
                    set_handles@[i1],
                ).unwrap().actions@.len() implies old(self).spec_action(
                old(self).spec_action_set(set_handles@[i1]).unwrap().actions@[j1],
            ) is Some by {
                assert(sets_rec@[i1].actions@.len() == old(self).spec_action_set(
                    set_handles@[i1],
                ).unwrap().actions@.len());
                let aa = sets_rec@[i1].actions@[j1];
                assert(aa.action == aa.action);
            }
            assert(spec_attach_ok(*old(self), session_handle, set_handles@));
        }
        s.attached = Some(rec);
        s.cached_action_states = cache;
        self.put_session(s);
        Ok(())
    }
}

} // verus!
