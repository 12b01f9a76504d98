use vstd::prelude::*;

use crate::sys::now;
use crate::table::StringTable;
use crate::text::string_eq_str;
use crate::types::{texts, PactEntityType, PactRule, PluginManifest, Timestamp};

verus! {

/// Registry errors.
#[derive(Debug)]
pub enum RegistryError {
    AlreadyRegistered(String),
    NotRegistered(String),
    MissingDependency(String, String),
    EntityTypeConflict(String, String),
    EventTypeConflict(String, String),
    HasDependents(String, String),
    HookError(String),
}

/// The content of a registry error.
pub enum RegistryErrorData {
    AlreadyRegistered(Seq<char>),
    NotRegistered(Seq<char>),
    MissingDependency(Seq<char>, Seq<char>),
    EntityTypeConflict(Seq<char>, Seq<char>),
    EventTypeConflict(Seq<char>, Seq<char>),
    HasDependents(Seq<char>, Seq<char>),
    HookError(Seq<char>),
}

impl View for RegistryError {
    type V = RegistryErrorData;

    open spec fn view(&self) -> RegistryErrorData {
        match self {
            RegistryError::AlreadyRegistered(a) => RegistryErrorData::AlreadyRegistered(a@),
            RegistryError::NotRegistered(a) => RegistryErrorData::NotRegistered(a@),
            RegistryError::MissingDependency(a, b) => RegistryErrorData::MissingDependency(a@, b@),
            RegistryError::EntityTypeConflict(a, b) => RegistryErrorData::EntityTypeConflict(a@, b@),
            RegistryError::EventTypeConflict(a, b) => RegistryErrorData::EventTypeConflict(a@, b@),
            RegistryError::HasDependents(a, b) => RegistryErrorData::HasDependents(a@, b@),
            RegistryError::HookError(a) => RegistryErrorData::HookError(a@),
        }
    }
}

/// The content of the outcome of a registry operation.
pub open spec fn outcome_view(r: Result<(), RegistryError>) -> Result<(), RegistryErrorData> {
    match r {
        Ok(()) => Ok(()),
        Err(e) => Err(e@),
    }
}

/// The message that describes a registry error.
pub open spec fn error_message(e: RegistryErrorData) -> Seq<char> {
    match e {
        RegistryErrorData::AlreadyRegistered(a) => "Plugin '"@ + a + "' is already registered"@,
        RegistryErrorData::NotRegistered(a) => "Plugin '"@ + a + "' is not registered"@,
        RegistryErrorData::MissingDependency(a, b) => "Plugin '"@ + a + "' requires '"@ + b
            + "' which is not registered"@,
        RegistryErrorData::EntityTypeConflict(a, b) => "Entity type '"@ + a
            + "' is already registered by plugin '"@ + b + "'"@,
        RegistryErrorData::EventTypeConflict(a, b) => "Event type '"@ + a
            + "' is already registered by plugin '"@ + b + "'"@,
        RegistryErrorData::HasDependents(a, b) => "Cannot unregister '"@ + a + "': plugin '"@ + b
            + "' depends on it"@,
        RegistryErrorData::HookError(a) => "Hook error: "@ + a,
    }
}

/// Joins string slices and strings into one string.
fn cat(parts: &[&str]) -> (r: String)
    ensures
        r@ == parts@.fold_left(Seq::<char>::empty(), |acc: Seq<char>, p: &str| acc + p@),
{
    let mut out = String::new();
    let mut i: usize = 0;
    while i < parts.len()
        invariant
            i <= parts@.len(),
            out@ == parts@.subrange(0, i as int).fold_left(Seq::<char>::empty(), |acc: Seq<char>, p: &str| acc + p@),
        decreases parts@.len() - i,
    {
        proof {
            let f = |acc: Seq<char>, p: &str| acc + p@;
            assert(parts@.subrange(0, i + 1).drop_last() =~= parts@.subrange(0, i as int));
        }
        out.append(parts[i]);
        i = i + 1;
    }
    proof {
        assert(parts@.subrange(0, parts@.len() as int) =~= parts@);
    }
    out
}

impl RegistryError {
    /// The message that describes this error.
    pub fn message(&self) -> (r: String)
        ensures
            r@ == error_message(self@),
    {
        let r = match self {
            RegistryError::AlreadyRegistered(a) => cat(&["Plugin '", a.as_str(), "' is already registered"]),
            RegistryError::NotRegistered(a) => cat(&["Plugin '", a.as_str(), "' is not registered"]),
            RegistryError::MissingDependency(a, b) => cat(
                &["Plugin '", a.as_str(), "' requires '", b.as_str(), "' which is not registered"],
            ),
            RegistryError::EntityTypeConflict(a, b) => cat(
                &["Entity type '", a.as_str(), "' is already registered by plugin '", b.as_str(), "'"],
            ),
            RegistryError::EventTypeConflict(a, b) => cat(
                &["Event type '", a.as_str(), "' is already registered by plugin '", b.as_str(), "'"],
            ),
            RegistryError::HasDependents(a, b) => cat(
                &["Cannot unregister '", a.as_str(), "': plugin '", b.as_str(), "' depends on it"],
            ),
            RegistryError::HookError(a) => cat(&["Hook error: ", a.as_str()]),
        };
        proof {
            reveal_with_fuel(Seq::fold_left, 6);
        }
        r
    }
}


/// Registry event.
#[derive(Debug, Clone)]
pub struct RegistryEvent {
    pub event_type: String,
    pub plugin_id: String,
    pub data: StringTable,
}

/// The kind, plugin and data of a registry event.
pub open spec fn event_view(e: RegistryEvent) -> (Seq<char>, Seq<char>, Map<Seq<char>, Seq<char>>) {
    (e.event_type@, e.plugin_id@, e.data@)
}

/// The kinds, plugins and data of a sequence of registry events.
pub open spec fn events_view(s: Seq<RegistryEvent>) -> Seq<(Seq<char>, Seq<char>, Map<Seq<char>, Seq<char>>)> {
    s.map_values(|e: RegistryEvent| event_view(e))
}

/// The event that announces that plugin `id` registered entity type `t`;
/// its data maps `entity_type` to `t`.
pub open spec fn entity_type_event(id: Seq<char>, t: Seq<char>) -> (Seq<char>, Seq<char>, Map<Seq<char>, Seq<char>>) {
    ("entity_type:registered"@, id, Map::empty().insert("entity_type"@, t))
}

/// The events that registering plugin `id` with entity types `types` emits:
/// one `entity_type:registered` per entity type, then `plugin:registered`
/// with no data.
pub open spec fn registration_events(id: Seq<char>, types: Seq<String>) -> Seq<(Seq<char>, Seq<char>, Map<Seq<char>, Seq<char>>)> {
    types.map_values(|t: String| entity_type_event(id, t@)).push(("plugin:registered"@, id, Map::empty()))
}

/// Plugin registration entry: the plugin, what it declares, and when it was registered.
pub struct PluginRegistration<P> {
    pub plugin: P,
    pub manifest: PluginManifest,
    pub entity_types: Vec<PactEntityType>,
    pub default_rules: Vec<PactRule>,
    pub registered_at: Timestamp,
    pub status: String,
}

/// The id of a registered plugin.
pub open spec fn reg_id<P>(r: PluginRegistration<P>) -> Seq<char> {
    r.manifest.id@
}

/// Whether a plugin with the given id is among the registrations.
pub open spec fn has_id<P>(regs: Seq<PluginRegistration<P>>, id: Seq<char>) -> bool {
    exists|i: int| 0 <= i < regs.len() && #[trigger] reg_id(regs[i]) == id
}

/// The first of `deps` that no registration has as its id.
pub open spec fn first_unregistered<P>(regs: Seq<PluginRegistration<P>>, deps: Seq<String>) -> Option<Seq<char>>
    decreases deps.len(),
{
    if deps.len() == 0 {
        None
    } else if !has_id(regs, deps[0]@) {
        Some(deps[0]@)
    } else {
        first_unregistered(regs, deps.drop_first())
    }
}

/// The first of `types` that already has an owner, with that owner.
pub open spec fn first_claimed(owners: Map<Seq<char>, Seq<char>>, types: Seq<String>) -> Option<(Seq<char>, Seq<char>)>
    decreases types.len(),
{
    if types.len() == 0 {
        None
    } else if owners.dom().contains(types[0]@) {
        Some((types[0]@, owners[types[0]@]))
    } else {
        first_claimed(owners, types.drop_first())
    }
}

/// `owners` with each of `types` owned by `id`.
pub open spec fn claim_all(owners: Map<Seq<char>, Seq<char>>, types: Seq<String>, id: Seq<char>) -> Map<Seq<char>, Seq<char>>
    decreases types.len(),
{
    if types.len() == 0 {
        owners
    } else {
        claim_all(owners, types.drop_last(), id).insert(types.last()@, id)
    }
}

/// `owners` without any of `types`.
pub open spec fn release_all(owners: Map<Seq<char>, Seq<char>>, types: Seq<String>) -> Map<Seq<char>, Seq<char>>
    decreases types.len(),
{
    if types.len() == 0 {
        owners
    } else {
        release_all(owners, types.drop_last()).remove(types.last()@)
    }
}

/// The id of the first registration, other than `id` itself, that depends on `id`.
pub open spec fn first_dependent<P>(regs: Seq<PluginRegistration<P>>, id: Seq<char>) -> Option<Seq<char>>
    decreases regs.len(),
{
    if regs.len() == 0 {
        None
    } else if reg_id(regs[0]) != id && texts(regs[0].manifest.dependencies@).contains(id) {
        Some(reg_id(regs[0]))
    } else {
        first_dependent(regs.drop_first(), id)
    }
}

/// The place of the registration with the given id.
pub open spec fn index_of<P>(regs: Seq<PluginRegistration<P>>, id: Seq<char>) -> int {
    choose|i: int| 0 <= i < regs.len() && #[trigger] reg_id(regs[i]) == id
}

/// The types that a registration declares: its event types if `events`, else its entity types.
pub open spec fn declared<P>(r: PluginRegistration<P>, events: bool) -> Seq<String> {
    if events {
        r.manifest.event_types@
    } else {
        r.manifest.entity_types@
    }
}

/// The owner table holds exactly the declared types, each owned by the plugin that declares it.
pub open spec fn owners_match<P>(regs: Seq<PluginRegistration<P>>, owners: Map<Seq<char>, Seq<char>>, events: bool) -> bool {
    &&& forall|i: int, k: int|
        0 <= i < regs.len() && 0 <= k < declared(regs[i], events).len() ==> owners.dom().contains(
            #[trigger] declared(regs[i], events)[k]@,
        ) && owners[declared(regs[i], events)[k]@] == reg_id(regs[i])
    &&& forall|t: Seq<char>|
        #[trigger] owners.dom().contains(t) ==> exists|i: int, k: int|
            0 <= i < regs.len() && 0 <= k < declared(regs[i], events).len() && #[trigger] declared(
                regs[i],
                events,
            )[k]@ == t
}

/// No two registrations share an id.
pub open spec fn ids_unique<P>(regs: Seq<PluginRegistration<P>>) -> bool {
    forall|i: int, j: int| 0 <= i < j < regs.len() ==> reg_id(#[trigger] regs[i]) != reg_id(#[trigger] regs[j])
}

/// Every dependency of a registered plugin is registered.
pub open spec fn deps_closed<P>(regs: Seq<PluginRegistration<P>>) -> bool {
    forall|i: int, d: int|
        0 <= i < regs.len() && 0 <= d < regs[i].manifest.dependencies@.len() ==> has_id(
            regs,
            (#[trigger] regs[i].manifest.dependencies@[d])@,
        )
}

/// Every registration has status `active`.
pub open spec fn all_active<P>(regs: Seq<PluginRegistration<P>>) -> bool {
    forall|i: int| 0 <= i < regs.len() ==> (#[trigger] regs[i]).status@ == "active"@
}

/// Central registry for PACT domain plugins.
pub struct Registry<P> {
    plugins: Vec<PluginRegistration<P>>,
    entity_type_to_plugin: StringTable,
    event_type_to_plugin: StringTable,
    pending_events: Vec<RegistryEvent>,
}

impl<P> Registry<P> {
    /// The registrations, in the order in which they were made.
    pub closed spec fn registrations(&self) -> Seq<PluginRegistration<P>> {
        self.plugins@
    }

    /// The owner of each registered entity type.
    pub closed spec fn entity_owners(&self) -> Map<Seq<char>, Seq<char>> {
        self.entity_type_to_plugin@
    }

    /// The owner of each registered event type.
    pub closed spec fn event_owners(&self) -> Map<Seq<char>, Seq<char>> {
        self.event_type_to_plugin@
    }

    /// The events emitted and not yet taken.
    pub closed spec fn pending(&self) -> Seq<RegistryEvent> {
        self.pending_events@
    }

    /// The registry is consistent: ids are unique, the owner tables hold
    /// exactly the declared types of the registered plugins, every dependency
    /// of a registered plugin is registered, and every registration is active.
    #[verifier::type_invariant]
    pub closed spec fn wf(&self) -> bool {
        &&& self.entity_type_to_plugin.wf()
        &&& self.event_type_to_plugin.wf()
        &&& ids_unique(self.plugins@)
        &&& owners_match(self.plugins@, self.entity_type_to_plugin@, false)
        &&& owners_match(self.plugins@, self.event_type_to_plugin@, true)
        &&& deps_closed(self.plugins@)
        &&& all_active(self.plugins@)
    }

    /// What registering a plugin with this manifest answers, given what its
    /// `on_load` hook returned.
    pub open spec fn register_outcome(&self, manifest: PluginManifest, on_load: Result<(), String>) -> Result<(), RegistryErrorData> {
        let regs = self.registrations();
        let id = manifest.id@;
        if has_id(regs, id) {
            Err(RegistryErrorData::AlreadyRegistered(id))
        } else if first_unregistered(regs, manifest.dependencies@) is Some {
            Err(RegistryErrorData::MissingDependency(id, first_unregistered(regs, manifest.dependencies@)->0))
        } else if first_claimed(self.entity_owners(), manifest.entity_types@) is Some {
            let (t, o) = first_claimed(self.entity_owners(), manifest.entity_types@)->0;
            Err(RegistryErrorData::EntityTypeConflict(t, o))
        } else if first_claimed(self.event_owners(), manifest.event_types@) is Some {
            let (t, o) = first_claimed(self.event_owners(), manifest.event_types@)->0;
            Err(RegistryErrorData::EventTypeConflict(t, o))
        } else if on_load is Err {
            Err(RegistryErrorData::HookError(on_load->Err_0@))
        } else {
            Ok(())
        }
    }

    /// What unregistering the plugin with this id answers, given what its
    /// `on_unload` hook returned.
    pub open spec fn unregister_outcome(&self, id: Seq<char>, on_unload: Result<(), String>) -> Result<(), RegistryErrorData> {
        let regs = self.registrations();
        if !has_id(regs, id) {
            Err(RegistryErrorData::NotRegistered(id))
        } else if first_dependent(regs, id) is Some {
            Err(RegistryErrorData::HasDependents(id, first_dependent(regs, id)->0))
        } else if on_unload is Err {
            Err(RegistryErrorData::HookError(on_unload->Err_0@))
        } else {
            Ok(())
        }
    }
}


/// Which types `claim_all` holds, and who owns each.
pub proof fn lemma_claim_all(owners: Map<Seq<char>, Seq<char>>, types: Seq<String>, id: Seq<char>)
    ensures
        forall|t: Seq<char>|
            #[trigger] claim_all(owners, types, id).dom().contains(t) <==> (owners.dom().contains(t) || exists|k: int|
                0 <= k < types.len() && types[k]@ == t),
        forall|t: Seq<char>|
            #[trigger] claim_all(owners, types, id).dom().contains(t) ==> claim_all(owners, types, id)[t] == if exists|k: int|
                0 <= k < types.len() && types[k]@ == t {
                id
            } else {
                owners[t]
            },
    decreases types.len(),
{
    if types.len() > 0 {
        let p = types.drop_last();
        lemma_claim_all(owners, p, id);
        assert(claim_all(owners, types, id) == claim_all(owners, p, id).insert(types.last()@, id));
        assert(types.last() == types[types.len() - 1]);
        assert forall|t: Seq<char>|
            #[trigger] claim_all(owners, types, id).dom().contains(t) <==> (owners.dom().contains(t) || exists|k: int|
                0 <= k < types.len() && types[k]@ == t) by {
            if exists|k: int| 0 <= k < types.len() && types[k]@ == t {
                let k = choose|k: int| 0 <= k < types.len() && types[k]@ == t;
                if k < types.len() - 1 {
                    assert(p[k]@ == t);
                }
            }
            if exists|k: int| 0 <= k < p.len() && p[k]@ == t {
                let k = choose|k: int| 0 <= k < p.len() && p[k]@ == t;
                assert(types[k]@ == t);
            }
        }
        assert forall|t: Seq<char>|
            #[trigger] claim_all(owners, types, id).dom().contains(t) implies claim_all(owners, types, id)[t] == if exists|k: int|
                0 <= k < types.len() && types[k]@ == t {
                id
            } else {
                owners[t]
            } by {
            if t != types.last()@ {
                if exists|k: int| 0 <= k < types.len() && types[k]@ == t {
                    let k = choose|k: int| 0 <= k < types.len() && types[k]@ == t;
                    assert(k < types.len() - 1);
                    assert(p[k]@ == t);
                }
                if exists|k: int| 0 <= k < p.len() && p[k]@ == t {
                    let k = choose|k: int| 0 <= k < p.len() && p[k]@ == t;
                    assert(types[k]@ == t);
                }
            } else {
                assert(types[types.len() - 1]@ == t);
            }
        }
    }
}

/// Which types `release_all` keeps: the owned types not among `types`, with their owners.
pub proof fn lemma_release_all(owners: Map<Seq<char>, Seq<char>>, types: Seq<String>)
    ensures
        forall|t: Seq<char>|
            #[trigger] release_all(owners, types).dom().contains(t) <==> (owners.dom().contains(t) && !exists|k: int|
                0 <= k < types.len() && types[k]@ == t),
        forall|t: Seq<char>|
            #[trigger] release_all(owners, types).dom().contains(t) ==> release_all(owners, types)[t] == owners[t],
    decreases types.len(),
{
    if types.len() > 0 {
        let p = types.drop_last();
        lemma_release_all(owners, p);
        assert(release_all(owners, types) == release_all(owners, p).remove(types.last()@));
        assert(types.last() == types[types.len() - 1]);
        assert forall|t: Seq<char>|
            #[trigger] release_all(owners, types).dom().contains(t) <==> (owners.dom().contains(t) && !exists|k: int|
                0 <= k < types.len() && types[k]@ == t) by {
            if exists|k: int| 0 <= k < types.len() && types[k]@ == t {
                let k = choose|k: int| 0 <= k < types.len() && types[k]@ == t;
                if k < types.len() - 1 {
                    assert(p[k]@ == t);
                }
            }
            if exists|k: int| 0 <= k < p.len() && p[k]@ == t {
                let k = choose|k: int| 0 <= k < p.len() && p[k]@ == t;
                assert(types[k]@ == t);
            }
            if t == types.last()@ {
                assert(types[types.len() - 1]@ == t);
            }
        }
    }
}

/// Adding a plugin whose declared types are all unowned, and giving them to it,
/// keeps the owner table in step with the registrations.
proof fn lemma_claim_keeps_match<P>(
    regs: Seq<PluginRegistration<P>>,
    owners: Map<Seq<char>, Seq<char>>,
    newreg: PluginRegistration<P>,
    events: bool,
)
    requires
        owners_match(regs, owners, events),
        forall|k: int| 0 <= k < declared(newreg, events).len() ==> !owners.dom().contains(#[trigger] declared(newreg, events)[k]@),
    ensures
        owners_match(regs.push(newreg), claim_all(owners, declared(newreg, events), reg_id(newreg)), events),
{
    let nregs = regs.push(newreg);
    let ts = declared(newreg, events);
    let id = reg_id(newreg);
    let nown = claim_all(owners, ts, id);
    lemma_claim_all(owners, ts, id);
    assert forall|i: int, k: int|
        0 <= i < nregs.len() && 0 <= k < declared(nregs[i], events).len() implies nown.dom().contains(
            #[trigger] declared(nregs[i], events)[k]@,
        ) && nown[declared(nregs[i], events)[k]@] == reg_id(nregs[i]) by {
        let t = declared(nregs[i], events)[k]@;
        if i < regs.len() {
            assert(nregs[i] == regs[i]);
            assert(owners.dom().contains(declared(regs[i], events)[k]@));
            if exists|j: int| 0 <= j < ts.len() && ts[j]@ == t {
                let j = choose|j: int| 0 <= j < ts.len() && ts[j]@ == t;
                assert(!owners.dom().contains(declared(newreg, events)[j]@));
            }
        } else {
            assert(ts[k]@ == t);
        }
    }
    assert forall|t: Seq<char>| #[trigger] nown.dom().contains(t) implies exists|i: int, k: int|
        0 <= i < nregs.len() && 0 <= k < declared(nregs[i], events).len() && #[trigger] declared(
            nregs[i],
            events,
        )[k]@ == t by {
        if owners.dom().contains(t) {
            let (i, k) = choose|i: int, k: int|
                0 <= i < regs.len() && 0 <= k < declared(regs[i], events).len() && #[trigger] declared(
                    regs[i],
                    events,
                )[k]@ == t;
            assert(nregs[i] == regs[i]);
            assert(declared(nregs[i], events)[k]@ == t);
        } else {
            let k = choose|k: int| 0 <= k < ts.len() && ts[k]@ == t;
            assert(nregs[regs.len() as int] == newreg);
            assert(declared(nregs[regs.len() as int], events)[k]@ == t);
        }
    }
}

/// Removing a registration, and its declared types, keeps the owner table in
/// step with the remaining registrations.
proof fn lemma_release_keeps_match<P>(
    regs: Seq<PluginRegistration<P>>,
    owners: Map<Seq<char>, Seq<char>>,
    x: int,
    events: bool,
)
    requires
        owners_match(regs, owners, events),
        ids_unique(regs),
        0 <= x < regs.len(),
    ensures
        owners_match(regs.remove(x), release_all(owners, declared(regs[x], events)), events),
{
    let nregs = regs.remove(x);
    let ts = declared(regs[x], events);
    let nown = release_all(owners, ts);
    lemma_release_all(owners, ts);
    regs.remove_ensures(x);
    assert forall|i: int, k: int|
        0 <= i < nregs.len() && 0 <= k < declared(nregs[i], events).len() implies nown.dom().contains(
            #[trigger] declared(nregs[i], events)[k]@,
        ) && nown[declared(nregs[i], events)[k]@] == reg_id(nregs[i]) by {
        let oi = if i < x { i } else { i + 1 };
        assert(nregs[i] == regs[oi]);
        let t = declared(regs[oi], events)[k]@;
        assert(owners.dom().contains(t) && owners[t] == reg_id(regs[oi]));
        if exists|j: int| 0 <= j < ts.len() && ts[j]@ == t {
            let j = choose|j: int| 0 <= j < ts.len() && ts[j]@ == t;
            assert(owners[declared(regs[x], events)[j]@] == reg_id(regs[x]));
            assert(oi != x);
            if oi < x {
                assert(reg_id(regs[oi]) != reg_id(regs[x]));
            } else {
                assert(reg_id(regs[x]) != reg_id(regs[oi]));
            }
            assert(false);
        }
        assert(nown.dom().contains(t));
        assert(nown[t] == owners[t]);
    }
    assert forall|t: Seq<char>| #[trigger] nown.dom().contains(t) implies exists|i: int, k: int|
        0 <= i < nregs.len() && 0 <= k < declared(nregs[i], events).len() && #[trigger] declared(
            nregs[i],
            events,
        )[k]@ == t by {
        let (i, k) = choose|i: int, k: int|
            0 <= i < regs.len() && 0 <= k < declared(regs[i], events).len() && #[trigger] declared(
                regs[i],
                events,
            )[k]@ == t;
        if i == x {
            assert(ts[k]@ == t);
        } else {
            let ni = if i < x { i } else { i - 1 };
            assert(nregs[ni] == regs[i]);
            assert(declared(nregs[ni], events)[k]@ == t);
        }
    }
}


/// The first of `types` that the table already holds, with its owner.
fn first_taken(table: &StringTable, types: &Vec<String>) -> (r: Option<(String, String)>)
    requires
        table.wf(),
    ensures
        r is None <==> first_claimed(table@, types@) is None,
        r matches Some((t, o)) ==> first_claimed(table@, types@) == Some((t@, o@)),
        r is None ==> forall|k: int| 0 <= k < types@.len() ==> !table@.dom().contains(#[trigger] types@[k]@),
{
    let mut i: usize = 0;
    assert(types@.subrange(0, types@.len() as int) =~= types@);
    while i < types.len()
        invariant
            table.wf(),
            i <= types@.len(),
            first_claimed(table@, types@) == first_claimed(table@, types@.subrange(i as int, types@.len() as int)),
            forall|k: int| 0 <= k < i ==> !table@.dom().contains(#[trigger] types@[k]@),
        decreases types@.len() - i,
    {
        let ghost rest = types@.subrange(i as int, types@.len() as int);
        assert(rest[0] == types@[i as int]);
        match table.get(types[i].as_str()) {
            Some(owner) => {
                return Some((types[i].clone(), owner.clone()));
            },
            None => {
                assert(rest.drop_first() =~= types@.subrange(i + 1, types@.len() as int));
            },
        }
        i = i + 1;
    }
    None
}

impl<P> Registry<P> {
    /// Creates a new registry.
    pub fn new() -> (r: Self)
        ensures
            r.wf(),
            r.registrations() == Seq::<PluginRegistration<P>>::empty(),
            r.entity_owners() == Map::<Seq<char>, Seq<char>>::empty(),
            r.event_owners() == Map::<Seq<char>, Seq<char>>::empty(),
            r.pending() == Seq::<RegistryEvent>::empty(),
    {
        Registry {
            plugins: Vec::new(),
            entity_type_to_plugin: StringTable::new(),
            event_type_to_plugin: StringTable::new(),
            pending_events: Vec::new(),
        }
    }

    /// The place of the registration with the given id, if any.
    fn position(&self, plugin_id: &str) -> (r: Option<usize>)
        ensures
            r is Some <==> has_id(self.registrations(), plugin_id@),
            r matches Some(i) ==> i < self.registrations().len() && reg_id(self.registrations()[i as int]) == plugin_id@,
    {
        let mut i: usize = 0;
        while i < self.plugins.len()
            invariant
                i <= self.plugins@.len(),
                forall|j: int| 0 <= j < i ==> reg_id(#[trigger] self.plugins@[j]) != plugin_id@,
            decreases self.plugins@.len() - i,
        {
            if string_eq_str(&self.plugins[i].manifest.id, plugin_id) {
                assert(reg_id(self.plugins@[i as int]) == plugin_id@);
                return Some(i);
            }
            i = i + 1;
        }
        None
    }

    /// Checks if a plugin is registered.
    pub fn is_registered(&self, plugin_id: &str) -> (r: bool)
        ensures
            r == has_id(self.registrations(), plugin_id@),
    {
        self.position(plugin_id).is_some()
    }

    /// The place, among `deps`, of the first dependency that is not registered.
    fn missing_dependency(&self, deps: &Vec<String>) -> (r: Option<usize>)
        ensures
            r is None <==> first_unregistered(self.registrations(), deps@) is None,
            r matches Some(k) ==> k < deps@.len() && first_unregistered(self.registrations(), deps@) == Some(deps@[k as int]@),
            r is None ==> forall|d: int| 0 <= d < deps@.len() ==> has_id(self.registrations(), (#[trigger] deps@[d])@),
    {
        let ghost regs = self.registrations();
        let mut i: usize = 0;
        assert(deps@.subrange(0, deps@.len() as int) =~= deps@);
        while i < deps.len()
            invariant
                regs == self.registrations(),
                i <= deps@.len(),
                first_unregistered(regs, deps@) == first_unregistered(regs, deps@.subrange(i as int, deps@.len() as int)),
                forall|d: int| 0 <= d < i ==> has_id(regs, (#[trigger] deps@[d])@),
            decreases deps@.len() - i,
        {
            let ghost rest = deps@.subrange(i as int, deps@.len() as int);
            assert(rest[0] == deps@[i as int]);
            if !self.is_registered(deps[i].as_str()) {
                return Some(i);
            }
            assert(rest.drop_first() =~= deps@.subrange(i + 1, deps@.len() as int));
            i = i + 1;
        }
        None
    }

    /// Checks whether a plugin with this manifest can be registered: the
    /// answer that `register` gives when the plugin has no `on_load` hook (or
    /// one that succeeds). Run a plugin's `on_load` hook only when this is `Ok`.
    pub fn check_registration(&self, manifest: &PluginManifest) -> (r: Result<(), RegistryError>)
        ensures
            outcome_view(r) == self.register_outcome(*manifest, Ok(())),
    {
        proof {
            use_type_invariant(self);
        }
        if self.is_registered(manifest.id.as_str()) {
            return Err(RegistryError::AlreadyRegistered(manifest.id.clone()));
        }
        match self.missing_dependency(&manifest.dependencies) {
            Some(k) => {
                return Err(RegistryError::MissingDependency(manifest.id.clone(), manifest.dependencies[k].clone()));
            },
            None => {},
        }
        match first_taken(&self.entity_type_to_plugin, &manifest.entity_types) {
            Some((t, o)) => {
                return Err(RegistryError::EntityTypeConflict(t, o));
            },
            None => {},
        }
        match first_taken(&self.event_type_to_plugin, &manifest.event_types) {
            Some((t, o)) => {
                return Err(RegistryError::EventTypeConflict(t, o));
            },
            None => {},
        }
        Ok(())
    }

    /// Registers a domain plugin: the plugin, its manifest, the entity types
    /// and default rules it declares, and what its `on_load` hook returned
    /// (`Ok(())` where it has none; the hook is run only once
    /// `register_outcome` is known to be no refusal). A refused registration
    /// changes nothing.
    pub fn register(
        &mut self,
        plugin: P,
        manifest: PluginManifest,
        entity_types: Vec<PactEntityType>,
        default_rules: Vec<PactRule>,
        on_load: Result<(), String>,
    ) -> (r: Result<(), RegistryError>)
        ensures
            final(self).wf(),
            outcome_view(r) == old(self).register_outcome(manifest, on_load),
            r is Err ==> *final(self) == *old(self),
            r is Ok ==> final(self).registrations().len() == old(self).registrations().len() + 1,
            r is Ok ==> final(self).registrations().drop_last() == old(self).registrations(),
            r is Ok ==> ({
                let reg = final(self).registrations().last();
                &&& reg.plugin == plugin
                &&& reg.manifest == manifest
                &&& reg.entity_types == entity_types
                &&& reg.default_rules == default_rules
                &&& reg.status@ == "active"@
            }),
            r is Ok ==> final(self).entity_owners() == claim_all(old(self).entity_owners(), manifest.entity_types@, manifest.id@),
            r is Ok ==> final(self).event_owners() == claim_all(old(self).event_owners(), manifest.event_types@, manifest.id@),
            r is Ok ==> events_view(final(self).pending()) == events_view(old(self).pending()) + registration_events(manifest.id@, manifest.entity_types@),
    {
        proof {
            use_type_invariant(&*self);
        }
        match self.check_registration(&manifest) {
            Err(e) => {
                return Err(e);
            },
            Ok(()) => {},
        }
        proof {
            lemma_first_unregistered_none(self.registrations(), manifest.dependencies@);
            lemma_first_claimed_none(self.entity_owners(), manifest.entity_types@);
            lemma_first_claimed_none(self.event_owners(), manifest.event_types@);
        }
        match on_load {
            Err(m) => {
                return Err(RegistryError::HookError(m));
            },
            Ok(()) => {},
        }
        let ghost old_self = *self;
        let mut me = Registry::new();
        std::mem::swap(&mut me, self);
        let Registry { mut plugins, mut entity_type_to_plugin, mut event_type_to_plugin, mut pending_events } = me;
        let registered_at = now();
        let id = &manifest.id;
        let mut k: usize = 0;
        while k < manifest.entity_types.len()
            invariant
                entity_type_to_plugin.wf(),
                entity_type_to_plugin@ == claim_all(old_self.entity_type_to_plugin@, manifest.entity_types@.subrange(0, k as int), id@),
                events_view(pending_events@) == events_view(old_self.pending_events@) + manifest.entity_types@.subrange(0, k as int).map_values(|t: String| entity_type_event(id@, t@)),
                plugins == old_self.plugins,
                event_type_to_plugin == old_self.event_type_to_plugin,
                k <= manifest.entity_types@.len(),
            decreases manifest.entity_types@.len() - k,
        {
            let ghost before = pending_events@;
            let t = manifest.entity_types[k].clone();
            let mut data = StringTable::new();
            data.insert(String::from_str("entity_type"), t.clone());
            entity_type_to_plugin.insert(t, id.clone());
            pending_events.push(RegistryEvent {
                event_type: String::from_str("entity_type:registered"),
                plugin_id: id.clone(),
                data,
            });
            proof {
                let sub = manifest.entity_types@.subrange(0, k + 1);
                assert(sub.drop_last() =~= manifest.entity_types@.subrange(0, k as int));
                let f = |t: String| entity_type_event(id@, t@);
                assert(sub.map_values(f) =~= manifest.entity_types@.subrange(0, k as int).map_values(f).push(f(sub[k as int])));
                assert(pending_events@ == before.push(pending_events@.last()));
                assert(pending_events@.last().data@ =~= Map::empty().insert("entity_type"@, manifest.entity_types@[k as int]@));
                assert(events_view(pending_events@) =~= events_view(before).push(f(sub[k as int])));
                assert(events_view(pending_events@) =~= events_view(old_self.pending_events@) + sub.map_values(f));
            }
            k = k + 1;
        }
        let ghost after_entities = Registry { plugins, entity_type_to_plugin, event_type_to_plugin, pending_events };
        let mut k: usize = 0;
        while k < manifest.event_types.len()
            invariant
                entity_type_to_plugin == after_entities.entity_type_to_plugin,
                pending_events == after_entities.pending_events,
                event_type_to_plugin.wf(),
                event_type_to_plugin@ == claim_all(old_self.event_type_to_plugin@, manifest.event_types@.subrange(0, k as int), id@),
                plugins == old_self.plugins,
                k <= manifest.event_types@.len(),
            decreases manifest.event_types@.len() - k,
        {
            let t = manifest.event_types[k].clone();
            event_type_to_plugin.insert(t, id.clone());
            proof {
                let sub = manifest.event_types@.subrange(0, k + 1);
                assert(sub.drop_last() =~= manifest.event_types@.subrange(0, k as int));
            }
            k = k + 1;
        }
        proof {
            assert(manifest.entity_types@.subrange(0, manifest.entity_types@.len() as int) =~= manifest.entity_types@);
            assert(manifest.event_types@.subrange(0, manifest.event_types@.len() as int) =~= manifest.event_types@);
        }
        let ghost pending_before = pending_events@;
        pending_events.push(RegistryEvent {
            event_type: String::from_str("plugin:registered"),
            plugin_id: id.clone(),
            data: StringTable::new(),
        });
        proof {
            assert(events_view(pending_events@) =~= events_view(pending_before).push(("plugin:registered"@, id@, Map::empty())));
        }
        let reg = PluginRegistration {
            plugin,
            manifest,
            entity_types,
            default_rules,
            registered_at,
            status: String::from_str("active"),
        };
        let ghost newreg = reg;
        plugins.push(reg);
        proof {
            let regs = old_self.plugins@;
            assert(plugins@ == regs.push(newreg));
            lemma_claim_keeps_match(regs, old_self.entity_type_to_plugin@, newreg, false);
            lemma_claim_keeps_match(regs, old_self.event_type_to_plugin@, newreg, true);
            assert(ids_unique(plugins@)) by {
                assert forall|i: int, j: int| 0 <= i < j < plugins@.len() implies reg_id(#[trigger] plugins@[i]) != reg_id(#[trigger] plugins@[j]) by {
                    if j == regs.len() {
                        assert(plugins@[i] == regs[i]);
                    } else {
                        assert(plugins@[i] == regs[i] && plugins@[j] == regs[j]);
                    }
                }
            }
            assert(deps_closed(plugins@)) by {
                assert forall|i: int, d: int|
                    0 <= i < plugins@.len() && 0 <= d < plugins@[i].manifest.dependencies@.len() implies has_id(
                        plugins@,
                        (#[trigger] plugins@[i].manifest.dependencies@[d])@,
                    ) by {
                    let dep = plugins@[i].manifest.dependencies@[d]@;
                    if i < regs.len() {
                        assert(plugins@[i] == regs[i]);
                        assert(has_id(regs, regs[i].manifest.dependencies@[d]@));
                    } else {
                        assert(has_id(regs, newreg.manifest.dependencies@[d]@));
                    }
                    let j = choose|j: int| 0 <= j < regs.len() && #[trigger] reg_id(regs[j]) == dep;
                    assert(plugins@[j] == regs[j]);
                    assert(reg_id(plugins@[j]) == dep);
                }
            }
            assert(all_active(plugins@)) by {
                assert forall|i: int| 0 <= i < plugins@.len() implies (#[trigger] plugins@[i]).status@ == "active"@ by {
                    if i < regs.len() {
                        assert(plugins@[i] == regs[i]);
                    }
                }
            }
            assert(plugins@.drop_last() =~= regs);
        }
        *self = Registry { plugins, entity_type_to_plugin, event_type_to_plugin, pending_events };
        Ok(())
    }

    /// The id of the first registration, other than `plugin_id`'s own, that depends on `plugin_id`.
    fn find_dependent(&self, plugin_id: &str) -> (r: Option<usize>)
        ensures
            r is None <==> first_dependent(self.registrations(), plugin_id@) is None,
            r matches Some(j) ==> j < self.registrations().len() && first_dependent(self.registrations(), plugin_id@) == Some(reg_id(self.registrations()[j as int])),
            r is None ==> forall|j: int|
                0 <= j < self.registrations().len() && reg_id(#[trigger] self.registrations()[j]) != plugin_id@
                    ==> !texts(self.registrations()[j].manifest.dependencies@).contains(plugin_id@),
    {
        let ghost regs = self.registrations();
        let mut i: usize = 0;
        assert(regs.subrange(0, regs.len() as int) =~= regs);
        while i < self.plugins.len()
            invariant
                regs == self.registrations(),
                i <= regs.len(),
                first_dependent(regs, plugin_id@) == first_dependent(regs.subrange(i as int, regs.len() as int), plugin_id@),
                forall|j: int|
                    0 <= j < i && reg_id(#[trigger] regs[j]) != plugin_id@ ==> !texts(regs[j].manifest.dependencies@).contains(plugin_id@),
            decreases regs.len() - i,
        {
            let ghost rest = regs.subrange(i as int, regs.len() as int);
            assert(rest[0] == regs[i as int]);
            let reg = &self.plugins[i];
            if !string_eq_str(&reg.manifest.id, plugin_id) && contains_text(&reg.manifest.dependencies, plugin_id) {
                return Some(i);
            }
            assert(rest.drop_first() =~= regs.subrange(i + 1, regs.len() as int));
            i = i + 1;
        }
        None
    }

    /// Checks whether the plugin with this id can be unregistered: the answer
    /// that `unregister` gives when the plugin has no `on_unload` hook (or one
    /// that succeeds). Run a plugin's `on_unload` hook only when this is `Ok`.
    pub fn check_unregistration(&self, plugin_id: &str) -> (r: Result<(), RegistryError>)
        ensures
            outcome_view(r) == self.unregister_outcome(plugin_id@, Ok(())),
    {
        proof {
            use_type_invariant(self);
        }
        if !self.is_registered(plugin_id) {
            return Err(RegistryError::NotRegistered(String::from_str(plugin_id)));
        }
        match self.find_dependent(plugin_id) {
            Some(j) => {
                return Err(RegistryError::HasDependents(String::from_str(plugin_id), self.plugins[j].manifest.id.clone()));
            },
            None => {},
        }
        Ok(())
    }

    /// Unregisters a plugin, given what its `on_unload` hook returned (`Ok(())`
    /// where it has none; the hook is run only once `unregister_outcome` is
    /// known to be no refusal). A refused request changes nothing.
    pub fn unregister(&mut self, plugin_id: &str, on_unload: Result<(), String>) -> (r: Result<(), RegistryError>)
        ensures
            final(self).wf(),
            outcome_view(r) == old(self).unregister_outcome(plugin_id@, on_unload),
            r is Err ==> *final(self) == *old(self),
            r is Ok ==> ({
                let regs = old(self).registrations();
                let x = index_of(regs, plugin_id@);
                &&& 0 <= x < regs.len()
                &&& final(self).registrations() == regs.remove(x)
                &&& final(self).entity_owners() == release_all(old(self).entity_owners(), regs[x].manifest.entity_types@)
                &&& final(self).event_owners() == release_all(old(self).event_owners(), regs[x].manifest.event_types@)
                &&& events_view(final(self).pending()) == events_view(old(self).pending()).push(("plugin:unregistered"@, plugin_id@, Map::empty()))
            }),
    {
        proof {
            use_type_invariant(&*self);
        }
        match self.check_unregistration(plugin_id) {
            Err(e) => {
                return Err(e);
            },
            Ok(()) => {},
        }
        proof {
            lemma_first_dependent_none(self.registrations(), plugin_id@);
        }
        let x = match self.position(plugin_id) {
            Some(x) => x,
            None => {
                return Err(RegistryError::NotRegistered(String::from_str(plugin_id)));
            },
        };
        match on_unload {
            Err(m) => {
                return Err(RegistryError::HookError(m));
            },
            Ok(()) => {},
        }
        let ghost old_self = *self;
        let mut me = Registry::new();
        std::mem::swap(&mut me, self);
        let Registry { mut plugins, mut entity_type_to_plugin, mut event_type_to_plugin, mut pending_events } = me;
        let ghost regs = old_self.plugins@;
        proof {
            assert(index_of(regs, plugin_id@) == x) by {
                let c = index_of(regs, plugin_id@);
                assert(reg_id(regs[x as int]) == plugin_id@);
                if c != x {
                    if c < x {
                        assert(reg_id(regs[c]) != reg_id(regs[x as int]));
                    } else {
                        assert(reg_id(regs[x as int]) != reg_id(regs[c]));
                    }
                }
            }
        }
        let reg = plugins.remove(x);
        let ghost after_remove = Registry { plugins, entity_type_to_plugin, event_type_to_plugin, pending_events };
        proof {
            assert(reg == regs[x as int]);
            assert(plugins@ == regs.remove(x as int));
        }
        let types = &reg.manifest.entity_types;
        let mut k: usize = 0;
        while k < types.len()
            invariant
                plugins == after_remove.plugins,
                event_type_to_plugin == after_remove.event_type_to_plugin,
                pending_events == after_remove.pending_events,
                entity_type_to_plugin.wf(),
                entity_type_to_plugin@ == release_all(old_self.entity_type_to_plugin@, types@.subrange(0, k as int)),
                k <= types@.len(),
            decreases types@.len() - k,
        {
            entity_type_to_plugin.remove(types[k].as_str());
            proof {
                assert(types@.subrange(0, k + 1).drop_last() =~= types@.subrange(0, k as int));
            }
            k = k + 1;
        }
        let ghost after_entities = Registry { plugins, entity_type_to_plugin, event_type_to_plugin, pending_events };
        let types = &reg.manifest.event_types;
        let mut k: usize = 0;
        while k < types.len()
            invariant
                plugins == after_remove.plugins,
                entity_type_to_plugin == after_entities.entity_type_to_plugin,
                pending_events == after_remove.pending_events,
                event_type_to_plugin.wf(),
                event_type_to_plugin@ == release_all(old_self.event_type_to_plugin@, types@.subrange(0, k as int)),
                k <= types@.len(),
            decreases types@.len() - k,
        {
            event_type_to_plugin.remove(types[k].as_str());
            proof {
                assert(types@.subrange(0, k + 1).drop_last() =~= types@.subrange(0, k as int));
            }
            k = k + 1;
        }
        proof {
            assert(reg.manifest.entity_types@.subrange(0, reg.manifest.entity_types@.len() as int) =~= reg.manifest.entity_types@);
            assert(reg.manifest.event_types@.subrange(0, reg.manifest.event_types@.len() as int) =~= reg.manifest.event_types@);
        }
        let ghost pending_before = pending_events@;
        pending_events.push(RegistryEvent {
            event_type: String::from_str("plugin:unregistered"),
            plugin_id: String::from_str(plugin_id),
            data: StringTable::new(),
        });
        proof {
            assert(events_view(pending_events@) =~= events_view(pending_before).push(("plugin:unregistered"@, plugin_id@, Map::empty())));
            let nregs = plugins@;
            regs.remove_ensures(x as int);
            assert(nregs == regs.remove(x as int));
            lemma_release_keeps_match(regs, old_self.entity_type_to_plugin@, x as int, false);
            lemma_release_keeps_match(regs, old_self.event_type_to_plugin@, x as int, true);
            assert(ids_unique(nregs)) by {
                assert forall|i: int, j: int| 0 <= i < j < nregs.len() implies reg_id(#[trigger] nregs[i]) != reg_id(#[trigger] nregs[j]) by {
                    let oi = if i < x { i } else { i + 1 };
                    let oj = if j < x { j } else { j + 1 };
                    assert(nregs[i] == regs[oi] && nregs[j] == regs[oj]);
                }
            }
            assert(deps_closed(nregs)) by {
                assert forall|i: int, d: int|
                    0 <= i < nregs.len() && 0 <= d < nregs[i].manifest.dependencies@.len() implies has_id(
                        nregs,
                        (#[trigger] nregs[i].manifest.dependencies@[d])@,
                    ) by {
                    let oi = if i < x { i } else { i + 1 };
                    assert(nregs[i] == regs[oi]);
                    let dep = regs[oi].manifest.dependencies@[d]@;
                    assert(has_id(regs, dep));
                    let j = choose|j: int| 0 <= j < regs.len() && #[trigger] reg_id(regs[j]) == dep;
                    if j == x {
                        assert(reg_id(regs[oi]) != plugin_id@) by {
                            if oi < x {
                                assert(reg_id(regs[oi]) != reg_id(regs[x as int]));
                            } else {
                                assert(reg_id(regs[x as int]) != reg_id(regs[oi]));
                            }
                        }
                        assert(texts(regs[oi].manifest.dependencies@)[d] == dep);
                        assert(texts(regs[oi].manifest.dependencies@).contains(plugin_id@));
                        assert(false);
                    }
                    let nj = if j < x { j } else { j - 1 };
                    assert(nregs[nj] == regs[j]);
                    assert(reg_id(nregs[nj]) == dep);
                }
            }
            assert(all_active(nregs)) by {
                assert forall|i: int| 0 <= i < nregs.len() implies (#[trigger] nregs[i]).status@ == "active"@ by {
                    let oi = if i < x { i } else { i + 1 };
                    assert(nregs[i] == regs[oi]);
                }
            }
        }
        *self = Registry { plugins, entity_type_to_plugin, event_type_to_plugin, pending_events };
        Ok(())
    }
}

/// Filtering a prefix one element longer adds that element exactly when it passes.
pub proof fn lemma_filter_step<A>(s: Seq<A>, i: int, pred: spec_fn(A) -> bool)
    requires
        0 <= i < s.len(),
    ensures
        s.take(i + 1).filter(pred) == if pred(s[i]) {
            s.take(i).filter(pred).push(s[i])
        } else {
            s.take(i).filter(pred)
        },
{
    assert(s.take(i + 1) =~= s.take(i).push(s[i]));
    s.take(i).lemma_filter_push(s[i], pred);
}

/// Whether a registration is active.
pub open spec fn is_active<P>(r: PluginRegistration<P>) -> bool {
    r.status@ == "active"@
}

/// The entity types that the active registrations declare, in registration order.
pub open spec fn active_entity_types<P>(regs: Seq<PluginRegistration<P>>) -> Seq<crate::types::EntityTypeData>
    decreases regs.len(),
{
    if regs.len() == 0 {
        Seq::empty()
    } else {
        active_entity_types(regs.drop_last()) + if is_active(regs.last()) {
            regs.last().entity_types@.map_values(|e: PactEntityType| e@)
        } else {
            Seq::empty()
        }
    }
}

/// The default rules of the active registrations, in registration order.
pub open spec fn active_default_rules<P>(regs: Seq<PluginRegistration<P>>) -> Seq<crate::types::RuleData>
    decreases regs.len(),
{
    if regs.len() == 0 {
        Seq::empty()
    } else {
        active_default_rules(regs.drop_last()) + if is_active(regs.last()) {
            regs.last().default_rules@.map_values(|r: PactRule| r@)
        } else {
            Seq::empty()
        }
    }
}

/// The entity types of a single registration are listed exactly when it is
/// active, all of them, in its order.
pub proof fn law_active_entity_types_single<P>(r: PluginRegistration<P>)
    ensures
        r.status@ == "active"@ ==> active_entity_types(seq![r]) == r.entity_types@.map_values(|e: PactEntityType| e@),
        r.status@ != "active"@ ==> active_entity_types(seq![r]) == Seq::<crate::types::EntityTypeData>::empty(),
{
    let one = seq![r];
    assert(one.drop_last() =~= Seq::<PluginRegistration<P>>::empty());
    assert(one.last() == r);
    assert(active_entity_types(one.drop_last()) == Seq::<crate::types::EntityTypeData>::empty());
    assert(Seq::<crate::types::EntityTypeData>::empty() + r.entity_types@.map_values(|e: PactEntityType| e@)
        =~= r.entity_types@.map_values(|e: PactEntityType| e@));
    assert(Seq::<crate::types::EntityTypeData>::empty() + Seq::<crate::types::EntityTypeData>::empty()
        =~= Seq::<crate::types::EntityTypeData>::empty());
}

/// The entity types listed for two runs of registrations, one after the
/// other, are those of the first run followed by those of the second.
pub proof fn law_active_entity_types_concat<P>(a: Seq<PluginRegistration<P>>, b: Seq<PluginRegistration<P>>)
    ensures
        active_entity_types(a + b) == active_entity_types(a) + active_entity_types(b),
    decreases b.len(),
{
    if b.len() == 0 {
        assert(a + b =~= a);
        assert(active_entity_types(a) + Seq::<crate::types::EntityTypeData>::empty() =~= active_entity_types(a));
    } else {
        law_active_entity_types_concat(a, b.drop_last());
        assert((a + b).drop_last() =~= a + b.drop_last());
        assert((a + b).last() == b.last());
        let tail = if is_active(b.last()) {
            b.last().entity_types@.map_values(|e: PactEntityType| e@)
        } else {
            Seq::empty()
        };
        assert(active_entity_types(a) + active_entity_types(b.drop_last()) + tail
            =~= active_entity_types(a) + (active_entity_types(b.drop_last()) + tail));
    }
}

/// The default rules of a single registration are listed exactly when it is
/// active, all of them, in its order.
pub proof fn law_active_default_rules_single<P>(r: PluginRegistration<P>)
    ensures
        r.status@ == "active"@ ==> active_default_rules(seq![r]) == r.default_rules@.map_values(|x: PactRule| x@),
        r.status@ != "active"@ ==> active_default_rules(seq![r]) == Seq::<crate::types::RuleData>::empty(),
{
    let one = seq![r];
    assert(one.drop_last() =~= Seq::<PluginRegistration<P>>::empty());
    assert(one.last() == r);
    assert(active_default_rules(one.drop_last()) == Seq::<crate::types::RuleData>::empty());
    assert(Seq::<crate::types::RuleData>::empty() + r.default_rules@.map_values(|x: PactRule| x@)
        =~= r.default_rules@.map_values(|x: PactRule| x@));
    assert(Seq::<crate::types::RuleData>::empty() + Seq::<crate::types::RuleData>::empty()
        =~= Seq::<crate::types::RuleData>::empty());
}

/// The default rules listed for two runs of registrations, one after the
/// other, are those of the first run followed by those of the second.
pub proof fn law_active_default_rules_concat<P>(a: Seq<PluginRegistration<P>>, b: Seq<PluginRegistration<P>>)
    ensures
        active_default_rules(a + b) == active_default_rules(a) + active_default_rules(b),
    decreases b.len(),
{
    if b.len() == 0 {
        assert(a + b =~= a);
        assert(active_default_rules(a) + Seq::<crate::types::RuleData>::empty() =~= active_default_rules(a));
    } else {
        law_active_default_rules_concat(a, b.drop_last());
        assert((a + b).drop_last() =~= a + b.drop_last());
        assert((a + b).last() == b.last());
        let tail = if is_active(b.last()) {
            b.last().default_rules@.map_values(|x: PactRule| x@)
        } else {
            Seq::empty()
        };
        assert(active_default_rules(a) + active_default_rules(b.drop_last()) + tail
            =~= active_default_rules(a) + (active_default_rules(b.drop_last()) + tail));
    }
}

/// Registry statistics.
pub struct RegistryStats {
    pub plugin_count: usize,
    pub entity_type_count: usize,
    pub event_type_count: usize,
    pub active_plugins: Vec<String>,
}

impl<P> Registry<P> {
    /// Gets a plugin by ID.
    pub fn get_plugin(&self, plugin_id: &str) -> (r: Option<&P>)
        ensures
            r is Some <==> has_id(self.registrations(), plugin_id@),
            r matches Some(p) ==> *p == self.registrations()[index_of(self.registrations(), plugin_id@)].plugin,
    {
        proof {
            use_type_invariant(self);
        }
        match self.position(plugin_id) {
            Some(i) => {
                proof {
                    let regs = self.plugins@;
                    let c = index_of(regs, plugin_id@);
                    if c != i {
                        if c < i {
                            assert(reg_id(regs[c]) != reg_id(regs[i as int]));
                        } else {
                            assert(reg_id(regs[i as int]) != reg_id(regs[c]));
                        }
                    }
                }
                Some(&self.plugins[i].plugin)
            },
            None => None,
        }
    }

    /// Gets the plugin responsible for an entity type.
    pub fn get_plugin_for_entity_type(&self, entity_type: &str) -> (r: Option<&P>)
        ensures
            r is Some <==> self.entity_owners().dom().contains(entity_type@),
            r matches Some(p) ==> *p == self.registrations()[index_of(
                self.registrations(),
                self.entity_owners()[entity_type@],
            )].plugin,
    {
        proof {
            use_type_invariant(self);
        }
        match self.entity_type_to_plugin.get(entity_type) {
            Some(owner) => {
                proof {
                    self.lemma_owner_registered(entity_type@, false);
                }
                self.get_plugin(owner.as_str())
            },
            None => None,
        }
    }

    /// Gets the plugin responsible for an event type.
    pub fn get_plugin_for_event_type(&self, event_type: &str) -> (r: Option<&P>)
        ensures
            r is Some <==> self.event_owners().dom().contains(event_type@),
            r matches Some(p) ==> *p == self.registrations()[index_of(
                self.registrations(),
                self.event_owners()[event_type@],
            )].plugin,
    {
        proof {
            use_type_invariant(self);
        }
        match self.event_type_to_plugin.get(event_type) {
            Some(owner) => {
                proof {
                    self.lemma_owner_registered(event_type@, true);
                }
                self.get_plugin(owner.as_str())
            },
            None => None,
        }
    }

    /// The owner of an owned type is registered.
    proof fn lemma_owner_registered(&self, t: Seq<char>, events: bool)
        requires
            self.wf(),
            (if events { self.event_type_to_plugin@ } else { self.entity_type_to_plugin@ }).dom().contains(t),
        ensures
            has_id(self.plugins@, (if events { self.event_type_to_plugin@ } else { self.entity_type_to_plugin@ })[t]),
    {
        let owners = if events { self.event_type_to_plugin@ } else { self.entity_type_to_plugin@ };
        let regs = self.plugins@;
        let (i, k) = choose|i: int, k: int|
            0 <= i < regs.len() && 0 <= k < declared(regs[i], events).len() && #[trigger] declared(regs[i], events)[k]@ == t;
        assert(owners[declared(regs[i], events)[k]@] == reg_id(regs[i]));
    }

    /// Gets all registered plugins whose status is active, in registration order.
    pub fn get_all_plugins(&self) -> (r: Vec<&P>)
        ensures
            r@.len() == self.registrations().filter(|g: PluginRegistration<P>| is_active(g)).len(),
            forall|i: int| 0 <= i < r@.len() ==> *(#[trigger] r@[i]) == self.registrations().filter(|g: PluginRegistration<P>| is_active(g))[i].plugin,
    {
        let ghost regs = self.plugins@;
        let mut out: Vec<&P> = Vec::new();
        let mut i: usize = 0;
        while i < self.plugins.len()
            invariant
                regs == self.plugins@,
                i <= regs.len(),
                out@.len() == regs.take(i as int).filter(|g: PluginRegistration<P>| is_active(g)).len(),
                forall|j: int| 0 <= j < out@.len() ==> *(#[trigger] out@[j]) == regs.take(i as int).filter(|g: PluginRegistration<P>| is_active(g))[j].plugin,
            decreases regs.len() - i,
        {
            proof {
                lemma_filter_step(regs, i as int, |g: PluginRegistration<P>| is_active(g));
            }
            let reg = &self.plugins[i];
            let ghost prev = out@;
            if string_eq_str(&reg.status, "active") {
                out.push(&reg.plugin);
            }
            i = i + 1;
        }
        proof {
            assert(regs.take(regs.len() as int) =~= regs);
        }
        out
    }

    /// Gets all entity types that the active plugins declare, in registration order.
    pub fn get_all_entity_types(&self) -> (r: Vec<PactEntityType>)
        ensures
            r@.map_values(|e: PactEntityType| e@) == active_entity_types(self.registrations()),
    {
        let ghost regs = self.plugins@;
        let mut out: Vec<PactEntityType> = Vec::new();
        let mut i: usize = 0;
        while i < self.plugins.len()
            invariant
                regs == self.plugins@,
                i <= regs.len(),
                out@.map_values(|e: PactEntityType| e@) == active_entity_types(regs.take(i as int)),
            decreases regs.len() - i,
        {
            let reg = &self.plugins[i];
            let ghost before = out@;
            if string_eq_str(&reg.status, "active") {
                let mut k: usize = 0;
                while k < reg.entity_types.len()
                    invariant
                        k <= reg.entity_types@.len(),
                        out@.map_values(|e: PactEntityType| e@) == before.map_values(|e: PactEntityType| e@)
                            + reg.entity_types@.take(k as int).map_values(|e: PactEntityType| e@),
                    decreases reg.entity_types@.len() - k,
                {
                    let ghost prev = out@;
                    out.push(reg.entity_types[k].duplicate());
                    proof {
                        assert(reg.entity_types@.take(k + 1) =~= reg.entity_types@.take(k as int).push(reg.entity_types@[k as int]));
                        let dup = out@[prev.len() as int];
                        assert(out@ == prev.push(dup));
                        assert(out@.map_values(|e: PactEntityType| e@) =~= prev.map_values(|e: PactEntityType| e@).push(dup@));
                        assert(reg.entity_types@.take(k + 1).map_values(|e: PactEntityType| e@) =~= reg.entity_types@.take(k as int).map_values(|e: PactEntityType| e@).push(reg.entity_types@[k as int]@));
                        assert(out@.map_values(|e: PactEntityType| e@) =~= before.map_values(|e: PactEntityType| e@)
                            + reg.entity_types@.take(k + 1).map_values(|e: PactEntityType| e@));
                    }
                    k = k + 1;
                }
                proof {
                    assert(reg.entity_types@.take(reg.entity_types@.len() as int) =~= reg.entity_types@);
                }
            }
            proof {
                let t = regs.take(i + 1);
                assert(t.drop_last() =~= regs.take(i as int));
                assert(t.last() == *reg);
                assert(out@.map_values(|e: PactEntityType| e@) =~= active_entity_types(t));
            }
            i = i + 1;
        }
        proof {
            assert(regs.take(regs.len() as int) =~= regs);
        }
        out
    }

    /// Gets all default rules of the active plugins, in registration order.
    pub fn get_all_default_rules(&self) -> (r: Vec<PactRule>)
        ensures
            r@.map_values(|e: PactRule| e@) == active_default_rules(self.registrations()),
    {
        let ghost regs = self.plugins@;
        let mut out: Vec<PactRule> = Vec::new();
        let mut i: usize = 0;
        while i < self.plugins.len()
            invariant
                regs == self.plugins@,
                i <= regs.len(),
                out@.map_values(|e: PactRule| e@) == active_default_rules(regs.take(i as int)),
            decreases regs.len() - i,
        {
            let reg = &self.plugins[i];
            let ghost before = out@;
            if string_eq_str(&reg.status, "active") {
                let mut k: usize = 0;
                while k < reg.default_rules.len()
                    invariant
                        k <= reg.default_rules@.len(),
                        out@.map_values(|e: PactRule| e@) == before.map_values(|e: PactRule| e@)
                            + reg.default_rules@.take(k as int).map_values(|e: PactRule| e@),
                    decreases reg.default_rules@.len() - k,
                {
                    let ghost prev = out@;
                    out.push(reg.default_rules[k].duplicate());
                    proof {
                        assert(reg.default_rules@.take(k + 1) =~= reg.default_rules@.take(k as int).push(reg.default_rules@[k as int]));
                        let dup = out@[prev.len() as int];
                        assert(out@ == prev.push(dup));
                        assert(out@.map_values(|e: PactRule| e@) =~= prev.map_values(|e: PactRule| e@).push(dup@));
                        assert(reg.default_rules@.take(k + 1).map_values(|e: PactRule| e@) =~= reg.default_rules@.take(k as int).map_values(|e: PactRule| e@).push(reg.default_rules@[k as int]@));
                        assert(out@.map_values(|e: PactRule| e@) =~= before.map_values(|e: PactRule| e@)
                            + reg.default_rules@.take(k + 1).map_values(|e: PactRule| e@));
                    }
                    k = k + 1;
                }
                proof {
                    assert(reg.default_rules@.take(reg.default_rules@.len() as int) =~= reg.default_rules@);
                }
            }
            proof {
                let t = regs.take(i + 1);
                assert(t.drop_last() =~= regs.take(i as int));
                assert(t.last() == *reg);
                assert(out@.map_values(|e: PactRule| e@) =~= active_default_rules(t));
            }
            i = i + 1;
        }
        proof {
            assert(regs.take(regs.len() as int) =~= regs);
        }
        out
    }

    /// Gets plugin status.
    pub fn get_status(&self, plugin_id: &str) -> (r: Option<String>)
        ensures
            r is Some <==> has_id(self.registrations(), plugin_id@),
            r matches Some(s) ==> s@ == self.registrations()[index_of(self.registrations(), plugin_id@)].status@,
    {
        proof {
            use_type_invariant(self);
        }
        match self.position(plugin_id) {
            Some(i) => {
                proof {
                    let regs = self.plugins@;
                    let c = index_of(regs, plugin_id@);
                    if c != i {
                        if c < i {
                            assert(reg_id(regs[c]) != reg_id(regs[i as int]));
                        } else {
                            assert(reg_id(regs[i as int]) != reg_id(regs[c]));
                        }
                    }
                }
                Some(self.plugins[i].status.clone())
            },
            None => None,
        }
    }

    /// Gets registry statistics: the number of plugins, of owned entity types
    /// and of owned event types, and the ids of the active plugins in
    /// registration order.
    pub fn stats(&self) -> (r: RegistryStats)
        ensures
            r.plugin_count == self.registrations().len(),
            r.entity_type_count == self.entity_owners().dom().len(),
            r.event_type_count == self.event_owners().dom().len(),
            texts(r.active_plugins@) == self.registrations().filter(|g: PluginRegistration<P>| is_active(g)).map_values(|g: PluginRegistration<P>| reg_id(g)),
            texts(r.active_plugins@) == self.registrations().map_values(|g: PluginRegistration<P>| reg_id(g)),
            r.active_plugins@.len() == r.plugin_count,
    {
        proof {
            use_type_invariant(self);
        }
        let ghost regs = self.plugins@;
        let mut active: Vec<String> = Vec::new();
        let mut i: usize = 0;
        while i < self.plugins.len()
            invariant
                regs == self.plugins@,
                i <= regs.len(),
                texts(active@) == regs.take(i as int).filter(|g: PluginRegistration<P>| is_active(g)).map_values(|g: PluginRegistration<P>| reg_id(g)),
                texts(active@) == regs.take(i as int).map_values(|g: PluginRegistration<P>| reg_id(g)),
                all_active(regs),
            decreases regs.len() - i,
        {
            proof {
                lemma_filter_step(regs, i as int, |g: PluginRegistration<P>| is_active(g));
            }
            let reg = &self.plugins[i];
            let ghost before = active@;
            proof {
                assert(regs[i as int].status@ == "active"@);
                assert(regs.take(i + 1).map_values(|g: PluginRegistration<P>| reg_id(g)) =~= regs.take(i as int).map_values(|g: PluginRegistration<P>| reg_id(g)).push(reg_id(regs[i as int])));
            }
            if string_eq_str(&reg.status, "active") {
                active.push(reg.manifest.id.clone());
                proof {
                    assert(texts(active@) =~= texts(before).push(reg.manifest.id@));
                    assert(texts(active@) =~= regs.take(i + 1).filter(|g: PluginRegistration<P>| is_active(g)).map_values(|g: PluginRegistration<P>| reg_id(g)));
                }
            }
            i = i + 1;
        }
        proof {
            assert(regs.take(regs.len() as int) =~= regs);
        }
        RegistryStats {
            plugin_count: self.plugins.len(),
            entity_type_count: self.entity_type_to_plugin.len(),
            event_type_count: self.event_type_to_plugin.len(),
            active_plugins: active,
        }
    }

    /// Clears all plugins and their entity and event types; events not yet
    /// taken stay.
    pub fn clear(&mut self)
        ensures
            final(self).wf(),
            final(self).registrations() == Seq::<PluginRegistration<P>>::empty(),
            final(self).entity_owners() == Map::<Seq<char>, Seq<char>>::empty(),
            final(self).event_owners() == Map::<Seq<char>, Seq<char>>::empty(),
            final(self).pending() == old(self).pending(),
    {
        proof {
            use_type_invariant(&*self);
        }
        let mut pending: Vec<RegistryEvent> = Vec::new();
        std::mem::swap(&mut pending, &mut self.pending_events);
        *self = Registry {
            plugins: Vec::new(),
            entity_type_to_plugin: StringTable::new(),
            event_type_to_plugin: StringTable::new(),
            pending_events: pending,
        };
    }

    /// Takes the events emitted since the last call, oldest first.
    pub fn take_events(&mut self) -> (r: Vec<RegistryEvent>)
        ensures
            final(self).wf(),
            r@ == old(self).pending(),
            final(self).pending() == Seq::<RegistryEvent>::empty(),
            final(self).registrations() == old(self).registrations(),
            final(self).entity_owners() == old(self).entity_owners(),
            final(self).event_owners() == old(self).event_owners(),
    {
        proof {
            use_type_invariant(&*self);
        }
        let mut taken: Vec<RegistryEvent> = Vec::new();
        std::mem::swap(&mut taken, &mut self.pending_events);
        taken
    }
}

impl<P> Default for Registry<P> {
    fn default() -> (r: Self)
        ensures
            r.wf(),
            r.registrations() == Seq::<PluginRegistration<P>>::empty(),
            r.entity_owners() == Map::<Seq<char>, Seq<char>>::empty(),
            r.event_owners() == Map::<Seq<char>, Seq<char>>::empty(),
            r.pending() == Seq::<RegistryEvent>::empty(),
    {
        Self::new()
    }
}

/// Whether a vector of strings holds a string with the characters of `s`.
fn contains_text(v: &Vec<String>, s: &str) -> (r: bool)
    ensures
        r == texts(v@).contains(s@),
{
    let mut i: usize = 0;
    while i < v.len()
        invariant
            i <= v@.len(),
            forall|j: int| 0 <= j < i ==> (#[trigger] v@[j])@ != s@,
        decreases v@.len() - i,
    {
        if string_eq_str(&v[i], s) {
            assert(texts(v@)[i as int] == s@);
            return true;
        }
        i = i + 1;
    }
    proof {
        if texts(v@).contains(s@) {
            let j = choose|j: int| 0 <= j < texts(v@).len() && texts(v@)[j] == s@;
            assert(v@[j]@ == s@);
        }
    }
    false
}


/// No registration depends on `id` exactly when none other than `id`'s own
/// lists it among its dependencies.
pub proof fn lemma_first_dependent_none<P>(regs: Seq<PluginRegistration<P>>, id: Seq<char>)
    ensures
        first_dependent(regs, id) is None <==> forall|j: int|
            0 <= j < regs.len() && reg_id(#[trigger] regs[j]) != id ==> !texts(regs[j].manifest.dependencies@).contains(id),
    decreases regs.len(),
{
    if regs.len() > 0 {
        lemma_first_dependent_none(regs.drop_first(), id);
        if first_dependent(regs, id) is None {
            assert forall|j: int|
                0 <= j < regs.len() && reg_id(#[trigger] regs[j]) != id implies !texts(regs[j].manifest.dependencies@).contains(id) by {
                if j > 0 {
                    assert(regs.drop_first()[j - 1] == regs[j]);
                }
            }
        }
        if forall|j: int| 0 <= j < regs.len() && reg_id(#[trigger] regs[j]) != id ==> !texts(regs[j].manifest.dependencies@).contains(id) {
            assert forall|j: int|
                0 <= j < regs.drop_first().len() && reg_id(#[trigger] regs.drop_first()[j]) != id implies !texts(
                    regs.drop_first()[j].manifest.dependencies@,
                ).contains(id) by {
                assert(regs.drop_first()[j] == regs[j + 1]);
            }
        }
    }
}

/// No dependency is missing exactly when every dependency is registered.
pub proof fn lemma_first_unregistered_none<P>(regs: Seq<PluginRegistration<P>>, deps: Seq<String>)
    ensures
        first_unregistered(regs, deps) is None <==> forall|d: int| 0 <= d < deps.len() ==> has_id(regs, (#[trigger] deps[d])@),
    decreases deps.len(),
{
    if deps.len() > 0 {
        lemma_first_unregistered_none(regs, deps.drop_first());
        if first_unregistered(regs, deps) is None {
            assert forall|d: int| 0 <= d < deps.len() implies has_id(regs, (#[trigger] deps[d])@) by {
                if d > 0 {
                    assert(deps.drop_first()[d - 1] == deps[d]);
                }
            }
        }
        if forall|d: int| 0 <= d < deps.len() ==> has_id(regs, (#[trigger] deps[d])@) {
            assert(has_id(regs, deps[0]@));
            assert forall|d: int| 0 <= d < deps.drop_first().len() implies has_id(regs, (#[trigger] deps.drop_first()[d])@) by {
                assert(deps.drop_first()[d] == deps[d + 1]);
            }
        }
    }
}

/// When no type of `types` has an owner, `first_claimed` finds none, and conversely.
pub proof fn lemma_first_claimed_none(owners: Map<Seq<char>, Seq<char>>, types: Seq<String>)
    ensures
        first_claimed(owners, types) is None <==> forall|k: int| 0 <= k < types.len() ==> !owners.dom().contains(#[trigger] types[k]@),
    decreases types.len(),
{
    if types.len() > 0 {
        lemma_first_claimed_none(owners, types.drop_first());
        if first_claimed(owners, types) is None {
            assert forall|k: int| 0 <= k < types.len() implies !owners.dom().contains(#[trigger] types[k]@) by {
                if k > 0 {
                    assert(types.drop_first()[k - 1] == types[k]);
                }
            }
        }
        if forall|k: int| 0 <= k < types.len() ==> !owners.dom().contains(#[trigger] types[k]@) {
            assert(!owners.dom().contains(types[0]@));
            assert forall|k: int| 0 <= k < types.drop_first().len() implies !owners.dom().contains(#[trigger] types.drop_first()[k]@) by {
                assert(types.drop_first()[k] == types[k + 1]);
            }
        }
    }
}

impl<P> Registry<P> {
    /// A consistent registry holds each plugin id once; each entity or event
    /// type that it maps is declared by the plugin it maps to, and each type
    /// that a registered plugin declares is mapped to that plugin; every
    /// dependency of a registered plugin is registered; every registration is
    /// active.
    pub proof fn law_consistency(&self)
        requires
            self.wf(),
        ensures
            ids_unique(self.registrations()),
            owners_match(self.registrations(), self.entity_owners(), false),
            owners_match(self.registrations(), self.event_owners(), true),
            deps_closed(self.registrations()),
            all_active(self.registrations()),
            self.entity_owners().dom().finite(),
            self.event_owners().dom().finite(),
    {
        self.entity_type_to_plugin.lemma_finite();
        self.event_type_to_plugin.lemma_finite();
    }

    /// A registration or unregistration that the checks refuse is refused the
    /// same way whatever the plugin's hook would return; one that they accept
    /// fails with the hook's message when the hook fails, and succeeds
    /// otherwise.
    pub proof fn law_refusal_precedes_hook(&self, manifest: PluginManifest, id: Seq<char>, hook: Result<(), String>)
        ensures
            self.register_outcome(manifest, Ok(())) is Err ==> self.register_outcome(manifest, hook)
                == self.register_outcome(manifest, Ok(())),
            self.register_outcome(manifest, Ok(())) is Ok ==> self.register_outcome(manifest, hook) == match hook {
                Ok(()) => Ok(()),
                Err(m) => Err(RegistryErrorData::HookError(m@)),
            },
            self.unregister_outcome(id, Ok(())) is Err ==> self.unregister_outcome(id, hook)
                == self.unregister_outcome(id, Ok(())),
            self.unregister_outcome(id, Ok(())) is Ok ==> self.unregister_outcome(id, hook) == match hook {
                Ok(()) => Ok(()),
                Err(m) => Err(RegistryErrorData::HookError(m@)),
            },
    {
    }

    /// The plugin that an entity (or event) type is mapped to is registered
    /// and declares that type.
    pub proof fn law_owner_declares_type(&self, t: Seq<char>, events: bool)
        requires
            self.wf(),
            (if events { self.event_owners() } else { self.entity_owners() }).dom().contains(t),
        ensures
            ({
                let owner = (if events { self.event_owners() } else { self.entity_owners() })[t];
                let regs = self.registrations();
                let i = index_of(regs, owner);
                &&& has_id(regs, owner)
                &&& 0 <= i < regs.len()
                &&& reg_id(regs[i]) == owner
                &&& texts(declared(regs[i], events)).contains(t)
            }),
    {
        let owners = if events { self.event_owners() } else { self.entity_owners() };
        let regs = self.registrations();
        let (i, k) = choose|i: int, k: int|
            0 <= i < regs.len() && 0 <= k < declared(regs[i], events).len() && #[trigger] declared(regs[i], events)[k]@ == t;
        assert(owners[declared(regs[i], events)[k]@] == reg_id(regs[i]));
        let owner = owners[t];
        assert(has_id(regs, owner));
        let j = index_of(regs, owner);
        if j != i {
            if j < i {
                assert(reg_id(regs[j]) != reg_id(regs[i]));
            } else {
                assert(reg_id(regs[i]) != reg_id(regs[j]));
            }
        }
        assert(texts(declared(regs[i], events))[k] == t);
    }

    /// After an accepted registration, the plugin is registered, and each of
    /// its entity and event types is mapped to it.
    pub proof fn law_registered_plugin_is_found(before: &Self, after: &Self, manifest: PluginManifest)
        requires
            before.wf(),
            before.register_outcome(manifest, Ok(())) is Ok,
            after.registrations().len() == before.registrations().len() + 1,
            after.registrations().drop_last() == before.registrations(),
            after.registrations().last().manifest == manifest,
            after.entity_owners() == claim_all(before.entity_owners(), manifest.entity_types@, manifest.id@),
            after.event_owners() == claim_all(before.event_owners(), manifest.event_types@, manifest.id@),
        ensures
            has_id(after.registrations(), manifest.id@),
            index_of(after.registrations(), manifest.id@) == before.registrations().len(),
            forall|k: int|
                0 <= k < manifest.entity_types@.len() ==> after.entity_owners().dom().contains(#[trigger] manifest.entity_types@[k]@)
                    && after.entity_owners()[manifest.entity_types@[k]@] == manifest.id@,
            forall|k: int|
                0 <= k < manifest.event_types@.len() ==> after.event_owners().dom().contains(#[trigger] manifest.event_types@[k]@)
                    && after.event_owners()[manifest.event_types@[k]@] == manifest.id@,
    {
        lemma_new_id_at_end(before, after, manifest);
        lemma_claim_all(before.entity_owners(), manifest.entity_types@, manifest.id@);
        lemma_claim_all(before.event_owners(), manifest.event_types@, manifest.id@);
        assert forall|k: int| 0 <= k < manifest.entity_types@.len() implies after.entity_owners().dom().contains(#[trigger] manifest.entity_types@[k]@)
            && after.entity_owners()[manifest.entity_types@[k]@] == manifest.id@ by {
            let t = manifest.entity_types@[k]@;
            assert(exists|j: int| 0 <= j < manifest.entity_types@.len() && manifest.entity_types@[j]@ == t);
        }
        assert forall|k: int| 0 <= k < manifest.event_types@.len() implies after.event_owners().dom().contains(#[trigger] manifest.event_types@[k]@)
            && after.event_owners()[manifest.event_types@[k]@] == manifest.id@ by {
            let t = manifest.event_types@[k]@;
            assert(exists|j: int| 0 <= j < manifest.event_types@.len() && manifest.event_types@[j]@ == t);
        }
    }

    /// Unregistering a plugin right after its registration was accepted gives
    /// back the plugins and the entity and event type tables that the registry
    /// held before.
    pub proof fn law_unregister_undoes_register(
        before: &Self,
        registered: &Self,
        after: &Self,
        manifest: PluginManifest,
    )
        requires
            before.wf(),
            before.register_outcome(manifest, Ok(())) is Ok,
            registered.registrations().len() == before.registrations().len() + 1,
            registered.registrations().drop_last() == before.registrations(),
            registered.registrations().last().manifest == manifest,
            registered.entity_owners() == claim_all(before.entity_owners(), manifest.entity_types@, manifest.id@),
            registered.event_owners() == claim_all(before.event_owners(), manifest.event_types@, manifest.id@),
            after.registrations() == registered.registrations().remove(index_of(registered.registrations(), manifest.id@)),
            after.entity_owners() == release_all(
                registered.entity_owners(),
                registered.registrations()[index_of(registered.registrations(), manifest.id@)].manifest.entity_types@,
            ),
            after.event_owners() == release_all(
                registered.event_owners(),
                registered.registrations()[index_of(registered.registrations(), manifest.id@)].manifest.event_types@,
            ),
        ensures
            after.registrations() == before.registrations(),
            after.entity_owners() == before.entity_owners(),
            after.event_owners() == before.event_owners(),
    {
        lemma_new_id_at_end(before, registered, manifest);
        let n = before.registrations().len() as int;
        assert(registered.registrations().remove(n) =~= before.registrations());
        lemma_release_undoes_claim(before.entity_owners(), manifest.entity_types@, manifest.id@);
        lemma_release_undoes_claim(before.event_owners(), manifest.event_types@, manifest.id@);
    }
}

/// An accepted registration is the only one with its id, at the last place.
proof fn lemma_new_id_at_end<P>(before: &Registry<P>, after: &Registry<P>, manifest: PluginManifest)
    requires
        before.wf(),
        before.register_outcome(manifest, Ok(())) is Ok,
        after.registrations().len() == before.registrations().len() + 1,
        after.registrations().drop_last() == before.registrations(),
        after.registrations().last().manifest == manifest,
    ensures
        has_id(after.registrations(), manifest.id@),
        index_of(after.registrations(), manifest.id@) == before.registrations().len(),
{
    let n = before.registrations().len() as int;
    let regs = after.registrations();
    assert(reg_id(regs[n]) == manifest.id@);
    let c = index_of(regs, manifest.id@);
    if c != n {
        assert(regs[c] == before.registrations()[c]);
        assert(has_id(before.registrations(), manifest.id@));
    }
}

/// Releasing types that were all unowned before being claimed gives back the old table.
proof fn lemma_release_undoes_claim(owners: Map<Seq<char>, Seq<char>>, types: Seq<String>, id: Seq<char>)
    requires
        first_claimed(owners, types) is None,
    ensures
        release_all(claim_all(owners, types, id), types) == owners,
{
    lemma_first_claimed_none(owners, types);
    let c = claim_all(owners, types, id);
    lemma_claim_all(owners, types, id);
    lemma_release_all(c, types);
    let r = release_all(c, types);
    assert forall|t: Seq<char>| #[trigger] r.dom().contains(t) <==> owners.dom().contains(t) by {
        if owners.dom().contains(t) {
            if exists|k: int| 0 <= k < types.len() && types[k]@ == t {
                let k = choose|k: int| 0 <= k < types.len() && types[k]@ == t;
                assert(!owners.dom().contains(types[k]@));
            }
        }
    }
    assert forall|t: Seq<char>| #[trigger] r.dom().contains(t) implies r[t] == owners[t] by {
        if exists|k: int| 0 <= k < types.len() && types[k]@ == t {
            let k = choose|k: int| 0 <= k < types.len() && types[k]@ == t;
            assert(!owners.dom().contains(types[k]@));
        }
    }
    assert(r =~= owners);
}

} // verus!
