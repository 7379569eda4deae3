//! The configuration service: registered plugins, locks on parts of the state,
//! and the state itself.
use vstd::prelude::*;
use crate::error::{Error, ErrorV};
use crate::json::{Json, JsonV};
use crate::state::{state_get, SystemState};
use crate::text::{chars_of, message, str_eq};

verus! {

/// A plugin registered with the service.
#[derive(Debug, Clone)]
pub struct Plugin {
    /// Unique identifier of the plugin.
    pub id: String,
    /// Name of the plugin.
    pub name: String,
    /// Description of the plugin.
    pub description: String,
    /// Socket path where the plugin listens.
    pub socket_path: String,
    /// State paths that the plugin manages.
    pub managed_paths: Vec<String>,
}

/// The model of a plugin.
pub struct PluginV {
    pub id: Seq<char>,
    pub name: Seq<char>,
    pub description: Seq<char>,
    pub socket_path: Seq<char>,
    pub managed_paths: Seq<Seq<char>>,
}

impl View for Plugin {
    type V = PluginV;

    open spec fn view(&self) -> PluginV {
        PluginV {
            id: self.id@,
            name: self.name@,
            description: self.description@,
            socket_path: self.socket_path@,
            managed_paths: Seq::new(self.managed_paths@.len(), |i: int| self.managed_paths@[i]@),
        }
    }
}

/// A lock held by a plugin on a part of the state.
#[derive(Debug, Clone)]
pub struct StateLock {
    /// The path that is locked.
    pub path: String,
    /// The plugin that holds the lock.
    pub plugin_id: String,
}

/// The model of a lock.
pub struct StateLockV {
    pub path: Seq<char>,
    pub plugin_id: Seq<char>,
}

impl View for StateLock {
    type V = StateLockV;

    open spec fn view(&self) -> StateLockV {
        StateLockV { path: self.path@, plugin_id: self.plugin_id@ }
    }
}

/// A change that applying a state made.
#[derive(Debug, Clone)]
pub struct StateChange {
    /// The kind of change, as the wire protocol numbers it.
    pub kind: i32,
    /// The path that changed.
    pub path: String,
    /// The value before, as JSON text.
    pub old_value: String,
    /// The value after, as JSON text.
    pub new_value: String,
}

/// The models of a sequence of plugins.
pub open spec fn plugins_view(v: Seq<Plugin>) -> Seq<PluginV> {
    Seq::new(v.len(), |i: int| v[i]@)
}

/// The models of a sequence of locks.
pub open spec fn locks_view(v: Seq<StateLock>) -> Seq<StateLockV> {
    Seq::new(v.len(), |i: int| v[i]@)
}

/// No two registered plugins share an identifier.
pub open spec fn ids_distinct(p: Seq<PluginV>) -> bool {
    forall|i: int, j: int| 0 <= i < j < p.len() ==> p[i].id != p[j].id
}

/// No path is locked by two different plugins.
pub open spec fn locks_exclusive(l: Seq<StateLockV>) -> bool {
    forall|i: int, j: int|
        0 <= i < l.len() && 0 <= j < l.len() && l[i].path == l[j].path ==> l[i].plugin_id == l[j].plugin_id
}

/// The position of the plugin with identifier `id`.
pub open spec fn plugin_index(p: Seq<PluginV>, id: Seq<char>) -> Option<int> {
    if exists|i: int| 0 <= i < p.len() && p[i].id == id {
        Some(choose|i: int| 0 <= i < p.len() && p[i].id == id)
    } else {
        None
    }
}

/// The plugin registered under `id`.
pub open spec fn plugin_lookup(p: Seq<PluginV>, id: Seq<char>) -> Option<PluginV> {
    match plugin_index(p, id) {
        Some(i) => Some(p[i]),
        None => None,
    }
}

/// The plugins after registering `x`: it replaces the plugin with its identifier,
/// or is added after the others.
pub open spec fn plugins_register(p: Seq<PluginV>, x: PluginV) -> Seq<PluginV> {
    match plugin_index(p, x.id) {
        Some(i) => p.update(i, x),
        None => p.push(x),
    }
}

/// Whether plugin `id` holds a lock on `path`.
pub open spec fn held_by(l: Seq<StateLockV>, path: Seq<char>, id: Seq<char>) -> bool {
    exists|i: int| 0 <= i < l.len() && l[i].path == path && l[i].plugin_id == id
}

/// Whether a plugin other than `id` holds a lock on `path`.
pub open spec fn held_by_other(l: Seq<StateLockV>, path: Seq<char>, id: Seq<char>) -> bool {
    exists|i: int| 0 <= i < l.len() && l[i].path == path && l[i].plugin_id != id
}

/// The first lock on `path` held by `id`.
pub open spec fn first_held(l: Seq<StateLockV>, path: Seq<char>, id: Seq<char>) -> Option<int>
    decreases l.len(),
{
    if l.len() == 0 {
        None
    } else {
        match first_held(l.drop_last(), path, id) {
            Some(i) => Some(i),
            None => if l.last().path == path && l.last().plugin_id == id {
                Some(l.len() - 1)
            } else {
                None
            },
        }
    }
}

/// The first lock, in order, held by another plugin than `id` on a path that the
/// new state `data` has a value at.
pub open spec fn first_conflict(l: Seq<StateLockV>, data: JsonV, id: Seq<char>) -> Option<int>
    decreases l.len(),
{
    if l.len() == 0 {
        None
    } else {
        match first_conflict(l.drop_last(), data, id) {
            Some(i) => Some(i),
            None => if l.last().plugin_id != id && state_get(data, l.last().path) is Some {
                Some(l.len() - 1)
            } else {
                None
            },
        }
    }
}

/// The configuration service.
#[derive(Debug)]
pub struct SysConfigService {
    /// The system state.
    state: SystemState,
    /// Registered plugins, no two with one identifier.
    plugins: Vec<Plugin>,
    /// Locks on parts of the state.
    locks: Vec<StateLock>,
}

fn copy_strings(v: &Vec<String>) -> (r: Vec<String>)
    ensures
        r@.len() == v@.len(),
        forall|i: int| 0 <= i < v@.len() ==> (#[trigger] r@[i])@ == v@[i]@,
{
    let mut out: Vec<String> = Vec::new();
    let mut i: usize = 0;
    while i < v.len()
        invariant
            i <= v.len(),
            out@.len() == i,
            forall|k: int| 0 <= k < i ==> (#[trigger] out@[k])@ == v@[k]@,
        decreases v.len() - i,
    {
        out.push(v[i].clone());
        i = i + 1;
    }
    out
}

impl Plugin {
    /// A copy of the plugin.
    pub fn duplicate(&self) -> (r: Plugin)
        ensures
            r@ == self@,
    {
        let paths = copy_strings(&self.managed_paths);
        let r = Plugin {
            id: self.id.clone(),
            name: self.name.clone(),
            description: self.description.clone(),
            socket_path: self.socket_path.clone(),
            managed_paths: paths,
        };
        assert(r@.managed_paths =~= self@.managed_paths);
        r
    }
}

impl SysConfigService {
    /// The current state.
    pub closed spec fn state_model(&self) -> JsonV {
        self.state.data@
    }

    /// The registered plugins.
    pub closed spec fn plugins_model(&self) -> Seq<PluginV> {
        plugins_view(self.plugins@)
    }

    /// The locks, in the order they were taken.
    pub closed spec fn locks_model(&self) -> Seq<StateLockV> {
        locks_view(self.locks@)
    }

    /// The service's invariant: plugin identifiers are distinct and no path is
    /// locked by two plugins.
    pub open spec fn wf(&self) -> bool {
        &&& ids_distinct(self.plugins_model())
        &&& locks_exclusive(self.locks_model())
    }

    /// A service with the given initial state (the latest saved revision, where
    /// there is one), no plugins and no locks.
    pub fn new(initial_state: Option<SystemState>) -> (r: SysConfigService)
        ensures
            r.wf(),
            r.plugins_model() == Seq::<PluginV>::empty(),
            r.locks_model() == Seq::<StateLockV>::empty(),
            match initial_state {
                Some(s) => r.state_model() == s.data@,
                None => r.state_model() == JsonV::Object(Seq::empty()),
            },
    {
        let state = match initial_state {
            Some(s) => s,
            None => SystemState::new(),
        };
        let r = SysConfigService { state, plugins: Vec::new(), locks: Vec::new() };
        assert(r.plugins_model() =~= Seq::<PluginV>::empty());
        assert(r.locks_model() =~= Seq::<StateLockV>::empty());
        r
    }

    fn find_plugin(&self, id: &str) -> (r: Option<usize>)
        ensures
            r matches Some(i) ==> i < self.plugins@.len() && self.plugins_model()[i as int].id == id@,
            r is None ==> forall|i: int| 0 <= i < self.plugins@.len() ==> self.plugins_model()[i].id != id@,
    {
        let mut i: usize = 0;
        while i < self.plugins.len()
            invariant
                i <= self.plugins@.len(),
                forall|k: int| 0 <= k < i ==> self.plugins_model()[k].id != id@,
            decreases self.plugins.len() - i,
        {
            if str_eq(self.plugins[i].id.as_str(), id) {
                return Some(i);
            }
            i = i + 1;
        }
        None
    }

    /// Registers a plugin, replacing any plugin with its identifier.
    pub fn register_plugin(&mut self, plugin: Plugin) -> (r: Result<(), Error>)
        requires
            old(self).wf(),
        ensures
            r is Ok,
            final(self).wf(),
            final(self).plugins_model() == plugins_register(old(self).plugins_model(), plugin@),
            final(self).locks_model() == old(self).locks_model(),
            final(self).state_model() == old(self).state_model(),
    {
        let ghost p0 = self.plugins_model();
        let ghost x = plugin@;
        match self.find_plugin(plugin.id.as_str()) {
            Some(i) => {
                proof {
                    assert forall|j: int| 0 <= j < p0.len() && p0[j].id == x.id implies j == i as int by {
                        if j != i as int {
                            assert(p0[j].id == p0[i as int].id);
                        }
                    }
                }
                self.plugins.set(i, plugin);
                proof {
                    assert(plugin_index(p0, x.id) == Some(i as int));
                    assert(self.plugins_model() =~= p0.update(i as int, x));
                }
            },
            None => {
                self.plugins.push(plugin);
                proof {
                    assert(plugin_index(p0, x.id) is None);
                    assert(self.plugins_model() =~= p0.push(x));
                }
            },
        }
        Ok(())
    }

    /// The plugin registered under `plugin_id`.
    pub fn get_plugin(&self, plugin_id: &str) -> (r: Option<Plugin>)
        requires
            self.wf(),
        ensures
            match plugin_lookup(self.plugins_model(), plugin_id@) {
                Some(p) => r is Some && r->0@ == p,
                None => r is None,
            },
    {
        match self.find_plugin(plugin_id) {
            Some(i) => {
                proof {
                    let p = self.plugins_model();
                    assert forall|j: int| 0 <= j < p.len() && p[j].id == plugin_id@ implies j == i as int by {
                        if j != i as int {
                            assert(p[j].id == p[i as int].id);
                        }
                    }
                }
                Some(self.plugins[i].duplicate())
            },
            None => None,
        }
    }

    /// All registered plugins.
    pub fn get_plugins(&self) -> (r: Vec<Plugin>)
        ensures
            plugins_view(r@) == self.plugins_model(),
    {
        let mut out: Vec<Plugin> = Vec::new();
        let mut i: usize = 0;
        while i < self.plugins.len()
            invariant
                i <= self.plugins@.len(),
                plugins_view(out@) =~= self.plugins_model().subrange(0, i as int),
            decreases self.plugins.len() - i,
        {
            let p = self.plugins[i].duplicate();
            let ghost before = out@;
            out.push(p);
            assert(plugins_view(out@) =~= plugins_view(before).push(p@));
            i = i + 1;
        }
        assert(self.plugins_model().subrange(0, self.plugins@.len() as int) =~= self.plugins_model());
        out
    }

    fn other_holder(&self, path: &str, plugin_id: &str) -> (r: bool)
        ensures
            r == held_by_other(self.locks_model(), path@, plugin_id@),
    {
        let mut i: usize = 0;
        while i < self.locks.len()
            invariant
                i <= self.locks@.len(),
                forall|k: int| 0 <= k < i ==> !(self.locks_model()[k].path == path@
                    && self.locks_model()[k].plugin_id != plugin_id@),
            decreases self.locks.len() - i,
        {
            if str_eq(self.locks[i].path.as_str(), path) && !str_eq(self.locks[i].plugin_id.as_str(), plugin_id) {
                assert(self.locks_model()[i as int] == self.locks@[i as int]@);
                return true;
            }
            i = i + 1;
        }
        false
    }

    /// Locks `path` for plugin `plugin_id`; refused (false) where another plugin
    /// holds a lock on that path.
    pub fn lock_state(&mut self, path: &str, plugin_id: &str) -> (r: Result<bool, Error>)
        requires
            old(self).wf(),
        ensures
            final(self).wf(),
            r is Ok,
            r->Ok_0 == !held_by_other(old(self).locks_model(), path@, plugin_id@),
            r->Ok_0 ==> final(self).locks_model() == old(self).locks_model().push(
                StateLockV { path: path@, plugin_id: plugin_id@ }),
            !r->Ok_0 ==> final(self).locks_model() == old(self).locks_model(),
            final(self).plugins_model() == old(self).plugins_model(),
            final(self).state_model() == old(self).state_model(),
    {
        if self.other_holder(path, plugin_id) {
            return Ok(false);
        }
        let ghost l0 = self.locks_model();
        let lock = StateLock { path: path.to_owned(), plugin_id: plugin_id.to_owned() };
        self.locks.push(lock);
        assert(self.locks_model() =~= l0.push(StateLockV { path: path@, plugin_id: plugin_id@ }));
        Ok(true)
    }

    /// Releases the first lock that plugin `plugin_id` holds on `path`; false
    /// where it holds none.
    fn find_lock(&self, path: &str, plugin_id: &str) -> (r: Option<usize>)
        ensures
            match first_held(self.locks_model(), path@, plugin_id@) {
                Some(i) => r is Some && r->0 as int == i,
                None => r is None,
            },
    {
        let ghost l0 = self.locks_model();
        let mut i: usize = 0;
        while i < self.locks.len()
            invariant
                i <= self.locks@.len(),
                l0 == self.locks_model(),
                first_held(l0.subrange(0, i as int), path@, plugin_id@) is None,
            decreases self.locks.len() - i,
        {
            proof {
                assert(l0.subrange(0, i as int + 1).drop_last() =~= l0.subrange(0, i as int));
                assert(l0[i as int] == self.locks@[i as int]@);
            }
            if str_eq(self.locks[i].path.as_str(), path) && str_eq(self.locks[i].plugin_id.as_str(), plugin_id) {
                proof {
                    lemma_first_held_extends(l0, path@, plugin_id@, i as int + 1);
                }
                return Some(i);
            }
            i = i + 1;
        }
        proof {
            assert(l0.subrange(0, l0.len() as int) =~= l0);
        }
        None
    }

    /// Releases the first lock that plugin `plugin_id` holds on `path`; false
    /// where it holds none.
    pub fn unlock_state(&mut self, path: &str, plugin_id: &str) -> (r: Result<bool, Error>)
        requires
            old(self).wf(),
        ensures
            final(self).wf(),
            r is Ok,
            r->Ok_0 == held_by(old(self).locks_model(), path@, plugin_id@),
            match first_held(old(self).locks_model(), path@, plugin_id@) {
                Some(i) => final(self).locks_model() == old(self).locks_model().remove(i),
                None => final(self).locks_model() == old(self).locks_model(),
            },
            final(self).plugins_model() == old(self).plugins_model(),
            final(self).state_model() == old(self).state_model(),
    {
        let ghost l0 = self.locks_model();
        proof {
            lemma_first_held_found(l0, path@, plugin_id@);
        }
        match self.find_lock(path, plugin_id) {
            Some(i) => {
                self.locks.remove(i);
                proof {
                    assert(self.locks_model() =~= l0.remove(i as int));
                    lemma_remove_keeps_exclusive(l0, i as int);
                }
                Ok(true)
            },
            None => Ok(false),
        }
    }

    /// Whether plugin `plugin_id` holds a lock on `path`.
    pub fn is_locked_by(&self, path: &str, plugin_id: &str) -> (r: bool)
        ensures
            r == held_by(self.locks_model(), path@, plugin_id@),
    {
        let mut i: usize = 0;
        while i < self.locks.len()
            invariant
                i <= self.locks@.len(),
                forall|k: int| 0 <= k < i ==> !(self.locks_model()[k].path == path@
                    && self.locks_model()[k].plugin_id == plugin_id@),
            decreases self.locks.len() - i,
        {
            if str_eq(self.locks[i].path.as_str(), path) && str_eq(self.locks[i].plugin_id.as_str(), plugin_id) {
                assert(self.locks_model()[i as int] == self.locks@[i as int]@);
                return true;
            }
            i = i + 1;
        }
        false
    }

    /// Whether a plugin other than `plugin_id` holds a lock on `path`.
    pub fn is_locked_by_other(&self, path: &str, plugin_id: &str) -> (r: bool)
        ensures
            r == held_by_other(self.locks_model(), path@, plugin_id@),
    {
        self.other_holder(path, plugin_id)
    }

    /// The value of the state at `path`.
    pub fn get_state(&self, path: &str) -> (r: Result<Json, Error>)
        ensures
            match state_get(self.state_model(), path@) {
                Some(v) => r is Ok && r->Ok_0@ == v,
                None => r is Err && r->Err_0@ == ErrorV::State("Path not found: "@ + path@),
            },
    {
        match self.state.get(path) {
            Some(v) => Ok(v),
            None => Err(Error::State(message("Path not found: ", &chars_of(path)))),
        }
    }

    /// Applies a new state on behalf of plugin `plugin_id`. It is refused where
    /// another plugin holds a lock on a path that the new state has a value at;
    /// otherwise the new state replaces the current one, unless `dry_run`.
    #[verifier::loop_isolation(false)]
    pub fn apply_state(&mut self, new_state: SystemState, dry_run: bool, plugin_id: &str) -> (r: Result<
        Vec<StateChange>,
        Error,
    >)
        requires
            old(self).wf(),
        ensures
            final(self).wf(),
            final(self).plugins_model() == old(self).plugins_model(),
            final(self).locks_model() == old(self).locks_model(),
            match first_conflict(old(self).locks_model(), new_state.data@, plugin_id@) {
                Some(i) => r is Err && r->Err_0@ == ErrorV::Lock(
                    "Path is locked by another plugin: "@ + old(self).locks_model()[i].path)
                    && final(self).state_model() == old(self).state_model(),
                None => r is Ok && r->Ok_0@.len() == 0 && final(self).state_model() == (if dry_run {
                    old(self).state_model()
                } else {
                    new_state.data@
                }),
            },
    {
        let ghost l0 = self.locks_model();
        let mut i: usize = 0;
        while i < self.locks.len()
            invariant
                i <= self.locks@.len(),
                l0 == self.locks_model(),
                first_conflict(l0.subrange(0, i as int), new_state.data@, plugin_id@) is None,
            decreases self.locks.len() - i,
        {
            proof {
                assert(l0.subrange(0, i as int + 1).drop_last() =~= l0.subrange(0, i as int));
                assert(l0[i as int] == self.locks@[i as int]@);
            }
            if !str_eq(self.locks[i].plugin_id.as_str(), plugin_id) {
                if new_state.get(self.locks[i].path.as_str()).is_some() {
                    proof {
                        lemma_first_conflict_extends(l0, new_state.data@, plugin_id@, i as int + 1);
                    }
                    let m = message("Path is locked by another plugin: ", &chars_of(self.locks[i].path.as_str()));
                    return Err(Error::Lock(m));
                }
            }
            i = i + 1;
        }
        proof {
            assert(l0.subrange(0, l0.len() as int) =~= l0);
        }
        if !dry_run {
            self.state = new_state;
        }
        Ok(Vec::new())
    }

    /// The plugin that should carry out an action: the named one, or else the
    /// first registered.
    pub fn action_plugin(&self, plugin_id: Option<&str>) -> (r: Result<Plugin, Error>)
        requires
            self.wf(),
        ensures
            match plugin_id {
                Some(id) => match plugin_lookup(self.plugins_model(), id@) {
                    Some(p) => r is Ok && r->Ok_0@ == p,
                    None => r is Err && r->Err_0@ == ErrorV::Plugin("Plugin not found: "@ + id@),
                },
                None => if self.plugins_model().len() == 0 {
                    r is Err && r->Err_0@ == ErrorV::Plugin("No plugins registered"@)
                } else {
                    r is Ok && r->Ok_0@ == self.plugins_model()[0]
                },
            },
    {
        match plugin_id {
            Some(id) => match self.get_plugin(id) {
                Some(p) => Ok(p),
                None => Err(Error::Plugin(message("Plugin not found: ", &chars_of(id)))),
            },
            None => {
                if self.plugins.len() == 0 {
                    let m = message("No plugins registered", &Vec::new());
                    assert(m@ =~= "No plugins registered"@);
                    Err(Error::Plugin(m))
                } else {
                    Ok(self.plugins[0].duplicate())
                }
            },
        }
    }
}

/// After a plugin's lock on a path is granted, the plugin holds a lock on that path
/// and no other plugin does.
pub proof fn law_lock_then_held(l: Seq<StateLockV>, path: Seq<char>, id: Seq<char>)
    requires
        locks_exclusive(l),
        !held_by_other(l, path, id),
    ensures
        held_by(l.push(StateLockV { path, plugin_id: id }), path, id),
        !held_by_other(l.push(StateLockV { path, plugin_id: id }), path, id),
        locks_exclusive(l.push(StateLockV { path, plugin_id: id })),
{
    let l2 = l.push(StateLockV { path, plugin_id: id });
    assert(l2[l.len() as int].path == path && l2[l.len() as int].plugin_id == id);
    if held_by_other(l2, path, id) {
        let i = choose|i: int| 0 <= i < l2.len() && l2[i].path == path && l2[i].plugin_id != id;
        assert(l2[i] == l[i]);
    }
    assert forall|a: int, b: int| 0 <= a < l2.len() && 0 <= b < l2.len() && l2[a].path == l2[b].path implies l2[a].plugin_id
        == l2[b].plugin_id by {
        if a < l.len() && b < l.len() {
            assert(l2[a] == l[a] && l2[b] == l[b]);
        } else if a < l.len() {
            assert(l2[a] == l[a]);
            assert(!(l[a].path == path && l[a].plugin_id != id));
        } else if b < l.len() {
            assert(l2[b] == l[b]);
            assert(!(l[b].path == path && l[b].plugin_id != id));
        }
    }
}

/// While another plugin holds a lock on a path, a plugin's request to lock it is
/// refused.
pub proof fn law_lock_refused_while_held(l: Seq<StateLockV>, path: Seq<char>, other: Seq<char>, id: Seq<char>)
    requires
        held_by(l, path, other),
        other != id,
    ensures
        held_by_other(l, path, id),
{
    let i = choose|i: int| 0 <= i < l.len() && l[i].path == path && l[i].plugin_id == other;
    assert(l[i].path == path && l[i].plugin_id != id);
}

/// Releasing a lock just granted on a path that nobody held gives back the locks as
/// they were.
pub proof fn law_unlock_undoes_lock(l: Seq<StateLockV>, path: Seq<char>, id: Seq<char>)
    requires
        !held_by(l, path, id),
    ensures
        first_held(l.push(StateLockV { path, plugin_id: id }), path, id) == Some(l.len() as int),
        l.push(StateLockV { path, plugin_id: id }).remove(l.len() as int) == l,
{
    let l2 = l.push(StateLockV { path, plugin_id: id });
    lemma_first_held_found(l, path, id);
    assert(l2.drop_last() =~= l);
    assert(l2.remove(l.len() as int) =~= l);
}

/// A registered plugin is found under its identifier, and registering it leaves
/// the plugins under other identifiers as they were.
pub proof fn law_get_after_register(p: Seq<PluginV>, x: PluginV, other: Seq<char>)
    requires
        ids_distinct(p),
    ensures
        ids_distinct(plugins_register(p, x)),
        plugin_lookup(plugins_register(p, x), x.id) == Some(x),
        other != x.id ==> plugin_lookup(plugins_register(p, x), other) == plugin_lookup(p, other),
{
    let q = plugins_register(p, x);
    match plugin_index(p, x.id) {
        Some(i) => {
            assert(0 <= i < p.len() && p[i].id == x.id);
            assert forall|a: int, b: int| 0 <= a < b < q.len() implies q[a].id != q[b].id by {
                if a != i && b != i {
                    assert(q[a] == p[a] && q[b] == p[b]);
                } else if a == i {
                    assert(q[b] == p[b]);
                    assert(p[i].id != p[b].id);
                } else {
                    assert(q[a] == p[a]);
                    assert(p[a].id != p[i].id);
                }
            }
            assert(q[i].id == x.id);
            let j = choose|j: int| 0 <= j < q.len() && q[j].id == x.id;
            assert(j == i);
            if other != x.id {
                if exists|k: int| 0 <= k < p.len() && p[k].id == other {
                    let k = choose|k: int| 0 <= k < p.len() && p[k].id == other;
                    assert(q[k] == p[k]);
                    let k2 = choose|k2: int| 0 <= k2 < q.len() && q[k2].id == other;
                    assert(q[k2] == p[k2]);
                }
                if exists|k: int| 0 <= k < q.len() && q[k].id == other {
                    let k = choose|k: int| 0 <= k < q.len() && q[k].id == other;
                    assert(q[k] == p[k]);
                }
            }
        },
        None => {
            assert(q == p.push(x));
            assert forall|a: int, b: int| 0 <= a < b < q.len() implies q[a].id != q[b].id by {
                if b == p.len() {
                    assert(q[a] == p[a]);
                } else {
                    assert(q[a] == p[a] && q[b] == p[b]);
                }
            }
            assert(q[p.len() as int].id == x.id);
            let j = choose|j: int| 0 <= j < q.len() && q[j].id == x.id;
            assert(j == p.len());
            if other != x.id {
                if exists|k: int| 0 <= k < p.len() && p[k].id == other {
                    let k = choose|k: int| 0 <= k < p.len() && p[k].id == other;
                    assert(q[k] == p[k]);
                    let k2 = choose|k2: int| 0 <= k2 < q.len() && q[k2].id == other;
                    assert(q[k2] == p[k2]);
                }
                if exists|k: int| 0 <= k < q.len() && q[k].id == other {
                    let k = choose|k: int| 0 <= k < q.len() && q[k].id == other;
                    assert(q[k] == p[k]);
                }
            }
        },
    }
}

/// A plugin's own locks never refuse its request to apply a state.
pub proof fn law_own_locks_never_refuse(l: Seq<StateLockV>, data: JsonV, id: Seq<char>)
    requires
        forall|i: int| 0 <= i < l.len() ==> l[i].plugin_id == id,
    ensures
        first_conflict(l, data, id) is None,
    decreases l.len(),
{
    if l.len() > 0 {
        law_own_locks_never_refuse(l.drop_last(), data, id);
    }
}

/// A refused request to apply a state names a lock held by another plugin on a
/// path that the new state has a value at.
pub proof fn law_refusal_names_a_conflict(l: Seq<StateLockV>, data: JsonV, id: Seq<char>)
    requires
        first_conflict(l, data, id) is Some,
    ensures
        0 <= first_conflict(l, data, id)->0 < l.len(),
        l[first_conflict(l, data, id)->0].plugin_id != id,
        state_get(data, l[first_conflict(l, data, id)->0].path) is Some,
    decreases l.len(),
{
    if first_conflict(l.drop_last(), data, id) is Some {
        law_refusal_names_a_conflict(l.drop_last(), data, id);
        let i = first_conflict(l.drop_last(), data, id)->0;
        assert(l[i] == l.drop_last()[i]);
    }
}

proof fn lemma_first_held_extends(l: Seq<StateLockV>, path: Seq<char>, id: Seq<char>, k: int)
    requires
        0 < k <= l.len(),
        first_held(l.subrange(0, k), path, id) is Some,
    ensures
        first_held(l, path, id) == first_held(l.subrange(0, k), path, id),
    decreases l.len() - k,
{
    if k < l.len() {
        assert(l.subrange(0, k + 1).drop_last() =~= l.subrange(0, k));
        lemma_first_held_extends(l, path, id, k + 1);
    } else {
        assert(l.subrange(0, k) =~= l);
    }
}

proof fn lemma_first_held_found(l: Seq<StateLockV>, path: Seq<char>, id: Seq<char>)
    ensures
        first_held(l, path, id) is Some <==> held_by(l, path, id),
        first_held(l, path, id) matches Some(i) ==> 0 <= i < l.len() && l[i].path == path && l[i].plugin_id == id,
    decreases l.len(),
{
    if l.len() > 0 {
        lemma_first_held_found(l.drop_last(), path, id);
        if held_by(l, path, id) {
            let i = choose|i: int| 0 <= i < l.len() && l[i].path == path && l[i].plugin_id == id;
            if i < l.len() - 1 {
                assert(l.drop_last()[i] == l[i]);
            }
        }
        if held_by(l.drop_last(), path, id) {
            let i = choose|i: int| 0 <= i < l.len() - 1 && l.drop_last()[i].path == path && l.drop_last()[i].plugin_id == id;
            assert(l[i] == l.drop_last()[i]);
        }
    }
}

proof fn lemma_first_conflict_extends(l: Seq<StateLockV>, data: JsonV, id: Seq<char>, k: int)
    requires
        0 < k <= l.len(),
        first_conflict(l.subrange(0, k), data, id) is Some,
    ensures
        first_conflict(l, data, id) == first_conflict(l.subrange(0, k), data, id),
    decreases l.len() - k,
{
    if k < l.len() {
        assert(l.subrange(0, k + 1).drop_last() =~= l.subrange(0, k));
        lemma_first_conflict_extends(l, data, id, k + 1);
    } else {
        assert(l.subrange(0, k) =~= l);
    }
}

proof fn lemma_remove_keeps_exclusive(l: Seq<StateLockV>, i: int)
    requires
        0 <= i < l.len(),
        locks_exclusive(l),
    ensures
        locks_exclusive(l.remove(i)),
{
    let r = l.remove(i);
    assert forall|a: int, b: int| 0 <= a < r.len() && 0 <= b < r.len() && r[a].path == r[b].path implies r[a].plugin_id
        == r[b].plugin_id by {
        let a0 = if a < i { a } else { a + 1 };
        let b0 = if b < i { b } else { b + 1 };
        assert(r[a] == l[a0]);
        assert(r[b] == l[b0]);
    }
}

} // verus!
