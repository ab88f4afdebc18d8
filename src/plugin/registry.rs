//! The plugin runtime's registry: which plugins are loaded, under which
//! names, whether each is enabled, its status and its configuration. The
//! plugin code itself is run by the host, in the order that the registry gives.
use vstd::prelude::*;
use crate::plugin::{PluginConfig, PluginError, PluginMetadata, PluginStatus};

verus! {

/// The runtime's record of one loaded plugin.
pub struct PluginEntry {
    pub metadata: PluginMetadata,
    pub enabled: bool,
    pub status: PluginStatus,
    pub config: PluginConfig,
}

/// The registry's state as mathematics.
pub struct ManagerModel {
    /// The plugins in registration order.
    pub plugins: Seq<PluginEntry>,
    /// The names of the enabled plugins, each once.
    pub enabled: Seq<Seq<char>>,
    /// The saved configurations, by plugin name.
    pub saved: Seq<(String, PluginConfig)>,
}

/// The saved configuration for `name`: the first one saved under that name.
pub open spec fn saved_config(saved: Seq<(String, PluginConfig)>, name: Seq<char>) -> Option<
    PluginConfig,
>
    decreases saved.len(),
{
    if saved.len() == 0 {
        None
    } else if saved[0].0@ == name {
        Some(saved[0].1)
    } else {
        saved_config(saved.drop_first(), name)
    }
}

/// The call failed because no plugin is registered under `name`.
pub open spec fn not_found<T>(r: Result<T, PluginError>, name: Seq<char>) -> bool {
    r matches Err(PluginError::NotFound(n)) && n@ == name
}

/// The call failed because a plugin is already registered under `name`.
pub open spec fn duplicate_name<T>(r: Result<T, PluginError>, name: Seq<char>) -> bool {
    r matches Err(PluginError::DuplicateName(n)) && n@ == name
}

/// The configuration that a plugin registered under `name` starts with.
pub open spec fn initial_config(saved: Seq<(String, PluginConfig)>, name: Seq<char>) -> Map<
    Seq<char>,
    Seq<char>,
> {
    match saved_config(saved, name) {
        Some(c) => c@,
        None => Map::empty(),
    }
}

/// The indices of the enabled plugins among the first `n`, in increasing order.
pub open spec fn enabled_indices(s: Seq<PluginEntry>, n: int) -> Seq<int>
    decreases n,
{
    if n <= 0 {
        Seq::empty()
    } else if s[n - 1].enabled {
        enabled_indices(s, n - 1).push(n - 1)
    } else {
        enabled_indices(s, n - 1)
    }
}

/// The entry after it is enabled: a disabled plugin becomes ready; a
/// failed plugin stays failed.
pub open spec fn switched_on(e: PluginEntry) -> PluginEntry {
    PluginEntry {
        enabled: true,
        status: if e.status is Disabled {
            PluginStatus::Ready
        } else {
            e.status
        },
        ..e
    }
}

/// The entry after it is disabled: a failed plugin stays failed.
pub open spec fn switched_off(e: PluginEntry) -> PluginEntry {
    PluginEntry {
        enabled: false,
        status: if e.status is Error {
            e.status
        } else {
            PluginStatus::Disabled
        },
        ..e
    }
}

impl ManagerModel {
    pub open spec fn name_at(self, i: int) -> Seq<char> {
        self.plugins[i].metadata.name@
    }

    pub open spec fn has(self, name: Seq<char>) -> bool {
        exists|i: int| 0 <= i < self.plugins.len() && #[trigger] self.name_at(i) == name
    }

    pub open spec fn index_of(self, name: Seq<char>) -> int {
        choose|i: int| 0 <= i < self.plugins.len() && #[trigger] self.name_at(i) == name
    }

    /// Names are unique, the enabled list holds each name once, and it names
    /// exactly the enabled plugins.
    pub open spec fn wf(self) -> bool {
        &&& forall|i: int, j: int|
            0 <= i < j < self.plugins.len() ==> #[trigger] self.name_at(i) != #[trigger] self.name_at(
                j,
            )
        &&& forall|i: int, j: int|
            0 <= i < j < self.enabled.len() ==> #[trigger] self.enabled[i] != #[trigger] self.enabled[j]
        &&& forall|n: Seq<char>|
            #[trigger] self.enabled.contains(n) <==> exists|i: int|
                0 <= i < self.plugins.len() && #[trigger] self.name_at(i) == n
                    && self.plugins[i].enabled
    }

    pub open spec fn is_enabled(self, name: Seq<char>) -> bool {
        self.has(name) && self.plugins[self.index_of(name)].enabled
    }

    /// The registry after `name` is enabled.
    pub open spec fn enable(self, name: Seq<char>) -> ManagerModel {
        let i = self.index_of(name);
        ManagerModel {
            plugins: self.plugins.update(i, switched_on(self.plugins[i])),
            enabled: if self.enabled.contains(name) {
                self.enabled
            } else {
                self.enabled.push(name)
            },
            saved: self.saved,
        }
    }

    /// The registry after `name` is disabled.
    pub open spec fn disable(self, name: Seq<char>) -> ManagerModel {
        let i = self.index_of(name);
        ManagerModel {
            plugins: self.plugins.update(i, switched_off(self.plugins[i])),
            enabled: if self.enabled.contains(name) {
                self.enabled.remove(self.enabled.index_of(name))
            } else {
                self.enabled
            },
            saved: self.saved,
        }
    }

    /// The registry after `e` is registered at the end.
    pub open spec fn registered(self, e: PluginEntry) -> ManagerModel {
        ManagerModel {
            plugins: self.plugins.push(e),
            enabled: if e.enabled {
                self.enabled.push(e.metadata.name@)
            } else {
                self.enabled
            },
            saved: self.saved,
        }
    }

    /// The registry after the plugin registered under `name` is removed.
    pub open spec fn removed(self, name: Seq<char>) -> ManagerModel {
        ManagerModel {
            plugins: self.plugins.remove(self.index_of(name)),
            enabled: if self.enabled.contains(name) {
                self.enabled.remove(self.enabled.index_of(name))
            } else {
                self.enabled
            },
            saved: self.saved,
        }
    }

    /// The registry after the plugin at index `i` failed with `message`.
    pub open spec fn failed(self, i: int, message: String) -> ManagerModel {
        ManagerModel {
            plugins: self.plugins.update(
                i,
                PluginEntry { status: PluginStatus::Error(message), ..self.plugins[i] },
            ),
            ..self
        }
    }

    /// The order in which an update or a render reaches the plugins.
    pub open spec fn delivery(self) -> Seq<int> {
        enabled_indices(self.plugins, self.plugins.len() as int)
    }
}

/// In a well-formed registry, a plugin's index is the index of its name.
pub proof fn lemma_index_of_unique(m: ManagerModel, i: int)
    requires
        m.wf(),
        0 <= i < m.plugins.len(),
    ensures
        m.has(m.name_at(i)),
        m.index_of(m.name_at(i)) == i,
{
    let n = m.name_at(i);
    assert(m.has(n));
    let c = m.index_of(n);
    if c != i {
        if c < i {
            assert(m.name_at(c) != m.name_at(i));
        } else {
            assert(m.name_at(i) != m.name_at(c));
        }
    }
}

/// Enabling a registered plugin keeps the registry well formed.
pub proof fn lemma_enable_wf(m: ManagerModel, name: Seq<char>)
    requires
        m.wf(),
        m.has(name),
    ensures
        m.enable(name).wf(),
        m.enable(name).has(name),
        m.enable(name).index_of(name) == m.index_of(name),
{
    let i = m.index_of(name);
    let r = m.enable(name);
    assert forall|k: int| 0 <= k < m.plugins.len() implies #[trigger] r.name_at(k) == m.name_at(k) by {}
    assert forall|n: Seq<char>| #[trigger] r.enabled.contains(n) <==> exists|k: int|
        0 <= k < r.plugins.len() && #[trigger] r.name_at(k) == n && r.plugins[k].enabled by {
        if n == name {
            if !m.enabled.contains(name) {
                assert(r.enabled[r.enabled.len() - 1] == name);
            }
            assert(r.name_at(i) == n && r.plugins[i].enabled);
        } else {
            if r.enabled.contains(n) {
                if !m.enabled.contains(name) {
                    let j = choose|j: int| 0 <= j < r.enabled.len() && r.enabled[j] == n;
                    assert(m.enabled[j] == n);
                }
                assert(m.enabled.contains(n));
                let k = choose|k: int| 0 <= k < m.plugins.len() && #[trigger] m.name_at(k) == n && m.plugins[k].enabled;
                assert(k != i);
                assert(r.name_at(k) == n && r.plugins[k].enabled);
            }
            if exists|k: int| 0 <= k < r.plugins.len() && #[trigger] r.name_at(k) == n && r.plugins[k].enabled {
                let k = choose|k: int| 0 <= k < r.plugins.len() && #[trigger] r.name_at(k) == n && r.plugins[k].enabled;
                assert(k != i);
                assert(m.name_at(k) == n && m.plugins[k].enabled);
                assert(m.enabled.contains(n));
                let j = choose|j: int| 0 <= j < m.enabled.len() && m.enabled[j] == n;
                assert(r.enabled[j] == n);
            }
        }
    }
    assert(r.wf());
    lemma_index_of_unique(r, i);
}

/// Disabling a registered plugin keeps the registry well formed.
pub proof fn lemma_disable_wf(m: ManagerModel, name: Seq<char>)
    requires
        m.wf(),
        m.has(name),
    ensures
        m.disable(name).wf(),
        m.disable(name).has(name),
        m.disable(name).index_of(name) == m.index_of(name),
{
    let i = m.index_of(name);
    let r = m.disable(name);
    assert forall|k: int| 0 <= k < m.plugins.len() implies #[trigger] r.name_at(k) == m.name_at(k) by {}
    let jn = m.enabled.index_of(name);
    assert forall|a: int, b: int| 0 <= a < b < r.enabled.len() implies #[trigger] r.enabled[a]
        != #[trigger] r.enabled[b] by {
        if m.enabled.contains(name) {
            let a2 = if a < jn { a } else { a + 1 };
            let b2 = if b < jn { b } else { b + 1 };
            assert(r.enabled[a] == m.enabled[a2]);
            assert(r.enabled[b] == m.enabled[b2]);
        }
    }
    assert forall|n: Seq<char>| #[trigger] r.enabled.contains(n) <==> exists|k: int|
        0 <= k < r.plugins.len() && #[trigger] r.name_at(k) == n && r.plugins[k].enabled by {
        if m.enabled.contains(name) {
            if r.enabled.contains(n) {
                let j = choose|j: int| 0 <= j < r.enabled.len() && r.enabled[j] == n;
                let j2 = if j < jn { j } else { j + 1 };
                assert(m.enabled[j2] == n);
                assert(j2 != jn);
                assert(n != name);
                assert(m.enabled.contains(n));
                let k = choose|k: int| 0 <= k < m.plugins.len() && #[trigger] m.name_at(k) == n && m.plugins[k].enabled;
                assert(k != i);
                assert(r.name_at(k) == n && r.plugins[k].enabled);
            }
            if exists|k: int| 0 <= k < r.plugins.len() && #[trigger] r.name_at(k) == n && r.plugins[k].enabled {
                let k = choose|k: int| 0 <= k < r.plugins.len() && #[trigger] r.name_at(k) == n && r.plugins[k].enabled;
                assert(k != i);
                assert(m.name_at(k) == n && m.plugins[k].enabled);
                assert(n != name) by {
                    if n == name {
                        if k < i {
                            assert(m.name_at(k) != m.name_at(i));
                        } else {
                            assert(m.name_at(i) != m.name_at(k));
                        }
                    }
                }
                assert(m.enabled.contains(n));
                let j = choose|j: int| 0 <= j < m.enabled.len() && m.enabled[j] == n;
                assert(j != jn);
                let j3 = if j < jn { j } else { j - 1 };
                assert(r.enabled[j3] == n);
            }
        } else {
            if r.enabled.contains(n) {
                let k = choose|k: int| 0 <= k < m.plugins.len() && #[trigger] m.name_at(k) == n && m.plugins[k].enabled;
                assert(k != i);
                assert(r.name_at(k) == n && r.plugins[k].enabled);
            }
            if exists|k: int| 0 <= k < r.plugins.len() && #[trigger] r.name_at(k) == n && r.plugins[k].enabled {
                let k = choose|k: int| 0 <= k < r.plugins.len() && #[trigger] r.name_at(k) == n && r.plugins[k].enabled;
                assert(k != i);
                assert(m.name_at(k) == n && m.plugins[k].enabled);
            }
        }
    }
    assert(r.wf());
    lemma_index_of_unique(r, i);
}

/// Enabling then disabling a registered plugin leaves it disabled and off the
/// enabled list; disabling then enabling leaves it enabled and on the list;
/// enabling it again changes nothing, so the list never holds a name twice.
pub proof fn lemma_enable_disable_round_trip(m: ManagerModel, name: Seq<char>)
    requires
        m.wf(),
        m.has(name),
    ensures
        !m.enable(name).disable(name).is_enabled(name),
        !m.enable(name).disable(name).enabled.contains(name),
        m.disable(name).enable(name).is_enabled(name),
        m.disable(name).enable(name).enabled.contains(name),
        m.enable(name).enable(name) == m.enable(name),
        forall|i: int, j: int|
            0 <= i < j < m.enable(name).enable(name).enabled.len() ==> #[trigger] m.enable(
                name,
            ).enable(name).enabled[i] != #[trigger] m.enable(name).enable(name).enabled[j],
{
    let i = m.index_of(name);
    lemma_enable_wf(m, name);
    let a = m.enable(name);
    lemma_disable_wf(a, name);
    let b = a.disable(name);
    assert(b.name_at(i) == name);
    if b.enabled.contains(name) {
        let k = choose|k: int| 0 <= k < b.plugins.len() && #[trigger] b.name_at(k) == name && b.plugins[k].enabled;
        lemma_index_of_unique(b, k);
    }
    lemma_disable_wf(m, name);
    let c = m.disable(name);
    lemma_enable_wf(c, name);
    let d = c.enable(name);
    assert(d.name_at(i) == name && d.plugins[i].enabled);
    assert(d.enabled.contains(name));
    assert(a.enabled.contains(name)) by {
        assert(a.name_at(i) == name && a.plugins[i].enabled);
    }
    assert(a.enable(name).plugins =~= a.plugins);
    assert(a.enable(name).enabled =~= a.enabled);
    lemma_enable_wf(a, name);
}

/// Well-formedness reads only the names, the enabled flags and the list.
proof fn lemma_wf_frame(m: ManagerModel, r: ManagerModel)
    requires
        m.wf(),
        r.plugins.len() == m.plugins.len(),
        r.enabled == m.enabled,
        forall|k: int| 0 <= k < m.plugins.len() ==> #[trigger] r.name_at(k) == m.name_at(k) && r.plugins[k].enabled == m.plugins[k].enabled,
    ensures
        r.wf(),
{
    assert forall|n: Seq<char>| #[trigger] r.enabled.contains(n) <==> exists|k: int|
        0 <= k < r.plugins.len() && #[trigger] r.name_at(k) == n && r.plugins[k].enabled by {
        if exists|k: int| 0 <= k < r.plugins.len() && #[trigger] r.name_at(k) == n && r.plugins[k].enabled {
            let k = choose|k: int| 0 <= k < r.plugins.len() && #[trigger] r.name_at(k) == n && r.plugins[k].enabled;
            assert(m.name_at(k) == n && m.plugins[k].enabled);
        }
        if m.enabled.contains(n) {
            let k = choose|k: int| 0 <= k < m.plugins.len() && #[trigger] m.name_at(k) == n && m.plugins[k].enabled;
            assert(r.name_at(k) == n && r.plugins[k].enabled);
        }
    }
}

proof fn lemma_registered_wf(m: ManagerModel, e: PluginEntry)
    requires
        m.wf(),
        !m.has(e.metadata.name@),
    ensures
        m.registered(e).wf(),
{
    let r = m.registered(e);
    let n0 = e.metadata.name@;
    let last = m.plugins.len() as int;
    assert(r.name_at(last) == n0);
    assert forall|k: int| 0 <= k < m.plugins.len() implies #[trigger] r.name_at(k) == m.name_at(k) && r.plugins[k] == m.plugins[k] by {}
    assert forall|i: int, j: int| 0 <= i < j < r.plugins.len() implies #[trigger] r.name_at(i) != #[trigger] r.name_at(j) by {
        if j == last {
            assert(m.name_at(i) != n0);
        } else {
            assert(m.name_at(i) != m.name_at(j));
        }
    }
    assert(!m.enabled.contains(n0));
    assert forall|i: int, j: int| 0 <= i < j < r.enabled.len() implies #[trigger] r.enabled[i] != #[trigger] r.enabled[j] by {
        if e.enabled && j == m.enabled.len() {
            assert(m.enabled[i] != n0);
        } else {
            assert(m.enabled[i] != m.enabled[j]);
        }
    }
    assert forall|n: Seq<char>| #[trigger] r.enabled.contains(n) <==> exists|k: int|
        0 <= k < r.plugins.len() && #[trigger] r.name_at(k) == n && r.plugins[k].enabled by {
        if r.enabled.contains(n) {
            let j = choose|j: int| 0 <= j < r.enabled.len() && r.enabled[j] == n;
            if e.enabled && j == m.enabled.len() {
                assert(r.name_at(last) == n && r.plugins[last].enabled);
            } else {
                assert(m.enabled[j] == n);
                assert(m.enabled.contains(n));
                let k = choose|k: int| 0 <= k < m.plugins.len() && #[trigger] m.name_at(k) == n && m.plugins[k].enabled;
                assert(r.name_at(k) == n && r.plugins[k].enabled);
            }
        }
        if exists|k: int| 0 <= k < r.plugins.len() && #[trigger] r.name_at(k) == n && r.plugins[k].enabled {
            let k = choose|k: int| 0 <= k < r.plugins.len() && #[trigger] r.name_at(k) == n && r.plugins[k].enabled;
            if k == last {
                assert(r.enabled[r.enabled.len() - 1] == n);
            } else {
                assert(m.name_at(k) == n && m.plugins[k].enabled);
                assert(m.enabled.contains(n));
                let j = choose|j: int| 0 <= j < m.enabled.len() && m.enabled[j] == n;
                assert(r.enabled[j] == n);
            }
        }
    }
}

proof fn lemma_removed_wf(m: ManagerModel, name: Seq<char>)
    requires
        m.wf(),
        m.has(name),
    ensures
        m.removed(name).wf(),
{
    let i = m.index_of(name);
    let r = m.removed(name);
    let jn = m.enabled.index_of(name);
    assert forall|k: int| 0 <= k < r.plugins.len() implies #[trigger] r.name_at(k) == m.name_at(if k < i { k } else { k + 1 }) && r.plugins[k] == m.plugins[if k < i { k } else { k + 1 }] by {}
    assert forall|a: int, b: int| 0 <= a < b < r.plugins.len() implies #[trigger] r.name_at(a) != #[trigger] r.name_at(b) by {
        let a2 = if a < i { a } else { a + 1 };
        let b2 = if b < i { b } else { b + 1 };
        assert(m.name_at(a2) != m.name_at(b2));
    }
    assert forall|a: int, b: int| 0 <= a < b < r.enabled.len() implies #[trigger] r.enabled[a]
        != #[trigger] r.enabled[b] by {
        if m.enabled.contains(name) {
            let a2 = if a < jn { a } else { a + 1 };
            let b2 = if b < jn { b } else { b + 1 };
            assert(r.enabled[a] == m.enabled[a2]);
            assert(r.enabled[b] == m.enabled[b2]);
        }
    }
    assert forall|n: Seq<char>| #[trigger] r.enabled.contains(n) <==> exists|k: int|
        0 <= k < r.plugins.len() && #[trigger] r.name_at(k) == n && r.plugins[k].enabled by {
        if r.enabled.contains(n) {
            let j = choose|j: int| 0 <= j < r.enabled.len() && r.enabled[j] == n;
            let j2 = if m.enabled.contains(name) && j >= jn { j + 1 } else { j };
            assert(m.enabled[j2] == n);
            assert(m.enabled.contains(n));
            let k = choose|k: int| 0 <= k < m.plugins.len() && #[trigger] m.name_at(k) == n && m.plugins[k].enabled;
            assert(n != name) by {
                if n == name {
                    assert(m.enabled.contains(name));
                    assert(j2 != jn);
                }
            }
            assert(k != i);
            let k2 = if k < i { k } else { k - 1 };
            assert(r.name_at(k2) == n && r.plugins[k2].enabled);
        }
        if exists|k: int| 0 <= k < r.plugins.len() && #[trigger] r.name_at(k) == n && r.plugins[k].enabled {
            let k = choose|k: int| 0 <= k < r.plugins.len() && #[trigger] r.name_at(k) == n && r.plugins[k].enabled;
            let k2 = if k < i { k } else { k + 1 };
            assert(m.name_at(k2) == n && m.plugins[k2].enabled);
            assert(k2 != i);
            assert(n != name) by {
                if n == name {
                    if k2 < i {
                        assert(m.name_at(k2) != m.name_at(i));
                    } else {
                        assert(m.name_at(i) != m.name_at(k2));
                    }
                }
            }
            assert(m.enabled.contains(n));
            let j = choose|j: int| 0 <= j < m.enabled.len() && m.enabled[j] == n;
            if m.enabled.contains(name) {
                assert(j != jn);
                let j3 = if j < jn { j } else { j - 1 };
                assert(r.enabled[j3] == n);
            } else {
                assert(r.enabled[j] == n);
            }
        }
    }
}

proof fn lemma_enabled_indices(s: Seq<PluginEntry>, n: int)
    requires
        0 <= n <= s.len(),
    ensures
        forall|k: int| 0 <= k < enabled_indices(s, n).len() ==> 0 <= #[trigger] enabled_indices(s, n)[k] < n && s[enabled_indices(s, n)[k]].enabled,
        forall|i: int| 0 <= i < n && s[i].enabled ==> #[trigger] enabled_indices(s, n).contains(i),
        forall|a: int, b: int| 0 <= a < b < enabled_indices(s, n).len() ==> #[trigger] enabled_indices(s, n)[a] < #[trigger] enabled_indices(s, n)[b],
    decreases n,
{
    if n > 0 {
        lemma_enabled_indices(s, n - 1);
        let p = enabled_indices(s, n - 1);
        if s[n - 1].enabled {
            let q = p.push(n - 1);
            assert forall|i: int| 0 <= i < n && s[i].enabled implies #[trigger] q.contains(i) by {
                if i < n - 1 {
                    assert(enabled_indices(s, n - 1).contains(i));
                    let k = choose|k: int| 0 <= k < p.len() && p[k] == i;
                    assert(q[k] == i);
                } else {
                    assert(q[p.len() as int] == i);
                }
            }
        }
    }
}

proof fn lemma_enabled_indices_flags(s: Seq<PluginEntry>, t: Seq<PluginEntry>, n: int)
    requires
        0 <= n <= s.len(),
        s.len() == t.len(),
        forall|i: int| 0 <= i < s.len() ==> #[trigger] s[i].enabled == t[i].enabled,
    ensures
        enabled_indices(s, n) == enabled_indices(t, n),
    decreases n,
{
    if n > 0 {
        lemma_enabled_indices_flags(s, t, n - 1);
    }
}

/// An update or a render reaches every enabled plugin exactly once, in
/// registration order, and no other plugin.
pub proof fn lemma_delivery_reaches_each_enabled_once(m: ManagerModel)
    ensures
        forall|k: int| 0 <= k < m.delivery().len() ==> 0 <= #[trigger] m.delivery()[k] < m.plugins.len() && m.plugins[m.delivery()[k]].enabled,
        forall|i: int| 0 <= i < m.plugins.len() && m.plugins[i].enabled ==> #[trigger] m.delivery().contains(i),
        forall|a: int, b: int| 0 <= a < b < m.delivery().len() ==> #[trigger] m.delivery()[a] < #[trigger] m.delivery()[b],
{
    lemma_enabled_indices(m.plugins, m.plugins.len() as int);
}

/// A plugin's failure changes which plugins the next update reaches in no way.
pub proof fn lemma_failure_keeps_delivery(m: ManagerModel, i: int, message: String)
    requires
        0 <= i < m.plugins.len(),
    ensures
        m.failed(i, message).delivery() == m.delivery(),
{
    lemma_enabled_indices_flags(m.failed(i, message).plugins, m.plugins, m.plugins.len() as int);
}

fn lookup_config(table: &Vec<(String, PluginConfig)>, name: &str) -> (r: Option<PluginConfig>)
    ensures
        match r {
            Some(c) => saved_config(table@, name@) matches Some(s) && c@ == s@,
            None => saved_config(table@, name@) is None,
        },
{
    let key = String::from_str(name);
    let mut i: usize = 0;
    assert(table@.skip(0) =~= table@);
    while i < table.len()
        invariant
            i <= table@.len(),
            key@ == name@,
            saved_config(table@, name@) == saved_config(table@.skip(i as int), name@),
        decreases table.len() - i,
    {
        assert(table@.skip(i as int)[0] == table@[i as int]);
        if table[i].0 == key {
            return Some(table[i].1.duplicate());
        }
        assert(table@.skip(i as int).drop_first() =~= table@.skip(i + 1));
        i = i + 1;
    }
    assert(table@.skip(i as int).len() == 0);
    None
}

/// Supervises the loaded plugins.
pub struct PluginManager {
    plugins: Vec<PluginEntry>,
    plugin_configs: Vec<(String, PluginConfig)>,
    enabled_plugins: Vec<String>,
}

impl View for PluginManager {
    type V = ManagerModel;

    closed spec fn view(&self) -> ManagerModel {
        ManagerModel {
            plugins: self.plugins@,
            enabled: self.enabled_plugins@.map_values(|s: String| s@),
            saved: self.plugin_configs@,
        }
    }
}

impl PluginManager {
    /// An empty registry.
    pub fn new() -> (r: Self)
        ensures
            r@.plugins.len() == 0,
            r@.enabled.len() == 0,
            r@.saved.len() == 0,
            r@.wf(),
    {
        let r = PluginManager {
            plugins: Vec::new(),
            plugin_configs: Vec::new(),
            enabled_plugins: Vec::new(),
        };
        assert(r@.enabled =~= Seq::<Seq<char>>::empty());
        r
    }

    /// The index of the plugin registered under `name`.
    pub fn position(&self, name: &str) -> (r: Option<usize>)
        requires
            self@.wf(),
        ensures
            match r {
                Some(i) => self@.has(name@) && i == self@.index_of(name@),
                None => !self@.has(name@),
            },
    {
        let key = String::from_str(name);
        let mut i: usize = 0;
        while i < self.plugins.len()
            invariant
                self@.wf(),
                i <= self@.plugins.len(),
                key@ == name@,
                forall|j: int| 0 <= j < i ==> #[trigger] self@.name_at(j) != name@,
            decreases self.plugins.len() - i,
        {
            if self.plugins[i].metadata.name == key {
                proof {
                    lemma_index_of_unique(self@, i as int);
                }
                return Some(i);
            }
            i = i + 1;
        }
        None
    }

    fn enabled_position(&self, name: &str) -> (r: Option<usize>)
        ensures
            match r {
                Some(j) => j < self@.enabled.len() && self@.enabled[j as int] == name@,
                None => !self@.enabled.contains(name@),
            },
    {
        let key = String::from_str(name);
        let mut j: usize = 0;
        while j < self.enabled_plugins.len()
            invariant
                j <= self@.enabled.len(),
                key@ == name@,
                forall|k: int| 0 <= k < j ==> self@.enabled[k] != name@,
            decreases self.enabled_plugins.len() - j,
        {
            if self.enabled_plugins[j] == key {
                return Some(j);
            }
            j = j + 1;
        }
        None
    }

    /// The plugin registered under `name`.
    pub fn get_plugin(&self, name: &str) -> (r: Option<&PluginEntry>)
        requires
            self@.wf(),
        ensures
            match r {
                Some(e) => self@.has(name@) && *e == self@.plugins[self@.index_of(name@)],
                None => !self@.has(name@),
            },
    {
        match self.position(name) {
            Some(i) => Some(&self.plugins[i]),
            None => None,
        }
    }

    /// The descriptors of the plugins, in registration order.
    pub fn get_all_metadata(&self) -> (r: Vec<&PluginMetadata>)
        ensures
            r@.len() == self@.plugins.len(),
            forall|i: int| 0 <= i < r@.len() ==> *r@[i] == self@.plugins[i].metadata,
    {
        let mut all: Vec<&PluginMetadata> = Vec::new();
        let mut i: usize = 0;
        while i < self.plugins.len()
            invariant
                i <= self@.plugins.len(),
                all@.len() == i,
                forall|k: int| 0 <= k < i ==> *all@[k] == self@.plugins[k].metadata,
            decreases self.plugins.len() - i,
        {
            all.push(&self.plugins[i].metadata);
            i = i + 1;
        }
        all
    }

    /// The names of the enabled plugins.
    pub fn get_enabled_plugins(&self) -> (r: &[String])
        ensures
            r@.map_values(|s: String| s@) == self@.enabled,
    {
        self.enabled_plugins.as_slice()
    }

    /// Whether a plugin is registered under `name` and enabled.
    pub fn is_enabled(&self, name: &str) -> (r: bool)
        requires
            self@.wf(),
        ensures
            r == self@.is_enabled(name@),
    {
        match self.position(name) {
            Some(i) => self.plugins[i].enabled,
            None => false,
        }
    }

    /// Enables the plugin registered under `name`; enabling twice changes
    /// nothing more.
    pub fn enable_plugin(&mut self, name: &str) -> (r: Result<(), PluginError>)
        requires
            old(self)@.wf(),
        ensures
            final(self)@.wf(),
            old(self)@.has(name@) ==> r is Ok && final(self)@ == old(self)@.enable(name@),
            !old(self)@.has(name@) ==> final(self)@ == old(self)@ && not_found(r, name@),
    {
        let ghost m0 = self@;
        match self.position(name) {
            None => Err(PluginError::NotFound(String::from_str(name))),
            Some(i) => {
                let mut e = self.plugins.remove(i);
                e.enabled = true;
                if let PluginStatus::Disabled = e.status {
                    e.status = PluginStatus::Ready;
                }
                self.plugins.insert(i, e);
                assert(self@.plugins =~= m0.enable(name@).plugins);
                match self.enabled_position(name) {
                    Some(_) => {},
                    None => {
                        self.enabled_plugins.push(String::from_str(name));
                    },
                }
                assert(self@.enabled =~= m0.enable(name@).enabled);
                proof {
                    lemma_enable_wf(m0, name@);
                }
                Ok(())
            },
        }
    }

    /// Disables the plugin registered under `name`.
    pub fn disable_plugin(&mut self, name: &str) -> (r: Result<(), PluginError>)
        requires
            old(self)@.wf(),
        ensures
            final(self)@.wf(),
            old(self)@.has(name@) ==> r is Ok && final(self)@ == old(self)@.disable(name@),
            !old(self)@.has(name@) ==> final(self)@ == old(self)@ && not_found(r, name@),
    {
        let ghost m0 = self@;
        match self.position(name) {
            None => Err(PluginError::NotFound(String::from_str(name))),
            Some(i) => {
                let mut e = self.plugins.remove(i);
                e.enabled = false;
                if let PluginStatus::Error(_) = e.status {
                } else {
                    e.status = PluginStatus::Disabled;
                }
                self.plugins.insert(i, e);
                assert(self@.plugins =~= m0.disable(name@).plugins);
                match self.enabled_position(name) {
                    Some(j) => {
                        proof {
                            let c = m0.enabled.index_of(name@);
                            assert(m0.enabled.contains(name@));
                            if c != j as int {
                                if c < j {
                                    assert(m0.enabled[c] != m0.enabled[j as int]);
                                } else {
                                    assert(m0.enabled[j as int] != m0.enabled[c]);
                                }
                            }
                        }
                        self.enabled_plugins.remove(j);
                    },
                    None => {},
                }
                assert(self@.enabled =~= m0.disable(name@).enabled);
                proof {
                    lemma_disable_wf(m0, name@);
                }
                Ok(())
            },
        }
    }

    /// Registers a plugin under its descriptor's name, with the configuration
    /// saved under that name (or none). A name already taken is refused.
    pub fn add_plugin(&mut self, metadata: PluginMetadata, enabled: bool) -> (r: Result<
        (),
        PluginError,
    >)
        requires
            old(self)@.wf(),
        ensures
            final(self)@.wf(),
            old(self)@.has(metadata.name@) ==> final(self)@ == old(self)@ && duplicate_name(
                r,
                metadata.name@,
            ),
            !old(self)@.has(metadata.name@) ==> r is Ok && final(self)@ == old(self)@.registered(
                final(self)@.plugins.last(),
            ) && final(self)@.plugins.last().metadata == metadata && final(self)@.plugins.last().enabled
                == enabled && final(self)@.plugins.last().status == (if enabled {
                PluginStatus::Ready
            } else {
                PluginStatus::Disabled
            }) && final(self)@.plugins.last().config@ == initial_config(
                old(self)@.saved,
                metadata.name@,
            ),
    {
        let ghost m0 = self@;
        match self.position(metadata.name.as_str()) {
            Some(_) => Err(PluginError::DuplicateName(metadata.name)),
            None => {
                let config = match lookup_config(&self.plugin_configs, metadata.name.as_str()) {
                    Some(c) => c,
                    None => PluginConfig::new(),
                };
                let status = if enabled {
                    PluginStatus::Ready
                } else {
                    PluginStatus::Disabled
                };
                if enabled {
                    let n = metadata.name.clone();
                    self.enabled_plugins.push(n);
                }
                let e = PluginEntry { metadata, enabled, status, config };
                self.plugins.push(e);
                assert(self@.plugins =~= m0.registered(self@.plugins.last()).plugins);
                assert(self@.enabled =~= m0.registered(self@.plugins.last()).enabled);
                proof {
                    lemma_registered_wf(m0, self@.plugins.last());
                }
                Ok(())
            },
        }
    }

    /// Unregisters the plugin registered under `name` and hands back its
    /// record; the host cleans up the plugin's code.
    pub fn remove_plugin(&mut self, name: &str) -> (r: Result<PluginEntry, PluginError>)
        requires
            old(self)@.wf(),
        ensures
            final(self)@.wf(),
            old(self)@.has(name@) ==> final(self)@ == old(self)@.removed(name@),
            old(self)@.has(name@) ==> (r matches Ok(e) && e == old(self)@.plugins[old(
                self,
            )@.index_of(name@)]),
            !old(self)@.has(name@) ==> final(self)@ == old(self)@ && not_found(r, name@),
    {
        let ghost m0 = self@;
        match self.position(name) {
            None => Err(PluginError::NotFound(String::from_str(name))),
            Some(i) => {
                let e = self.plugins.remove(i);
                match self.enabled_position(name) {
                    Some(j) => {
                        proof {
                            let c = m0.enabled.index_of(name@);
                            assert(m0.enabled.contains(name@));
                            if c != j as int {
                                if c < j {
                                    assert(m0.enabled[c] != m0.enabled[j as int]);
                                } else {
                                    assert(m0.enabled[j as int] != m0.enabled[c]);
                                }
                            }
                        }
                        self.enabled_plugins.remove(j);
                    },
                    None => {},
                }
                assert(self@.plugins =~= m0.removed(name@).plugins);
                assert(self@.enabled =~= m0.removed(name@).enabled);
                proof {
                    lemma_removed_wf(m0, name@);
                }
                Ok(e)
            },
        }
    }

    /// The indices of the plugins that an update or a render reaches, in the
    /// order it reaches them.
    pub fn delivery_order(&self) -> (r: Vec<usize>)
        ensures
            r@.map_values(|i: usize| i as int) == self@.delivery(),
    {
        let mut order: Vec<usize> = Vec::new();
        let mut i: usize = 0;
        while i < self.plugins.len()
            invariant
                i <= self@.plugins.len(),
                order@.map_values(|i: usize| i as int) == enabled_indices(self@.plugins, i as int),
            decreases self.plugins.len() - i,
        {
            if self.plugins[i].enabled {
                order.push(i);
            }
            i = i + 1;
            assert(order@.map_values(|i: usize| i as int) =~= enabled_indices(self@.plugins, i as int));
        }
        order
    }

    /// Records that the plugin at `index` failed; it keeps receiving updates
    /// while enabled.
    pub fn record_failure(&mut self, index: usize, message: String)
        requires
            old(self)@.wf(),
            index < old(self)@.plugins.len(),
        ensures
            final(self)@ == old(self)@.failed(index as int, message),
            final(self)@.wf(),
    {
        let ghost m0 = self@;
        let mut e = self.plugins.remove(index);
        e.status = PluginStatus::Error(message);
        self.plugins.insert(index, e);
        assert(self@.plugins =~= m0.failed(index as int, message).plugins);
        proof {
            lemma_wf_frame(m0, self@);
        }
    }

    /// Replaces the configuration of the plugin registered under `name`.
    pub fn set_config(&mut self, name: &str, config: PluginConfig) -> (r: Result<(), PluginError>)
        requires
            old(self)@.wf(),
        ensures
            final(self)@.wf(),
            old(self)@.has(name@) ==> r is Ok && final(self)@ == (ManagerModel {
                plugins: old(self)@.plugins.update(
                    old(self)@.index_of(name@),
                    PluginEntry { config: config, ..old(self)@.plugins[old(self)@.index_of(name@)] },
                ),
                ..old(self)@
            }),
            !old(self)@.has(name@) ==> final(self)@ == old(self)@ && not_found(r, name@),
    {
        let ghost m0 = self@;
        match self.position(name) {
            None => Err(PluginError::NotFound(String::from_str(name))),
            Some(i) => {
                let mut e = self.plugins.remove(i);
                e.config = config;
                self.plugins.insert(i, e);
                assert(self@.plugins =~= m0.plugins.update(
                    i as int,
                    PluginEntry { config: config, ..m0.plugins[i as int] },
                ));
                proof {
                    lemma_wf_frame(m0, self@);
                }
                Ok(())
            },
        }
    }

    /// Each registered plugin's name with a copy of its configuration, in
    /// registration order.
    pub fn export_configs(&self) -> (r: Vec<(String, PluginConfig)>)
        ensures
            r@.len() == self@.plugins.len(),
            forall|i: int|
                0 <= i < r@.len() ==> (#[trigger] r@[i]).0@ == self@.name_at(i) && r@[i].1@
                    == self@.plugins[i].config@,
    {
        let mut out: Vec<(String, PluginConfig)> = Vec::new();
        let mut i: usize = 0;
        while i < self.plugins.len()
            invariant
                i <= self@.plugins.len(),
                out@.len() == i,
                forall|k: int|
                    0 <= k < i ==> (#[trigger] out@[k]).0@ == self@.name_at(k) && out@[k].1@
                        == self@.plugins[k].config@,
            decreases self.plugins.len() - i,
        {
            let n = self.plugins[i].metadata.name.clone();
            let c = self.plugins[i].config.duplicate();
            out.push((n, c));
            i = i + 1;
        }
        out
    }

    /// Keeps `configs` as the saved configurations and applies to each
    /// registered plugin the one saved under its name, if any; the others
    /// are kept for plugins registered later.
    pub fn load_configs(&mut self, configs: Vec<(String, PluginConfig)>)
        requires
            old(self)@.wf(),
        ensures
            final(self)@.wf(),
            final(self)@.saved == configs@,
            final(self)@.enabled == old(self)@.enabled,
            final(self)@.plugins.len() == old(self)@.plugins.len(),
            forall|i: int|
                0 <= i < old(self)@.plugins.len() ==> (#[trigger] final(self)@.plugins[i]).metadata
                    == old(self)@.plugins[i].metadata && final(self)@.plugins[i].enabled == old(
                    self,
                )@.plugins[i].enabled && final(self)@.plugins[i].status == old(self)@.plugins[i].status
                    && final(self)@.plugins[i].config@ == match saved_config(
                    configs@,
                    old(self)@.name_at(i),
                ) {
                    Some(c) => c@,
                    None => old(self)@.plugins[i].config@,
                },
    {
        let ghost m0 = self@;
        let mut i: usize = 0;
        while i < self.plugins.len()
            invariant
                i <= self@.plugins.len(),
                self@.plugins.len() == m0.plugins.len(),
                self@.enabled == m0.enabled,
                self@.saved == m0.saved,
                forall|k: int|
                    0 <= k < m0.plugins.len() ==> (#[trigger] self@.plugins[k]).metadata
                        == m0.plugins[k].metadata && self@.plugins[k].enabled == m0.plugins[k].enabled
                        && self@.plugins[k].status == m0.plugins[k].status,
                forall|k: int| i <= k < m0.plugins.len() ==> #[trigger] self@.plugins[k] == m0.plugins[k],
                forall|k: int|
                    0 <= k < i ==> (#[trigger] self@.plugins[k]).config@ == match saved_config(
                        configs@,
                        m0.name_at(k),
                    ) {
                        Some(c) => c@,
                        None => m0.plugins[k].config@,
                    },
            decreases self.plugins.len() - i,
        {
            match lookup_config(&configs, self.plugins[i].metadata.name.as_str()) {
                Some(c) => {
                    let ghost before = self@.plugins;
                    let mut e = self.plugins.remove(i);
                    e.config = c;
                    self.plugins.insert(i, e);
                    assert(self@.plugins =~= before.update(i as int, PluginEntry { config: c, ..before[i as int] }));
                },
                None => {},
            }
            i = i + 1;
        }
        self.plugin_configs = configs;
        proof {
            lemma_wf_frame(m0, self@);
        }
    }
}

} // verus!
