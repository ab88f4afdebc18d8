//! Plugin descriptors, configuration maps and the plugin runtime's registry.
use vstd::prelude::*;

pub mod registry;
pub mod utils;

pub use registry::{PluginEntry, PluginManager};

verus! {

/// What a plugin displays.
#[derive(Clone, Copy, Debug, PartialEq, Eq, Structural)]
pub enum PluginCategory {
    Speedometer,
    Engine,
    Fuel,
    Temperature,
    Pressure,
    Navigation,
    Entertainment,
    Diagnostics,
    Other,
}

/// The kind of value a setting holds.
#[derive(Clone, Copy, Debug, PartialEq, Eq, Structural)]
pub enum SettingType {
    String,
    Integer,
    Float,
    Boolean,
    Color,
    File,
}

/// One setting that a plugin declares.
#[derive(Debug)]
pub struct PluginSetting {
    pub name: String,
    pub value_type: SettingType,
    pub default_value: String,
    pub description: String,
    pub required: bool,
}

/// A plugin's static identity and declared capabilities.
#[derive(Debug)]
pub struct PluginMetadata {
    pub name: String,
    pub version: String,
    pub author: String,
    pub description: String,
    pub category: PluginCategory,
    pub dependencies: Vec<String>,
    pub settings: Vec<PluginSetting>,
}

/// Where a plugin instance stands in its lifecycle.
#[derive(Debug)]
pub enum PluginStatus {
    Loading,
    Ready,
    Error(String),
    Disabled,
}

/// Why a plugin runtime operation failed.
#[derive(Debug, PartialEq, Eq)]
pub enum PluginError {
    /// No plugin is registered under the name.
    NotFound(String),
    /// A plugin is already registered under the name.
    DuplicateName(String),
    /// A required setting is missing, or a value does not parse.
    ValidationError(String),
    /// A plugin binary failed to load or initialize.
    LoadError(String),
    /// The plugin directory cannot be created or read.
    DirectoryError(String),
}

impl Default for PluginMetadata {
    fn default() -> (r: Self)
        ensures
            r.name@ == "Unknown Plugin"@,
            r.version@ == "1.0.0"@,
            r.author@ == "Unknown"@,
            r.description@ == "No description available"@,
            r.category == PluginCategory::Other,
            r.dependencies@.len() == 0,
            r.settings@.len() == 0,
    {
        PluginMetadata {
            name: String::from_str("Unknown Plugin"),
            version: String::from_str("1.0.0"),
            author: String::from_str("Unknown"),
            description: String::from_str("No description available"),
            category: PluginCategory::Other,
            dependencies: Vec::new(),
            settings: Vec::new(),
        }
    }
}

/// The map that the pairs describe; a later pair wins over an earlier one.
pub open spec fn pairs_map(s: Seq<(String, String)>) -> Map<Seq<char>, Seq<char>>
    decreases s.len(),
{
    if s.len() == 0 {
        Map::empty()
    } else {
        pairs_map(s.drop_last()).insert(s.last().0@, s.last().1@)
    }
}

pub open spec fn keys_unique(s: Seq<(String, String)>) -> bool {
    forall|i: int, j: int| 0 <= i < j < s.len() ==> (#[trigger] s[i]).0@ != (#[trigger] s[j]).0@
}

proof fn lemma_pairs_map_keys(s: Seq<(String, String)>, k: Seq<char>)
    ensures
        pairs_map(s).contains_key(k) <==> exists|j: int| 0 <= j < s.len() && (#[trigger] s[j]).0@ == k,
    decreases s.len(),
{
    if s.len() > 0 {
        let p = s.drop_last();
        lemma_pairs_map_keys(p, k);
        if pairs_map(s).contains_key(k) {
            if s.last().0@ != k {
                let j = choose|j: int| 0 <= j < p.len() && (#[trigger] p[j]).0@ == k;
                assert(s[j] == p[j]);
            } else {
                assert(s[s.len() - 1].0@ == k);
            }
        } else {
            assert forall|j: int| 0 <= j < s.len() implies (#[trigger] s[j]).0@ != k by {
                if j < s.len() - 1 {
                    assert(s[j] == p[j]);
                }
            }
        }
    }
}

proof fn lemma_pairs_map_value(s: Seq<(String, String)>, j: int)
    requires
        keys_unique(s),
        0 <= j < s.len(),
    ensures
        pairs_map(s).contains_key(s[j].0@),
        pairs_map(s)[s[j].0@] == s[j].1@,
    decreases s.len(),
{
    if j < s.len() - 1 {
        let p = s.drop_last();
        assert(s[j] == p[j]);
        assert(keys_unique(p)) by {
            assert forall|a: int, b: int| 0 <= a < b < p.len() implies (#[trigger] p[a]).0@ != (
            #[trigger] p[b]).0@ by {
                assert(p[a] == s[a] && p[b] == s[b]);
            }
        }
        lemma_pairs_map_value(p, j);
    }
}

proof fn lemma_pairs_map_update(s: Seq<(String, String)>, j: int, v: String)
    requires
        keys_unique(s),
        0 <= j < s.len(),
    ensures
        keys_unique(s.update(j, (s[j].0, v))),
        pairs_map(s.update(j, (s[j].0, v))) == pairs_map(s).insert(s[j].0@, v@),
    decreases s.len(),
{
    let t = s.update(j, (s[j].0, v));
    assert(keys_unique(t)) by {
        assert forall|a: int, b: int| 0 <= a < b < t.len() implies (#[trigger] t[a]).0@ != (
        #[trigger] t[b]).0@ by {
            assert(t[a].0 == s[a].0 && t[b].0 == s[b].0);
        }
    }
    let p = s.drop_last();
    if j == s.len() - 1 {
        assert(t.drop_last() =~= p);
        assert(pairs_map(t) =~= pairs_map(s).insert(s[j].0@, v@));
    } else {
        assert(keys_unique(p)) by {
            assert forall|a: int, b: int| 0 <= a < b < p.len() implies (#[trigger] p[a]).0@ != (
            #[trigger] p[b]).0@ by {
                assert(p[a] == s[a] && p[b] == s[b]);
            }
        }
        assert(p[j] == s[j]);
        lemma_pairs_map_update(p, j, v);
        assert(t.drop_last() =~= p.update(j, (p[j].0, v)));
        assert(s.last().0@ != s[j].0@);
        assert(pairs_map(t) =~= pairs_map(s).insert(s[j].0@, v@));
    }
}

/// A string-to-string configuration map.
pub struct PluginConfig {
    entries: Vec<(String, String)>,
}

impl View for PluginConfig {
    type V = Map<Seq<char>, Seq<char>>;

    closed spec fn view(&self) -> Map<Seq<char>, Seq<char>> {
        pairs_map(self.entries@)
    }
}

impl PluginConfig {
    #[verifier::type_invariant]
    spec fn distinct_keys(self) -> bool {
        keys_unique(self.entries@)
    }

    /// An empty map.
    pub fn new() -> (r: Self)
        ensures
            r@ == Map::<Seq<char>, Seq<char>>::empty(),
    {
        let r = PluginConfig { entries: Vec::new() };
        assert(r@ =~= Map::<Seq<char>, Seq<char>>::empty());
        r
    }

    fn position(&self, key: &str) -> (r: Option<usize>)
        ensures
            match r {
                Some(i) => i < self.entries@.len() && self.entries@[i as int].0@ == key@,
                None => !self@.contains_key(key@),
            },
    {
        let k = String::from_str(key);
        let mut i: usize = 0;
        while i < self.entries.len()
            invariant
                i <= self.entries@.len(),
                k@ == key@,
                forall|j: int| 0 <= j < i ==> (#[trigger] self.entries@[j]).0@ != key@,
            decreases self.entries.len() - i,
        {
            if self.entries[i].0 == k {
                return Some(i);
            }
            i = i + 1;
        }
        proof {
            lemma_pairs_map_keys(self.entries@, key@);
        }
        None
    }

    /// Whether `key` has a value.
    pub fn contains_key(&self, key: &str) -> (r: bool)
        ensures
            r == self@.contains_key(key@),
    {
        proof {
            lemma_pairs_map_keys(self.entries@, key@);
        }
        self.position(key).is_some()
    }

    /// The value of `key`, if it has one.
    pub fn get(&self, key: &str) -> (r: Option<&String>)
        ensures
            match r {
                Some(v) => self@.contains_key(key@) && self@[key@] == v@,
                None => !self@.contains_key(key@),
            },
    {
        proof {
            use_type_invariant(self);
        }
        match self.position(key) {
            Some(i) => {
                proof {
                    lemma_pairs_map_value(self.entries@, i as int);
                }
                Some(&self.entries[i].1)
            },
            None => None,
        }
    }

    /// Sets `key` to `value`, replacing any earlier value.
    pub fn insert(&mut self, key: String, value: String)
        ensures
            final(self)@ == old(self)@.insert(key@, value@),
    {
        proof {
            use_type_invariant(&*self);
        }
        match self.position(key.as_str()) {
            Some(i) => {
                proof {
                    lemma_pairs_map_update(self.entries@, i as int, value);
                }
                let mut entries = self.copied_entries();
                let old_key = entries[i].0.clone();
                entries.set(i, (old_key, value));
                *self = PluginConfig { entries };
            },
            None => {
                proof {
                    lemma_pairs_map_keys(self.entries@, key@);
                    assert(self.entries@.push((key, value)).drop_last() =~= self.entries@);
                }
                let mut entries = self.copied_entries();
                entries.push((key, value));
                *self = PluginConfig { entries };
            },
        }
    }

    /// The number of keys.
    pub fn len(&self) -> (r: usize)
        ensures
            r == self@.len(),
    {
        proof {
            use_type_invariant(self);
            lemma_pairs_map_len(self.entries@);
        }
        self.entries.len()
    }

    /// The key-value pairs, each key once.
    pub fn pairs(&self) -> (r: &Vec<(String, String)>)
        ensures
            pairs_map(r@) == self@,
            keys_unique(r@),
    {
        proof {
            use_type_invariant(self);
        }
        &self.entries
    }

    fn copied_entries(&self) -> (r: Vec<(String, String)>)
        ensures
            r@ == self.entries@,
    {
        let mut copy: Vec<(String, String)> = Vec::new();
        let mut i: usize = 0;
        while i < self.entries.len()
            invariant
                i <= self.entries@.len(),
                copy@ == self.entries@.take(i as int),
            decreases self.entries.len() - i,
        {
            let k = self.entries[i].0.clone();
            let v = self.entries[i].1.clone();
            copy.push((k, v));
            i = i + 1;
            assert(copy@ =~= self.entries@.take(i as int));
        }
        assert(copy@ =~= self.entries@);
        copy
    }

    /// A copy of the map.
    pub fn duplicate(&self) -> (r: Self)
        ensures
            r@ == self@,
    {
        proof {
            use_type_invariant(self);
        }
        PluginConfig { entries: self.copied_entries() }
    }
}

proof fn lemma_pairs_map_len(s: Seq<(String, String)>)
    requires
        keys_unique(s),
    ensures
        pairs_map(s).len() == s.len(),
        pairs_map(s).dom().finite(),
    decreases s.len(),
{
    if s.len() > 0 {
        let p = s.drop_last();
        assert(keys_unique(p)) by {
            assert forall|a: int, b: int| 0 <= a < b < p.len() implies (#[trigger] p[a]).0@ != (
            #[trigger] p[b]).0@ by {
                assert(p[a] == s[a] && p[b] == s[b]);
            }
        }
        lemma_pairs_map_len(p);
        lemma_pairs_map_keys(p, s.last().0@);
        assert(!pairs_map(p).contains_key(s.last().0@)) by {
            if pairs_map(p).contains_key(s.last().0@) {
                let j = choose|j: int| 0 <= j < p.len() && (#[trigger] p[j]).0@ == s.last().0@;
                assert(p[j] == s[j]);
            }
        }
    }
}

} // verus!
