//! Plugins: external commands the cluster can run as tasks, each described
//! by a manifest.
use vstd::prelude::*;
use crate::text::{owned, str_eq};

verus! {

/// Manifest describing a plugin.
pub struct PluginManifest {
    pub name: String,
    pub command: String,
    pub task_type: String,
    pub timeout_ms: u64,
}

/// The task type of a plugin whose manifest names none.
pub fn default_task_type() -> (r: String)
    ensures
        r@ == "plugin"@,
{
    owned("plugin")
}

/// The timeout of a plugin whose manifest names none: ten minutes.
pub fn default_timeout() -> (r: u64)
    ensures
        r == 600_000,
{
    600_000
}

/// What the cluster knows of a plugin.
pub struct ManifestView {
    pub name: Seq<char>,
    pub command: Seq<char>,
    pub task_type: Seq<char>,
    pub timeout_ms: u64,
}

impl View for PluginManifest {
    type V = ManifestView;

    open spec fn view(&self) -> ManifestView {
        ManifestView { name: self.name@, command: self.command@, task_type: self.task_type@, timeout_ms: self.timeout_ms }
    }
}

/// The plugins by name.
pub struct PluginRegistry {
    plugins: Vec<PluginManifest>,
}

spec fn names_unique(s: Seq<PluginManifest>) -> bool {
    forall|i: int, j: int| 0 <= i < s.len() && 0 <= j < s.len() && (#[trigger] s[i])@.name == (#[trigger] s[j])@.name ==> i == j
}

spec fn registry_map(s: Seq<PluginManifest>) -> Map<Seq<char>, ManifestView>
    decreases s.len(),
{
    if s.len() == 0 {
        Map::empty()
    } else {
        registry_map(s.drop_last()).insert(s.last()@.name, s.last()@)
    }
}

proof fn lemma_registry_map(s: Seq<PluginManifest>)
    requires
        names_unique(s),
    ensures
        forall|n: Seq<char>| #[trigger] registry_map(s).contains_key(n) <==> exists|i: int| 0 <= i < s.len() && s[i]@.name == n,
        forall|i: int| 0 <= i < s.len() ==> #[trigger] registry_map(s)[s[i]@.name] == s[i]@,
    decreases s.len(),
{
    if s.len() > 0 {
        let t = s.drop_last();
        assert(names_unique(t)) by {
            assert forall|i: int, j: int| 0 <= i < t.len() && 0 <= j < t.len() && (#[trigger] t[i])@.name == (#[trigger] t[j])@.name implies i == j by {
                assert(t[i] == s[i]);
                assert(t[j] == s[j]);
            }
        }
        lemma_registry_map(t);
        assert forall|n: Seq<char>| #[trigger] registry_map(s).contains_key(n) <==> exists|i: int| 0 <= i < s.len() && s[i]@.name == n by {
            if registry_map(s).contains_key(n) {
                if n != s.last()@.name {
                    assert(registry_map(t).contains_key(n));
                    let i = choose|i: int| 0 <= i < t.len() && t[i]@.name == n;
                    assert(s[i] == t[i]);
                } else {
                    assert(s[s.len() - 1]@.name == n);
                }
            }
            if exists|i: int| 0 <= i < s.len() && s[i]@.name == n {
                let i = choose|i: int| 0 <= i < s.len() && s[i]@.name == n;
                if i < s.len() - 1 {
                    assert(t[i] == s[i]);
                    assert(registry_map(t).contains_key(n));
                }
            }
        }
        assert forall|i: int| 0 <= i < s.len() implies #[trigger] registry_map(s)[s[i]@.name] == s[i]@ by {
            if i < s.len() - 1 {
                assert(s[i] == t[i]);
                assert(s[i]@.name != s.last()@.name);
                assert(registry_map(t)[t[i]@.name] == t[i]@);
                assert(registry_map(t).contains_key(t[i]@.name));
            }
        }
    }
}

impl PluginRegistry {
    /// The plugins by name.
    pub closed spec fn view(&self) -> Map<Seq<char>, ManifestView> {
        registry_map(self.plugins@)
    }

    #[verifier::type_invariant]
    closed spec fn inv(&self) -> bool {
        names_unique(self.plugins@)
    }

    /// An empty registry.
    pub fn new() -> (r: Self)
        ensures
            r.view() == Map::<Seq<char>, ManifestView>::empty(),
    {
        PluginRegistry { plugins: Vec::new() }
    }

    fn position(&self, name: &str) -> (r: Option<usize>)
        ensures
            match r {
                Some(i) => i < self.plugins@.len() && self.plugins@[i as int]@.name == name@,
                None => forall|i: int| 0 <= i < self.plugins@.len() ==> (#[trigger] self.plugins@[i])@.name != name@,
            },
    {
        let mut i: usize = 0;
        while i < self.plugins.len()
            invariant
                i <= self.plugins@.len(),
                forall|j: int| 0 <= j < i ==> (#[trigger] self.plugins@[j])@.name != name@,
            decreases self.plugins@.len() - i,
        {
            if str_eq(self.plugins[i].name.as_str(), name) {
                return Some(i);
            }
            i = i + 1;
        }
        None
    }

    /// Registers a plugin under its name; a later manifest with the same
    /// name replaces the earlier one.
    pub fn insert(&mut self, manifest: PluginManifest)
        ensures
            final(self).view() == old(self).view().insert(manifest@.name, manifest@),
    {
        proof {
            use_type_invariant(&*self);
            lemma_registry_map(self.plugins@);
        }
        let ghost m = manifest@;
        let pos = self.position(manifest.name.as_str());
        let mut ps: Vec<PluginManifest> = Vec::new();
        std::mem::swap(&mut ps, &mut self.plugins);
        let ghost before = ps@;
        match pos {
            Some(i) => {
                ps.remove(i);
                let ghost mid = ps@;
                ps.push(manifest);
                proof {
                    assert(forall|k: int| 0 <= k < mid.len() ==> #[trigger] mid[k] == before[if k < i { k } else { k + 1 }]);
                    assert(names_unique(ps@)) by {
                        assert forall|a: int, b: int| 0 <= a < ps@.len() && 0 <= b < ps@.len() && (#[trigger] ps@[a])@.name == (#[trigger] ps@[b])@.name implies a == b by {
                            let sa = if a < i { a } else { a + 1 };
                            let sb = if b < i { b } else { b + 1 };
                            if a < mid.len() && b < mid.len() {
                                assert(ps@[a] == before[sa]);
                                assert(ps@[b] == before[sb]);
                            } else if a < mid.len() {
                                assert(ps@[a] == before[sa]);
                                assert(before[sa]@.name == before[i as int]@.name);
                            } else if b < mid.len() {
                                assert(ps@[b] == before[sb]);
                                assert(before[sb]@.name == before[i as int]@.name);
                            }
                        }
                    }
                    lemma_registry_map(ps@);
                    assert(names_unique(mid)) by {
                        assert forall|a: int, b: int| 0 <= a < mid.len() && 0 <= b < mid.len() && (#[trigger] mid[a])@.name == (#[trigger] mid[b])@.name implies a == b by {
                            let sa = if a < i { a } else { a + 1 };
                            let sb = if b < i { b } else { b + 1 };
                            assert(mid[a] == before[sa]);
                            assert(mid[b] == before[sb]);
                        }
                    }
                    assert forall|n: Seq<char>| #[trigger] registry_map(ps@).contains_key(n) == registry_map(before).insert(m.name, m).contains_key(n) by {
                        if registry_map(before).contains_key(n) && n != m.name {
                            let j = choose|j: int| 0 <= j < before.len() && before[j]@.name == n;
                            assert(j != i);
                            let k = if j < i { j } else { j - 1 };
                            assert(ps@[k] == before[j]);
                        }
                        if registry_map(ps@).contains_key(n) && n != m.name {
                            let k = choose|k: int| 0 <= k < ps@.len() && ps@[k]@.name == n;
                            let sk = if k < i { k } else { k + 1 };
                            assert(ps@[k] == before[sk]);
                        }
                        if n == m.name {
                            assert(ps@[mid.len() as int]@.name == n);
                        }
                    }
                    assert forall|n: Seq<char>| #[trigger] registry_map(ps@).contains_key(n) implies registry_map(ps@)[n] == registry_map(before).insert(m.name, m)[n] by {
                        let k = choose|k: int| 0 <= k < ps@.len() && ps@[k]@.name == n;
                        if k < mid.len() {
                            let sk = if k < i { k } else { k + 1 };
                            assert(ps@[k] == before[sk]);
                            assert(registry_map(before)[before[sk]@.name] == before[sk]@);
                        }
                    }
                    assert(registry_map(ps@) =~= registry_map(before).insert(m.name, m));
                }
            },
            None => {
                ps.push(manifest);
                proof {
                    assert(names_unique(ps@)) by {
                        assert forall|a: int, b: int| 0 <= a < ps@.len() && 0 <= b < ps@.len() && (#[trigger] ps@[a])@.name == (#[trigger] ps@[b])@.name implies a == b by {
                            if a < before.len() {
                                assert(ps@[a] == before[a]);
                            }
                            if b < before.len() {
                                assert(ps@[b] == before[b]);
                            }
                        }
                    }
                    assert(ps@.drop_last() =~= before);
                }
            },
        }
        self.plugins = ps;
    }

    /// The manifest registered under a name.
    pub fn get(&self, name: &str) -> (r: Option<&PluginManifest>)
        ensures
            match r {
                Some(m) => self.view().contains_key(name@) && self.view()[name@] == m@,
                None => !self.view().contains_key(name@),
            },
    {
        proof {
            use_type_invariant(self);
            lemma_registry_map(self.plugins@);
        }
        match self.position(name) {
            Some(i) => Some(&self.plugins[i]),
            None => None,
        }
    }

    /// The number of registered plugins.
    pub fn len(&self) -> (r: usize)
        ensures
            r == self.view().len(),
    {
        proof {
            use_type_invariant(self);
            lemma_registry_len(self.plugins@);
        }
        self.plugins.len()
    }
}

proof fn lemma_registry_len(s: Seq<PluginManifest>)
    requires
        names_unique(s),
    ensures
        registry_map(s).len() == s.len(),
        registry_map(s).dom().finite(),
    decreases s.len(),
{
    if s.len() > 0 {
        let t = s.drop_last();
        assert(names_unique(t)) by {
            assert forall|i: int, j: int| 0 <= i < t.len() && 0 <= j < t.len() && (#[trigger] t[i])@.name == (#[trigger] t[j])@.name implies i == j by {
                assert(t[i] == s[i]);
                assert(t[j] == s[j]);
            }
        }
        lemma_registry_len(t);
        lemma_registry_map(t);
        assert(!registry_map(t).contains_key(s.last()@.name)) by {
            if registry_map(t).contains_key(s.last()@.name) {
                let i = choose|i: int| 0 <= i < t.len() && t[i]@.name == s.last()@.name;
                assert(s[i] == t[i]);
            }
        }
    }
}

/// Registering a plugin and looking it up by its name gives it back, and
/// leaves every other name as it was.
pub proof fn lemma_insert_then_get(reg: Map<Seq<char>, ManifestView>, m: ManifestView, other: Seq<char>)
    requires
        other != m.name,
    ensures
        reg.insert(m.name, m)[m.name] == m,
        reg.insert(m.name, m).contains_key(other) == reg.contains_key(other),
        reg.contains_key(other) ==> reg.insert(m.name, m)[other] == reg[other],
{
}

} // verus!
