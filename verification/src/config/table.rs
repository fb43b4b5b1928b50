//! The plugins that a project turns on and off.
use crate::order::{
    comes_before, text_lt, text_order_is_antisymmetric, text_order_is_total,
    text_order_is_transitive,
};
use crate::text::same;
use vstd::prelude::*;

verus! {

/// The settings of one plugin.
#[derive(Debug, Clone, Copy, PartialEq, Eq, Structural)]
pub struct PluginConfig {
    pub enabled: bool,
}

impl Default for PluginConfig {
    fn default() -> (r: Self)
        ensures
            !r.enabled,
    {
        PluginConfig { enabled: false }
    }
}

/// The settings of the plugins by name, in the order of the names.
#[derive(Debug)]
pub struct PluginTable {
    pub entries: Vec<(String, PluginConfig)>,
}

/// Whether a name stands at place `i`.
pub open spec fn names_at(entries: Seq<(String, PluginConfig)>, name: Seq<char>, i: int) -> bool {
    0 <= i < entries.len() && entries[i].0@ == name
}

/// Whether a name is in the table.
pub open spec fn is_listed(entries: Seq<(String, PluginConfig)>, name: Seq<char>) -> bool {
    exists|i: int| names_at(entries, name, i)
}

impl PluginTable {
    /// The names are in order, and none stands in the table twice.
    pub open spec fn wf(self) -> bool {
        forall|i: int, j: int|
            0 <= i < j < self.entries@.len() ==> text_lt(
                (#[trigger] self.entries@[i]).0@,
                (#[trigger] self.entries@[j]).0@,
            )
    }
}

impl View for PluginTable {
    type V = Map<Seq<char>, PluginConfig>;

    open spec fn view(&self) -> Map<Seq<char>, PluginConfig> {
        Map::new(
            |name: Seq<char>| is_listed(self.entries@, name),
            |name: Seq<char>| self.entries@[choose|i: int| names_at(self.entries@, name, i)].1,
        )
    }
}

/// In a table in order, a name is bound to what stands beside it.
pub proof fn lemma_entry(t: PluginTable, i: int)
    requires
        t.wf(),
        0 <= i < t.entries@.len(),
    ensures
        t@.contains_key(t.entries@[i].0@),
        t@[t.entries@[i].0@] == t.entries@[i].1,
{
    let name = t.entries@[i].0@;
    assert(names_at(t.entries@, name, i));
    let k = choose|k: int| names_at(t.entries@, name, k);
    assert(names_at(t.entries@, name, k));
    if k < i {
        assert(text_lt(t.entries@[k].0@, t.entries@[i].0@));
    } else if i < k {
        assert(text_lt(t.entries@[i].0@, t.entries@[k].0@));
    }
}

impl PluginTable {
    /// A table without plugins.
    pub fn new() -> (r: Self)
        ensures
            r.wf(),
            (r@ == Map::<Seq<char>, PluginConfig>::empty()),
    {
        let r = PluginTable { entries: Vec::new() };
        assert(r@ =~= Map::empty());
        r
    }

    /// The settings of a plugin, if it has any.
    pub fn get(&self, name: &str) -> (r: Option<PluginConfig>)
        requires
            self.wf(),
        ensures
            match r {
                Some(c) => self@.contains_key(name@) && self@[name@] == c,
                None => !self@.contains_key(name@),
            },
    {
        let mut i: usize = 0;
        while i < self.entries.len()
            invariant
                self.wf(),
                i <= self.entries@.len(),
                forall|j: int| 0 <= j < i ==> (#[trigger] self.entries@[j]).0@ != name@,
            decreases self.entries@.len() - i,
        {
            if same(self.entries[i].0.as_str(), name) {
                proof {
                    lemma_entry(*self, i as int);
                }
                return Some(self.entries[i].1);
            }
            i += 1;
        }
        assert(!is_listed(self.entries@, name@)) by {
            if is_listed(self.entries@, name@) {
                let j = choose|j: int| names_at(self.entries@, name@, j);
                assert(self.entries@[j].0@ == name@);
            }
        }
        None
    }

    /// Whether a plugin has settings.
    pub fn contains_key(&self, name: &str) -> (r: bool)
        requires
            self.wf(),
        ensures
            r == self@.contains_key(name@),
    {
        self.get(name).is_some()
    }

    /// Sets the settings of a plugin.
    pub fn insert(&mut self, name: String, config: PluginConfig)
        requires
            old(self).wf(),
        ensures
            final(self).wf(),
            final(self)@ == old(self)@.insert(name@, config),
    {
        let ghost before = *self;
        let mut i: usize = 0;
        while i < self.entries.len() && !comes_before(name.as_str(), self.entries[i].0.as_str())
            invariant
                before == *self,
                before.wf(),
                i <= self.entries@.len(),
                forall|j: int|
                    0 <= j < i ==> text_lt((#[trigger] self.entries@[j]).0@, name@),
            decreases self.entries@.len() - i,
        {
            proof {
                text_order_is_total(name@, self.entries@[i as int].0@);
            }
            i += 1;
        }
        proof {
            text_order_is_total(name@, name@);
            assert forall|j: int| i <= j < before.entries@.len() && before.entries@[j].0@
                != name@ implies text_lt(name@, (#[trigger] before.entries@[j]).0@) by {
                if i < j {
                    assert(text_lt(before.entries@[i as int].0@, before.entries@[j].0@));
                    text_order_is_transitive(
                        name@,
                        before.entries@[i as int].0@,
                        before.entries@[j].0@,
                    );
                }
            }
        }
        let ghost old_entries = before.entries@;
        if i < self.entries.len() && same(self.entries[i].0.as_str(), name.as_str()) {
            self.entries.set(i, (name, config));
            proof {
                assert forall|a: int, b: int| 0 <= a < b < self.entries@.len() implies text_lt(
                    (#[trigger] self.entries@[a]).0@,
                    (#[trigger] self.entries@[b]).0@,
                ) by {
                    assert(text_lt(old_entries[a].0@, old_entries[b].0@));
                }
                lemma_entry(*self, i as int);
                lemma_set(before, *self, i as int, name@, config);
            }
        } else {
            proof {
                if i < old_entries.len() {
                    assert(text_lt(name@, old_entries[i as int].0@));
                }
                assert forall|j: int| i <= j < old_entries.len() implies text_lt(
                    name@,
                    (#[trigger] old_entries[j]).0@,
                ) by {
                    if j > i {
                        assert(text_lt(old_entries[i as int].0@, old_entries[j].0@));
                        if old_entries[j].0@ == name@ {
                            text_order_is_antisymmetric(name@, old_entries[i as int].0@);
                        }
                    }
                }
            }
            self.entries.insert(i, (name, config));
            proof {
                assert forall|a: int, b: int| 0 <= a < b < self.entries@.len() implies text_lt(
                    (#[trigger] self.entries@[a]).0@,
                    (#[trigger] self.entries@[b]).0@,
                ) by {
                    if b < i {
                        assert(text_lt(old_entries[a].0@, old_entries[b].0@));
                    } else if b == i {
                        assert(text_lt(old_entries[a].0@, name@));
                    } else if a == i {
                        assert(text_lt(name@, old_entries[b - 1].0@));
                    } else if a > i {
                        assert(text_lt(old_entries[a - 1].0@, old_entries[b - 1].0@));
                    } else {
                        assert(text_lt(old_entries[a].0@, old_entries[b - 1].0@));
                    }
                }
                lemma_inserted(before, *self, i as int, name@, config);
            }
        }
    }
}

proof fn lemma_set(before: PluginTable, after: PluginTable, i: int, name: Seq<char>, c: PluginConfig)
    requires
        before.wf(),
        after.wf(),
        names_at(before.entries@, name, i),
        after.entries@.len() == before.entries@.len(),
        after.entries@[i].0@ == name,
        after.entries@[i].1 == c,
        forall|j: int|
            0 <= j < before.entries@.len() && j != i ==> #[trigger] after.entries@[j]
                == before.entries@[j],
    ensures
        after@ == before@.insert(name, c),
{
    lemma_entry(after, i);
    assert forall|n: Seq<char>| after@.contains_key(n) <==> before@.insert(name, c).contains_key(
        n,
    ) by {
        if is_listed(after.entries@, n) {
            let j = choose|j: int| names_at(after.entries@, n, j);
            assert(names_at(after.entries@, n, j));
            if j != i {
                assert(after.entries@[j] == before.entries@[j]);
                assert(names_at(before.entries@, n, j));
            }
        }
        if is_listed(before.entries@, n) {
            let j = choose|j: int| names_at(before.entries@, n, j);
            assert(names_at(before.entries@, n, j));
            if j != i {
                assert(after.entries@[j] == before.entries@[j]);
            }
            assert(names_at(after.entries@, n, j));
        }
    }
    assert forall|n: Seq<char>| after@.contains_key(n) implies #[trigger] after@[n]
        == before@.insert(name, c)[n] by {
        let j = choose|j: int| names_at(after.entries@, n, j);
        assert(names_at(after.entries@, n, j));
        lemma_entry(after, j);
        if j != i {
            assert(after.entries@[j] == before.entries@[j]);
            lemma_entry(before, j);
            if i < j {
                assert(text_lt(after.entries@[i].0@, after.entries@[j].0@));
            } else {
                assert(text_lt(after.entries@[j].0@, after.entries@[i].0@));
            }
        }
    }
    assert(after@ =~= before@.insert(name, c));
}

proof fn lemma_inserted(
    before: PluginTable,
    after: PluginTable,
    i: int,
    name: Seq<char>,
    c: PluginConfig,
)
    requires
        before.wf(),
        after.wf(),
        0 <= i <= before.entries@.len(),
        after.entries@.len() == before.entries@.len() + 1,
        after.entries@[i].0@ == name,
        after.entries@[i].1 == c,
        forall|j: int| 0 <= j < i ==> #[trigger] after.entries@[j] == before.entries@[j],
        forall|j: int|
            i <= j < before.entries@.len() ==> after.entries@[j + 1] == #[trigger] before.entries@[j],
    ensures
        after@ == before@.insert(name, c),
{
    lemma_entry(after, i);
    assert forall|n: Seq<char>| after@.contains_key(n) <==> before@.insert(name, c).contains_key(
        n,
    ) by {
        if is_listed(after.entries@, n) {
            let j = choose|j: int| names_at(after.entries@, n, j);
            assert(names_at(after.entries@, n, j));
            if j < i {
                assert(names_at(before.entries@, n, j));
            } else if j > i {
                assert(after.entries@[j - 1 + 1] == before.entries@[j - 1]);
                assert(names_at(before.entries@, n, j - 1));
            }
        }
        if is_listed(before.entries@, n) {
            let j = choose|j: int| names_at(before.entries@, n, j);
            assert(names_at(before.entries@, n, j));
            if j < i {
                assert(after.entries@[j] == before.entries@[j]);
                assert(names_at(after.entries@, n, j));
            } else {
                assert(after.entries@[j + 1] == before.entries@[j]);
                assert(names_at(after.entries@, n, j + 1));
            }
        }
    }
    assert forall|n: Seq<char>| after@.contains_key(n) implies #[trigger] after@[n]
        == before@.insert(name, c)[n] by {
        let j = choose|j: int| names_at(after.entries@, n, j);
        assert(names_at(after.entries@, n, j));
        lemma_entry(after, j);
        if j < i {
            assert(after.entries@[j] == before.entries@[j]);
            lemma_entry(before, j);
            assert(text_lt(after.entries@[j].0@, after.entries@[i].0@));
        } else if j > i {
            assert(after.entries@[j - 1 + 1] == before.entries@[j - 1]);
            lemma_entry(before, j - 1);
            assert(text_lt(after.entries@[i].0@, after.entries@[j].0@));
        }
    }
    assert(after@ =~= before@.insert(name, c));
}

} // verus!
