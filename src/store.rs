//! The metadata store: one row per add-on, keyed by name and kept in name
//! order. Its abstract state is the map from each name to its row.
use crate::order::{
    lemma_text_less_irreflexive, lemma_text_less_total, lemma_text_less_transitive, name_less,
    text_less,
};
use crate::plugin::Plugin;
use vstd::prelude::*;

verus! {

/// The rows of a store, by name.
pub type Rows = Map<Seq<char>, Plugin>;

/// `p` with its installed flag set to `installed`.
pub open spec fn with_installed(p: Plugin, installed: bool) -> Plugin {
    Plugin { installed: installed, ..p }
}

/// `q` with its latest version set to `v`.
pub open spec fn with_latest(q: Plugin, v: String) -> Plugin {
    Plugin { latest_version: v, ..q }
}

/// Names strictly ascend along `s`.
pub open spec fn sorted_by_name(s: Seq<Plugin>) -> bool {
    forall|i: int, j: int|
        0 <= i < j < s.len() ==> text_less(#[trigger] s[i].name@, #[trigger] s[j].name@)
}

/// `s` lists, in name order, exactly the rows of `m` (only the installed
/// ones, when `installed_only` holds).
pub open spec fn lists_rows(s: Seq<Plugin>, m: Rows, installed_only: bool) -> bool {
    &&& sorted_by_name(s)
    &&& forall|i: int|
        0 <= i < s.len() ==> m.contains_key(#[trigger] s[i].name@) && m[s[i].name@] == s[i] && (
        installed_only ==> s[i].installed)
    &&& forall|k: Seq<char>|
        m.contains_key(k) && (!installed_only || m[k].installed) ==> exists|i: int|
            0 <= i < s.len() && #[trigger] s[i].name@ == k
}

/// Every row of `m` whose catalog id is `id` becomes `with_latest(row, v)`.
pub open spec fn set_latest_by_id(m: Rows, id: i32, v: String) -> Rows {
    Map::new(
        |k: Seq<char>| m.contains_key(k),
        |k: Seq<char>|
            if m[k].id == id {
                with_latest(m[k], v)
            } else {
                m[k]
            },
    )
}

/// Upserting every entry of `s` in order, each as not installed.
pub open spec fn insert_all(m: Rows, s: Seq<Plugin>) -> Rows
    decreases s.len(),
{
    if s.len() == 0 {
        m
    } else {
        insert_all(m, s.drop_last()).insert(s.last().name@, with_installed(s.last(), false))
    }
}

/// For every entry of `s` in order whose name `snapshot` holds with another
/// latest version, the rows that share the entry's catalog id take the
/// entry's latest version.
pub open spec fn refresh_versions(m: Rows, snapshot: Rows, s: Seq<Plugin>) -> Rows
    decreases s.len(),
{
    if s.len() == 0 {
        m
    } else {
        let before = refresh_versions(m, snapshot, s.drop_last());
        let p = s.last();
        if snapshot.contains_key(p.name@) && snapshot[p.name@].latest_version@
            != p.latest_version@ {
            set_latest_by_id(before, p.id, p.latest_version)
        } else {
            before
        }
    }
}

/// Reconciliation: an empty store takes every remote entry as not installed;
/// a store with rows only refreshes the latest versions.
pub open spec fn synced(m: Rows, remote: Seq<Plugin>) -> Rows {
    if m.dom() == Set::<Seq<char>>::empty() {
        insert_all(m, remote)
    } else {
        refresh_versions(m, m, remote)
    }
}

/// `new` is `old` with every row of catalog id `id` installed at version `v`.
pub open spec fn marked_installed(old: Rows, new: Rows, id: i32, v: Seq<char>) -> bool {
    &&& new.dom() == old.dom()
    &&& forall|k: Seq<char>| #[trigger]
        old.contains_key(k) ==> if old[k].id == id {
            new[k] == Plugin { installed: true, current_version: new[k].current_version, ..old[k] }
                && new[k].current_version@ == v
        } else {
            new[k] == old[k]
        }
}

/// Operations of the metadata store, stated over its rows by name.
pub trait DatabaseHandler: View<V = Rows> + Sized {
    /// Inserts `plugin` with the given installed flag, or overwrites every
    /// column of the row of the same name.
    fn insert_plugin(&mut self, plugin: &Plugin, installed: bool)
        ensures
            final(self)@ == old(self)@.insert(plugin.name@, with_installed(*plugin, installed)),
    ;

    /// Reconciles the store with a freshly fetched catalog. Rows are never
    /// removed and keep their installed flag and current version; a changed
    /// latest version is written as the remote entry gives it.
    fn sync_plugins(&mut self, plugins: &Vec<Plugin>)
        ensures
            final(self)@ == synced(old(self)@, plugins@),
    ;

    /// Marks every row of catalog id `plugin_id` installed at `version`.
    fn mark_as_installed(&mut self, plugin_id: i32, version: &str)
        ensures
            marked_installed(old(self)@, final(self)@, plugin_id, version@),
    ;

    /// Removes the row named `name`, if there is one.
    fn delete_plugin(&mut self, name: &str)
        ensures
            final(self)@ == old(self)@.remove(name@),
    ;

    /// The installed rows, in name order.
    fn get_installed_plugins(&self) -> (r: Vec<Plugin>)
        ensures
            lists_rows(r@, self@, true),
    ;

    /// All rows, in name order.
    fn get_plugins(&self) -> (r: Vec<Plugin>)
        ensures
            lists_rows(r@, self@, false),
    ;

    /// The row named `name`, or `None`.
    fn get_plugin(&self, name: &str) -> (r: Option<Plugin>)
        ensures
            r == (if self@.contains_key(name@) {
                Some(self@[name@])
            } else {
                None
            }),
    ;
}

/// Different positions of a name-sorted sequence hold different names.
pub proof fn lemma_sorted_distinct(s: Seq<Plugin>, a: int, b: int)
    requires
        sorted_by_name(s),
        0 <= a < s.len(),
        0 <= b < s.len(),
        a != b,
    ensures
        s[a].name@ != s[b].name@,
{
    lemma_text_less_irreflexive(s[a].name@);
    if a < b {
        assert(text_less(s[a].name@, s[b].name@));
    } else {
        assert(text_less(s[b].name@, s[a].name@));
    }
}

/// Inserting a row at the place that its name takes keeps names ascending.
proof fn lemma_insert_sorted(s: Seq<Plugin>, i: int, row: Plugin)
    requires
        sorted_by_name(s),
        0 <= i <= s.len(),
        forall|j: int| 0 <= j < i ==> text_less(#[trigger] s[j].name@, row.name@),
        i < s.len() ==> text_less(row.name@, s[i].name@),
    ensures
        sorted_by_name(s.insert(i, row)),
{
    let t = s.insert(i, row);
    assert forall|a: int, b: int| 0 <= a < b < t.len() implies text_less(
        #[trigger] t[a].name@,
        #[trigger] t[b].name@,
    ) by {
        if b < i {
            assert(text_less(s[a].name@, s[b].name@));
        } else if a < i && b == i {
        } else if a < i && b > i {
            assert(text_less(s[a].name@, s[b - 1].name@));
        } else if a == i {
            if b - 1 > i {
                lemma_text_less_transitive(row.name@, s[i].name@, s[b - 1].name@);
            }
        } else {
            assert(text_less(s[a - 1].name@, s[b - 1].name@));
        }
    }
}

/// A name that sorts between the rows before position `i` and the row at
/// `i` names no row.
proof fn lemma_absent(s: Seq<Plugin>, m: Rows, i: int, name: Seq<char>)
    requires
        lists_rows(s, m, false),
        0 <= i <= s.len(),
        forall|j: int| 0 <= j < i ==> text_less(#[trigger] s[j].name@, name),
        i < s.len() ==> text_less(name, s[i].name@),
    ensures
        !m.contains_key(name),
{
    lemma_text_less_irreflexive(name);
    if m.contains_key(name) {
        let j = choose|j: int| 0 <= j < s.len() && #[trigger] s[j].name@ == name;
        if j < i {
            assert(text_less(s[j].name@, name));
        } else if j > i {
            assert(text_less(s[i].name@, s[j].name@));
            lemma_text_less_transitive(name, s[i].name@, name);
        }
    }
}

/// A copy of the rows of a name-sorted list.
fn copy_rows(rows: &Vec<Plugin>) -> (r: Vec<Plugin>)
    ensures
        r@ == rows@,
{
    let mut r: Vec<Plugin> = Vec::new();
    let mut i: usize = 0;
    while i < rows.len()
        invariant
            i <= rows@.len(),
            r@ == rows@.subrange(0, i as int),
        decreases rows.len() - i,
    {
        r.push(rows[i].duplicate());
        proof {
            assert(r@ =~= rows@.subrange(0, i + 1));
        }
        i = i + 1;
    }
    proof {
        assert(rows@.subrange(0, rows@.len() as int) =~= rows@);
    }
    r
}

/// Where `name` stands or belongs among name-sorted rows.
fn position_of(rows: &Vec<Plugin>, name: &str) -> (r: (usize, bool))
    requires
        sorted_by_name(rows@),
    ensures
        r.0 <= rows@.len(),
        forall|j: int| 0 <= j < r.0 ==> text_less(#[trigger] rows@[j].name@, name@),
        r.1 ==> r.0 < rows@.len() && rows@[r.0 as int].name@ == name@,
        !r.1 ==> r.0 == rows@.len() || text_less(name@, rows@[r.0 as int].name@),
{
    let mut i: usize = 0;
    while i < rows.len()
        invariant
            i <= rows@.len(),
            forall|j: int| 0 <= j < i ==> text_less(#[trigger] rows@[j].name@, name@),
        decreases rows.len() - i,
    {
        if !name_less(rows[i].name.as_str(), name) {
            if name_less(name, rows[i].name.as_str()) {
                return (i, false);
            }
            proof {
                if rows@[i as int].name@ != name@ {
                    lemma_text_less_total(rows@[i as int].name@, name@);
                }
            }
            return (i, true);
        }
        i = i + 1;
    }
    (i, false)
}

/// The rows of the metadata store, kept in memory.
pub struct PluginStore {
    rows: Vec<Plugin>,
    model: Ghost<Rows>,
}

impl View for PluginStore {
    type V = Rows;

    closed spec fn view(&self) -> Rows {
        self.model@
    }
}

impl PluginStore {
    #[verifier::type_invariant]
    closed spec fn inv(&self) -> bool {
        lists_rows(self.rows@, self.model@, false)
    }

    /// A store without rows.
    pub fn new() -> (r: PluginStore)
        ensures
            r@ == Map::<Seq<char>, Plugin>::empty(),
    {
        PluginStore { rows: Vec::new(), model: Ghost(Map::empty()) }
    }

    /// Takes the rows and their model out, leaving an empty store.
    fn take_rows(&mut self) -> (r: (Vec<Plugin>, Ghost<Rows>))
        ensures
            lists_rows(r.0@, r.1@, false),
            r.1@ == old(self)@,
    {
        proof {
            use_type_invariant(&*self);
        }
        let mut taken = PluginStore::new();
        std::mem::swap(self, &mut taken);
        proof {
            use_type_invariant(&taken);
        }
        let PluginStore { rows, model } = taken;
        (rows, model)
    }

    /// Sets the latest version of every row of catalog id `plugin_id`.
    fn update_plugin_version(&mut self, plugin_id: i32, latest_version: &String)
        ensures
            final(self)@ == set_latest_by_id(old(self)@, plugin_id, *latest_version),
    {
        let (mut rows, model) = self.take_rows();
        let ghost m = model@;
        let ghost r0 = rows@;
        let ghost mut m2 = m;
        let mut i: usize = 0;
        while i < rows.len()
            invariant
                lists_rows(r0, m, false),
                rows@.len() == r0.len(),
                i <= rows@.len(),
                forall|j: int| 0 <= j < r0.len() ==> (#[trigger] rows@[j]).name == r0[j].name,
                forall|j: int|
                    0 <= j < i ==> #[trigger] rows@[j] == (if r0[j].id == plugin_id {
                        with_latest(r0[j], *latest_version)
                    } else {
                        r0[j]
                    }),
                forall|j: int| i <= j < r0.len() ==> #[trigger] rows@[j] == r0[j],
                m2.dom() == m.dom(),
                forall|j: int| 0 <= j < r0.len() ==> m2[(#[trigger] rows@[j]).name@] == rows@[j],
            decreases rows.len() - i,
        {
            if rows[i].id == plugin_id {
                let mut row = rows[i].duplicate();
                row.latest_version = latest_version.clone();
                proof {
                    assert(m.contains_key(r0[i as int].name@));
                    m2 = m2.insert(row.name@, row);
                    assert forall|j: int| 0 <= j < r0.len() && j != i implies rows@[j].name@
                        != row.name@ by {
                        lemma_sorted_distinct(r0, i as int, j);
                    }
                }
                rows.set(i, row);
            }
            i = i + 1;
        }
        proof {
            assert(sorted_by_name(rows@)) by {
                assert forall|a: int, b: int| 0 <= a < b < rows@.len() implies text_less(
                    #[trigger] rows@[a].name@,
                    #[trigger] rows@[b].name@,
                ) by {
                    assert(text_less(r0[a].name@, r0[b].name@));
                }
            }
            assert forall|k: Seq<char>| m2.contains_key(k) implies exists|j: int|
                0 <= j < rows@.len() && #[trigger] rows@[j].name@ == k by {
                let j = choose|j: int| 0 <= j < r0.len() && #[trigger] r0[j].name@ == k;
                assert(rows@[j].name@ == k);
            }
            assert(m2 =~= set_latest_by_id(m, plugin_id, *latest_version)) by {
                assert forall|k: Seq<char>| #[trigger] m2.contains_key(k) implies m2[k]
                    == set_latest_by_id(m, plugin_id, *latest_version)[k] by {
                    let j = choose|j: int| 0 <= j < r0.len() && #[trigger] r0[j].name@ == k;
                    assert(rows@[j].name@ == k);
                }
            }
        }
        *self = PluginStore { rows, model: Ghost(m2) };
    }
}

impl PluginStore {
    /// A second store with the same rows.
    pub fn snapshot(&self) -> (r: PluginStore)
        ensures
            r@ == self@,
    {
        proof {
            use_type_invariant(self);
        }
        PluginStore { rows: copy_rows(&self.rows), model: Ghost(self.model@) }
    }

    /// Whether the store holds no rows.
    pub fn is_empty(&self) -> (r: bool)
        ensures
            r == (self@.dom() == Set::<Seq<char>>::empty()),
    {
        proof {
            use_type_invariant(self);
        }
        let r = self.rows.len() == 0;
        proof {
            if r {
                assert(self@.dom() =~= Set::<Seq<char>>::empty());
            } else {
                assert(self@.dom().contains(self.rows@[0].name@));
            }
        }
        r
    }
}

impl DatabaseHandler for PluginStore {
    fn insert_plugin(&mut self, plugin: &Plugin, installed: bool) {
        let mut row = plugin.duplicate();
        row.installed = installed;
        let (mut rows, model) = self.take_rows();
        let ghost m = model@;
        let ghost r0 = rows@;
        let ghost m2 = m.insert(plugin.name@, row);
        let (i, found) = position_of(&rows, plugin.name.as_str());
        if found {
            rows.set(i, row);
            proof {
                assert forall|a: int, b: int| 0 <= a < b < rows@.len() implies text_less(
                    #[trigger] rows@[a].name@,
                    #[trigger] rows@[b].name@,
                ) by {
                    assert(text_less(r0[a].name@, r0[b].name@));
                }
                assert forall|j: int| 0 <= j < rows@.len() implies m2.contains_key(
                    #[trigger] rows@[j].name@,
                ) && m2[rows@[j].name@] == rows@[j] by {
                    if j != i {
                        lemma_sorted_distinct(r0, i as int, j);
                    }
                }
                assert forall|k: Seq<char>| m2.contains_key(k) implies exists|j: int|
                    0 <= j < rows@.len() && #[trigger] rows@[j].name@ == k by {
                    if k == plugin.name@ {
                        assert(rows@[i as int].name@ == k);
                    } else {
                        let j = choose|j: int| 0 <= j < r0.len() && #[trigger] r0[j].name@ == k;
                        assert(rows@[j].name@ == k);
                    }
                }
            }
        } else {
            proof {
                lemma_absent(r0, m, i as int, plugin.name@);
                lemma_insert_sorted(r0, i as int, row);
            }
            rows.insert(i, row);
            proof {
                assert forall|j: int| 0 <= j < rows@.len() implies m2.contains_key(
                    #[trigger] rows@[j].name@,
                ) && m2[rows@[j].name@] == rows@[j] by {
                    if j < i {
                        assert(rows@[j] == r0[j]);
                    } else if j > i {
                        assert(rows@[j] == r0[j - 1]);
                    }
                }
                assert forall|k: Seq<char>| m2.contains_key(k) implies exists|j: int|
                    0 <= j < rows@.len() && #[trigger] rows@[j].name@ == k by {
                    if k == plugin.name@ {
                        assert(rows@[i as int].name@ == k);
                    } else {
                        let j = choose|j: int| 0 <= j < r0.len() && #[trigger] r0[j].name@ == k;
                        if j < i {
                            assert(rows@[j].name@ == k);
                        } else {
                            assert(rows@[j + 1].name@ == k);
                        }
                    }
                }
            }
        }
        *self = PluginStore { rows, model: Ghost(m2) };
    }

    fn sync_plugins(&mut self, plugins: &Vec<Plugin>) {
        if self.is_empty() {
            let mut i: usize = 0;
            proof {
                assert(plugins@.subrange(0, 0) =~= Seq::<Plugin>::empty());
            }
            while i < plugins.len()
                invariant
                    i <= plugins@.len(),
                    old(self)@.dom() == Set::<Seq<char>>::empty(),
                    self@ == insert_all(old(self)@, plugins@.subrange(0, i as int)),
                decreases plugins.len() - i,
            {
                self.insert_plugin(&plugins[i], false);
                proof {
                    assert(plugins@.subrange(0, i + 1).drop_last() =~= plugins@.subrange(
                        0,
                        i as int,
                    ));
                }
                i = i + 1;
            }
            proof {
                assert(plugins@.subrange(0, plugins@.len() as int) =~= plugins@);
            }
        } else {
            let snapshot = self.snapshot();
            let mut i: usize = 0;
            proof {
                assert(plugins@.subrange(0, 0) =~= Seq::<Plugin>::empty());
            }
            while i < plugins.len()
                invariant
                    i <= plugins@.len(),
                    old(self)@.dom() != Set::<Seq<char>>::empty(),
                    snapshot@ == old(self)@,
                    self@ == refresh_versions(
                        old(self)@,
                        old(self)@,
                        plugins@.subrange(0, i as int),
                    ),
                decreases plugins.len() - i,
            {
                let remote = &plugins[i];
                proof {
                    assert(plugins@.subrange(0, i + 1).drop_last() =~= plugins@.subrange(
                        0,
                        i as int,
                    ));
                }
                match snapshot.get_plugin(remote.name.as_str()) {
                    Some(local) => {
                        if !(local.latest_version == remote.latest_version) {
                            self.update_plugin_version(remote.id, &remote.latest_version);
                        }
                    },
                    None => {},
                }
                i = i + 1;
            }
            proof {
                assert(plugins@.subrange(0, plugins@.len() as int) =~= plugins@);
            }
        }
    }

    fn mark_as_installed(&mut self, plugin_id: i32, version: &str) {
        let (mut rows, model) = self.take_rows();
        let ghost m = model@;
        let ghost r0 = rows@;
        let ghost mut m2 = m;
        let mut i: usize = 0;
        while i < rows.len()
            invariant
                lists_rows(r0, m, false),
                rows@.len() == r0.len(),
                i <= rows@.len(),
                forall|j: int| 0 <= j < r0.len() ==> (#[trigger] rows@[j]).name == r0[j].name,
                forall|j: int|
                    0 <= j < i ==> if r0[j].id == plugin_id {
                        #[trigger] rows@[j] == Plugin {
                            installed: true,
                            current_version: rows@[j].current_version,
                            ..r0[j]
                        } && rows@[j].current_version@ == version@
                    } else {
                        rows@[j] == r0[j]
                    },
                forall|j: int| i <= j < r0.len() ==> #[trigger] rows@[j] == r0[j],
                m2.dom() == m.dom(),
                forall|j: int| 0 <= j < r0.len() ==> m2[(#[trigger] rows@[j]).name@] == rows@[j],
            decreases rows.len() - i,
        {
            if rows[i].id == plugin_id {
                let mut row = rows[i].duplicate();
                row.installed = true;
                row.current_version = String::from_str(version);
                proof {
                    assert(m.contains_key(r0[i as int].name@));
                    m2 = m2.insert(row.name@, row);
                    assert forall|j: int| 0 <= j < r0.len() && j != i implies rows@[j].name@
                        != row.name@ by {
                        lemma_sorted_distinct(r0, i as int, j);
                    }
                }
                rows.set(i, row);
            }
            i = i + 1;
        }
        proof {
            assert(sorted_by_name(rows@)) by {
                assert forall|a: int, b: int| 0 <= a < b < rows@.len() implies text_less(
                    #[trigger] rows@[a].name@,
                    #[trigger] rows@[b].name@,
                ) by {
                    assert(text_less(r0[a].name@, r0[b].name@));
                }
            }
            assert forall|k: Seq<char>| m2.contains_key(k) implies exists|j: int|
                0 <= j < rows@.len() && #[trigger] rows@[j].name@ == k by {
                let j = choose|j: int| 0 <= j < r0.len() && #[trigger] r0[j].name@ == k;
                assert(rows@[j].name@ == k);
            }
            assert forall|k: Seq<char>| #[trigger] m.contains_key(k) implies (if m[k].id
                == plugin_id {
                m2[k] == Plugin { installed: true, current_version: m2[k].current_version, ..m[k] }
                    && m2[k].current_version@ == version@
            } else {
                m2[k] == m[k]
            }) by {
                let j = choose|j: int| 0 <= j < r0.len() && #[trigger] r0[j].name@ == k;
                assert(rows@[j].name@ == k);
            }
        }
        *self = PluginStore { rows, model: Ghost(m2) };
    }

    fn delete_plugin(&mut self, name: &str) {
        let (mut rows, model) = self.take_rows();
        let ghost m = model@;
        let ghost r0 = rows@;
        let ghost m2 = m.remove(name@);
        let (i, found) = position_of(&rows, name);
        if found {
            rows.remove(i);
            proof {
                assert forall|a: int, b: int| 0 <= a < b < rows@.len() implies text_less(
                    #[trigger] rows@[a].name@,
                    #[trigger] rows@[b].name@,
                ) by {
                    if b < i {
                        assert(text_less(r0[a].name@, r0[b].name@));
                    } else if a < i {
                        assert(text_less(r0[a].name@, r0[b + 1].name@));
                    } else {
                        assert(text_less(r0[a + 1].name@, r0[b + 1].name@));
                    }
                }
                assert forall|j: int| 0 <= j < rows@.len() implies m2.contains_key(
                    #[trigger] rows@[j].name@,
                ) && m2[rows@[j].name@] == rows@[j] by {
                    if j < i {
                        lemma_sorted_distinct(r0, i as int, j);
                    } else {
                        lemma_sorted_distinct(r0, i as int, j + 1);
                    }
                }
                assert forall|k: Seq<char>| m2.contains_key(k) implies exists|j: int|
                    0 <= j < rows@.len() && #[trigger] rows@[j].name@ == k by {
                    let j = choose|j: int| 0 <= j < r0.len() && #[trigger] r0[j].name@ == k;
                    if j < i {
                        assert(rows@[j].name@ == k);
                    } else {
                        assert(rows@[j - 1].name@ == k);
                    }
                }
            }
        } else {
            proof {
                lemma_absent(r0, m, i as int, name@);
                assert(m2 =~= m);
            }
        }
        *self = PluginStore { rows, model: Ghost(m2) };
    }

    fn get_installed_plugins(&self) -> (r: Vec<Plugin>) {
        proof {
            use_type_invariant(self);
        }
        let mut r: Vec<Plugin> = Vec::new();
        let mut i: usize = 0;
        while i < self.rows.len()
            invariant
                lists_rows(self.rows@, self.model@, false),
                i <= self.rows@.len(),
                sorted_by_name(r@),
                forall|x: int|
                    0 <= x < r@.len() ==> self.model@.contains_key(#[trigger] r@[x].name@)
                        && self.model@[r@[x].name@] == r@[x] && r@[x].installed,
                forall|x: int, j: int|
                    0 <= x < r@.len() && i <= j < self.rows@.len() ==> text_less(
                        #[trigger] r@[x].name@,
                        #[trigger] self.rows@[j].name@,
                    ),
                forall|j: int|
                    0 <= j < i && (#[trigger] self.rows@[j]).installed ==> exists|x: int|
                        0 <= x < r@.len() && #[trigger] r@[x].name@ == self.rows@[j].name@,
            decreases self.rows.len() - i,
        {
            if self.rows[i].installed {
                let ghost before = r@;
                r.push(self.rows[i].duplicate());
                proof {
                    assert forall|x: int, j: int|
                        0 <= x < r@.len() && i + 1 <= j < self.rows@.len() implies text_less(
                        #[trigger] r@[x].name@,
                        #[trigger] self.rows@[j].name@,
                    ) by {
                        if x == before.len() {
                            assert(text_less(self.rows@[i as int].name@, self.rows@[j].name@));
                        } else {
                            assert(r@[x] == before[x]);
                        }
                    }
                    assert forall|j: int|
                        0 <= j < i + 1 && (#[trigger] self.rows@[j]).installed implies exists|
                        x: int,
                    | 0 <= x < r@.len() && #[trigger] r@[x].name@ == self.rows@[j].name@ by {
                        if j == i {
                            assert(r@[before.len() as int].name@ == self.rows@[j].name@);
                        } else {
                            let x = choose|x: int|
                                0 <= x < before.len() && #[trigger] before[x].name@
                                    == self.rows@[j].name@;
                            assert(r@[x] == before[x]);
                        }
                    }
                }
            }
            i = i + 1;
        }
        proof {
            assert forall|k: Seq<char>|
                self.model@.contains_key(k) && self.model@[k].installed implies exists|x: int|
                0 <= x < r@.len() && #[trigger] r@[x].name@ == k by {
                let j = choose|j: int| 0 <= j < self.rows@.len() && #[trigger] self.rows@[j].name@ == k;
                assert(self.rows@[j].installed);
            }
        }
        r
    }

    fn get_plugins(&self) -> (r: Vec<Plugin>) {
        proof {
            use_type_invariant(self);
        }
        copy_rows(&self.rows)
    }

    fn get_plugin(&self, name: &str) -> (r: Option<Plugin>) {
        proof {
            use_type_invariant(self);
        }
        let (i, found) = position_of(&self.rows, name);
        if found {
            Some(self.rows[i].duplicate())
        } else {
            proof {
                lemma_absent(self.rows@, self.model@, i as int, name@);
            }
            None
        }
    }
}

/// Upserting the same add-on twice leaves the rows as upserting it once.
pub proof fn law_insert_idempotent(m: Rows, plugin: Plugin, installed: bool)
    ensures
        m.insert(plugin.name@, with_installed(plugin, installed)).insert(
            plugin.name@,
            with_installed(plugin, installed),
        ) == m.insert(plugin.name@, with_installed(plugin, installed)),
{
    assert(m.insert(plugin.name@, with_installed(plugin, installed)).insert(
        plugin.name@,
        with_installed(plugin, installed),
    ) =~= m.insert(plugin.name@, with_installed(plugin, installed)));
}

/// Reconciling an empty store gives a row to every remote entry's name and
/// to no other, none of them installed; the row of an entry whose name no
/// later entry repeats is that entry, as not installed.
pub proof fn law_sync_on_empty_inserts_all(remote: Seq<Plugin>)
    ensures
        forall|k: Seq<char>|
            #[trigger] synced(Map::empty(), remote).contains_key(k) <==> exists|i: int|
                0 <= i < remote.len() && #[trigger] remote[i].name@ == k,
        forall|i: int|
            0 <= i < remote.len() ==> !synced(Map::empty(), remote)[#[trigger] remote[i].name@].installed,
        forall|i: int|
            0 <= i < remote.len() && (forall|j: int|
                i < j < remote.len() ==> #[trigger] remote[j].name@ != remote[i].name@)
                ==> synced(Map::empty(), remote)[#[trigger] remote[i].name@] == with_installed(
                remote[i],
                false,
            ),
    decreases remote.len(),
{
    let e = Map::<Seq<char>, Plugin>::empty();
    assert(e.dom() =~= Set::<Seq<char>>::empty());
    if remote.len() > 0 {
        let rest = remote.drop_last();
        law_sync_on_empty_inserts_all(rest);
        let m = synced(e, remote);
        let before = synced(e, rest);
        assert(m == before.insert(remote.last().name@, with_installed(remote.last(), false)));
        assert forall|k: Seq<char>| #[trigger] m.contains_key(k) implies exists|i: int|
            0 <= i < remote.len() && #[trigger] remote[i].name@ == k by {
            if k != remote.last().name@ {
                let i = choose|i: int| 0 <= i < rest.len() && #[trigger] rest[i].name@ == k;
                assert(remote[i] == rest[i]);
            } else {
                assert(remote[remote.len() - 1].name@ == k);
            }
        }
        assert forall|k: Seq<char>|
            (exists|i: int| 0 <= i < remote.len() && #[trigger] remote[i].name@ == k)
                implies #[trigger] m.contains_key(k) by {
            let i = choose|i: int| 0 <= i < remote.len() && #[trigger] remote[i].name@ == k;
            if i < rest.len() {
                assert(rest[i] == remote[i]);
                assert(before.contains_key(rest[i].name@));
            }
        }
        assert forall|i: int| 0 <= i < remote.len() implies !m[#[trigger] remote[i].name@].installed by {
            if i < rest.len() && remote[i].name@ != remote.last().name@ {
                assert(rest[i] == remote[i]);
            }
        }
        assert forall|i: int|
            0 <= i < remote.len() && (forall|j: int|
                i < j < remote.len() ==> #[trigger] remote[j].name@ != remote[i].name@)
                implies m[#[trigger] remote[i].name@] == with_installed(remote[i], false) by {
            if i < rest.len() {
                assert(rest[i] == remote[i]);
                assert(remote[remote.len() - 1].name@ != remote[i].name@);
                assert forall|j: int| i < j < rest.len() implies #[trigger] rest[j].name@
                    != rest[i].name@ by {
                    assert(rest[j] == remote[j]);
                }
            }
        }
    }
}

/// After removing a name, looking it up finds nothing.
pub proof fn law_delete_then_get_is_absent(m: Rows, name: Seq<char>)
    ensures
        !m.remove(name).contains_key(name),
{
}

} // verus!
