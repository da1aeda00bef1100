//! Rows and messages of the catalog list that presents the stored add-ons.
use crate::order::{lemma_text_less_irreflexive, lemma_text_less_transitive, name_less, text_less};
use crate::plugin::Plugin;
use crate::store::{lists_rows, DatabaseHandler, PluginStore, Rows};
use crate::text::{contains_seq, contains_text};
use vstd::prelude::*;
use vstd::seq_lib::*;
use vstd::string::*;

verus! {

/// The character of a decimal digit.
pub open spec fn digit_char(d: nat) -> char {
    if d == 0 {
        '0'
    } else if d == 1 {
        '1'
    } else if d == 2 {
        '2'
    } else if d == 3 {
        '3'
    } else if d == 4 {
        '4'
    } else if d == 5 {
        '5'
    } else if d == 6 {
        '6'
    } else if d == 7 {
        '7'
    } else if d == 8 {
        '8'
    } else {
        '9'
    }
}

/// Decimal digits of `n`, most significant first, without leading zeros.
pub open spec fn digits_of(n: nat) -> Seq<char>
    decreases n,
{
    if n < 10 {
        seq![digit_char(n)]
    } else {
        digits_of(n / 10) + seq![digit_char(n % 10)]
    }
}

/// Decimal text of `n`, with a leading `-` when it is negative.
pub open spec fn decimal_text(n: int) -> Seq<char> {
    if n < 0 {
        seq!['-'] + digits_of((-n) as nat)
    } else {
        digits_of(n as nat)
    }
}

/// Relies on `i32`'s `ToString` (through `Display`): the shortest decimal
/// form, with a minus sign for negative numbers.
#[verifier::external_body]
fn decimal(n: i32) -> (r: String)
    ensures
        r@ == decimal_text(n as int),
{
    n.to_string()
}

/// Where the download of the catalog entry `id` lies.
pub open spec fn download_url_of(id: i32) -> Seq<char> {
    "http://www.lotrointerface.com/downloads/download"@ + decimal_text(id as int)
}

/// One add-on as the catalog lists it.
#[derive(Clone, Debug)]
pub struct PluginRow {
    pub id: i32,
    pub title: String,
    pub current_version: String,
    pub latest_version: String,
    pub status: String,
    pub download_url: String,
}

/// What a row reports when it is used.
#[derive(Clone, Debug)]
pub enum RowMessage {
    InstallPressed(PluginRow),
    WebsitePressed(PluginRow),
    NoEvent,
}

/// What the catalog reacts to.
#[derive(Clone, Debug)]
pub enum Message {
    CatalogInputChanged(String),
    Catalog(usize, RowMessage),
    LoadPlugins,
    RetryPressed,
}

/// What a row offers for its add-on.
#[derive(Clone, Copy, Debug, PartialEq, Eq, Structural)]
pub enum RowAction {
    Install,
    Installed,
    Update,
}

impl PluginRow {
    /// A row for the catalog entry `id`, offering its installation, with the
    /// download address derived from the id.
    pub fn new(id: i32, title: &str, current_version: &str, latest_version: &str) -> (r: PluginRow)
        ensures
            r.id == id,
            r.title@ == title@,
            r.current_version@ == current_version@,
            r.latest_version@ == latest_version@,
            r.status@ == "Install"@,
            r.download_url@ == download_url_of(id),
    {
        let base_url = String::from_str("http://www.lotrointerface.com/downloads/download");
        let number = decimal(id);
        PluginRow {
            id,
            title: String::from_str(title),
            current_version: String::from_str(current_version),
            latest_version: String::from_str(latest_version),
            status: String::from_str("Install"),
            download_url: base_url.concat(number.as_str()),
        }
    }

    /// Install when no version is present, installed when the present
    /// version is the latest, update otherwise.
    pub fn action(&self) -> (r: RowAction)
        ensures
            r == (if self.current_version@.len() == 0 {
                RowAction::Install
            } else if self.current_version@ == self.latest_version@ {
                RowAction::Installed
            } else {
                RowAction::Update
            }),
    {
        if self.current_version.as_str().unicode_len() == 0 {
            RowAction::Install
        } else if self.current_version == self.latest_version {
            RowAction::Installed
        } else {
            RowAction::Update
        }
    }
}

impl PluginRow {
    /// A copy of this row, equal to it in every field.
    pub fn duplicate(&self) -> (r: PluginRow)
        ensures
            r == *self,
    {
        PluginRow {
            id: self.id,
            title: self.title.clone(),
            current_version: self.current_version.clone(),
            latest_version: self.latest_version.clone(),
            status: self.status.clone(),
            download_url: self.download_url.clone(),
        }
    }
}

/// Lower-case form of a text, as `str::to_lowercase` gives it.
pub uninterp spec fn lower_of(s: Seq<char>) -> Seq<char>;

/// Relies on `str::to_lowercase`: the result depends on the characters alone.
#[verifier::external_body]
fn lowercase(s: &str) -> (r: String)
    ensures
        r@ == lower_of(s@),
{
    s.to_lowercase()
}

/// Keys never descend along `keys`.
pub open spec fn keys_ordered(keys: Seq<String>) -> bool {
    forall|i: int, j: int|
        0 <= i < j < keys.len() ==> !text_less(#[trigger] keys[j]@, #[trigger] keys[i]@)
}

/// `p` is where `key` goes among ordered `keys` so that equal keys keep
/// their order of arrival: after every key that is not greater.
pub open spec fn arrival_place(keys: Seq<String>, key: Seq<char>, p: int) -> bool {
    &&& 0 <= p <= keys.len()
    &&& forall|q: int| 0 <= q < p ==> !text_less(key, #[trigger] keys[q]@)
    &&& p < keys.len() ==> text_less(key, keys[p]@)
}

/// Where `key` goes among ordered `keys`.
fn arrival_index(keys: &Vec<String>, key: &str) -> (p: usize)
    ensures
        arrival_place(keys@, key@, p as int),
{
    let mut p: usize = 0;
    while p < keys.len()
        invariant
            p <= keys@.len(),
            forall|q: int| 0 <= q < p ==> !text_less(key@, #[trigger] keys@[q]@),
        decreases keys.len() - p,
    {
        if name_less(key, keys[p].as_str()) {
            return p;
        }
        p = p + 1;
    }
    p
}

/// Inserts `row` under `key` into rows kept in key order (`keys[i]` is the
/// key of `rows[i]`), after the rows whose keys are not greater.
pub fn insert_by_key(rows: &mut Vec<PluginRow>, keys: &mut Vec<String>, row: PluginRow, key: String)
    requires
        old(rows)@.len() == old(keys)@.len(),
        keys_ordered(old(keys)@),
    ensures
        final(rows)@.len() == final(keys)@.len(),
        keys_ordered(final(keys)@),
        exists|p: int|
            arrival_place(old(keys)@, key@, p) && final(rows)@ == old(rows)@.insert(p, row)
                && final(keys)@ == old(keys)@.insert(p, key),
{
    let ghost k0 = keys@;
    let ghost r0 = rows@;
    let p = arrival_index(keys, key.as_str());
    proof {
        let k1 = k0.insert(p as int, key);
        assert forall|a: int, b: int| 0 <= a < b < k1.len() implies !text_less(
            #[trigger] k1[b]@,
            #[trigger] k1[a]@,
        ) by {
            if b < p {
                assert(!text_less(k0[b]@, k0[a]@));
            } else if a < p && b == p {
            } else if a < p {
                assert(!text_less(k0[b - 1]@, k0[a]@));
            } else if a == p {
                if text_less(k0[b - 1]@, key@) {
                    lemma_text_less_irreflexive(key@);
                    if b - 1 == p {
                        lemma_text_less_transitive(key@, k0[p as int]@, key@);
                    } else {
                        lemma_text_less_transitive(k0[b - 1]@, key@, k0[p as int]@);
                        assert(!text_less(k0[b - 1]@, k0[p as int]@));
                    }
                }
            } else {
                assert(!text_less(k0[b - 1]@, k0[a - 1]@));
            }
        }
    }
    rows.insert(p, row);
    keys.insert(p, key);
    proof {
        assert(arrival_place(k0, key@, p as int) && rows@ == r0.insert(p as int, row) && keys@
            == k0.insert(p as int, key));
    }
}

/// The row of an add-on as the catalog first shows it.
pub open spec fn row_of(p: Plugin) -> (i32, Seq<char>, Seq<char>, Seq<char>, Seq<char>, Seq<char>) {
    (p.id, p.name@, p.current_version@, p.latest_version@, "Install"@, download_url_of(p.id))
}

/// The texts and id of a row.
pub open spec fn row_view(r: PluginRow) -> (i32, Seq<char>, Seq<char>, Seq<char>, Seq<char>, Seq<char>) {
    (r.id, r.title@, r.current_version@, r.latest_version@, r.status@, r.download_url@)
}

/// Titles never descend along `rows`, compared in lower case.
pub open spec fn ordered_by_title(rows: Seq<PluginRow>) -> bool {
    forall|i: int, j: int|
        0 <= i < j < rows.len() ==> !text_less(
            lower_of(#[trigger] rows[j].title@),
            lower_of(#[trigger] rows[i].title@),
        )
}

/// A row whose lower-case title holds the lower-case query.
pub open spec fn matches_query(row: PluginRow, query: Seq<char>) -> bool {
    contains_seq(lower_of(row.title@), lower_of(query))
}

/// Pairs each row with its lower-case title.
proof fn lemma_keys_order_rows(rows: Seq<PluginRow>, keys: Seq<String>)
    requires
        rows.len() == keys.len(),
        keys_ordered(keys),
        forall|i: int| 0 <= i < keys.len() ==> #[trigger] keys[i]@ == lower_of(rows[i].title@),
    ensures
        ordered_by_title(rows),
{
    assert forall|i: int, j: int| 0 <= i < j < rows.len() implies !text_less(
        lower_of(#[trigger] rows[j].title@),
        lower_of(#[trigger] rows[i].title@),
    ) by {
        assert(!text_less(keys[j]@, keys[i]@));
    }
}

/// One catalog row per add-on, ordered by title in lower case; add-ons of
/// equal lower-case title keep their order.
pub fn map_plugins_to_rows(plugins: &Vec<Plugin>) -> (r: Vec<PluginRow>)
    ensures
        ordered_by_title(r@),
        r@.map_values(|x: PluginRow| row_view(x)).to_multiset() == plugins@.map_values(
            |p: Plugin| row_of(p),
        ).to_multiset(),
{
    broadcast use group_to_multiset_ensures;

    let mut rows: Vec<PluginRow> = Vec::new();
    let mut keys: Vec<String> = Vec::new();
    let mut i: usize = 0;
    while i < plugins.len()
        invariant
            i <= plugins@.len(),
            rows@.len() == keys@.len(),
            keys_ordered(keys@),
            forall|q: int| 0 <= q < keys@.len() ==> #[trigger] keys@[q]@ == lower_of(rows@[q].title@),
            rows@.map_values(|x: PluginRow| row_view(x)).to_multiset() == plugins@.subrange(
                0,
                i as int,
            ).map_values(|p: Plugin| row_of(p)).to_multiset(),
        decreases plugins.len() - i,
    {
        let p = &plugins[i];
        let row = PluginRow::new(p.id, p.name.as_str(), p.current_version.as_str(), p.latest_version.as_str());
        let key = lowercase(row.title.as_str());
        let ghost r0 = rows@;
        let ghost k0 = keys@;
        insert_by_key(&mut rows, &mut keys, row, key);
        proof {
            let at = choose|at: int|
                arrival_place(k0, key@, at) && rows@ == r0.insert(at, row) && keys@ == k0.insert(at, key);
            assert(rows@.map_values(|x: PluginRow| row_view(x)) =~= r0.map_values(
                |x: PluginRow| row_view(x),
            ).insert(at, row_view(row)));
            to_multiset_insert(r0.map_values(|x: PluginRow| row_view(x)), at, row_view(row));
            assert(row_view(row) == row_of(plugins@[i as int]));
            let before = plugins@.subrange(0, i as int).map_values(|p: Plugin| row_of(p));
            assert(plugins@.subrange(0, i + 1).map_values(|p: Plugin| row_of(p)) =~= before.push(
                row_of(plugins@[i as int]),
            ));
            to_multiset_build(before, row_of(plugins@[i as int]));
            assert(plugins@.subrange(0, i + 1).map_values(|p: Plugin| row_of(p)).to_multiset()
                == before.to_multiset().insert(row_of(plugins@[i as int])));
            assert(rows@.map_values(|x: PluginRow| row_view(x)).to_multiset() == r0.map_values(
                |x: PluginRow| row_view(x),
            ).to_multiset().insert(row_view(row)));
            assert(plugins@.subrange(0, i + 1).map_values(|p: Plugin| row_of(p)) =~= plugins@.subrange(
                0,
                i as int,
            ).map_values(|p: Plugin| row_of(p)).push(row_of(plugins@[i as int])));
            assert forall|q: int| 0 <= q < keys@.len() implies #[trigger] keys@[q]@ == lower_of(
                rows@[q].title@,
            ) by {
                if q < at {
                } else if q > at {
                    assert(keys@[q] == k0[q - 1] && rows@[q] == r0[q - 1]);
                }
            }
        }
        i = i + 1;
    }
    proof {
        assert(plugins@.subrange(0, plugins@.len() as int) =~= plugins@);
        lemma_keys_order_rows(rows@, keys@);
    }
    rows
}

/// The rows of `base` whose lower-case title holds the lower-case `query`,
/// ordered by title in lower case; rows of equal lower-case title keep their
/// order.
pub fn filter_rows(base: &Vec<PluginRow>, query: &str) -> (r: Vec<PluginRow>)
    ensures
        ordered_by_title(r@),
        r@.to_multiset() == base@.filter(|row: PluginRow| matches_query(row, query@)).to_multiset(),
{
    broadcast use group_to_multiset_ensures;

    let folded_query = lowercase(query);
    let mut rows: Vec<PluginRow> = Vec::new();
    let mut keys: Vec<String> = Vec::new();
    let mut i: usize = 0;
    proof {
        assert(base@.subrange(0, 0) =~= Seq::<PluginRow>::empty());
        assert(Seq::<PluginRow>::empty().filter(|row: PluginRow| matches_query(row, query@))
            =~= Seq::<PluginRow>::empty()) by {
            reveal(Seq::filter);
        }
    }
    while i < base.len()
        invariant
            i <= base@.len(),
            folded_query@ == lower_of(query@),
            rows@.len() == keys@.len(),
            keys_ordered(keys@),
            forall|q: int| 0 <= q < keys@.len() ==> #[trigger] keys@[q]@ == lower_of(rows@[q].title@),
            rows@.to_multiset() == base@.subrange(0, i as int).filter(
                |row: PluginRow| matches_query(row, query@),
            ).to_multiset(),
        decreases base.len() - i,
    {
        let key = lowercase(base[i].title.as_str());
        proof {
            assert(base@.subrange(0, i + 1) =~= base@.subrange(0, i as int).push(base@[i as int]));
            base@.subrange(0, i as int).lemma_filter_push(
                base@[i as int],
                |row: PluginRow| matches_query(row, query@),
            );
        }
        if contains_text(key.as_str(), folded_query.as_str()) {
            let row = base[i].duplicate();
            let ghost r0 = rows@;
            let ghost k0 = keys@;
            insert_by_key(&mut rows, &mut keys, row, key);
            proof {
                let at = choose|at: int|
                    arrival_place(k0, key@, at) && rows@ == r0.insert(at, row) && keys@ == k0.insert(at, key);
                to_multiset_insert(r0, at, row);
                assert(matches_query(base@[i as int], query@));
                assert(rows@.to_multiset() == r0.to_multiset().insert(base@[i as int]));
                assert(base@.subrange(0, i + 1).filter(|row: PluginRow| matches_query(row, query@))
                    == base@.subrange(0, i as int).filter(
                    |row: PluginRow| matches_query(row, query@),
                ).push(base@[i as int]));
                to_multiset_build(
                    base@.subrange(0, i as int).filter(|row: PluginRow| matches_query(row, query@)),
                    base@[i as int],
                );
                assert forall|q: int| 0 <= q < keys@.len() implies #[trigger] keys@[q]@ == lower_of(
                    rows@[q].title@,
                ) by {
                    if q < at {
                    } else if q > at {
                        assert(keys@[q] == k0[q - 1] && rows@[q] == r0[q - 1]);
                    }
                }
            }
        } else {
            proof {
                assert(!matches_query(base@[i as int], query@));
                assert(base@.subrange(0, i + 1).filter(|row: PluginRow| matches_query(row, query@))
                    == base@.subrange(0, i as int).filter(
                    |row: PluginRow| matches_query(row, query@),
                ));
            }
        }
        i = i + 1;
    }
    proof {
        assert(base@.subrange(0, base@.len() as int) =~= base@);
        lemma_keys_order_rows(rows@, keys@);
    }
    rows
}

/// A copy of a list of rows, equal to it element by element.
fn copy_row_list(v: &Vec<PluginRow>) -> (r: Vec<PluginRow>)
    ensures
        r@ == v@,
{
    let mut r: Vec<PluginRow> = Vec::new();
    let mut i: usize = 0;
    while i < v.len()
        invariant
            i <= v@.len(),
            r@ == v@.subrange(0, i as int),
        decreases v.len() - i,
    {
        r.push(v[i].duplicate());
        proof {
            assert(r@ =~= v@.subrange(0, i + 1));
        }
        i = i + 1;
    }
    proof {
        assert(v@.subrange(0, v@.len() as int) =~= v@);
    }
    r
}

/// How an installation that a row asked for ended.
#[derive(Clone, Copy, Debug, PartialEq, Eq, Structural)]
pub enum InstallOutcome {
    DownloadFailed,
    InstallFailed,
    Installed,
}

impl PluginRow {
    /// Records how the installation of this row's add-on at `version` ended:
    /// a success sets the status to installed and the current version to
    /// `version`; a failure only sets the status.
    pub fn record_install(&mut self, outcome: InstallOutcome, version: &str)
        ensures
            final(self).id == old(self).id,
            final(self).title == old(self).title,
            final(self).latest_version == old(self).latest_version,
            final(self).download_url == old(self).download_url,
            outcome == InstallOutcome::Installed ==> final(self).status@ == "Installed"@
                && final(self).current_version@ == version@,
            outcome == InstallOutcome::InstallFailed ==> final(self).status@
                == "Installation failed"@ && final(self).current_version
                == old(self).current_version,
            outcome == InstallOutcome::DownloadFailed ==> final(self).status@ == "Download failed"@
                && final(self).current_version == old(self).current_version,
    {
        match outcome {
            InstallOutcome::Installed => {
                self.status = String::from_str("Installed");
                self.current_version = String::from_str(version);
            },
            InstallOutcome::InstallFailed => {
                self.status = String::from_str("Installation failed");
            },
            InstallOutcome::DownloadFailed => {
                self.status = String::from_str("Download failed");
            },
        }
    }
}

/// What the catalog shows: the search text, every row, and the rows that
/// match the search.
pub struct State {
    pub input_value: String,
    pub base_plugins: Vec<PluginRow>,
    pub plugins: Vec<PluginRow>,
}

/// The catalog, with or without a connection to the remote catalog.
pub enum Catalog {
    Loaded(State),
    NoInternet(State),
}

/// After the search text became `l`: the rows of `s` that match it, in title
/// order, are shown, and every row is kept.
pub open spec fn after_search(s: State, l: String, t: Catalog) -> bool {
    &&& t matches Catalog::Loaded(u)
    &&& u.input_value == l
    &&& u.base_plugins@ == s.base_plugins@
    &&& ordered_by_title(u.plugins@)
    &&& u.plugins@.to_multiset() == s.base_plugins@.filter(
        |row: PluginRow| matches_query(row, l@),
    ).to_multiset()
}

/// After loading from a store of rows `m`: one row per stored add-on, in
/// title order, all shown, and the search text kept.
pub open spec fn after_load(s: State, m: Rows, t: Catalog) -> bool {
    &&& t matches Catalog::Loaded(u)
    &&& u.input_value == s.input_value
    &&& u.plugins@ == u.base_plugins@
    &&& ordered_by_title(u.base_plugins@)
    &&& exists|listed: Seq<Plugin>|
        lists_rows(listed, m, false) && u.base_plugins@.map_values(|x: PluginRow| row_view(x)).to_multiset()
            == listed.map_values(|p: Plugin| row_of(p)).to_multiset()
}

impl Catalog {
    /// A loaded catalog without rows and with an empty search.
    pub fn new() -> (r: Catalog)
        ensures
            r matches Catalog::Loaded(s) && s.input_value@.len() == 0 && s.base_plugins@.len()
                == 0 && s.plugins@.len() == 0,
    {
        Catalog::Loaded(State { input_value: String::new(), base_plugins: Vec::new(), plugins: Vec::new() })
    }

    /// Reacts to `message`. A changed search keeps the rows that match it,
    /// in title order; loading lists every row of `store`, in title order, and
    /// shows them all; a row's message is handed back, with its index, for
    /// the caller to carry out when the index names a shown row. Nothing else
    /// changes the catalog.
    pub fn update(&mut self, message: Message, store: &PluginStore) -> (r: Option<(usize, RowMessage)>)
        ensures
            *old(self) is NoInternet ==> *final(self) == *old(self) && r is None,
            *old(self) is Loaded && message is RetryPressed ==> *final(self) == *old(self) && r is None,
            message matches Message::CatalogInputChanged(l) ==> (*old(self) matches Catalog::Loaded(
                s,
            ) ==> r is None && after_search(s, l, *final(self))),
            message is LoadPlugins ==> (*old(self) matches Catalog::Loaded(s) ==> r is None
                && after_load(s, store@, *final(self))),
            message matches Message::Catalog(i, m) ==> (*old(self) matches Catalog::Loaded(s)
                ==> *final(self) == *old(self) && r == (if i < s.plugins@.len() {
                Some((i, m))
            } else {
                None
            })),
    {
        let next = match &*self {
            Catalog::NoInternet(_) => {
                return None;
            },
            Catalog::Loaded(state) => {
                match message {
                    Message::CatalogInputChanged(letter) => {
                        let plugins = filter_rows(&state.base_plugins, letter.as_str());
                        let base_plugins = copy_row_list(&state.base_plugins);
                        State { input_value: letter, base_plugins, plugins }
                    },
                    Message::LoadPlugins => {
                        let listed = store.get_plugins();
                        let rows = map_plugins_to_rows(&listed);
                        let plugins = copy_row_list(&rows);
                        let input_value = state.input_value.clone();
                        State { input_value, base_plugins: rows, plugins }
                    },
                    Message::Catalog(index, msg) => {
                        if index < state.plugins.len() {
                            return Some((index, msg));
                        } else {
                            return None;
                        }
                    },
                    Message::RetryPressed => {
                        return None;
                    },
                }
            },
        };
        *self = Catalog::Loaded(next);
        None
    }
}

} // verus!
