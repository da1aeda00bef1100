//! Resolution of a primary descriptor record into a [`Plugin`], including the
//! location of its companion file. Paths are `/`-separated strings.
use crate::plugin::{copy_opt_text, Plugin};
use crate::text::{
    contains_seq, contains_text, count_char, count_occurrences, last_index_of,
    lemma_count_positive_has_last, prefix_to, start_after_last, suffix_from,
};
use vstd::prelude::*;
use vstd::string::*;

verus! {

/// How the segments of a descriptor reference are delimited.
#[derive(Debug, Clone, Copy, PartialEq, Eq, Structural)]
pub enum Separator {
    Dot,
    Backslash,
}

/// Backslash wins whenever it occurs at least as often as the dot.
pub open spec fn separator_of(descriptor: Seq<char>) -> Separator {
    if count_char(descriptor, '\\') >= count_char(descriptor, '.') {
        Separator::Backslash
    } else {
        Separator::Dot
    }
}

/// The last component of a path.
pub open spec fn file_name_of(path: Seq<char>) -> Seq<char> {
    path.subrange(last_index_of(path, '/') + 1, path.len() as int)
}

/// Everything of a path up to and including its last `/`.
pub open spec fn dir_prefix(path: Seq<char>) -> Seq<char> {
    path.subrange(0, last_index_of(path, '/') + 1)
}

/// A file name without its extension; a name whose only dot leads it keeps it.
pub open spec fn stem_of(name: Seq<char>) -> Seq<char> {
    if last_index_of(name, '.') > 0 {
        name.subrange(0, last_index_of(name, '.'))
    } else {
        name
    }
}

/// Name of the companion file that belongs to the primary file at `path`.
pub open spec fn companion_file_name(path: Seq<char>) -> Seq<char> {
    stem_of(file_name_of(path)) + ".plugin"@
}

/// File name that a descriptor reference points at: its last two
/// dot-separated segments, or its last backslash-separated segment.
pub open spec fn referenced_file_name(descriptor: Seq<char>) -> Seq<char> {
    match separator_of(descriptor) {
        Separator::Dot => {
            let i = last_index_of(descriptor, '.');
            let j = last_index_of(descriptor.subrange(0, i), '.');
            descriptor.subrange(j + 1, descriptor.len() as int)
        },
        Separator::Backslash => descriptor.subrange(
            last_index_of(descriptor, '\\') + 1,
            descriptor.len() as int,
        ),
    }
}

/// Companion path: the referenced file, in the primary file's directory.
pub open spec fn companion_path(path: Seq<char>, descriptor: Seq<char>) -> Seq<char> {
    dir_prefix(path) + referenced_file_name(descriptor)
}

/// The first descriptor reference that mentions `file_name`, or the empty
/// sequence when none does.
pub open spec fn first_candidate(descriptors: Seq<String>, file_name: Seq<char>) -> Seq<char>
    decreases descriptors.len(),
{
    if descriptors.len() == 0 {
        Seq::empty()
    } else if contains_seq(descriptors[0]@, file_name) {
        descriptors[0]@
    } else {
        first_candidate(descriptors.drop_first(), file_name)
    }
}

/// Classifies the separator convention of a descriptor reference by counting
/// dots and backslashes.
pub fn calculate_separator(descriptor: &str) -> (r: Separator)
    ensures
        r == separator_of(descriptor@),
{
    let dots = count_occurrences(descriptor, '.');
    let backslashes = count_occurrences(descriptor, '\\');
    if backslashes >= dots {
        Separator::Backslash
    } else {
        Separator::Dot
    }
}

/// The companion file name that the descriptor references of the primary file
/// at `path` are matched against.
pub fn build_plugin_file_name(path: &str) -> (r: String)
    ensures
        r@ == companion_file_name(path@),
{
    let n = path.unicode_len();
    proof {
        assert(path@.subrange(0, n as int) =~= path@);
    }
    let start = start_after_last(path, '/', n);
    let name = suffix_from(path, start);
    let m = name.as_str().unicode_len();
    proof {
        assert(name@.subrange(0, m as int) =~= name@);
    }
    let dot = start_after_last(name.as_str(), '.', m);
    let stem = if dot > 1 {
        prefix_to(name.as_str(), dot - 1)
    } else {
        name
    };
    stem.concat(".plugin")
}

/// The file name that a descriptor reference points at.
fn referenced_name(file_path: &str) -> (r: String)
    ensures
        r@ == referenced_file_name(file_path@),
{
    let n = file_path.unicode_len();
    proof {
        assert(file_path@.subrange(0, n as int) =~= file_path@);
    }
    let start = match calculate_separator(file_path) {
        Separator::Dot => {
            proof {
                lemma_count_positive_has_last(file_path@, '.');
            }
            let i = start_after_last(file_path, '.', n) - 1;
            proof {
                assert(file_path@.subrange(0, i as int) =~= file_path@.subrange(
                    0,
                    i as int,
                ).subrange(0, i as int));
            }
            start_after_last(file_path, '.', i)
        },
        Separator::Backslash => start_after_last(file_path, '\\', n),
    };
    suffix_from(file_path, start)
}

/// Where the companion file that `file_path` references would lie, next to
/// the primary file at `plugin_folder_path`.
pub fn build_plugin_path(plugin_folder_path: &str, file_path: &str) -> (r: String)
    ensures
        r@ == companion_path(plugin_folder_path@, file_path@),
{
    let name = referenced_name(file_path);
    let m = plugin_folder_path.unicode_len();
    proof {
        assert(plugin_folder_path@.subrange(0, m as int) =~= plugin_folder_path@);
    }
    let dir_end = start_after_last(plugin_folder_path, '/', m);
    let dir = prefix_to(plugin_folder_path, dir_end);
    dir.concat(name.as_str())
}

/// The primary descriptor record as read from a primary file.
pub struct PluginCompendiumContent {
    pub id: i32,
    pub name: String,
    pub version: String,
    pub author: String,
    pub description: Option<String>,
    pub info_url: String,
    pub download_url: String,
    pub descriptors: Vec<String>,
    pub dependencies: Vec<String>,
}

/// The primary descriptor record reduced to the one descriptor reference that
/// names its companion file (empty when none does).
pub struct PluginCompendium {
    pub id: i32,
    pub name: String,
    pub version: String,
    pub author: String,
    pub description: Option<String>,
    pub info_url: String,
    pub download_url: String,
    pub plugin_file_location: String,
    pub dependencies: Vec<String>,
}

/// The companion descriptor record; a missing description reads as empty.
pub struct PluginDataClass {
    pub name: String,
    pub author: String,
    pub version: String,
    pub description: String,
}

/// What resolving a primary record leads to: a finished add-on, or an add-on
/// whose description is to be read from the companion file at a path, when
/// that file exists.
pub enum Resolution {
    Resolved(Plugin),
    NeedsCompanion { base: Plugin, companion_path: String },
}

/// A copy of a list of strings, equal to it element by element.
fn copy_texts(v: &Vec<String>) -> (r: Vec<String>)
    ensures
        r@ == v@,
{
    let mut r: Vec<String> = Vec::new();
    let mut i: usize = 0;
    while i < v.len()
        invariant
            i <= v.len(),
            r@ == v@.subrange(0, i as int),
        decreases v.len() - i,
    {
        r.push(v[i].clone());
        proof {
            assert(r@ =~= v@.subrange(0, i + 1));
        }
        i = i + 1;
    }
    proof {
        assert(v@.subrange(0, v.len() as int) =~= v@);
    }
    r
}

/// The first of `descriptors` that mentions `file_name`, or an empty string.
pub fn first_matching_descriptor(descriptors: &Vec<String>, file_name: &str) -> (r: String)
    ensures
        r@ == first_candidate(descriptors@, file_name@),
{
    let mut i: usize = 0;
    proof {
        assert(descriptors@.subrange(0, descriptors.len() as int) =~= descriptors@);
    }
    while i < descriptors.len()
        invariant
            i <= descriptors.len(),
            first_candidate(descriptors@, file_name@) == first_candidate(
                descriptors@.subrange(i as int, descriptors.len() as int),
                file_name@,
            ),
        decreases descriptors.len() - i,
    {
        proof {
            let rest = descriptors@.subrange(i as int, descriptors.len() as int);
            assert(rest.drop_first() =~= descriptors@.subrange(i + 1, descriptors.len() as int));
            assert(rest[0] == descriptors@[i as int]);
        }
        if contains_text(descriptors[i].as_str(), file_name) {
            return descriptors[i].clone();
        }
        i = i + 1;
    }
    String::new()
}

impl PluginCompendiumContent {
    /// Keeps, of the descriptor references, the first one that mentions the
    /// companion file name belonging to `path`; every other field is copied.
    pub fn _purge_descriptors(&self, path: &str) -> (r: PluginCompendium)
        ensures
            r.plugin_file_location@ == first_candidate(
                self.descriptors@,
                companion_file_name(path@),
            ),
            r.id == self.id,
            r.name == self.name,
            r.version == self.version,
            r.author == self.author,
            r.description == self.description,
            r.info_url == self.info_url,
            r.download_url == self.download_url,
            r.dependencies@ == self.dependencies@,
    {
        let file_name = build_plugin_file_name(path);
        let location = first_matching_descriptor(&self.descriptors, file_name.as_str());
        PluginCompendium {
            id: self.id,
            name: self.name.clone(),
            version: self.version.clone(),
            author: self.author.clone(),
            description: copy_opt_text(&self.description),
            info_url: self.info_url.clone(),
            download_url: self.download_url.clone(),
            plugin_file_location: location,
            dependencies: copy_texts(&self.dependencies),
        }
    }
}

/// `p` is the add-on built from a primary record with the given name, id,
/// author and version (kept as the current version), the description `d`,
/// and every other field left blank.
pub open spec fn built_from(
    p: Plugin,
    name: Seq<char>,
    id: i32,
    author: Seq<char>,
    version: Seq<char>,
    d: Option<Seq<char>>,
) -> bool {
    &&& p.name@ == name
    &&& p.id == id
    &&& p.author@ == author
    &&& p.current_version@ == version
    &&& p.description.is_some() == d.is_some()
    &&& (d.is_some() ==> p.description.unwrap()@ == d.unwrap())
    &&& p.latest_version@.len() == 0
    &&& p.download_url@.len() == 0
    &&& p.info_url@.len() == 0
    &&& p.category.is_none()
    &&& p.downloads.is_none()
    &&& p.archive_name.is_none()
    &&& p.updated.is_none()
    &&& p.hash.is_none()
    &&& !p.installed
}

/// A non-empty description of the primary record itself.
pub open spec fn own_description(c: PluginCompendiumContent) -> Option<Seq<char>> {
    match c.description {
        Some(d) => if d@.len() > 0 {
            Some(d@)
        } else {
            None
        },
        None => None,
    }
}

/// The add-on of a primary record, with the given description.
fn build_plugin(c: &PluginCompendiumContent, description: Option<String>) -> (r: Plugin)
    ensures
        r.name@ == c.name@,
        r.id == c.id,
        r.author@ == c.author@,
        r.current_version@ == c.version@,
        r.description == description,
        r.latest_version@.len() == 0,
        r.download_url@.len() == 0,
        r.info_url@.len() == 0,
        r.category.is_none(),
        r.downloads.is_none(),
        r.archive_name.is_none(),
        r.updated.is_none(),
        r.hash.is_none(),
        !r.installed,
{
    let mut p = Plugin::new(c.name.as_str());
    p.id = c.id;
    p.author = c.author.clone();
    p.current_version = c.version.clone();
    p.description = description;
    p
}

/// First step of resolving the primary file at `path` whose record is
/// `content`. A non-empty description of its own finishes it; otherwise the
/// first descriptor reference that mentions the companion file name decides:
/// with none, the add-on has no description; with one, the companion file's
/// path is handed back to be looked up.
pub fn resolve_compendium(content: &PluginCompendiumContent, path: &str) -> (r: Resolution)
    ensures
        own_description(*content) is Some ==> (r matches Resolution::Resolved(p) && built_from(
            p,
            content.name@,
            content.id,
            content.author@,
            content.version@,
            own_description(*content),
        )),
        own_description(*content) is None && first_candidate(
            content.descriptors@,
            companion_file_name(path@),
        ).len() == 0 ==> (r matches Resolution::Resolved(p) && built_from(
            p,
            content.name@,
            content.id,
            content.author@,
            content.version@,
            None,
        )),
        own_description(*content) is None && first_candidate(
            content.descriptors@,
            companion_file_name(path@),
        ).len() > 0 ==> (r matches Resolution::NeedsCompanion { base, companion_path: cp }
            && built_from(base, content.name@, content.id, content.author@, content.version@, None)
            && cp@ == companion_path(
            path@,
            first_candidate(content.descriptors@, companion_file_name(path@)),
        )),
        content.descriptors@.len() == 0 && own_description(*content) is None ==> (r matches Resolution::Resolved(p) && p.description is None),
{
    if let Some(d) = &content.description {
        if d.as_str().unicode_len() > 0 {
            return Resolution::Resolved(build_plugin(content, Some(d.clone())));
        }
    }
    let purged = content._purge_descriptors(path);
    let location = purged.plugin_file_location;
    if location.as_str().unicode_len() == 0 {
        Resolution::Resolved(build_plugin(content, None))
    } else {
        let companion = build_plugin_path(path, location.as_str());
        Resolution::NeedsCompanion { base: build_plugin(content, None), companion_path: companion }
    }
}

/// Last step of resolving: `companion` is the companion record read from the
/// path that [`resolve_compendium`] handed back, or `None` when no file lies
/// there. The add-on takes the companion's description, possibly empty.
pub fn complete_with_companion(base: Plugin, companion: Option<PluginDataClass>) -> (r: Plugin)
    ensures
        r.description == (match companion {
            Some(c) => Some(c.description),
            None => None::<String>,
        }),
        r.name == base.name,
        r.id == base.id,
        r.author == base.author,
        r.current_version == base.current_version,
        r.latest_version == base.latest_version,
        r.download_url == base.download_url,
        r.info_url == base.info_url,
        r.category == base.category,
        r.downloads == base.downloads,
        r.archive_name == base.archive_name,
        r.updated == base.updated,
        r.hash == base.hash,
        r.installed == base.installed,
{
    let mut p = base;
    p.description = match companion {
        Some(c) => Some(c.description),
        None => None,
    };
    p
}

} // verus!
