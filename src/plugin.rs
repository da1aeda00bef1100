//! The canonical add-on entity that is resolved from descriptor files and kept
//! in the metadata store.
use vstd::prelude::*;

verus! {

/// One add-on. `name` identifies it; `id` is the remote catalog identifier,
/// which need not be unique.
#[derive(Debug, Clone, PartialEq, Eq)]
pub struct Plugin {
    pub name: String,
    pub id: i32,
    pub author: String,
    pub description: Option<String>,
    pub current_version: String,
    pub latest_version: String,
    pub download_url: String,
    pub info_url: String,
    pub category: Option<String>,
    pub downloads: Option<i64>,
    pub archive_name: Option<String>,
    pub updated: Option<i64>,
    pub hash: Option<String>,
    pub installed: bool,
}

/// A copy of an optional string that is equal to it.
pub fn copy_opt_text(o: &Option<String>) -> (r: Option<String>)
    ensures
        r == *o,
{
    match o {
        Some(s) => Some(s.clone()),
        None => None,
    }
}

impl Plugin {
    /// An add-on that carries its name only: every other text is empty, every
    /// optional field absent, the catalog id 0, and it is not installed.
    pub fn new(name: &str) -> (r: Plugin)
        ensures
            r.name@ == name@,
            r.id == 0,
            r.author@.len() == 0,
            r.description.is_none(),
            r.current_version@.len() == 0,
            r.latest_version@.len() == 0,
            r.download_url@.len() == 0,
            r.info_url@.len() == 0,
            r.category.is_none(),
            r.downloads.is_none(),
            r.archive_name.is_none(),
            r.updated.is_none(),
            r.hash.is_none(),
            !r.installed,
    {
        Plugin {
            name: String::from_str(name),
            id: 0,
            author: String::new(),
            description: None,
            current_version: String::new(),
            latest_version: String::new(),
            download_url: String::new(),
            info_url: String::new(),
            category: None,
            downloads: None,
            archive_name: None,
            updated: None,
            hash: None,
            installed: false,
        }
    }

    /// A copy of this add-on, equal to it in every field.
    pub fn duplicate(&self) -> (r: Plugin)
        ensures
            r == *self,
    {
        Plugin {
            name: self.name.clone(),
            id: self.id,
            author: self.author.clone(),
            description: copy_opt_text(&self.description),
            current_version: self.current_version.clone(),
            latest_version: self.latest_version.clone(),
            download_url: self.download_url.clone(),
            info_url: self.info_url.clone(),
            category: copy_opt_text(&self.category),
            downloads: self.downloads,
            archive_name: copy_opt_text(&self.archive_name),
            updated: self.updated,
            hash: copy_opt_text(&self.hash),
            installed: self.installed,
        }
    }
}

} // verus!
