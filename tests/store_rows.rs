use lembas_core::catalog::{PluginRow, RowAction};
use lembas_core::plugin::Plugin;
use lembas_core::store::{DatabaseHandler, PluginStore};

fn plugin(name: &str, id: i32, latest: &str) -> Plugin {
    let mut p = Plugin::new(name);
    p.id = id;
    p.latest_version = latest.to_string();
    p.author = "someone".to_string();
    p
}

fn names(rows: &[Plugin]) -> Vec<String> {
    rows.iter().map(|p| p.name.clone()).collect()
}

#[test]
fn upsert_twice_is_upsert_once() {
    let mut once = PluginStore::new();
    once.insert_plugin(&plugin("Voyage", 1, "3.13"), true);
    let mut twice = PluginStore::new();
    twice.insert_plugin(&plugin("Voyage", 1, "3.13"), true);
    twice.insert_plugin(&plugin("Voyage", 1, "3.13"), true);
    assert_eq!(once.get_plugins(), twice.get_plugins());
    assert_eq!(twice.get_plugins().len(), 1);
}

#[test]
fn upsert_overwrites_every_column() {
    let mut store = PluginStore::new();
    store.insert_plugin(&plugin("Voyage", 1, "3.13"), true);
    store.insert_plugin(&plugin("Voyage", 2, "3.14"), false);
    let row = store.get_plugin("Voyage").unwrap();
    assert_eq!(row.id, 2);
    assert_eq!(row.latest_version, "3.14");
    assert!(!row.installed);
}

#[test]
fn sync_on_empty_store_inserts_all_uninstalled() {
    let mut store = PluginStore::new();
    let mut remote = vec![plugin("TitanBar", 10, "1.0"), plugin("Animalerie", 11, "2.0")];
    remote[0].installed = true;
    store.sync_plugins(&remote);
    let all = store.get_plugins();
    assert_eq!(names(&all), vec!["Animalerie".to_string(), "TitanBar".to_string()]);
    assert!(all.iter().all(|p| !p.installed));
    assert!(store.get_installed_plugins().is_empty());
}

#[test]
fn sync_refreshes_latest_version_only() {
    let mut store = PluginStore::new();
    store.insert_plugin(&plugin("TitanBar", 10, "1.0"), true);
    store.mark_as_installed(10, "1.0");
    let remote = vec![plugin("TitanBar", 10, "1.1"), plugin("Unknown", 12, "9.9")];
    store.sync_plugins(&remote);
    let row = store.get_plugin("TitanBar").unwrap();
    assert_eq!(row.latest_version, "1.1");
    assert_eq!(row.current_version, "1.0");
    assert!(row.installed);
    assert_eq!(store.get_plugin("Unknown"), None);
    assert_eq!(store.get_plugins().len(), 1);
}

#[test]
fn mark_installed_updates_every_row_with_the_id() {
    let mut store = PluginStore::new();
    store.insert_plugin(&plugin("First", 7, "1.0"), false);
    store.insert_plugin(&plugin("Second", 7, "1.0"), false);
    store.insert_plugin(&plugin("Third", 8, "1.0"), false);
    store.mark_as_installed(7, "1.0");
    let installed = store.get_installed_plugins();
    assert_eq!(names(&installed), vec!["First".to_string(), "Second".to_string()]);
    assert!(installed.iter().all(|p| p.current_version == "1.0"));
    let third = store.get_plugin("Third").unwrap();
    assert!(!third.installed);
    assert_eq!(third.current_version, "");
}

#[test]
fn delete_then_get_is_absent() {
    let mut store = PluginStore::new();
    store.insert_plugin(&plugin("Voyage", 1, "3.13"), false);
    store.delete_plugin("Voyage");
    assert_eq!(store.get_plugin("Voyage"), None);
    store.delete_plugin("Voyage");
    assert!(store.get_plugins().is_empty());
}

#[test]
fn rows_come_in_name_order() {
    let mut store = PluginStore::new();
    for name in ["b", "B", "a", "ab", "A"] {
        store.insert_plugin(&plugin(name, 1, "1"), true);
    }
    let expected: Vec<String> = ["A", "B", "a", "ab", "b"].iter().map(|s| s.to_string()).collect();
    assert_eq!(names(&store.get_plugins()), expected);
    assert_eq!(names(&store.get_installed_plugins()), expected);
}

#[test]
fn plugin_row_download_address() {
    let row = PluginRow::new(526, "Compendium", "", "1.8.0");
    assert_eq!(row.download_url, "http://www.lotrointerface.com/downloads/download526");
    assert_eq!(row.status, "Install");
    assert_eq!(row.title, "Compendium");
    let negative = PluginRow::new(-3, "x", "", "");
    assert_eq!(negative.download_url, "http://www.lotrointerface.com/downloads/download-3");
}

#[test]
fn plugin_row_action() {
    assert_eq!(PluginRow::new(1, "a", "", "1").action(), RowAction::Install);
    assert_eq!(PluginRow::new(1, "a", "1", "1").action(), RowAction::Installed);
    assert_eq!(PluginRow::new(1, "a", "1", "2").action(), RowAction::Update);
}
