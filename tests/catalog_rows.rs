use lembas_core::catalog::{
    filter_rows, map_plugins_to_rows, Catalog, InstallOutcome, Message, PluginRow, RowMessage,
};
use lembas_core::plugin::Plugin;
use lembas_core::store::{DatabaseHandler, PluginStore};

fn plugin(name: &str, id: i32) -> Plugin {
    let mut p = Plugin::new(name);
    p.id = id;
    p.latest_version = "2.0".to_string();
    p
}

fn titles(rows: &[PluginRow]) -> Vec<String> {
    rows.iter().map(|r| r.title.clone()).collect()
}

fn loaded(catalog: &Catalog) -> &lembas_core::catalog::State {
    match catalog {
        Catalog::Loaded(state) => state,
        Catalog::NoInternet(_) => panic!("catalog is not loaded"),
    }
}

#[test]
fn rows_sorted_by_lowercase_title() {
    let plugins = vec![plugin("beta", 1), plugin("Alpha", 2), plugin("alpha2", 3)];
    let rows = map_plugins_to_rows(&plugins);
    assert_eq!(titles(&rows), vec!["Alpha", "alpha2", "beta"]);
    assert_eq!(rows[0].id, 2);
    assert_eq!(rows[0].latest_version, "2.0");
    assert_eq!(rows[0].download_url, "http://www.lotrointerface.com/downloads/download2");
}

#[test]
fn rows_with_equal_lowercase_title_keep_their_order() {
    let plugins = vec![plugin("b", 1), plugin("ABC", 2), plugin("abc", 3)];
    let rows = map_plugins_to_rows(&plugins);
    assert_eq!(titles(&rows), vec!["ABC", "abc", "b"]);
}

#[test]
fn filter_ignores_case() {
    let rows = map_plugins_to_rows(&vec![plugin("TitanBar", 1), plugin("Voyage", 2), plugin("titles", 3)]);
    let found = filter_rows(&rows, "TIT");
    assert_eq!(titles(&found), vec!["TitanBar", "titles"]);
    assert_eq!(titles(&filter_rows(&rows, "")), vec!["TitanBar", "titles", "Voyage"]);
    assert!(filter_rows(&rows, "zzz").is_empty());
}

#[test]
fn catalog_loads_and_searches() {
    let mut store = PluginStore::new();
    store.insert_plugin(&plugin("Voyage", 2), false);
    store.insert_plugin(&plugin("TitanBar", 1), false);
    let mut catalog = Catalog::new();
    assert!(catalog.update(Message::LoadPlugins, &store).is_none());
    assert_eq!(titles(&loaded(&catalog).plugins), vec!["TitanBar", "Voyage"]);
    assert_eq!(titles(&loaded(&catalog).base_plugins), vec!["TitanBar", "Voyage"]);

    assert!(catalog.update(Message::CatalogInputChanged("voy".to_string()), &store).is_none());
    assert_eq!(loaded(&catalog).input_value, "voy");
    assert_eq!(titles(&loaded(&catalog).plugins), vec!["Voyage"]);
    assert_eq!(loaded(&catalog).base_plugins.len(), 2);

    let forwarded = catalog.update(Message::Catalog(0, RowMessage::NoEvent), &store);
    assert!(matches!(forwarded, Some((0, RowMessage::NoEvent))));
    assert!(catalog.update(Message::Catalog(5, RowMessage::NoEvent), &store).is_none());
    assert!(catalog.update(Message::RetryPressed, &store).is_none());
    assert_eq!(titles(&loaded(&catalog).plugins), vec!["Voyage"]);
}

#[test]
fn catalog_without_connection_ignores_messages() {
    let store = PluginStore::new();
    let mut catalog = Catalog::NoInternet(lembas_core::catalog::State {
        input_value: String::new(),
        base_plugins: Vec::new(),
        plugins: Vec::new(),
    });
    assert!(catalog.update(Message::LoadPlugins, &store).is_none());
    assert!(matches!(catalog, Catalog::NoInternet(_)));
}

#[test]
fn install_outcome_sets_status() {
    let mut row = PluginRow::new(4, "Voyage", "", "3.13");
    row.record_install(InstallOutcome::DownloadFailed, "3.13");
    assert_eq!(row.status, "Download failed");
    assert_eq!(row.current_version, "");
    row.record_install(InstallOutcome::InstallFailed, "3.13");
    assert_eq!(row.status, "Installation failed");
    row.record_install(InstallOutcome::Installed, "3.13");
    assert_eq!(row.status, "Installed");
    assert_eq!(row.current_version, "3.13");
}
