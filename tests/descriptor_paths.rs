use lembas_core::descriptor::{
    build_plugin_file_name, build_plugin_path, calculate_separator, complete_with_companion,
    resolve_compendium, PluginCompendiumContent, PluginDataClass, Resolution, Separator,
};

fn content(description: Option<&str>, descriptors: &[&str]) -> PluginCompendiumContent {
    PluginCompendiumContent {
        id: 526,
        name: "TitanBar".to_string(),
        version: "1.8.0".to_string(),
        author: "Habna".to_string(),
        description: description.map(|d| d.to_string()),
        info_url: "http://example.org/info".to_string(),
        download_url: "http://example.org/download".to_string(),
        descriptors: descriptors.iter().map(|d| d.to_string()).collect(),
        dependencies: vec!["Turbine.Utils".to_string()],
    }
}

#[test]
fn positive() {
    let result = build_plugin_file_name("tests/samples/xml_files/TitanBar.plugincompendium");
    assert_eq!(result, "TitanBar.plugin");
}

#[test]
fn with_dot_separator() {
    let file_path = "HabnaPlugins.TitanBar.plugin";
    let result = build_plugin_path(
        "tests/samples/plugin_folders/HabnaPlugins/TitanBar.plugincompendium",
        file_path,
    );
    assert_eq!(result, "tests/samples/plugin_folders/HabnaPlugins/TitanBar.plugin");
}

#[test]
fn with_backslash_separator() {
    let file_path = "Homeopatix\\Voyage.plugin";
    let result = build_plugin_path(
        "tests/samples/plugin_folders/Homeopatix/Voyage.plugincompendium",
        file_path,
    );
    assert_eq!(result, "tests/samples/plugin_folders/Homeopatix/Voyage.plugin");
}

#[test]
fn separator_backslash_wins_over_single_dot() {
    assert_eq!(calculate_separator("Homeopatix\\Voyage.plugin"), Separator::Backslash);
    assert_eq!(calculate_separator("Lunarwater\\Waypoint.plugin"), Separator::Backslash);
}

#[test]
fn separator_dot_when_dots_dominate() {
    assert_eq!(calculate_separator("HabnaPlugins.TitanBar.plugin"), Separator::Dot);
}

#[test]
fn separator_tie_and_empty_resolve_to_backslash() {
    assert_eq!(calculate_separator("a\\b.c"), Separator::Backslash);
    assert_eq!(calculate_separator(""), Separator::Backslash);
}

#[test]
fn file_name_without_directory_or_extension() {
    assert_eq!(build_plugin_file_name("Voyage.plugincompendium"), "Voyage.plugin");
    assert_eq!(build_plugin_file_name("dir/Voyage"), "Voyage.plugin");
    assert_eq!(build_plugin_file_name("dir/a.b.plugincompendium"), "a.b.plugin");
}

#[test]
fn companion_path_without_directory() {
    assert_eq!(build_plugin_path("TitanBar.plugincompendium", "HabnaPlugins.TitanBar.plugin"), "TitanBar.plugin");
    assert_eq!(build_plugin_path("x/y.plugincompendium", "A\\B\\C.plugin"), "x/C.plugin");
}

#[test]
fn purge_keeps_first_matching_descriptor() {
    let c = content(None, &["HabnaPlugins.Other.plugin", "HabnaPlugins.TitanBar.plugin", "X\\TitanBar.plugin"]);
    let purged = c._purge_descriptors("tests/samples/xml_files/TitanBar.plugincompendium");
    assert_eq!(purged.plugin_file_location, "HabnaPlugins.TitanBar.plugin");
    assert_eq!(purged.id, 526);
    assert_eq!(purged.dependencies, vec!["Turbine.Utils".to_string()]);
}

#[test]
fn purge_without_match_is_empty() {
    let c = content(None, &["HabnaPlugins.Other.plugin"]);
    let purged = c._purge_descriptors("dir/TitanBar.plugincompendium");
    assert_eq!(purged.plugin_file_location, "");
}

#[test]
fn own_description_needs_no_companion() {
    let c = content(Some("Hello World"), &["HabnaPlugins.TitanBar.plugin"]);
    match resolve_compendium(&c, "dir/TitanBar.plugincompendium") {
        Resolution::Resolved(p) => {
            assert_eq!(p.description, Some("Hello World".to_string()));
            assert_eq!(p.name, "TitanBar");
            assert_eq!(p.id, 526);
            assert_eq!(p.author, "Habna");
            assert_eq!(p.current_version, "1.8.0");
            assert!(!p.installed);
        }
        Resolution::NeedsCompanion { .. } => panic!("companion asked for"),
    }
}

#[test]
fn empty_descriptor_list_gives_no_description() {
    let c = content(None, &[]);
    match resolve_compendium(&c, "dir/TitanBar.plugincompendium") {
        Resolution::Resolved(p) => assert_eq!(p.description, None),
        Resolution::NeedsCompanion { .. } => panic!("companion asked for"),
    }
}

#[test]
fn empty_description_falls_back_to_companion() {
    let c = content(Some(""), &["HabnaPlugins.TitanBar.plugin"]);
    match resolve_compendium(&c, "plugins/HabnaPlugins/TitanBar.plugincompendium") {
        Resolution::NeedsCompanion { base, companion_path } => {
            assert_eq!(companion_path, "plugins/HabnaPlugins/TitanBar.plugin");
            assert_eq!(base.description, None);
            let found = complete_with_companion(
                base.clone(),
                Some(PluginDataClass {
                    name: "TitanBar".to_string(),
                    author: "Habna".to_string(),
                    version: "1.8.0".to_string(),
                    description: "This is the TitanBar plugin".to_string(),
                }),
            );
            assert_eq!(found.description, Some("This is the TitanBar plugin".to_string()));
            assert_eq!(found.name, "TitanBar");
            let missing = complete_with_companion(base, None);
            assert_eq!(missing.description, None);
        }
        Resolution::Resolved(_) => panic!("companion not asked for"),
    }
}

#[test]
fn empty_description_without_descriptors_gives_no_description() {
    let c = content(Some(""), &[]);
    match resolve_compendium(&c, "dir/TitanBar.plugincompendium") {
        Resolution::Resolved(p) => assert_eq!(p.description, None),
        Resolution::NeedsCompanion { .. } => panic!("companion asked for"),
    }
}
