use hakugi::base_models::hakushin_lists::{JustTheName, MinimalArtifact, MinimalArtifactSet};
use hakugi::gui_funcs::display_lists::{
    filter_items, get_custom_name, get_custom_name_from_id, parse_artifacts, parse_just_names, ItemNames,
};
use hakugi::gui_funcs::egui_for_lists::HakuGIApp;

fn item(key: &str, name: &str) -> ItemNames {
    ItemNames { key: key.to_string(), name: name.to_string() }
}

#[test]
fn traveler_and_wanderer_names() {
    let listed = "Traveler".to_string();
    assert_eq!(get_custom_name_from_id("10000007-2", &listed), "Traveler Pyro (F)");
    assert_eq!(get_custom_name_from_id("10000005-8", &listed), "Traveler Dendro (M)");
    assert_eq!(get_custom_name_from_id("10000005-6", &listed), "Traveler Geo (M)");
    assert_eq!(get_custom_name_from_id("10000007", &listed), "Traveler (F)");
    assert_eq!(get_custom_name_from_id("1506", &"Card".to_string()), "Wanderer");
    assert_eq!(get_custom_name_from_id("10000005-5", &listed), "Traveler (M)");
}

#[test]
fn plain_ids_keep_their_name() {
    assert_eq!(get_custom_name_from_id("10000002", &"Ayaka".to_string()), "Ayaka");
    assert_eq!(get_custom_name(&item("11509", "Mistsplitter")), "Mistsplitter");
    assert_eq!(get_custom_name(&item("", "")), "");
}

#[test]
fn item_names_default_is_empty() {
    let d = ItemNames::default();
    assert_eq!(d.key, "");
    assert_eq!(d.name, "");
}

#[test]
fn filter_items_by_name_or_id() {
    let items = vec![item("10000002", "Kamisato Ayaka"), item("10000003", "Jean"), item("10000007-2", "Traveler")];
    let keys = |v: Vec<&ItemNames>| v.iter().map(|i| i.key.clone()).collect::<Vec<String>>();
    assert_eq!(keys(filter_items(&items, "")), vec!["10000002", "10000003", "10000007-2"]);
    assert_eq!(keys(filter_items(&items, "AYAKA")), vec!["10000002"]);
    assert_eq!(keys(filter_items(&items, "0003")), vec!["10000003"]);
    assert_eq!(keys(filter_items(&items, "pyro (f)")), vec!["10000007-2"]);
    assert!(filter_items(&items, "zzz").is_empty());
}

#[test]
fn filter_items_lowercases_unicode() {
    let items = vec![item("1", "ÉCLAIR"), item("2", "plain")];
    let keys: Vec<String> = filter_items(&items, "éclair").iter().map(|i| i.key.clone()).collect();
    assert_eq!(keys, vec!["1"]);
}

#[test]
fn parse_just_names_keeps_entries() {
    let map = vec![
        ("10000002".to_string(), JustTheName { en: "Ayaka".to_string() }),
        ("10000003".to_string(), JustTheName { en: "Jean".to_string() }),
    ];
    let items = parse_just_names(&Some(map));
    assert_eq!(items.len(), 2);
    assert_eq!(items[1].key, "10000003");
    assert_eq!(items[1].name, "Jean");
    assert!(parse_just_names(&None).is_empty());
}

fn piece(name: &str, desc: &str) -> MinimalArtifactSet {
    MinimalArtifactSet { name: JustTheName { en: name.to_string() }, desc: JustTheName { en: desc.to_string() } }
}

#[test]
fn parse_artifacts_names_sets_after_their_first_piece() {
    let set = MinimalArtifact {
        set: vec![
            ("215100".to_string(), piece("First", "two")),
            ("215101".to_string(), piece("Second", "four")),
        ],
    };
    let items = parse_artifacts(&Some(vec![("15010".to_string(), set)]));
    assert_eq!(items.len(), 1);
    assert_eq!(items[0].key, "15010");
    assert_eq!(items[0].name, "First");
    assert!(parse_artifacts(&None).is_empty());
}

#[test]
fn window_state_query_and_results() {
    let mut app = HakuGIApp::from_lists(vec![item("1", "a")], vec![], vec![], vec![], None);
    assert_eq!(app.query, "");
    app.query = "10000002 11509".to_string();
    let q = app.take_query();
    assert_eq!(q, "10000002 11509");
    assert_eq!(app.query, "");
    app.record_outputs(vec!["one".to_string(), String::new(), "two".to_string()]);
    app.record_outputs(vec!["three".to_string()]);
    assert_eq!(app.outputs.len(), 4);
    let shown: Vec<String> = app.shown_outputs().iter().map(|s| s.to_string()).collect();
    assert_eq!(shown, vec!["one", "two", "three"]);
}
