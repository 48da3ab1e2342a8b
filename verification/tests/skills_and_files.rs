use hakugi::ascension_funcs::get_ascension_stat_option;
use hakugi::character_funcs::skill_funcs::{
    choose_param, fill_placeholders, find_placeholders, param_index, param_templates, ParamChoice,
};
use hakugi::other_helper_funcs::read_and_write_funcs::{
    collect_diffs, diff_file_name, difflib_calc, format_for_difflib, item_file_name, json_path, list_diff_path,
    parse_latest_boss, results_folder, strip_json_suffix, trim_text, try_collect_diffs, try_difflib_calc,
    unchanged_message, written_message, DiffEntry, diff_folder, first_free_list_diff_path, first_free_path,
    is_taken, item_diff_path, numbered_json_path,
};
use hakugi::other_helper_funcs::helper_funcs::Parsed;
use hakugi::parsed_artifact::ParsedArtifact;

#[test]
fn parameter_lines_stop_at_the_first_empty_one() {
    let descs = vec!["Skill DMG|{param1:F1P}".to_string(), "CD×2|{param2:F1}s".to_string(), String::new(), "after".to_string()];
    assert_eq!(param_templates(&descs), vec!["Skill DMG|{param1:F1P}", "CDx2|{param2:F1}s"]);
    assert!(param_templates(&vec![]).is_empty());
}

#[test]
fn placeholders_found_and_filled() {
    let line = "A|{param1:F1P}+{param12:P}{param:F1}{param3:}x{param4:F2P";
    let ps = find_placeholders(line);
    let found: Vec<(String, String)> = ps.iter().map(|p| (p.digits.clone(), p.format.clone())).collect();
    assert_eq!(found, vec![("1".to_string(), "F1P".to_string()), ("12".to_string(), "P".to_string())]);
    let filled = fill_placeholders(line, &vec!["10.0%".to_string(), "5".to_string()]);
    assert_eq!(filled, "A|10.0%+5{param:F1}{param3:}x{param4:F2P");
    assert!(find_placeholders("").is_empty());
}

#[test]
fn placeholder_numbers() {
    assert_eq!(param_index("1"), Some(1));
    assert_eq!(param_index("0042"), Some(42));
    assert_eq!(param_index("99999999999999999999999999"), None);
}

#[test]
fn which_values_fill_a_placeholder() {
    assert_eq!(choose_param(3, 2, 2, 2, false), ParamChoice::Unchanged);
    assert_eq!(choose_param(1, 2, 0, 0, false), ParamChoice::Single);
    assert_eq!(choose_param(2, 2, 1, 2, false), ParamChoice::Single);
    assert_eq!(choose_param(1, 2, 2, 2, true), ParamChoice::Single);
    assert_eq!(choose_param(2, 2, 2, 1, false), ParamChoice::Single);
    assert_eq!(choose_param(2, 2, 2, 2, false), ParamChoice::Triple);
}

#[test]
fn ascension_stat() {
    let keys = vec!["FIGHT_PROP_BASE_HP".to_string(), "FIGHT_PROP_CRITICAL".to_string()];
    assert_eq!(get_ascension_stat_option(Some(&keys)), "FIGHT_PROP_CRITICAL");
    let only_base = vec!["FIGHT_PROP_BASE_ATTACK".to_string(), "FIGHT_PROP_BASE_DEFENSE".to_string()];
    assert_eq!(get_ascension_stat_option(Some(&only_base)), "");
    assert_eq!(get_ascension_stat_option(None), "");
}

#[test]
fn text_differences() {
    let old = "\"ATK 10%\"".to_string();
    let new = "\"ATK 12%\"".to_string();
    let d = difflib_calc(&old, &new);
    assert_eq!(d, "\"ATK 1<0 -> 2>%\"");
    assert_eq!(try_difflib_calc(&old, &new), Some(d));
    assert_eq!(difflib_calc(&"same".to_string(), &"same".to_string()), "same");
    assert_eq!(difflib_calc(&"abc".to_string(), &"abXc".to_string()), "ab+<X>c");
    assert_eq!(difflib_calc(&"abXc".to_string(), &"abc".to_string()), "ab-<X>c");
    assert_eq!(difflib_calc(&String::new(), &String::new()), "");
}

#[test]
fn multibyte_steps_are_caught() {
    // difflib compares bytes: 'é' and 'è' share their first byte.
    let old = "é".to_string();
    let new = "è".to_string();
    assert_eq!(try_difflib_calc(&old, &new), None);
    let diffs = vec![DiffEntry::Modified { location: "x".to_string(), old, new }];
    assert!(try_collect_diffs(&diffs).is_none());
}

#[test]
fn difference_lines() {
    let added = DiffEntry::Added { location: "a.b".to_string(), value: "1".to_string() };
    assert_eq!(format_for_difflib(&added), ("a.b".to_string(), "+ 1".to_string()));
    let removed = DiffEntry::Removed { location: "c".to_string(), value: "\"x\"".to_string() };
    assert_eq!(format_for_difflib(&removed), ("c".to_string(), "- \"x\"".to_string()));
    let changed = DiffEntry::TypeChanged { location: "d".to_string(), old: "1".to_string(), new: "\"1\"".to_string() };
    assert_eq!(format_for_difflib(&changed), ("d".to_string(), "# +<\">1+<\">".to_string()));
    let modified = DiffEntry::Modified { location: "a.b".to_string(), old: "1".to_string(), new: "2".to_string() };
    let map = collect_diffs(&vec![added, modified]);
    assert_eq!(map, vec![("a.b".to_string(), "~ <1 -> 2>".to_string())]);
    assert_eq!(try_collect_diffs(&vec![changed]).unwrap().len(), 1);
}

#[test]
fn file_names_and_messages() {
    assert_eq!(strip_json_suffix("Diluc.json"), "Diluc");
    assert_eq!(strip_json_suffix("Diluc"), "Diluc");
    assert_eq!(strip_json_suffix(".json"), "");
    assert_eq!(diff_file_name("Diluc", "25-01-31", 0), "Diluc 25-01-31");
    assert_eq!(diff_file_name("Diluc", "25-01-31", 12), "Diluc 25-01-31 (12)");
    assert_eq!(json_path("changes", "Diluc 25-01-31"), "changes/Diluc 25-01-31.json");
    assert_eq!(list_diff_path("list_changes", "weapon", "25-01-31", 0), "list_changes/weapon_25-01-31.json");
    assert_eq!(list_diff_path("list_changes", "weapon.json", "25-01-31", 2), "list_changes/weapon_25-01-31 (2).json");
    let item = Parsed::A(ParsedArtifact { name: "Gladiator".to_string(), two: String::new(), four: String::new() });
    let file = item_file_name(&item);
    assert_eq!(file, "Gladiator.json");
    assert_eq!(strip_json_suffix(&file), "Gladiator");
    assert_eq!(results_folder("artifact"), "results/artifact");
    assert_eq!(unchanged_message("Gladiator.json"), "Gladiator.json unchanged.");
    assert_eq!(written_message("Gladiator.json", true), "Gladiator.json updated.");
    assert_eq!(written_message("Gladiator.json", false), "Gladiator.json created.");
}

#[test]
fn latest_boss_number() {
    assert_eq!(parse_latest_boss(" 113081\n"), 113081);
    assert_eq!(parse_latest_boss("-5"), -5);
    assert_eq!(parse_latest_boss("+7"), 7);
    assert_eq!(parse_latest_boss("-9223372036854775808"), i64::MIN);
    assert_eq!(parse_latest_boss("9223372036854775808"), 113080);
    assert_eq!(parse_latest_boss("12a"), 113080);
    assert_eq!(parse_latest_boss("-"), 113080);
    assert_eq!(parse_latest_boss(""), 113080);
    for s in ["0", " 42 ", "-0", "+", "1 2", "00017"].iter() {
        assert_eq!(parse_latest_boss(s), s.trim().parse::<i64>().unwrap_or(113080), "input {:?}", s);
    }
}

#[test]
fn trimmed_input() {
    assert_eq!(trim_text("  10000002 11509 \n"), "10000002 11509");
    assert_eq!(trim_text("\u{3000}x\u{00a0}"), "x");
    assert_eq!(trim_text(""), "");
}

#[test]
fn diff_files_go_to_the_first_free_path() {
    let taken = |v: &[&str]| v.iter().map(|s| s.to_string()).collect::<Vec<String>>();
    assert_eq!(diff_folder("weapon"), "changes/weapon");
    assert_eq!(numbered_json_path("a/b", 0), "a/b.json");
    assert_eq!(numbered_json_path("a/b", 3), "a/b (3).json");
    assert_eq!(
        item_diff_path("weapon", "Wolf", "25-01-31", &taken(&[])),
        ("changes/weapon/Wolf 25-01-31.json".to_string(), 0)
    );
    let existing = taken(&[
        "changes/weapon/Wolf 25-01-31.json",
        "changes/weapon/Wolf 25-01-31 (2).json",
        "changes/weapon/Wolf 25-01-31 (1).json",
        "changes/Wolf 25-01-31 (3).json",
    ]);
    assert_eq!(
        item_diff_path("weapon", "Wolf", "25-01-31", &existing),
        ("changes/weapon/Wolf 25-01-31 (3).json".to_string(), 3)
    );
    assert!(is_taken(&existing, &"changes/weapon/Wolf 25-01-31 (1).json".to_string()));
    assert!(!is_taken(&existing, &"changes/weapon/Wolf 25-01-31 (3).json".to_string()));
    assert_eq!(first_free_path("x", &taken(&["x.json", "x (2).json"])), ("x (1).json".to_string(), 1));
    assert_eq!(
        first_free_list_diff_path("list_changes", "weapon.json", "25-01-31", &taken(&["list_changes/weapon_25-01-31.json"])),
        ("list_changes/weapon_25-01-31 (1).json".to_string(), 1)
    );
}
