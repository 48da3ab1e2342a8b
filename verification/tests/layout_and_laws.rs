use hakugi::base_models::character::{AscensionORTalent, Mat, Materials};
use hakugi::gui_funcs::display_lists::{item_label, list_rows, pad_right, ItemNames};
use hakugi::material_funcs::parse_materials;
use hakugi::other_helper_funcs::helper_funcs::{compare_color_texts, Parsed};
use hakugi::other_helper_funcs::read_and_write_funcs::{compare_action, save_plan, CompareAction, SavePlan};
use hakugi::base_models::character::skill_description;
use hakugi::parsed_artifact::ParsedArtifact;
use hakugi::parsed_weapon::ParsedWeapon;

#[test]
fn padding() {
    assert_eq!(pad_right("ab", 5), "ab   ");
    assert_eq!(pad_right("abcdef", 3), "abcdef");
    assert_eq!(pad_right("é", 2), format!("{:<2}", "é"));
    assert_eq!(pad_right("", 0), "");
}

#[test]
fn item_labels() {
    let item = ItemNames { key: "10000007-2".to_string(), name: "Traveler".to_string() };
    assert_eq!(item_label(&item, 10, 20), format!("{:<10}: {:<20}", "10000007-2", "Traveler Pyro (F)"));
    let short = ItemNames { key: "1".to_string(), name: "A".to_string() };
    assert_eq!(item_label(&short, 5, 25), format!("{:<5}: {:<25}", "1", "A"));
}

#[test]
fn rows_of_five() {
    let entries: Vec<(String, String)> = (1..=7).map(|i| (i.to_string(), format!("name{i}"))).collect();
    let mut want = String::new();
    for (count, (k, v)) in entries.iter().enumerate() {
        want.push_str(&format!("{:<10}: {:<20} ", k, v));
        if (count + 1) % 5 == 0 {
            want.push('\n');
        }
    }
    want.push('\n');
    assert_eq!(list_rows(&entries), want);
    assert_eq!(list_rows(&Vec::new()), "");
    let five: Vec<(String, String)> = entries[..5].to_vec();
    assert!(list_rows(&five).ends_with(" \n"));
    assert_eq!(list_rows(&five).matches('\n').count(), 1);
}

#[test]
fn save_plans() {
    let art = || Parsed::A(ParsedArtifact { name: "x".to_string(), two: String::new(), four: String::new() });
    let weap = Parsed::W(ParsedWeapon::default());
    assert_eq!(save_plan(&None, &art()), SavePlan::Create);
    assert_eq!(save_plan(&Some(art()), &art()), SavePlan::Compare);
    assert_eq!(save_plan(&Some(weap), &art()), SavePlan::Keep);
}

#[test]
fn a_text_compared_with_itself_marks_nothing() {
    let t = "Gain <color=#99FFFFFF>12%</color> and <color=#99FFFFFF>3/4 s</color> <color=#FFFFFFFF>word</color>.";
    assert_eq!(compare_color_texts(t, t), "Gain 12% and 3/4 s <color=#FFFFFFFF>word</color>.");
}

#[test]
fn cost_total_is_the_sum_of_costs() {
    let level = |cost: i64| AscensionORTalent { mats: vec![Mat { name: "Ore".to_string(), id: 1, count: 1, rank: 1 }], cost };
    let materials = Materials { ascensions: vec![level(100), level(250), level(-50)], talents: vec![vec![]] };
    let (asc, _) = parse_materials(&materials);
    let cost = asc.iter().find(|m| m.name == "Cost").unwrap();
    assert_eq!(cost.amount, 300);
}

#[test]
fn comparison_actions_and_skill_descriptions() {
    assert_eq!(compare_action(0), CompareAction::Unchanged);
    assert_eq!(compare_action(3), CompareAction::Update);
    let desc = "plain".to_string();
    assert_eq!(skill_description(&desc, &None), "plain");
    assert_eq!(skill_description(&desc, &Some("special".to_string())), "special");
}

#[test]
fn swapping_the_texts_swaps_the_brackets() {
    let a = "ATK +<color=#99FFFFFF>20%</color> for <color=#99FFFFFF>6s</color>, <color=#99FFFFFF>3 stacks</color>|<color=#99FFFFFF>1/2</color>]";
    let b = "ATK +<color=#99FFFFFF>40%</color> for <color=#99FFFFFF>6s</color>, <color=#99FFFFFF>5 hits</color>|<color=#99FFFFFF>1/3</color>]";
    assert_eq!(compare_color_texts(a, b), "ATK +[20%|40%] for 6s, [3|5]|[1/2|1/3]]");
    assert_eq!(compare_color_texts(b, a), "ATK +[40%|20%] for 6s, [5|3]|[1/3|1/2]]");
}
