use hakugi::base_models::character::{AscensionORTalent, Mat, Materials};
use hakugi::base_models::weapon;
use hakugi::base_models::weapon::Item;
use hakugi::helper_funcs;
use hakugi::material_funcs::{convert_maps_to_vecs, parse_materials, single_full_asc_or_talent_parsing};
use hakugi::materials_model::{item_lt, sort_items, total_materials};
use hakugi::other_helper_funcs::helper_funcs::accumulate_materials;
use hakugi::parsed_models::parsed_character::ParsedMaterial;

fn item(name: &str, count: u32, rank: u32) -> Item {
    Item { name: name.to_string(), count, rank }
}

fn phase(mats: Vec<Item>, cost: u32) -> weapon::Materials {
    weapon::Materials { mats, cost }
}

fn summary(m: &weapon::Materials) -> Vec<(String, u32, u32)> {
    m.mats.iter().map(|i| (i.name.clone(), i.count, i.rank)).collect()
}

#[test]
fn accumulate_materials_sums_and_orders() {
    let map = vec![
        ("1".to_string(), phase(vec![item("Ore", 3, 2), item("Mask", 2, 1)], 5000)),
        ("2".to_string(), phase(vec![item("Ore", 4, 3), item("Bone", 1, 1)], 10000)),
    ];
    let r = accumulate_materials(&map);
    assert_eq!(r.cost, 15000);
    assert_eq!(
        summary(&r),
        vec![("Bone".to_string(), 1, 1), ("Mask".to_string(), 2, 1), ("Ore".to_string(), 7, 3)]
    );
}

#[test]
fn accumulate_materials_of_nothing() {
    let r = accumulate_materials(&Vec::new());
    assert_eq!(r.cost, 0);
    assert!(r.mats.is_empty());
}

#[test]
fn accumulate_materials_keeps_the_highest_rank() {
    let map = vec![
        ("a".to_string(), phase(vec![item("Gem", 1, 4)], 1)),
        ("b".to_string(), phase(vec![item("Gem", 1, 2)], 2)),
    ];
    let r = helper_funcs::accumulate_materials(&map);
    assert_eq!(summary(&r), vec![("Gem".to_string(), 2, 4)]);
    assert_eq!(r.cost, 3);
}

#[test]
fn accumulate_materials_does_not_depend_on_phase_order() {
    let a = ("1".to_string(), phase(vec![item("X", 1, 2), item("Y", 2, 1)], 7));
    let b = ("2".to_string(), phase(vec![item("Y", 5, 3), item("Z", 1, 1)], 9));
    let r1 = accumulate_materials(&vec![a.clone(), b.clone()]);
    let r2 = accumulate_materials(&vec![b, a]);
    assert_eq!(summary(&r1), summary(&r2));
    assert_eq!(r1.cost, r2.cost);
}

#[test]
fn total_materials_and_sorting() {
    let r = total_materials(&vec![("p".to_string(), phase(vec![item("b", 1, 1), item("a", 1, 1)], 0))]);
    assert_eq!(summary(&r), vec![("a".to_string(), 1, 1), ("b".to_string(), 1, 1)]);
    let sorted = sort_items(&vec![item("z", 1, 2), item("y", 1, 1), item("x", 9, 2)]);
    let names: Vec<String> = sorted.iter().map(|i| i.name.clone()).collect();
    assert_eq!(names, vec!["y", "x", "z"]);
    assert!(item_lt(&item("a", 0, 1), &item("a", 0, 2)));
    assert!(!item_lt(&item("b", 0, 1), &item("a", 0, 1)));
}

fn mat(name: &str, count: i64) -> Mat {
    Mat { name: name.to_string(), id: 0, count, rank: 1 }
}

fn level(mats: Vec<Mat>, cost: i64) -> AscensionORTalent {
    AscensionORTalent { mats, cost }
}

fn pairs(v: &Vec<ParsedMaterial>) -> Vec<(String, i64)> {
    v.iter().map(|m| (m.name.clone(), m.amount)).collect()
}

#[test]
fn parse_materials_totals_ascensions_and_first_talent() {
    let materials = Materials {
        ascensions: vec![
            level(vec![mat("Gem", 1), mat("Flower", 3)], 20000),
            level(vec![mat("Gem", 3), mat("Flower", 10)], 40000),
        ],
        talents: vec![
            vec![level(vec![mat("Book", 3)], 12500), level(vec![mat("Book", 2), mat("Crown", 1)], 17500)],
            vec![level(vec![mat("Other", 100)], 1)],
        ],
    };
    let (asc, tal) = parse_materials(&materials);
    assert_eq!(
        pairs(&asc),
        vec![("Gem".to_string(), 4), ("Flower".to_string(), 13), ("Cost".to_string(), 60000)]
    );
    assert_eq!(
        pairs(&tal),
        vec![("Crown".to_string(), 1), ("Book".to_string(), 5), ("Cost".to_string(), 30000)]
    );
}

#[test]
fn parse_materials_orders_equal_amounts_by_name() {
    let materials = Materials {
        ascensions: vec![level(vec![mat("b", 2), mat("a", 2)], 2)],
        talents: vec![vec![]],
    };
    let (asc, tal) = parse_materials(&materials);
    assert_eq!(pairs(&asc), vec![("Cost".to_string(), 2), ("a".to_string(), 2), ("b".to_string(), 2)]);
    assert!(tal.is_empty());
}

#[test]
fn parse_materials_merges_a_material_named_cost() {
    let materials = Materials {
        ascensions: vec![level(vec![mat("Cost", 5)], 10)],
        talents: vec![vec![level(vec![], -3)]],
    };
    let (asc, tal) = parse_materials(&materials);
    assert_eq!(pairs(&asc), vec![("Cost".to_string(), 15)]);
    assert_eq!(pairs(&tal), vec![("Cost".to_string(), -3)]);
}

#[test]
fn single_full_parsing_and_conversion() {
    let levels = vec![level(vec![mat("x", 1)], 3), level(vec![mat("x", 2)], 4)];
    let totals = single_full_asc_or_talent_parsing(&levels);
    let mut got = pairs(&totals);
    got.sort();
    assert_eq!(got, vec![("Cost".to_string(), 7), ("x".to_string(), 3)]);
    let (a, t) = convert_maps_to_vecs(&totals, &vec![totals.clone()]);
    assert_eq!(pairs(&a), vec![("x".to_string(), 3), ("Cost".to_string(), 7)]);
    assert_eq!(pairs(&a), pairs(&t));
}
