use hakugi::api_funcs::get_item_funcs::build_parsed_card;
use hakugi::base_models::tcg_cards::{CharacterTCG, Cost, TCGChildTypes, TCGTalentEffect, Talent, TalentTCGCost};
use hakugi::parsed_tcg::{ParsedCard, ParsedTCGTalent, ParsedTalent};
use regex::Regex;

fn effect(name: &str, desc: &str, child: Option<Vec<(String, TCGChildTypes)>>) -> TCGTalentEffect {
    TCGTalentEffect { name: name.to_string(), desc: desc.to_string(), child }
}

fn tree_of(pairs: &[(&str, &str)]) -> Vec<(String, String)> {
    pairs.iter().map(|(k, v)| (k.to_string(), v.to_string())).collect()
}

/// The description filling written with regular expressions, to hold the
/// library's scanner against (the last step, the general cleaning, is the
/// library's own `clean_text_colon`).
fn regex_fill(desc: &str, tree: &[(String, String)]) -> String {
    let tags = Regex::new(r"<color=[^>]*>|</color>|\{SPRITE_PRESET#[^>]*\}").unwrap();
    let without = tags.replace_all(desc, "").to_string();
    let val = Regex::new(r"\$\[([^\]]+)\]").unwrap();
    let mut result = String::new();
    let mut last = 0;
    for cap in val.captures_iter(&without) {
        let m = cap.get(0).unwrap();
        let key = cap.get(1).unwrap().as_str();
        result.push_str(&without[last..m.start()]);
        match tree.iter().rev().find(|(k, _)| k == key) {
            Some((_, v)) => result.push_str(v),
            None => result.push_str(&format!("[{key}]")),
        }
        last = m.end();
    }
    result.push_str(&without[last..]);
    let spaced = Regex::new(r"\\n|\n").unwrap().replace_all(&result, " ").to_string();
    let collapsed = Regex::new(r"\s+").unwrap().replace_all(&spaced, " ").trim().to_string();
    hakugi::other_helper_funcs::helper_funcs::clean_text_colon(&collapsed, false).0
}

#[test]
fn child_values_as_text() {
    assert_eq!(TCGChildTypes::Number(0).get(), "0");
    assert_eq!(TCGChildTypes::Number(255).get(), "255");
    assert_eq!(TCGChildTypes::String("Pyro".to_string()).get(), "Pyro");
    assert_eq!(TCGChildTypes::Child(Box::new(effect("Burning", "", None))).get(), "Burning");
}

#[test]
fn effect_tree_and_conversion() {
    let e = effect(
        "Skill",
        "Deals <color=#FFFFFFFF>$[D__KEY__DAMAGE]</color> $[D__KEY__ELEMENT] DMG, $[MISSING].\\nIcon {SPRITE_PRESET#1}",
        Some(vec![
            ("D__KEY__DAMAGE".to_string(), TCGChildTypes::Number(3)),
            ("D__KEY__ELEMENT".to_string(), TCGChildTypes::String("Pyro".to_string())),
        ]),
    );
    let tree = e.get_tree();
    assert_eq!(tree, tree_of(&[("D__KEY__DAMAGE", "3"), ("D__KEY__ELEMENT", "Pyro")]));
    let p: ParsedTCGTalent = e.convert(&tree);
    assert_eq!(p.name, "Skill");
    assert_eq!(p.desc, "Deals 3 Pyro DMG, [MISSING]. Icon");
    assert_eq!(p.desc, regex_fill(&e.desc, &tree));
}

#[test]
fn conversion_agrees_with_regex_filling() {
    let tree = tree_of(&[("A", "1"), ("B", "two words"), ("A", "3")]);
    let descs = [
        "",
        "$[A] and $[B]",
        "$[] stays, $[A",
        "<color=#FF>$[B]</color>\n\n$[C]  end ",
        "{LINK#N1}$[A]{/LINK} linked",
    ];
    for d in descs.iter() {
        let e = effect("n", d, None);
        assert_eq!(e.convert(&tree).desc, regex_fill(d, &tree), "desc {:?}", d);
    }
}

#[test]
fn character_card_tree_collects_all_talents() {
    let card = CharacterTCG {
        name: "Diluc".to_string(),
        card_type: "Character".to_string(),
        hp: Some(10),
        cost: Cost::Character(3),
        tag: vec!["Pyro".to_string()],
        talent: Talent::Character(vec![
            ("1".to_string(), effect("Strike", "Deal $[X] DMG", Some(vec![("X".to_string(), TCGChildTypes::Number(2))]))),
            ("2".to_string(), effect("Burst", "Deal $[Y] DMG", Some(vec![("Y".to_string(), TCGChildTypes::Number(8))]))),
        ]),
    };
    let tree = card.get_tree();
    assert_eq!(tree, tree_of(&[("X", "2"), ("Y", "8")]));
    match card.convert(&tree) {
        ParsedTalent::Character(m) => {
            assert_eq!(m.len(), 2);
            assert_eq!(m[0].1.desc, "Deal 2 DMG");
            assert_eq!(m[1].1.desc, "Deal 8 DMG");
        },
        ParsedTalent::Talent(_) => panic!("a character card has a map of talents"),
    }
    assert_eq!(card.cost.character(), Some(3));
    assert!(card.cost.talent().is_none());
    let copied = card.talent.character().unwrap();
    assert_eq!(copied.len(), 2);
    assert_eq!(copied[1].1.name, "Burst");
    assert!(card.talent.talent().is_none());
}

#[test]
fn build_character_card() {
    let card = CharacterTCG {
        name: "Wanderer".to_string(),
        card_type: "Character".to_string(),
        hp: Some(10),
        cost: Cost::Character(3),
        tag: vec!["Anemo".to_string()],
        talent: Talent::Character(vec![(
            "1".to_string(),
            effect("Yuuban", "Deals $[D] DMG", Some(vec![("D".to_string(), TCGChildTypes::Number(1))])),
        )]),
    };
    match build_parsed_card("1506", card) {
        ParsedCard::Character(c) => {
            assert_eq!(c.name, "Wanderer");
            assert_eq!(c.hp, 10);
            assert_eq!(c.cost, 3);
            assert_eq!(c.tag, vec!["Anemo".to_string()]);
            assert_eq!(c.talents[0].1.desc, "Deals 1 DMG");
        },
        ParsedCard::Talent(_) => panic!("expected a character card"),
    }
}

#[test]
fn build_talent_card() {
    let inner = effect("Inner", "", Some(vec![("Z".to_string(), TCGChildTypes::Number(4))]));
    let card = CharacterTCG {
        name: "Paid in Full".to_string(),
        card_type: "Event".to_string(),
        hp: None,
        cost: Cost::Talent(vec![TalentTCGCost { cost_type: "Same".to_string(), count: Some(2) }]),
        tag: vec![],
        talent: Talent::Talent(effect(
            "Paid in Full",
            "Gain $[Q], $[R]",
            Some(vec![
                ("Q".to_string(), TCGChildTypes::String("dice".to_string())),
                ("R".to_string(), TCGChildTypes::Child(Box::new(inner))),
            ]),
        )),
    };
    let copy = card.talent.talent().unwrap();
    assert_eq!(copy.name, "Paid in Full");
    assert!(card.talent.character().is_none());
    let parsed = build_parsed_card("332001", card);
    assert_eq!(parsed.name(), "Paid in Full");
    match parsed {
        ParsedCard::Talent(t) => {
            assert_eq!(t.card_type, "Event");
            assert_eq!(t.cost.len(), 1);
            assert_eq!(t.cost[0].count, Some(2));
            assert_eq!(t.talents.desc, "Gain dice, Inner");
        },
        ParsedCard::Character(_) => panic!("expected a talent card"),
    }
}
