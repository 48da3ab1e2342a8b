use hakugi::api_funcs::get_item_funcs::{
    artifact_access, build_parsed_character, build_parsed_weapon, get_specific_terms, plan_query, query_kind,
    sort_passives, split_ids, try_specific_terms, QueryKind,
};
use hakugi::base_models::character::{
    AscensionORTalent, CharaInfo, CharacterCore, Constellation, HasDescription, Mat, Materials, Passive, Unlock,
};
use hakugi::base_models::hakushin_lists::{JustTheName, MinimalArtifact, MinimalArtifactSet};
use hakugi::base_models::terms::Terms;
use hakugi::base_models::weapon::{self, Item, Refinement, RefinementLevel, SubStat, Weapon};
use hakugi::other_helper_funcs::helper_funcs::{convert_constellations, Parsed};
use hakugi::parsed_artifact::ParsedArtifact;
use hakugi::parsed_models::parsed_character::ParsedSkill;
use std::cmp::Ordering;

#[test]
fn split_ids_on_ascii_white_space() {
    assert_eq!(split_ids("  10000002\t11509\n\n15010  "), vec!["10000002", "11509", "15010"]);
    assert!(split_ids("").is_empty());
    assert!(split_ids(" \r\n\x0c").is_empty());
    assert_eq!(split_ids("a\u{00a0}b c"), vec!["a\u{00a0}b", "c"]);
    for w in split_ids(" x  yz\tw ") {
        assert!(!w.is_empty());
        assert!(!w.contains(' '));
    }
}

#[test]
fn query_kinds_by_length() {
    let sets = vec![("15010".to_string(), MinimalArtifact { set: vec![] })];
    let arts = Some(sets);
    assert_eq!(query_kind("1506", &arts), QueryKind::Card);
    assert_eq!(query_kind("311101", &arts), QueryKind::Card);
    assert_eq!(query_kind("15010", &arts), QueryKind::Artifact);
    assert_eq!(query_kind("11509", &arts), QueryKind::Weapon);
    assert_eq!(query_kind("15010", &None), QueryKind::Weapon);
    assert_eq!(query_kind("10000002", &arts), QueryKind::Character);
    assert_eq!(query_kind("123", &arts), QueryKind::Character);
    assert_eq!(query_kind("é12", &arts), QueryKind::Card);
    assert_eq!(query_kind("", &arts), QueryKind::Character);
}

fn piece(name: &str, desc: &str) -> MinimalArtifactSet {
    MinimalArtifactSet { name: JustTheName { en: name.to_string() }, desc: JustTheName { en: desc.to_string() } }
}

#[test]
fn artifact_bonuses() {
    let artifact = MinimalArtifact {
        set: vec![
            ("2150100".to_string(), piece("Gladiator's Finale", "ATK +18%.")),
            ("2150101".to_string(), piece("Gladiator's Finale", "Normal Attack DMG +35%.")),
        ],
    };
    let a: ParsedArtifact = artifact_access(&artifact, "15010");
    assert_eq!(a.name, "Gladiator's Finale");
    assert_eq!(a.two, "ATK +18%.");
    assert_eq!(a.four, "Normal Attack DMG +35%.");
}

#[test]
fn weapon_is_built() {
    let weapon = Weapon {
        name: "Harbinger of Dawn".to_string(),
        weapon_type: "WEAPON_SWORD_ONE_HAND".to_string(),
        weapon_prop: vec![
            SubStat { prop_type: "FIGHT_PROP_BASE_ATTACK".to_string() },
            SubStat { prop_type: "FIGHT_PROP_CRITICAL_HURT".to_string() },
        ],
        rarity: 3,
        refinement: Refinement {
            r1: RefinementLevel { desc: "CRIT Rate +<color=#99FFFFFF>14%</color>.".to_string() },
            r5: RefinementLevel { desc: "CRIT Rate +<color=#99FFFFFF>28%</color>.".to_string() },
        },
        materials: vec![
            (
                "1".to_string(),
                weapon::Materials { mats: vec![Item { name: "Tile".to_string(), count: 2, rank: 2 }], cost: 5000 },
            ),
            (
                "2".to_string(),
                weapon::Materials { mats: vec![Item { name: "Tile".to_string(), count: 3, rank: 3 }], cost: 10000 },
            ),
        ],
    };
    let w = build_parsed_weapon(weapon);
    assert_eq!(w.name, "Harbinger of Dawn");
    assert_eq!(w.substat, "FIGHT_PROP_CRITICAL_HURT");
    assert_eq!(w.effect, "CRIT Rate +[14%|28%].");
    assert_eq!(w.rarity, 3);
    assert_eq!(w.materials.cost, 15000);
    assert_eq!(w.materials.mats.len(), 1);
    assert_eq!(w.materials.mats[0].count, 5);
    assert_eq!(w.materials.mats[0].rank, 3);
    assert_eq!(Parsed::W(w).name(), "Harbinger of Dawn");
}

fn passive(name: &str, unlock: Unlock) -> Passive {
    Passive { name: name.to_string(), desc: String::new(), unlock }
}

#[test]
fn passives_sorted_stably_by_unlock() {
    let v = vec![
        passive("b", Unlock::Multiple(vec![1, 3])),
        passive("c", Unlock::Single(4)),
        passive("a", Unlock::Multiple(vec![1, 2])),
        passive("d", Unlock::Single(1)),
        passive("e", Unlock::Multiple(vec![])),
    ];
    let names: Vec<String> = sort_passives(v).iter().map(|p| p.name.clone()).collect();
    assert_eq!(names, vec!["d", "c", "e", "b", "a"]);
}

#[test]
fn unlock_order() {
    assert_eq!(Unlock::Single(1).cmp(&Unlock::Single(2)), Ordering::Less);
    assert_eq!(Unlock::Single(9).cmp(&Unlock::Multiple(vec![0])), Ordering::Less);
    assert_eq!(Unlock::Multiple(vec![1, 2]).cmp(&Unlock::Multiple(vec![1, 3])), Ordering::Equal);
    assert_eq!(Unlock::Multiple(vec![1]).cmp(&Unlock::Multiple(vec![1, 3])), Ordering::Less);
    assert_eq!(Unlock::Multiple(vec![]).cmp(&Unlock::Multiple(vec![1])), Ordering::Less);
    assert_eq!(Unlock::Multiple(vec![2]).partial_cmp(&Unlock::Multiple(vec![1])), Some(Ordering::Greater));
    assert!(matches!(Unlock::default(), Unlock::Single(0)));
}

fn term(name: &str, desc: &str) -> Terms {
    Terms { name: name.to_string(), desc: desc.to_string() }
}

#[test]
fn specific_terms_follow_links() {
    let all = vec![
        ("1".to_string(), term("Nightsoul", "Points for {LINK#N2}Burst{/LINK}.")),
        ("2".to_string(), term("Burst", "A <color=#FFFFFFFF>big</color> attack.")),
        ("3".to_string(), term("Unused", "x")),
    ];
    let got = get_specific_terms(&all, &vec!["1".to_string(), "9".to_string()]);
    let mut got: Vec<(String, String)> = got;
    got.sort();
    assert_eq!(
        got,
        vec![
            ("Burst".to_string(), "A big attack.".to_string()),
            ("Nightsoul".to_string(), "Points for Burst.".to_string()),
        ]
    );
    assert!(get_specific_terms(&all, &vec![]).is_empty());
}

#[test]
fn specific_terms_refuse_a_cycle() {
    let all = vec![
        ("1".to_string(), term("A", "see {LINK#N2}B{/LINK}")),
        ("2".to_string(), term("B", "see {LINK#N1}A{/LINK}")),
    ];
    assert!(try_specific_terms(&all, &vec!["1".to_string()]).is_none());
    assert!(try_specific_terms(&all, &vec!["3".to_string()]).unwrap().is_empty());
}

fn level(mats: Vec<Mat>, cost: i64) -> AscensionORTalent {
    AscensionORTalent { mats, cost }
}

#[test]
fn character_is_built() {
    let core = CharacterCore {
        name: "Traveler".to_string(),
        chara_info: CharaInfo { vision: "Pyro".to_string() },
        weapon: "WEAPON_SWORD_ONE_HAND".to_string(),
        rarity: "QUALITY_ORANGE".to_string(),
        ascension_keys: Some(vec![
            "FIGHT_PROP_BASE_ATTACK".to_string(),
            "FIGHT_PROP_ATTACK_PERCENT".to_string(),
            "FIGHT_PROP_BASE_HP".to_string(),
        ]),
        passives: vec![passive("late", Unlock::Single(4)), passive("early", Unlock::Single(1))],
        constellations: vec![],
        materials: Materials {
            ascensions: vec![level(vec![Mat { name: "Gem".to_string(), id: 1, count: 1, rank: 2 }], 20000)],
            talents: vec![vec![level(vec![], 12500)]],
        },
    };
    let skills = vec![ParsedSkill { name: "Strike".to_string(), desc: "d".to_string(), parameters: vec![] }];
    let all = vec![("5".to_string(), term("Ember", "Warm."))];
    let c = build_parsed_character("10000007-2", core, skills, &vec!["5".to_string()], &Some(all));
    assert_eq!(c.name, "Traveler Pyro (F)");
    assert_eq!(c.vision, "Pyro");
    assert_eq!(c.ascension_stat, "FIGHT_PROP_ATTACK_PERCENT");
    assert_eq!(c.passives[0].name, "early");
    assert_eq!(c.skills.len(), 1);
    assert_eq!(c.ascension_mats.len(), 2);
    assert_eq!(c.talent_mats[0].name, "Cost");
    assert_eq!(c.term_descs, Some(vec![("Ember".to_string(), "Warm.".to_string())]));
}

#[test]
fn character_without_terms_or_stat() {
    let core = CharacterCore {
        name: "X".to_string(),
        ascension_keys: None,
        materials: Materials { ascensions: vec![], talents: vec![vec![]] },
        ..Default::default()
    };
    let c = build_parsed_character("10000099", core, vec![], &vec!["1".to_string()], &None);
    assert_eq!(c.ascension_stat, "");
    assert!(c.term_descs.is_none());
    assert!(c.ascension_mats.is_empty());
    let core2 = CharacterCore {
        materials: Materials { ascensions: vec![], talents: vec![vec![]] },
        ..Default::default()
    };
    let c2 = build_parsed_character("1", core2, vec![], &vec!["7".to_string()], &Some(vec![]));
    assert!(c2.term_descs.is_none());
}

#[test]
fn constellations_show_their_special_description() {
    let mut cons = vec![
        Constellation { name: "C1".to_string(), desc: "plain".to_string(), special: None },
        Constellation { name: "C2".to_string(), desc: "plain".to_string(), special: Some("special".to_string()) },
    ];
    let parsed = convert_constellations(&mut cons);
    assert_eq!(parsed.len(), 2);
    assert_eq!(parsed[0].desc, "plain");
    assert_eq!(parsed[1].desc, "special");
    assert_eq!(parsed[1].name, "C2");
    assert_eq!(cons[1].special, Some("special".to_string()));
    let mut p = Passive { name: "p".to_string(), desc: "old".to_string(), unlock: Unlock::Single(1) };
    *p.description() = "new".to_string();
    assert_eq!(p.desc, "new");
    *cons[1].description() = "changed".to_string();
    assert_eq!(cons[1].special, Some("changed".to_string()));
    assert_eq!(cons[1].desc, "plain");
}

#[test]
fn query_plan_fetches_the_glossary_once() {
    let arts = Some(vec![("15010".to_string(), MinimalArtifact { set: vec![] })]);
    let plan = plan_query(" 1506 10000002 15010 11509\t10000003 ", &arts);
    let got: Vec<(String, QueryKind, bool)> = plan.into_iter().map(|s| (s.id, s.kind, s.fetch_terms_first)).collect();
    assert_eq!(
        got,
        vec![
            ("1506".to_string(), QueryKind::Card, false),
            ("10000002".to_string(), QueryKind::Character, true),
            ("15010".to_string(), QueryKind::Artifact, false),
            ("11509".to_string(), QueryKind::Weapon, false),
            ("10000003".to_string(), QueryKind::Character, false),
        ]
    );
    assert!(plan_query("", &None).is_empty());
}
