use hakugi::helper_funcs;
use hakugi::other_helper_funcs::helper_funcs::{clean_text, clean_text_colon, compare_color_texts};
use regex::Regex;

/// The cleaning of descriptions written with regular expressions, to hold
/// the library's scanner against.
fn regex_clean(input: &str, keep_colon: bool) -> (String, Vec<String>) {
    let link_re = Regex::new(r"\{LINK#([A-Z]\d+)\}(.*?)\{/LINK\}").unwrap();
    let mut link_numbers = Vec::new();
    let processed = link_re
        .replace_all(input, |caps: &regex::Captures| {
            let num = caps.get(1).unwrap().as_str().trim_start_matches(char::is_alphabetic);
            link_numbers.push(num.to_string());
            String::from(caps.get(2).unwrap().as_str())
        })
        .to_string();
    let rep = if keep_colon { ":" } else { "" };
    let a = Regex::new(r"</color>").unwrap().replace_all(&processed, rep).to_string();
    let b = Regex::new(r"<color=[^>]*>").unwrap().replace_all(&a, "").to_string();
    let c = Regex::new(r"<i>.*?</i>").unwrap().replace_all(&b, "").to_string();
    let d = Regex::new(r"\\n|\n").unwrap().replace_all(&c, " ").to_string();
    let e = Regex::new(r"\s+").unwrap().replace_all(&d, " ").to_string();
    let f = if keep_colon {
        e.trim().to_string()
    } else {
        Regex::new(r"\{SPRITE_PRESET#[^>]*\}").unwrap().replace_all(&e, "").trim().to_string()
    };
    (f, link_numbers)
}

fn regex_clean_first(input: &str) -> String {
    let a = Regex::new(r"</color>").unwrap().replace_all(input, ":").to_string();
    let b = Regex::new(r"<color=[^>]*>").unwrap().replace_all(&a, "").to_string();
    let c = Regex::new(r"<i>.*?</i>").unwrap().replace_all(&b, "").to_string();
    let d = Regex::new(r"\\n|\n").unwrap().replace_all(&c, " ").to_string();
    Regex::new(r"\s+").unwrap().replace_all(&d, " ").trim().to_string()
}

fn regex_compare(text1: &str, text2: &str) -> String {
    let re = Regex::new(r"(.*?)(<color=#[0-9A-Fa-f]{8}>((?:\d+%?/)*\d+%?)([^<]*)</color>|$)").unwrap();
    let mut c1 = re.captures_iter(text1);
    let mut c2 = re.captures_iter(text2);
    let mut result = String::new();
    loop {
        match (c1.next(), c2.next()) {
            (None, None) => break,
            (Some(a), Some(b)) => {
                result.push_str(a.get(1).unwrap().as_str());
                if let (Some(n1), Some(n2)) = (a.get(3), b.get(3)) {
                    let s1 = a.get(4).map(|m| m.as_str()).unwrap_or("");
                    let s2 = b.get(4).map(|m| m.as_str()).unwrap_or("");
                    if n1.as_str() == n2.as_str() && s1 == s2 {
                        result.push_str(n1.as_str());
                        result.push_str(s1);
                    } else {
                        let common = if s1 == s2 { s1 } else { "" };
                        result.push_str(&format!("[{}|{}]{}", n1.as_str(), n2.as_str(), common));
                    }
                }
            },
            _ => panic!("Text structure differs between inputs"),
        }
    }
    result
}

fn regex_compare_first(text1: &str, text2: &str) -> String {
    let re = Regex::new(r"(.*?)(<color=#[0-9A-Fa-f]{8}>([^<]*)</color>|$)").unwrap();
    let mut c1 = re.captures_iter(text1);
    let mut c2 = re.captures_iter(text2);
    let mut result = String::new();
    loop {
        match (c1.next(), c2.next()) {
            (None, None) => break,
            (Some(a), Some(b)) => {
                let p1 = a.get(1).unwrap().as_str();
                assert_eq!(p1, b.get(1).unwrap().as_str());
                result.push_str(p1);
                if let (Some(x), Some(y)) = (a.get(3), b.get(3)) {
                    if x.as_str() == y.as_str() {
                        result.push_str(x.as_str());
                    } else {
                        result.push_str(&format!("[{}|{}]", x.as_str(), y.as_str()));
                    }
                }
            },
            _ => panic!("Text structure differs between inputs"),
        }
    }
    result
}

const SAMPLES: [&str; 12] = [
    "",
    "plain text",
    "Deals <color=#FFD780FF>AoE Pyro DMG</color>.\\nThen <i>(a note)</i> more.",
    "  lead and   trail \n ",
    "{LINK#N11}Nightsoul{/LINK} points and {LINK#S2}Shield{/LINK} strength",
    "{LINK#N11}open without close",
    "<color=#FFFFFFFF>a</color><color=#00000000>b</color>",
    "icon {SPRITE_PRESET#11001} here",
    "tab\tand\u{00a0}nbsp\u{3000}ideographic",
    "<i>unclosed italic and <color=>x</color>",
    "multi\nline\\nescaped\\",
    "ünïcödé <color=#AABBCCDD>wörd</color> ✓",
];

#[test]
fn clean_text_agrees_with_regex_cleaning() {
    for s in SAMPLES.iter() {
        let (text, links) = clean_text(s);
        let (want_text, want_links) = regex_clean(s, false);
        assert_eq!(text, want_text, "input {:?}", s);
        assert_eq!(links, want_links, "input {:?}", s);
    }
}

#[test]
fn clean_text_colon_agrees_with_regex_cleaning() {
    for s in SAMPLES.iter() {
        assert_eq!(clean_text_colon(s, true), regex_clean(s, true), "input {:?}", s);
        assert_eq!(clean_text_colon(s, false), regex_clean(s, false), "input {:?}", s);
    }
}

#[test]
fn first_clean_text_agrees_with_regex_cleaning() {
    for s in SAMPLES.iter() {
        assert_eq!(helper_funcs::clean_text(s), regex_clean_first(s), "input {:?}", s);
    }
}

#[test]
fn clean_text_exact_values() {
    let (t, links) = clean_text_colon("Deals <color=#FFD780FF>Pyro DMG</color>\\nand {LINK#N12}Burn{/LINK}.", true);
    assert_eq!(t, "Deals Pyro DMG: and Burn.");
    assert_eq!(links, vec!["12".to_string()]);
    let (t2, _) = clean_text("Use {SPRITE_PRESET#2101} now <i>(hint)</i>");
    assert_eq!(t2, "Use  now");
    assert_eq!(helper_funcs::clean_text("<color=#FF>Atk</color> up"), "Atk: up");
}

#[test]
fn compare_color_texts_merges_refinements() {
    let r1 = "ATK +<color=#99FFFFFF>20%</color> for <color=#99FFFFFF>6s</color>.";
    let r5 = "ATK +<color=#99FFFFFF>40%</color> for <color=#99FFFFFF>6s</color>.";
    assert_eq!(compare_color_texts(r1, r5), "ATK +[20%|40%] for 6s.");
    assert_eq!(compare_color_texts(r1, r5), regex_compare(r1, r5));
}

#[test]
fn compare_color_texts_agrees_with_regex() {
    let pairs = [
        ("", ""),
        ("no colour", "no colour"),
        ("a <color=#FFFFFFFF>1/2/3%</color> b", "a <color=#FFFFFFFF>4/5/6%</color> b"),
        ("x <color=#FFFFFFFF>10 sec</color>", "x <color=#FFFFFFFF>12 min</color>"),
        ("x <color=#FFFFFFFF>word</color> y", "z <color=#FFFFFFFF>word</color> y"),
        ("<color=#FFFFFFFF>5</color><color=#FFFFFFFF>6</color>", "<color=#FFFFFFFF>7</color><color=#FFFFFFFF>6</color>"),
    ];
    for (a, b) in pairs.iter() {
        assert_eq!(compare_color_texts(a, b), regex_compare(a, b), "inputs {:?} {:?}", a, b);
    }
}

#[test]
fn first_compare_color_texts_agrees_with_regex() {
    let pairs = [
        ("", ""),
        ("a <color=#FFFFFFFF>x</color> b", "a <color=#FFFFFFFF>y</color> b"),
        ("<color=#FFFFFFFF>same</color>", "<color=#FFFFFFFF>same</color>"),
    ];
    for (a, b) in pairs.iter() {
        assert_eq!(helper_funcs::compare_color_texts(a, b), regex_compare_first(a, b));
    }
    assert_eq!(
        helper_funcs::compare_color_texts("a <color=#FFFFFFFF>x</color> b", "a <color=#FFFFFFFF>y</color> b"),
        "a [x|y] b"
    );
}

#[test]
fn unicode_digits_count_as_digits() {
    let s = "{LINK#N\u{0661}\u{0662}}x{/LINK} y";
    assert_eq!(clean_text(s), regex_clean(s, false));
    assert_eq!(clean_text(s).1, vec!["\u{0661}\u{0662}".to_string()]);
    let a = "v <color=#99FFFFFF>\u{0663}%</color>";
    let b = "v <color=#99FFFFFF>\u{0664}%</color>";
    assert_eq!(compare_color_texts(a, b), regex_compare(a, b));
    assert_eq!(compare_color_texts(a, b), "v [\u{0663}%|\u{0664}%]");
}
