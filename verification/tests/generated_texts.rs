use hakugi::base_models::tcg_cards::TCGTalentEffect;
use hakugi::helper_funcs;
use hakugi::other_helper_funcs::helper_funcs::{clean_text_colon, compare_color_texts};
use regex::Regex;

const PIECES: [&str; 23] = [
    "<color=#FFD780FF>", "</color>", "<color=", ">", "<i>", "</i>", "\\n", "\n", " ", "  ", "\t",
    "{LINK#N12}", "{/LINK}", "{LINK#S3}", "{SPRITE_PRESET#11}", "}", "a", "12", "%", "/", "$[K]", "é", "\u{0663}",
];

/// A simple generator of texts made of markup pieces.
struct Texts(u64);

impl Texts {
    fn next_text(&mut self) -> String {
        self.0 = self.0.wrapping_mul(6364136223846793005).wrapping_add(1442695040888963407);
        let len = (self.0 >> 59) as usize;
        let mut s = String::new();
        for _ in 0..len {
            self.0 = self.0.wrapping_mul(6364136223846793005).wrapping_add(1442695040888963407);
            s.push_str(PIECES[((self.0 >> 33) % PIECES.len() as u64) as usize]);
        }
        s
    }
}

fn regex_clean(input: &str, keep_colon: bool) -> (String, Vec<String>) {
    let link_re = Regex::new(r"\{LINK#([A-Z]\d+)\}(.*?)\{/LINK\}").unwrap();
    let mut numbers = Vec::new();
    let processed = link_re
        .replace_all(input, |caps: &regex::Captures| {
            numbers.push(caps.get(1).unwrap().as_str().trim_start_matches(char::is_alphabetic).to_string());
            String::from(caps.get(2).unwrap().as_str())
        })
        .to_string();
    let a = Regex::new(r"</color>").unwrap().replace_all(&processed, if keep_colon { ":" } else { "" }).to_string();
    let b = Regex::new(r"<color=[^>]*>").unwrap().replace_all(&a, "").to_string();
    let c = Regex::new(r"<i>.*?</i>").unwrap().replace_all(&b, "").to_string();
    let d = Regex::new(r"\\n|\n").unwrap().replace_all(&c, " ").to_string();
    let e = Regex::new(r"\s+").unwrap().replace_all(&d, " ").to_string();
    let f = if keep_colon {
        e.trim().to_string()
    } else {
        Regex::new(r"\{SPRITE_PRESET#[^>]*\}").unwrap().replace_all(&e, "").trim().to_string()
    };
    (f, numbers)
}

fn regex_clean_colons(input: &str) -> String {
    let a = Regex::new(r"</color>").unwrap().replace_all(input, ":").to_string();
    let b = Regex::new(r"<color=[^>]*>").unwrap().replace_all(&a, "").to_string();
    let c = Regex::new(r"<i>.*?</i>").unwrap().replace_all(&b, "").to_string();
    let d = Regex::new(r"\\n|\n").unwrap().replace_all(&c, " ").to_string();
    Regex::new(r"\s+").unwrap().replace_all(&d, " ").trim().to_string()
}

fn numbered_blocks() -> Regex {
    Regex::new(r"(.*?)(<color=#[0-9A-Fa-f]{8}>((?:\d+%?/)*\d+%?)([^<]*)</color>|$)").unwrap()
}

fn regex_compare(text1: &str, text2: &str) -> String {
    let re = numbered_blocks();
    let mut result = String::new();
    for (a, b) in re.captures_iter(text1).zip(re.captures_iter(text2)) {
        result.push_str(a.get(1).unwrap().as_str());
        if let (Some(n1), Some(n2)) = (a.get(3), b.get(3)) {
            let s1 = a.get(4).map(|m| m.as_str()).unwrap_or("");
            let s2 = b.get(4).map(|m| m.as_str()).unwrap_or("");
            if n1.as_str() == n2.as_str() && s1 == s2 {
                result.push_str(n1.as_str());
                result.push_str(s1);
            } else {
                let common = if s1 == s2 { s1 } else { "" };
                result.push_str(&format!("[{}|{}]{}", n1.as_str(), n2.as_str(), common));
            }
        }
    }
    result
}

fn regex_card_desc(desc: &str) -> String {
    let tags = Regex::new(r"<color=[^>]*>|</color>|\{SPRITE_PRESET#[^>]*\}").unwrap();
    let without = tags.replace_all(desc, "").to_string();
    let val = Regex::new(r"\$\[([^\]]+)\]").unwrap();
    let replaced = val.replace_all(&without, |caps: &regex::Captures| {
        let key = caps.get(1).unwrap().as_str();
        if key == "K" { "v".to_string() } else { format!("[{key}]") }
    });
    let spaced = Regex::new(r"\\n|\n").unwrap().replace_all(&replaced, " ").to_string();
    let collapsed = Regex::new(r"\s+").unwrap().replace_all(&spaced, " ").trim().to_string();
    regex_clean(&collapsed, false).0
}

#[test]
fn generated_texts_clean_like_regex_cleaning() {
    let mut gen = Texts(7);
    for _ in 0..300 {
        let s = gen.next_text();
        assert_eq!(clean_text_colon(&s, false), regex_clean(&s, false), "input {:?}", s);
        assert_eq!(clean_text_colon(&s, true), regex_clean(&s, true), "input {:?}", s);
        assert_eq!(helper_funcs::clean_text(&s), regex_clean_colons(&s), "input {:?}", s);
    }
}

#[test]
fn generated_texts_compare_like_regex_comparison() {
    let mut gen = Texts(11);
    let re = numbered_blocks();
    let mut compared = 0;
    for _ in 0..3000 {
        let a = gen.next_text();
        let b = gen.next_text();
        for (x, y) in [(&a, &a), (&a, &b)] {
            if re.captures_iter(x).count() == re.captures_iter(y).count() {
                assert_eq!(compare_color_texts(x, y), regex_compare(x, y), "inputs {:?} {:?}", x, y);
                compared += 1;
            }
        }
    }
    assert!(compared > 3000);
}

#[test]
fn generated_card_texts_fill_like_regex_filling() {
    let mut gen = Texts(13);
    let tree = vec![("K".to_string(), "v".to_string())];
    for _ in 0..300 {
        let d = gen.next_text();
        let e = TCGTalentEffect { name: String::new(), desc: d.clone(), child: None };
        assert_eq!(e.convert(&tree).desc, regex_card_desc(&d), "desc {:?}", d);
    }
}
