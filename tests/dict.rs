use screen_lookup::dict::{chunck_def, mw_prs_to_prs, word_from_local, Pronounce, Prs, StarWord, Word};
use screen_lookup::entry::{entry_from_json, entry_to_json};
use screen_lookup::json::JsonValue;
use screen_lookup::text::{parse_confidence, parse_i32, split_lines, split_on_char};

fn s(x: &str) -> String {
    x.to_string()
}

fn sample_word() -> Word {
    Word {
        hw: s("set"),
        def: vec![s("to put"), s("a group"), s("")],
        trans: vec![s("v. 放置"), s("n. 一套")],
        prs: vec![
            Prs { ipa: Some(s("sɛt")), audio: None },
            Prs { ipa: None, audio: Some(s("set00001")) },
            Prs { ipa: None, audio: None },
        ],
    }
}

fn same_prs(a: &Prs, b: &Prs) -> bool {
    a.ipa == b.ipa && a.audio == b.audio
}

fn same_word(a: &Word, b: &Word) -> bool {
    a.hw == b.hw
        && a.def == b.def
        && a.trans == b.trans
        && a.prs.len() == b.prs.len()
        && a.prs.iter().zip(b.prs.iter()).all(|(x, y)| same_prs(x, y))
}

#[test]
fn chunck_def_splits_lines() {
    assert_eq!(Vec::<String>::new(), chunck_def(None));
    assert_eq!(Vec::<String>::new(), chunck_def(Some(s(""))));
    assert_eq!(vec![s("n. one"), s("v. two")], chunck_def(Some(s("n. one\nv. two"))));
    assert_eq!(vec![s("a"), s(""), s("b")], chunck_def(Some(s("a\r\n\nb\n"))));
}

#[test]
fn split_lines_like_std() {
    for text in ["", "\n", "a", "a\n", "a\r\nb", "a\rb\r", "\r\n\r\n", "x\n\ny\r\n"] {
        let expected: Vec<String> = text.lines().map(|l| l.to_string()).collect();
        assert_eq!(expected, split_lines(text), "{:?}", text);
    }
}

#[test]
fn split_on_char_keeps_empty_pieces() {
    assert_eq!(vec![s(""), s("a"), s(""), s("b"), s("")], split_on_char("\ta\t\tb\t", '\t'));
    assert_eq!(vec![s("")], split_on_char("", '\t'));
}

#[test]
fn parse_i32_like_std() {
    for text in ["0", "-0", "+7", "42", "-2147483648", "2147483647", "2147483648", "-2147483649", "", "+", "-", "1a", " 1", "99999999999999999999"] {
        assert_eq!(text.parse::<i32>().ok(), parse_i32(text), "{:?}", text);
    }
}

#[test]
fn parse_confidence_sign() {
    assert_eq!(Some(true), parse_confidence("96.537102"));
    assert_eq!(Some(true), parse_confidence("+0.01"));
    assert_eq!(Some(true), parse_confidence("5."));
    assert_eq!(Some(false), parse_confidence("-1"));
    assert_eq!(Some(false), parse_confidence("0.000"));
    assert_eq!(Some(false), parse_confidence("-.5"));
    assert_eq!(None, parse_confidence(""));
    assert_eq!(None, parse_confidence("."));
    assert_eq!(None, parse_confidence("1.2.3"));
    assert_eq!(None, parse_confidence("abc"));
    assert_eq!(Some(true), parse_confidence("1e1"));
    assert_eq!(Some(true), parse_confidence("5E-3"));
    assert_eq!(Some(true), parse_confidence("+2.5e+10"));
    assert_eq!(Some(false), parse_confidence("-1e2"));
    assert_eq!(Some(false), parse_confidence("0.0e5"));
    assert_eq!(None, parse_confidence("1e"));
    assert_eq!(None, parse_confidence("1e+"));
    assert_eq!(None, parse_confidence("e5"));
    assert_eq!(None, parse_confidence("1.5e2.3"));
    assert_eq!(None, parse_confidence("1e5e5"));
    assert_eq!(None, parse_confidence("inf"));
}

#[test]
fn local_row_becomes_entry() {
    let row = StarWord {
        word: s("set"),
        phonetic: Some(s("set")),
        definition: Some(s("n. a group\nv. to put")),
        translation: None,
    };
    let w = word_from_local(row);
    assert_eq!("set", w.hw);
    assert_eq!(vec![s("n. a group"), s("v. to put")], w.def);
    assert!(w.trans.is_empty());
    assert_eq!(1, w.prs.len());
    assert_eq!(Some(s("set")), w.prs[0].ipa);
    assert_eq!(None, w.prs[0].audio);
}

#[test]
fn remote_pronunciation_keeps_both_parts() {
    let p = mw_prs_to_prs(&Pronounce { ipa: s("ˈsɛt"), audio: s("set00001") });
    assert_eq!(Some(s("ˈsɛt")), p.ipa);
    assert_eq!(Some(s("set00001")), p.audio);
}

#[test]
fn entry_json_layout() {
    let v = entry_to_json(&sample_word());
    match v {
        JsonValue::Object(members) => {
            let keys: Vec<&str> = members.iter().map(|(k, _)| k.as_str()).collect();
            assert_eq!(vec!["hw", "def", "trans", "prs"], keys);
            assert!(matches!(&members[0].1, JsonValue::Str(h) if h == "set"));
        }
        _ => panic!("not an object"),
    }
}

#[test]
fn entry_round_trip() {
    let w = sample_word();
    let back = entry_from_json(&entry_to_json(&w)).unwrap();
    assert!(same_word(&w, &back));
}

#[test]
fn entry_from_json_rejects_wrong_shape() {
    assert!(entry_from_json(&JsonValue::Array(vec![])).is_none());
    let v = JsonValue::Object(vec![
        (s("hw"), JsonValue::Str(s("x"))),
        (s("def"), JsonValue::Array(vec![JsonValue::Number(s("1"))])),
        (s("trans"), JsonValue::Array(vec![])),
        (s("prs"), JsonValue::Array(vec![])),
    ]);
    assert!(entry_from_json(&v).is_none());
}

#[test]
fn entry_from_json_reads_missing_options_as_none() {
    let v = JsonValue::Object(vec![
        (s("prs"), JsonValue::Array(vec![JsonValue::Object(vec![])])),
        (s("trans"), JsonValue::Array(vec![])),
        (s("extra"), JsonValue::Bool(true)),
        (s("def"), JsonValue::Array(vec![])),
        (s("hw"), JsonValue::Str(s("x"))),
    ]);
    let w = entry_from_json(&v).unwrap();
    assert_eq!("x", w.hw);
    assert_eq!(1, w.prs.len());
    assert!(w.prs[0].ipa.is_none() && w.prs[0].audio.is_none());
}
