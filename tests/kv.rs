use line_tools::kv::{process_input, unescape, Args, SplitConfig};

#[test]
fn test_path_pattern() {
    let config = SplitConfig::from_pattern("path").unwrap();
    let input = "C:\\Python313\\Scripts\\;C:\\Python313\\;C:\\Program Files\\NVIDIA GPU Computing Toolkit\\CUDA\\v12.8\\bin";
    let expected = "C:\\Python313\\Scripts\\\nC:\\Python313\\\nC:\\Program Files\\NVIDIA GPU Computing Toolkit\\CUDA\\v12.8\\bin";
    assert_eq!(process_input(input, &config), expected);
}

#[test]
fn test_cookies_pattern() {
    let config = SplitConfig::from_pattern("cookies").unwrap();
    let input = "_device_id=abc123; _octo=GH1.1.1471563711.1750766196; saved_user_sessions=123abc";
    let expected = "_device_id\tabc123\n_octo\tGH1.1.1471563711.1750766196\nsaved_user_sessions\t123abc";
    assert_eq!(process_input(input, &config), expected);
}

#[test]
fn test_custom_separators() {
    let config = SplitConfig {
        item_separator: ",".to_string(),
        kv_separator: Some(":".to_string()),
        item_replacement: "\n".to_string(),
        kv_replacement: " = ".to_string(),
    };
    let input = "name:John, age:30, city:Taipei";
    let expected = "name = John\nage = 30\ncity = Taipei";
    assert_eq!(process_input(input, &config), expected);
}

fn args(pattern: Option<&str>) -> Args {
    Args {
        pattern: pattern.map(|p| p.to_string()),
        item_separator: ";".to_string(),
        kv_separator: Some("=".to_string()),
        item_replacement: "\\n".to_string(),
        kv_replacement: "\\t".to_string(),
    }
}

#[test]
fn pattern_is_case_insensitive() {
    let c = SplitConfig::from_pattern("CoOkIeS").unwrap();
    assert_eq!(c.kv_separator, Some("=".to_string()));
    let p = SplitConfig::from_pattern("PATH").unwrap();
    assert_eq!(p.kv_separator, None);
    assert_eq!(p.item_separator, ";");
    assert_eq!(p.item_replacement, "\n");
    assert_eq!(p.kv_replacement, "\t");
}

#[test]
fn unknown_pattern_gives_none() {
    assert!(SplitConfig::from_pattern("paths").is_none());
    assert!(SplitConfig::from_pattern("").is_none());
    assert!(SplitConfig::from_preset("PATH").is_none());
    assert!(SplitConfig::from_preset("path").is_some());
}

#[test]
fn unescape_each_escape() {
    assert_eq!(unescape("a\\nb\\tc\\rd\\\\e"), "a\nb\tc\rd\\e");
    assert_eq!(unescape("plain"), "plain");
    assert_eq!(unescape(""), "");
    // the kinds are replaced in turn: `\\n` first loses its `\n`
    assert_eq!(unescape("\\\\n"), "\\\n");
}

#[test]
fn for_args_prefers_known_pattern() {
    let (c, warn) = SplitConfig::for_args(&args(Some("Path")));
    assert!(!warn);
    assert_eq!(c.kv_separator, None);

    let (c, warn) = SplitConfig::for_args(&args(Some("nope")));
    assert!(warn);
    assert_eq!(c.kv_separator, Some("=".to_string()));
    assert_eq!(c.item_replacement, "\n");
    assert_eq!(c.kv_replacement, "\t");

    let (c, warn) = SplitConfig::for_args(&args(None));
    assert!(!warn);
    assert_eq!(c.item_separator, ";");
}

#[test]
fn items_trimmed_and_empty_dropped() {
    let config = SplitConfig::from_pattern("path").unwrap();
    assert_eq!(process_input(" a ;; ;b\n", &config), "a\nb");
    assert_eq!(process_input("", &config), "");
    assert_eq!(process_input(" ; ;", &config), "");
}

#[test]
fn only_first_kv_separator_splits() {
    let config = SplitConfig::from_pattern("cookies").unwrap();
    assert_eq!(process_input("a = b=c ; noval", &config), "a\tb=c\nnoval");
    assert_eq!(process_input("=x", &config), "\tx");
}

#[test]
fn empty_item_separator_splits_every_char() {
    let config = SplitConfig {
        item_separator: "".to_string(),
        kv_separator: None,
        item_replacement: ",".to_string(),
        kv_replacement: ":".to_string(),
    };
    assert_eq!(process_input("a b", &config), "a,b");
}

#[test]
fn multi_char_separators() {
    let config = SplitConfig {
        item_separator: "&&".to_string(),
        kv_separator: Some("->".to_string()),
        item_replacement: " | ".to_string(),
        kv_replacement: "=".to_string(),
    };
    assert_eq!(process_input("k1 -> v1&&&k2->v2", &config), "k1=v1 | &k2=v2");
}

#[test]
fn unicode_whitespace_is_trimmed() {
    let config = SplitConfig::from_pattern("cookies").unwrap();
    assert_eq!(
        process_input("\u{3000}k\u{a0}=\u{2003}v\u{85};\u{200b}x", &config),
        "k\tv\n\u{200b}x"
    );
}
