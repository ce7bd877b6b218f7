use codex_messages::text::{characters, has_prefix, replace, same, split_first};

#[test]
fn replaces_from_the_left_without_overlap() {
    assert_eq!(replace("aaaaa", "aa", "b"), "bba");
    assert_eq!(replace("{k}{k}", "{k}", ""), "");
    assert_eq!(replace("{{k}k}", "{k}", ""), "{k}");
    assert_eq!(replace("none", "{k}", "v"), "none");
    assert_eq!(replace("", "{k}", "v"), "");
    assert_eq!(replace("{k", "{k}", "v"), "{k");
    assert_eq!(replace("计{划}模", "{划}", "x"), "计x模");
    assert_eq!(replace("a_b_c", "_", "-"), "a-b-c");
}

#[test]
fn replaces_as_the_standard_library_does() {
    let texts = ["", "a", "abab", "aabaabaab", "{a}{b}", "计划计划"];
    let patterns = ["a", "ab", "aab", "{a}", "划"];
    for text in texts {
        for pattern in patterns {
            for with in ["", "x", "ab", "{a}"] {
                assert_eq!(replace(text, pattern, with), text.replace(pattern, with));
            }
        }
    }
}

#[test]
fn replacing_a_pattern_with_itself_changes_nothing() {
    assert_eq!(replace("x{k}y{k}", "{k}", "{k}"), "x{k}y{k}");
}

#[test]
fn splits_at_the_first_occurrence() {
    assert_eq!(split_first("zh_CN.UTF-8", '.'), "zh_CN");
    assert_eq!(split_first("a.b.c", '.'), "a");
    assert_eq!(split_first(".b", '.'), "");
    assert_eq!(split_first("计划", '.'), "计划");
    assert_eq!(split_first("", '.'), "");
}

#[test]
fn compares_by_character() {
    assert_eq!(characters("a计"), vec!['a', '计']);
    assert!(has_prefix("zh-CN", "zh"));
    assert!(has_prefix("zh", ""));
    assert!(!has_prefix("z", "zh"));
    assert!(!has_prefix("azh", "zh"));
    assert!(same("zh-CN", "zh-CN"));
    assert!(!same("zh-CN", "zh-TW"));
    assert!(!same("zh", "zh-CN"));
}
