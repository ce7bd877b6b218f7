use codex_messages::l10n::{
    active_locale, init, init_from_env, install, locale_for_language, lookup, lookup_with_args,
    read_bundle, try_init, try_init_from_env, Bundle, InvalidBundle, L10n,
};

fn chinese() -> L10n {
    let mut l10n = L10n::new();
    init(&mut l10n, "zh-CN");
    l10n
}

fn bundle_of(messages: &[(&str, &str)]) -> Bundle {
    Bundle::from_messages(
        messages.iter().map(|(id, text)| (id.to_string(), text.to_string())).collect(),
    )
}

#[test]
fn test_en_us_fallback() {
    // Without init, lookup returns the ID itself.
    assert_eq!(lookup(&L10n::new(), "plan-mode"), "plan-mode");
}

#[test]
fn test_zh_cn_lookup() {
    let l10n = chinese();
    assert_eq!(lookup(&l10n, "plan-mode"), "计划模式");
    assert_eq!(lookup(&l10n, "sandbox-type"), "沙箱");
}

#[test]
fn test_args_substitution() {
    let l10n = chinese();
    let msg = lookup_with_args(&l10n, "approval-needed-in", &[("thread", "test")]);
    assert_eq!(msg, "test 需要审批");
}

#[test]
fn test_missing_key_falls_back() {
    let l10n = chinese();
    // Keys not in zh-CN fall back to the key itself.
    assert_eq!(lookup(&l10n, "nonexistent-key"), "nonexistent-key");
}

#[test]
fn test_macro_tr() {
    let l10n = chinese();
    assert_eq!(lookup(&l10n, "plan-mode"), "计划模式");
}

#[test]
fn test_macro_tr_fmt() {
    let l10n = chinese();
    let msg = lookup_with_args(&l10n, "approval-needed-in", &[("thread", "session-1")]);
    assert_eq!(msg, "session-1 需要审批");
}

#[test]
fn english_messages_are_their_ids() {
    let mut l10n = L10n::new();
    init(&mut l10n, "en-US");
    assert_eq!(lookup(&l10n, "plan-mode"), "plan-mode");
    assert_eq!(lookup(&l10n, "no-such-message"), "no-such-message");
    assert_eq!(active_locale(&l10n), "en-US");
}

#[test]
fn locale_without_bundle_keeps_its_code_and_uses_english() {
    let mut l10n = L10n::new();
    init(&mut l10n, "fr-FR");
    assert_eq!(active_locale(&l10n), "fr-FR");
    assert_eq!(lookup(&l10n, "plan-mode"), "plan-mode");
}

#[test]
fn active_locale_before_and_after_initialisation() {
    let mut l10n = L10n::new();
    assert_eq!(active_locale(&l10n), "en-US");
    init(&mut l10n, "zh-CN");
    assert_eq!(active_locale(&l10n), "zh-CN");
}

#[test]
fn only_the_first_initialisation_takes_effect() {
    let mut l10n = chinese();
    init(&mut l10n, "en-US");
    init_from_env(&mut l10n, Some("en_US"), None);
    install(&mut l10n, "xx", bundle_of(&[("plan-mode", "other")]));
    assert_eq!(active_locale(&l10n), "zh-CN");
    assert_eq!(lookup(&l10n, "plan-mode"), "计划模式");
}

#[test]
fn embedded_bundles_are_valid() {
    for locale in ["zh-CN", "en-US", "de-DE"] {
        let mut l10n = L10n::new();
        assert_eq!(try_init(&mut l10n, locale), Ok(()));
        assert_eq!(active_locale(&l10n), locale);
    }
    let mut l10n = L10n::new();
    assert_eq!(try_init_from_env(&mut l10n, None, Some("zh_TW.UTF-8")), Ok(()));
    assert_eq!(lookup(&l10n, "sandbox-type"), "沙箱");
}

#[test]
fn environment_decides_the_locale() {
    let cases: [(Option<&str>, Option<&str>, &str); 8] = [
        (Some("zh-CN"), None, "zh-CN"),
        (Some("zh_CN.UTF-8"), Some("en_US.UTF-8"), "zh-CN"),
        (Some("en_US"), Some("zh_CN"), "en-US"),
        (Some(""), Some("zh_CN"), "en-US"),
        (None, Some("zh_CN.UTF-8"), "zh-CN"),
        (None, Some("en_US.UTF-8"), "en-US"),
        (None, Some("ja_JP"), "en-US"),
        (None, None, "en-US"),
    ];
    for (codex_locale, lang, expected) in cases {
        let mut l10n = L10n::new();
        init_from_env(&mut l10n, codex_locale, lang);
        assert_eq!(active_locale(&l10n), expected);
    }
}

#[test]
fn every_variant_of_chinese_has_one_locale() {
    assert_eq!(locale_for_language("zh"), "zh-CN");
    assert_eq!(locale_for_language("zh_Hant_HK.UTF-8"), "zh-CN");
    assert_eq!(locale_for_language("zh.UTF-8"), "zh-CN");
    assert_eq!(locale_for_language("z.h"), "en-US");
    assert_eq!(locale_for_language("_zh"), "en-US");
    assert_eq!(locale_for_language("z"), "en-US");
    assert_eq!(locale_for_language("ZH_CN"), "en-US");
    assert_eq!(locale_for_language(".zh"), "en-US");
}

#[test]
fn bundle_is_read_from_json() {
    let bundle = read_bundle("{\"a\": \"1\", \"b\": \"2\", \"a\": \"3\"}").expect("valid");
    assert_eq!(bundle.get("a"), Some("3"));
    assert_eq!(bundle.get("b"), Some("2"));
    assert_eq!(bundle.get("c"), None);
    assert_eq!(read_bundle("{}").expect("valid").get("a"), None);
}

#[test]
fn bundle_that_is_no_object_of_strings_is_invalid() {
    for raw in ["", "not json", "[]", "{\"a\": 1}", "{\"a\": \"b\"} x", "{\"a\": \"line\\nbreak\"}"] {
        assert_eq!(read_bundle(raw).err(), Some(InvalidBundle));
    }
}

#[test]
fn installed_messages_are_looked_up() {
    let mut l10n = L10n::new();
    install(&mut l10n, "xx", bundle_of(&[("a", "first"), ("b", "second"), ("a", "third")]));
    assert_eq!(active_locale(&l10n), "xx");
    assert_eq!(lookup(&l10n, "a"), "third");
    assert_eq!(lookup(&l10n, "b"), "second");
    assert_eq!(lookup(&l10n, "c"), "c");
}

#[test]
fn arguments_are_substituted_one_after_another() {
    let mut l10n = L10n::new();
    install(&mut l10n, "xx", bundle_of(&[("m", "{a}-{b}-{a}-{c}-a")]));
    assert_eq!(lookup_with_args(&l10n, "m", &[]), "{a}-{b}-{a}-{c}-a");
    assert_eq!(lookup_with_args(&l10n, "m", &[("a", "1"), ("b", "2")]), "1-2-1-{c}-a");
    assert_eq!(lookup_with_args(&l10n, "m", &[("a", "{b}"), ("b", "2")]), "2-2-2-{c}-a");
    assert_eq!(lookup_with_args(&l10n, "m", &[("b", "2"), ("a", "{b}")]), "{b}-2-{b}-{c}-a");
    assert_eq!(lookup_with_args(&l10n, "m", &[("d", "4"), ("-", "+")]), "{a}-{b}-{a}-{c}-a");
    assert_eq!(lookup_with_args(&l10n, "x{y}", &[("y", "z")]), "xz");
    assert_eq!(lookup_with_args(&l10n, "{}{}", &[("", "e")]), "ee");
}
