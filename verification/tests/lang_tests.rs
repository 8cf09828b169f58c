use docpack::lang::I18n;

fn load_languages() {
    let i18n = I18n::new();
    assert!(!i18n.available_langs().is_empty());
}

fn get_string() {
    let i18n = I18n::new();
    let s = i18n.get("app_name");
    assert!(!s.is_empty());
    assert_ne!(s, "app_name");
}

fn switch_lang() {
    let mut i18n = I18n::new();
    i18n.set_lang("en");
    let en = i18n.get("app_name").to_string();
    i18n.set_lang("zh-CN");
    let zh = i18n.get("app_name").to_string();
    assert_ne!(en, zh);
}

fn missing_key() {
    let i18n = I18n::new();
    assert_eq!(i18n.get("nonexistent_key"), "nonexistent_key");
}

#[test]
fn lang_tests_test_lang_load_languages() {
    load_languages();
}

#[test]
fn all_tests_test_lang_load_languages() {
    load_languages();
}

#[test]
fn lang_tests_test_lang_get_string() {
    get_string();
}

#[test]
fn all_tests_test_lang_get_string() {
    get_string();
}

#[test]
fn lang_tests_test_lang_switch_lang() {
    switch_lang();
}

#[test]
fn all_tests_test_lang_switch_lang() {
    switch_lang();
}

#[test]
fn lang_tests_test_lang_missing_key() {
    missing_key();
}

#[test]
fn all_tests_test_lang_missing_key() {
    missing_key();
}

#[test]
fn current_code_follows_set_lang() {
    let mut i18n = I18n::default();
    assert_eq!(i18n.current_code(), "en");
    i18n.load_lang("zh-TW");
    assert_eq!(i18n.current_code(), "zh-TW");
    i18n.set_lang("fr");
    assert_eq!(i18n.current_code(), "fr");
    assert_eq!(i18n.get("app_name"), I18n::new().get("app_name"));
}

#[test]
fn available_langs_are_the_three() {
    let langs = I18n::new().available_langs();
    let codes: Vec<&str> = langs.iter().map(|(c, _)| c.as_str()).collect();
    assert_eq!(codes, vec!["en", "zh-CN", "zh-TW"]);
}
