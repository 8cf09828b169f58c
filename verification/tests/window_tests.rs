use docpack::ignore::ExcludeRules;
use docpack::window::arrow_keys;
use docpack::window::click;
use docpack::window::effective_encodings;
use docpack::window::encodings_from_text;
use docpack::window::fill_placeholder;
use docpack::window::initial_exclude_text;
use docpack::window::remove_selected;
use docpack::window::rules_for_text;
use docpack::window::select_all;
use docpack::window::sync_exclude;
use docpack::window::Arrow;

#[test]
fn click_selects_toggles_and_extends() {
    assert_eq!(click(&vec![1, 4], 2, false, false), vec![2]);
    assert_eq!(click(&vec![1, 4], 4, true, false), vec![1]);
    assert_eq!(click(&vec![1, 4], 2, true, false), vec![1, 4, 2]);
    assert_eq!(click(&vec![1, 4], 2, false, true), vec![2, 3, 4]);
    assert_eq!(click(&vec![1], 3, false, true), vec![1, 2, 3]);
    assert_eq!(click(&Vec::new(), 2, false, true), vec![0, 1, 2]);
}

#[test]
fn arrows_move_once_per_press() {
    let (last, sel) = arrow_keys(None, true, false, true, &vec![1], 3);
    assert_eq!(last, Some(Arrow::Down));
    assert_eq!(sel, Some(vec![2]));
    let (last, sel) = arrow_keys(Some(Arrow::Down), true, false, true, &vec![2], 3);
    assert_eq!(last, Some(Arrow::Down));
    assert_eq!(sel, None);
    let (last, sel) = arrow_keys(Some(Arrow::Down), false, false, false, &vec![2], 3);
    assert_eq!(last, None);
    assert_eq!(sel, None);
    let (_, sel) = arrow_keys(None, true, false, true, &vec![2], 3);
    assert_eq!(sel, Some(vec![2]));
    let (last, sel) = arrow_keys(None, false, true, true, &Vec::new(), 3);
    assert_eq!(last, Some(Arrow::Up));
    assert_eq!(sel, Some(vec![2]));
    let (_, sel) = arrow_keys(None, false, true, true, &vec![0], 3);
    assert_eq!(sel, Some(vec![0]));
}

#[test]
fn delete_removes_selected_rows() {
    let mut items = vec!["a", "b", "c", "d"];
    remove_selected(&mut items, &vec![3, 1, 9]);
    assert_eq!(items, vec!["a", "c"]);
    let mut all = vec![1, 2];
    remove_selected(&mut all, &select_all(2));
    assert!(all.is_empty());
}

#[test]
fn exclude_text_defaults_and_sync() {
    let defaults = ExcludeRules::default_patterns().join("\n");
    assert_eq!(initial_exclude_text(""), defaults);
    assert_eq!(initial_exclude_text("*.log"), "*.log");
    assert_eq!(sync_exclude("  \n "), (String::new(), defaults));
    assert_eq!(sync_exclude("*.tmp\n"), ("*.tmp\n".to_string(), "*.tmp\n".to_string()));
}

#[test]
fn rules_for_blank_and_written_text() {
    let blank = rules_for_text("   ");
    assert!(blank.is_excluded("image.png"));
    let written = rules_for_text("*.log\n");
    assert!(written.is_excluded("a.log"));
    assert!(!written.is_excluded("image.png"));
}

#[test]
fn encodings_from_settings_and_text() {
    let defaults: Vec<String> = vec!["UTF-8".into(), "GBK".into(), "SHIFT_JIS".into(), "EUC-KR".into()];
    assert_eq!(effective_encodings(&Vec::new()), defaults);
    assert_eq!(effective_encodings(&vec!["Big5".to_string()]), vec!["Big5".to_string()]);
    assert_eq!(encodings_from_text(""), defaults);
    assert_eq!(encodings_from_text(" GBK \nBig5"), vec!["GBK".to_string(), "Big5".to_string()]);
}

#[test]
fn placeholders_are_filled() {
    assert_eq!(fill_placeholder("Packed {count} files", "{count}", "3"), "Packed 3 files");
    assert_eq!(fill_placeholder("{count}/{count}", "{count}", "7"), "7/7");
    assert_eq!(fill_placeholder("none here", "{count}", "7"), "none here");
    assert_eq!(fill_placeholder("ab", "", "-"), "ab".replace("", "-"));
}
