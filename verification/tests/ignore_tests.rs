use docpack::ignore::ExcludeRules;
use docpack::ignore::IgnoreFile;

#[test]
fn test_default_excludes() {
    let rules = ExcludeRules::new();
    assert!(rules.is_excluded(".git/config"));
    assert!(rules.is_excluded("node_modules/foo"));
    assert!(rules.is_excluded("node_modules"));
    assert!(rules.is_excluded("target/debug/app.exe"));
    assert!(rules.is_excluded("image.png"));
    assert!(!rules.is_excluded("src/main.rs"));
    assert!(!rules.is_excluded("readme.md"));
}

#[test]
fn test_custom_pattern() {
    let mut rules = ExcludeRules::new();
    rules.add_pattern("*.log");
    assert!(rules.is_excluded("error.log"));
    assert!(!rules.is_excluded("error.txt"));
}

#[test]
fn test_dir_pattern() {
    let mut rules = ExcludeRules::new();
    rules.add_pattern("build/");
    assert!(rules.is_excluded("build/output.o"));
    assert!(rules.is_excluded("build/sub/dir/file.o"));
    assert!(!rules.is_excluded("src/build.rs"));
}

#[test]
fn test_glob_starstar() {
    let mut rules = ExcludeRules::new();
    rules.add_pattern("**/temp");
    assert!(rules.is_excluded("a/b/temp"));
    assert!(rules.is_excluded("temp"));
}

#[test]
fn test_glob_starstar_middle() {
    let mut rules = ExcludeRules::new();
    rules.add_pattern("a/**/b");
    assert!(rules.is_excluded("a/b"));
    assert!(rules.is_excluded("a/x/b"));
    assert!(rules.is_excluded("a/x/y/b"));
    assert!(rules.is_excluded("a/xc/b"));
    assert!(!rules.is_excluded("x/a/b"));
}

#[test]
fn test_glob_starstar_trailing() {
    let mut rules = ExcludeRules::new();
    rules.add_pattern("a/**");
    assert!(rules.is_excluded("a/b"));
    assert!(rules.is_excluded("a/b/c"));
    assert!(!rules.is_excluded("a"));
    assert!(!rules.is_excluded("b/a"));
}

#[test]
fn test_glob_starstar_alone() {
    let mut rules = ExcludeRules::new();
    rules.add_pattern("**");
    assert!(rules.is_excluded("anything"));
    assert!(rules.is_excluded("a/b/c"));
}

#[test]
fn test_glob_starstar_deep_nested() {
    let mut rules = ExcludeRules::new();
    rules.add_pattern("x/**/z");
    assert!(rules.is_excluded("x/z"));
    assert!(rules.is_excluded("x/y/z"));
    assert!(rules.is_excluded("x/y/y/z"));
    assert!(!rules.is_excluded("x/y/zz"));
    assert!(!rules.is_excluded("xx/y/z"));
}

#[test]
fn test_glob_starstar_multiple() {
    let mut rules = ExcludeRules::new();
    rules.add_pattern("a/**/b/**/c");
    assert!(rules.is_excluded("a/b/c"));
    assert!(rules.is_excluded("a/x/b/y/c"));
    assert!(rules.is_excluded("a/x/y/b/z/w/c"));
    assert!(!rules.is_excluded("a/x/b/y/d"));
}

#[test]
fn test_glob_question() {
    let mut rules = ExcludeRules::new();
    rules.add_pattern("?.txt");
    assert!(rules.is_excluded("a.txt"));
    assert!(!rules.is_excluded("ab.txt"));
}

#[test]
fn test_basename_matching() {
    let mut rules = ExcludeRules::new();
    rules.add_pattern("config");
    assert!(rules.is_excluded("config"));
    assert!(rules.is_excluded("dir/config"));
    assert!(!rules.is_excluded("config.json"));
}

#[test]
fn test_negation() {
    let mut rules = ExcludeRules::new();
    rules.add_pattern("*.log");
    rules.add_pattern("!keep.log");
    assert!(rules.is_excluded("error.log"));
    assert!(!rules.is_excluded("keep.log"));
    assert!(!rules.is_excluded("sub/keep.log"));
}

#[test]
fn test_anchored_pattern() {
    let mut rules = ExcludeRules { patterns: Vec::new() };
    rules.add_pattern("/build");
    assert!(rules.is_excluded("build"));
    assert!(!rules.is_excluded("src/build"));
}

#[test]
fn test_directory_only() {
    let mut rules = ExcludeRules::new();
    rules.add_pattern("logs/");
    assert!(rules.is_excluded("logs/app.log"));
    assert!(rules.is_excluded("logs"));
    assert!(!rules.is_excluded("logs.txt"));
}

#[test]
fn test_directory_only_fresh() {
    let mut rules = ExcludeRules { patterns: Vec::new() };
    rules.add_pattern("logs/");
    assert!(rules.is_excluded("logs/app.log"));
    assert!(rules.is_excluded("logs"));
    assert!(!rules.is_excluded("logs.txt"));
}

#[test]
fn test_escaped_hash() {
    let mut rules = ExcludeRules::new();
    rules.add_pattern("#\\!secret");
    assert!(rules.is_excluded("#!secret"));
}

#[test]
fn test_comment_lines() {
    let mut rules = ExcludeRules::new();
    rules.add_pattern("# this is not a comment");
    assert!(rules.is_excluded("# this is not a comment"));
}

#[test]
fn test_comment_lines_from_load() {
    let rules = ExcludeRules::load(Some("# this is a comment\n#commented\n"));
    let pattern_strings: Vec<&str> = rules.patterns.iter().map(|p| p.pattern.as_str()).collect();
    assert!(!pattern_strings.contains(&"# this is not a comment"));
    assert!(!pattern_strings.contains(&"#commented"));
}

#[test]
fn test_load_from_file() {
    let rules = ExcludeRules::load(Some("build/\n*.log\n!keep.log\n"));
    assert!(rules.is_excluded("build/output.o"));
    assert!(rules.is_excluded("error.log"));
    assert!(!rules.is_excluded("keep.log"));
    assert!(!rules.is_excluded("sub/keep.log"));
}

#[test]
fn test_from_rules_text_no_defaults() {
    let rules = ExcludeRules::from_rules_text("*.log\n*.tmp\n");
    assert!(rules.is_excluded("error.log"));
    assert!(rules.is_excluded("file.tmp"));
    assert!(!rules.is_excluded("node_modules/foo"));
    assert!(!rules.is_excluded("image.png"));
}

#[test]
fn load_of_unreadable_file_keeps_defaults_only() {
    let rules = ExcludeRules::load(None);
    assert_eq!(rules.patterns.len(), ExcludeRules::default_patterns().len());
    assert!(rules.is_excluded("image.png"));
}

#[test]
fn load_or_default_uses_settings_when_file_missing() {
    let settings = vec!["*.draft".to_string()];
    let rules = ExcludeRules::load_or_default(&Some(IgnoreFile::Missing), &IgnoreFile::Missing, &settings);
    assert!(rules.is_excluded("old.draft"));
    assert!(rules.is_excluded("image.png"));
    let text = Some(IgnoreFile::Text("*.tmp\n".to_string()));
    let rules = ExcludeRules::load_or_default(&text, &IgnoreFile::Missing, &settings);
    assert!(!rules.is_excluded("old.draft"));
    assert!(rules.is_excluded("x.tmp"));
    let rules = ExcludeRules::load_or_default(&Some(IgnoreFile::Unreadable), &IgnoreFile::Missing, &settings);
    assert!(!rules.is_excluded("old.draft"));
    assert!(rules.is_excluded("image.png"));
}

#[test]
fn load_or_from_docpackignore_reads_the_file() {
    let settings = vec!["*.draft".to_string()];
    let text = IgnoreFile::Text("secret.txt\n".to_string());
    let rules = ExcludeRules::load_or_from_docpackignore(&text, &settings);
    assert!(rules.is_excluded("secret.txt"));
    assert!(!rules.is_excluded("old.draft"));
    let rules = ExcludeRules::load_or_default(&None, &text, &settings);
    assert!(rules.is_excluded("secret.txt"));
    let rules = ExcludeRules::load_or_default(&None, &IgnoreFile::Missing, &settings);
    assert!(rules.is_excluded("old.draft"));
}

#[test]
fn patterns_lists_pattern_texts_in_order() {
    let mut rules = ExcludeRules { patterns: Vec::new() };
    rules.add_pattern("build/");
    rules.add_pattern("!keep.log");
    let p = rules.patterns();
    assert_eq!(p, vec!["build".to_string(), "keep.log".to_string()]);
    assert!(!rules.patterns[0].negated && rules.patterns[0].directory_only);
    assert!(rules.patterns[1].negated && !rules.patterns[1].directory_only);
}

#[test]
fn no_rules_exclude_nothing() {
    let rules = ExcludeRules { patterns: Vec::new() };
    assert!(!rules.is_excluded("anything"));
    assert!(!rules.is_excluded("a/b/c.png"));
}

#[test]
fn last_rule_decides() {
    let mut rules = ExcludeRules { patterns: Vec::new() };
    rules.add_pattern("!keep.log");
    rules.add_pattern("*.log");
    assert!(rules.is_excluded("keep.log"));
    rules.add_pattern("!keep.log");
    assert!(!rules.is_excluded("keep.log"));
    assert!(rules.is_excluded("other.log"));
}

#[test]
fn negated_rules_alone_exclude_nothing() {
    let mut rules = ExcludeRules { patterns: Vec::new() };
    rules.add_pattern("!*.log");
    rules.add_pattern("!build/");
    assert!(!rules.is_excluded("a.log"));
    assert!(!rules.is_excluded("build/x"));
}

#[test]
fn backslashes_in_paths_read_as_separators() {
    let mut rules = ExcludeRules { patterns: Vec::new() };
    rules.add_pattern("build/");
    assert!(rules.is_excluded("build\\out.o"));
}
