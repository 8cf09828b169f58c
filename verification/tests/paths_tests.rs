use docpack::paths::auto_rename;
use docpack::paths::file_name;
use docpack::paths::file_stem;
use docpack::paths::find_common_parent;
use docpack::paths::parent;
use docpack::paths::renamed;
use docpack::paths::resolve_output_name;
use docpack::paths::resolve_unpack_output;
use docpack::paths::unpack_renamed;
use docpack::paths::PathParts;
use docpack::paths::RenameStep;

fn p(s: &str) -> PathParts {
    let rooted = s.starts_with('/');
    let names = s.split('/').filter(|n| !n.is_empty()).map(|n| n.to_string()).collect();
    PathParts { rooted, names }
}

fn show(q: &PathParts) -> String {
    let joined = q.names.join("/");
    if q.rooted {
        format!("/{}", joined)
    } else {
        joined
    }
}

#[test]
fn parent_and_names() {
    assert_eq!(parent(&p("/a/b.txt")).map(|q| show(&q)), Some("/a".to_string()));
    assert_eq!(parent(&p("b.txt")).map(|q| show(&q)), Some("".to_string()));
    assert!(parent(&p("/")).is_none());
    assert_eq!(file_name(&p("a/b.tar.gz")).as_deref(), Some("b.tar.gz"));
    assert_eq!(file_stem(&p("a/b.tar.gz")).as_deref(), Some("b.tar"));
    assert_eq!(file_stem(&p(".bashrc")).as_deref(), Some(".bashrc"));
    assert!(file_name(&p("a/..")).is_none());
}

#[test]
fn common_parent_of_siblings_and_cousins() {
    let c = find_common_parent(&vec![p("/w/proj/src/a.rs"), p("/w/proj/src/b.rs")]);
    assert_eq!(c.map(|q| show(&q)), Some("/w/proj/src".to_string()));
    let c = find_common_parent(&vec![p("/w/proj/src/a.rs"), p("/w/proj/docs/b.md")]);
    assert_eq!(c.map(|q| show(&q)), Some("/w/proj".to_string()));
    assert!(find_common_parent(&vec![p("/a/x"), p("/b/y")]).is_none());
    assert!(find_common_parent(&vec![p("/a/x"), p("b/y")]).is_none());
    assert!(find_common_parent(&vec![p("x"), p("y")]).is_none());
    assert!(find_common_parent(&Vec::new()).is_none());
}

#[test]
fn output_name_given_is_tried_first() {
    let q = resolve_output_name(&vec![p("src")], &p("out/my.docx"), false);
    assert_eq!(show(&q), "out/my.docx");
}

#[test]
fn output_name_given_is_renamed_when_taken() {
    let q = resolve_output_name(&vec![p("src")], &p("out/my.docx"), false);
    match auto_rename(&q, 0, true) {
        RenameStep::Try(1, r) => assert_eq!(show(&r), "out/my_1.docx"),
        _ => panic!("expected a numbered alternative"),
    }
}

#[test]
fn output_name_from_single_directory_and_file() {
    let q = resolve_output_name(&vec![p("/w/proj")], &p("output.docx"), false);
    assert_eq!(show(&q), "/w/proj.docx");
    let q = resolve_output_name(&vec![p("/w/main.rs")], &p("output.docx"), true);
    assert_eq!(show(&q), "/w/main.docx");
}

#[test]
fn output_name_from_several_paths() {
    let paths = vec![p("/w/proj/a.rs"), p("/w/proj/b.rs")];
    let q = resolve_output_name(&paths, &p("output.docx"), false);
    assert_eq!(show(&q), "/w/proj/proj.docx");
    let paths = vec![p("/a/x"), p("/b/y")];
    let q = resolve_output_name(&paths, &p("output.docx"), false);
    assert_eq!(show(&q), "/a/output.docx");
}

#[test]
fn renamed_alternatives() {
    assert_eq!(show(&renamed(&p("/w/out.docx"), 2)), "/w/out_2.docx");
    assert_eq!(show(&renamed(&p("noext"), 1)), "noext_1");
    assert_eq!(show(&unpack_renamed(&p("/w/doc_unpacked"), 7)), "/w/doc_unpacked_7");
}

#[test]
fn auto_rename_steps() {
    let path = p("/w/out.docx");
    match auto_rename(&path, 0, false) {
        RenameStep::Use(q) => assert_eq!(show(&q), "/w/out.docx"),
        _ => panic!("a free path is used"),
    }
    match auto_rename(&path, 0, true) {
        RenameStep::Try(n, q) => {
            assert_eq!(n, 1);
            assert_eq!(show(&q), "/w/out_1.docx");
        },
        _ => panic!("a taken path leads to the next"),
    }
    match auto_rename(&path, 1, false) {
        RenameStep::Use(q) => assert_eq!(show(&q), "/w/out_1.docx"),
        _ => panic!("a free alternative is used"),
    }
    assert!(matches!(auto_rename(&path, 9999, true), RenameStep::GiveUp));
}

#[test]
fn resolve_unpack_output_steps() {
    let path = p("/w/doc_unpacked");
    match resolve_unpack_output(&path, 0, true) {
        RenameStep::Try(n, q) => {
            assert_eq!(n, 1);
            assert_eq!(show(&q), "/w/doc_unpacked_1");
        },
        _ => panic!("a taken directory leads to the next"),
    }
    match resolve_unpack_output(&path, 3, false) {
        RenameStep::Use(q) => assert_eq!(show(&q), "/w/doc_unpacked_3"),
        _ => panic!("a free alternative is used"),
    }
}
