use docpack::platform::ContextMenu;
use docpack::platform::Platform;
use docpack::platform::ProgidStep;

#[test]
fn platform_from_os_name() {
    assert_eq!(Platform::from_os_name("windows"), Platform::Windows);
    assert_eq!(Platform::from_os_name("macos"), Platform::MacOs);
    assert_eq!(Platform::from_os_name("linux"), Platform::Linux);
    assert_eq!(Platform::from_os_name("freebsd"), Platform::Linux);
}

#[test]
fn progid_from_reg_query_output() {
    let out = "\r\nHKEY_CLASSES_ROOT\\.docx\r\n    (Default)    REG_SZ    Word.Document.12\r\n\r\n";
    assert_eq!(ContextMenu::parse_progid(out).as_deref(), Some("Word.Document.12"));
}

#[test]
fn progid_value_not_set() {
    let out = "HKEY_CLASSES_ROOT\\.docx\n    (Default)    REG_SZ    (value not set)\n";
    assert!(ContextMenu::parse_progid(out).is_none());
    assert!(ContextMenu::parse_progid("").is_none());
    assert!(ContextMenu::parse_progid("HKEY_CLASSES_ROOT\\.docx\nnothing here\n").is_none());
}

#[test]
fn commands_quote_the_program() {
    assert_eq!(ContextMenu::pack_command("C:\\p\\docpack.exe"), "\"C:\\p\\docpack.exe\" gui-pack \"%1\"");
    assert_eq!(ContextMenu::unpack_command("x"), "\"x\" gui-unpack \"%1\"");
}

#[test]
fn install_entries_are_four_adds() {
    let e = ContextMenu::install_entries("x");
    assert_eq!(e.len(), 4);
    assert_eq!(
        e[1],
        vec!["add", "HKEY_CLASSES_ROOT\\Directory\\shell\\DocPack\\command", "/ve", "/d", "\"x\" gui-pack \"%1\"", "/f"]
    );
}

#[test]
fn progid_menu_commands() {
    let e = ContextMenu::try_add_progid_unpack_menu("Word.Document.12", "x");
    assert_eq!(e.len(), 2);
    assert_eq!(e[0][1], "HKEY_CURRENT_USER\\Software\\Classes\\Word.Document.12\\shell\\DocPackUnpack");
    assert_eq!(e[1][1], "HKEY_CURRENT_USER\\Software\\Classes\\Word.Document.12\\shell\\DocPackUnpack\\command");
    assert_eq!(e[1][4], "\"x\" gui-unpack \"%1\"");
}

#[test]
fn finish_install_falls_back_to_all_files() {
    let (required, optional) = ContextMenu::finish_install("x", false);
    assert_eq!(required.len(), 2);
    assert_eq!(required[0][1], "HKEY_CLASSES_ROOT\\*\\shell\\DocPackUnpack");
    assert_eq!(optional.len(), 5);
    let (required, optional) = ContextMenu::finish_install("x", true);
    assert!(required.is_empty());
    assert_eq!(optional.len(), 6);
    assert_eq!(optional[0], vec!["delete", "HKEY_CLASSES_ROOT\\*\\shell\\DocPackUnpack", "/f"]);
}

#[test]
fn uninstall_deletes_everything() {
    let c = ContextMenu::uninstall();
    assert_eq!(c.len(), 11);
    assert!(c.iter().all(|a| a[0] == "delete"));
}

fn run_args(step: ProgidStep) -> Vec<String> {
    match step {
        ProgidStep::Run(a) => a,
        ProgidStep::Done(_) => panic!("expected a command"),
    }
}

fn done(step: ProgidStep) -> bool {
    match step {
        ProgidStep::Run(_) => panic!("expected the end"),
        ProgidStep::Done(added) => added,
    }
}

#[test]
fn progid_menu_steps_stop_at_the_first_failure() {
    let first = run_args(ContextMenu::progid_menu_step("W.D", "x", 0, true));
    assert_eq!(first, ContextMenu::try_add_progid_unpack_menu("W.D", "x")[0]);
    assert!(!done(ContextMenu::progid_menu_step("W.D", "x", 1, false)));
}

#[test]
fn progid_menu_steps_undo_after_a_second_failure() {
    let second = run_args(ContextMenu::progid_menu_step("W.D", "x", 1, true));
    assert_eq!(second, ContextMenu::try_add_progid_unpack_menu("W.D", "x")[1]);
    assert!(done(ContextMenu::progid_menu_step("W.D", "x", 2, true)));
    let undo = run_args(ContextMenu::progid_menu_step("W.D", "x", 2, false));
    assert_eq!(undo, vec!["delete", "HKEY_CURRENT_USER\\Software\\Classes\\W.D\\shell\\DocPackUnpack", "/f"]);
    assert!(!done(ContextMenu::progid_menu_step("W.D", "x", 3, true)));
}
