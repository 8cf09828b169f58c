//! The operating system, and the Windows registry commands that install and remove
//! the context menu entries.
use vstd::prelude::*;
use crate::text::chars_of;
use crate::text::find_char;
use crate::text::lemma_find_char_at;
use crate::text::lines;
use crate::text::push_str;
use crate::text::split_lines;
use crate::text::str_eq;
use crate::text::string_of;
use crate::text::sub_chars;
use crate::text::trim;
use crate::text::trim_chars;

verus! {

broadcast use vstd::string::group_string_axioms;

/// The operating system the program runs on.
#[derive(Debug, Clone, Copy, PartialEq, Eq, Structural)]
pub enum Platform {
    Windows,
    MacOs,
    Linux,
}

impl Platform {
    /// The platform that an operating system name (as Rust's `target_os` spells it)
    /// stands for: `windows`, `macos`, and every other system counted as Linux.
    pub fn from_os_name(os: &str) -> (r: Platform)
        ensures
            r == (if os@ == "windows"@ {
                Platform::Windows
            } else if os@ == "macos"@ {
                Platform::MacOs
            } else {
                Platform::Linux
            }),
    {
        if str_eq(os, "windows") {
            Platform::Windows
        } else if str_eq(os, "macos") {
            Platform::MacOs
        } else {
            Platform::Linux
        }
    }
}

/// The context menu entries in the Windows registry.
pub struct ContextMenu;

pub const DIR_KEY: &'static str = "HKEY_CLASSES_ROOT\\Directory\\shell\\DocPack";

pub const DIR_COMMAND_KEY: &'static str = "HKEY_CLASSES_ROOT\\Directory\\shell\\DocPack\\command";

pub const ANY_KEY: &'static str = "HKEY_CLASSES_ROOT\\*\\shell\\DocPack";

pub const ANY_COMMAND_KEY: &'static str = "HKEY_CLASSES_ROOT\\*\\shell\\DocPack\\command";

pub const ANY_UNPACK_KEY: &'static str = "HKEY_CLASSES_ROOT\\*\\shell\\DocPackUnpack";

pub const ANY_UNPACK_COMMAND_KEY: &'static str = "HKEY_CLASSES_ROOT\\*\\shell\\DocPackUnpack\\command";

pub const PACK_LABEL: &'static str = "Pack with DocPack";

pub const UNPACK_LABEL: &'static str = "Unpack DOCX here";

pub const USER_CLASSES: &'static str = "HKEY_CURRENT_USER\\Software\\Classes\\";

pub const UNPACK_SHELL: &'static str = "\\shell\\DocPackUnpack";

pub const COMMAND_SUFFIX: &'static str = "\\command";

/// Places where earlier versions put their entries.
pub const LEGACY_KEYS: [&'static str; 5] = [
    "HKEY_CLASSES_ROOT\\docx\\shell\\DocPack",
    "HKEY_CLASSES_ROOT\\.docx\\shell\\DocPack",
    "HKEY_CLASSES_ROOT\\docx\\shell\\DocPackUnpack",
    "HKEY_CLASSES_ROOT\\.docx\\shell\\DocPackUnpack",
    "HKEY_CURRENT_USER\\Software\\Classes\\.docx\\shell\\DocPackUnpack",
];

/// The ProgIDs that Word registers for `.docx`.
pub const KNOWN_PROGIDS: [&'static str; 3] = ["Word.Document.12", "Word.Document.8", "Word.Document.6"];

/// The arguments of `reg` that set the default value of `key` to `value`.
pub open spec fn reg_add(key: Seq<char>, value: Seq<char>) -> Seq<Seq<char>> {
    seq!["add"@, key, "/ve"@, "/d"@, value, "/f"@]
}

/// The arguments of `reg` that delete `key`.
pub open spec fn reg_delete(key: Seq<char>) -> Seq<Seq<char>> {
    seq!["delete"@, key, "/f"@]
}

/// The command line that packs the selected item: `"<exe>" gui-pack "%1"`.
pub open spec fn pack_command_spec(exe: Seq<char>) -> Seq<char> {
    "\""@ + exe + "\" gui-pack \"%1\""@
}

/// The command line that unpacks the selected document: `"<exe>" gui-unpack "%1"`.
pub open spec fn unpack_command_spec(exe: Seq<char>) -> Seq<char> {
    "\""@ + exe + "\" gui-unpack \"%1\""@
}

/// The key of the unpack entry under a ProgID, in the user's classes.
pub open spec fn progid_key_spec(progid: Seq<char>) -> Seq<char> {
    USER_CLASSES@ + progid + UNPACK_SHELL@
}

/// The views of lists of `reg` arguments.
pub open spec fn commands_view(v: Seq<Vec<String>>) -> Seq<Seq<Seq<char>>> {
    v.map_values(|a: Vec<String>| a@.map_values(|s: String| s@))
}

/// The entries that are always installed: pack on directories and on all files.
pub open spec fn install_entries_spec(exe: Seq<char>) -> Seq<Seq<Seq<char>>> {
    seq![
        reg_add(DIR_KEY@, PACK_LABEL@),
        reg_add(DIR_COMMAND_KEY@, pack_command_spec(exe)),
        reg_add(ANY_KEY@, PACK_LABEL@),
        reg_add(ANY_COMMAND_KEY@, pack_command_spec(exe)),
    ]
}

/// The unpack entry under a ProgID: its name, then its command.
pub open spec fn progid_menu_spec(progid: Seq<char>, exe: Seq<char>) -> Seq<Seq<Seq<char>>> {
    seq![
        reg_add(progid_key_spec(progid), UNPACK_LABEL@),
        reg_add(progid_key_spec(progid) + COMMAND_SUFFIX@, unpack_command_spec(exe)),
    ]
}

/// Deletions of the legacy entries.
pub open spec fn legacy_deletes() -> Seq<Seq<Seq<char>>> {
    LEGACY_KEYS@.map_values(|k: &str| reg_delete(k@))
}

/// What finishes an install once the ProgID entry was or was not added: the commands
/// that must succeed (the unpack entry on all files, when there is no ProgID entry),
/// then those whose failure is ignored (removing a stale entry on all files when
/// there is one, and the legacy entries).
pub open spec fn finish_install_spec(exe: Seq<char>, progid_added: bool) -> (Seq<Seq<Seq<char>>>, Seq<Seq<Seq<char>>>) {
    if progid_added {
        (Seq::empty(), seq![reg_delete(ANY_UNPACK_KEY@)] + legacy_deletes())
    } else {
        (
            seq![
                reg_add(ANY_UNPACK_KEY@, UNPACK_LABEL@),
                reg_add(ANY_UNPACK_COMMAND_KEY@, unpack_command_spec(exe)),
            ],
            legacy_deletes(),
        )
    }
}

/// What an uninstall deletes: the entries on directories and files, the unpack entries
/// under the known ProgIDs, and the legacy entries.
pub open spec fn uninstall_spec() -> Seq<Seq<Seq<char>>> {
    seq![reg_delete(DIR_KEY@), reg_delete(ANY_KEY@), reg_delete(ANY_UNPACK_KEY@)]
        + KNOWN_PROGIDS@.map_values(|p: &str| reg_delete(progid_key_spec(p@))) + legacy_deletes()
}

fn owned(s: &str) -> (r: String)
    ensures
        r@ == s@,
{
    let mut r = String::new();
    push_str(&mut r, s);
    r
}

fn add_args(key: &str, value: &str) -> (r: Vec<String>)
    ensures
        r@.map_values(|s: String| s@) == reg_add(key@, value@),
{
    let mut r: Vec<String> = Vec::new();
    r.push(owned("add"));
    r.push(owned(key));
    r.push(owned("/ve"));
    r.push(owned("/d"));
    r.push(owned(value));
    r.push(owned("/f"));
    assert(r@.map_values(|s: String| s@) =~= reg_add(key@, value@));
    r
}

/// The next move while adding the unpack entry under a ProgID: run this `reg`
/// command, or stop, telling whether the entry was added.
pub enum ProgidStep {
    Run(Vec<String>),
    Done(bool),
}

/// The arguments of one `reg` command, as text.
pub open spec fn args_view(a: Vec<String>) -> Seq<Seq<char>> {
    a@.map_values(|s: String| s@)
}

/// The move after `ran` commands, the last of which succeeded when `last_ok`: add the
/// entry's name; when that failed, stop unsuccessfully; else add its command; when that
/// succeeded, stop successfully; else delete the key again, then stop unsuccessfully.
pub open spec fn progid_step_spec(r: ProgidStep, progid: Seq<char>, exe: Seq<char>, ran: nat, last_ok: bool) -> bool {
    if ran == 0 {
        r is Run && args_view(r->Run_0) == progid_menu_spec(progid, exe)[0]
    } else if ran == 1 && last_ok {
        r is Run && args_view(r->Run_0) == progid_menu_spec(progid, exe)[1]
    } else if ran == 2 && !last_ok {
        r is Run && args_view(r->Run_0) == reg_delete(progid_key_spec(progid))
    } else {
        r is Done && r->Done_0 == (ran == 2 && last_ok)
    }
}

fn delete_args(key: &str) -> (r: Vec<String>)
    ensures
        r@.map_values(|s: String| s@) == reg_delete(key@),
{
    let mut r: Vec<String> = Vec::new();
    r.push(owned("delete"));
    r.push(owned(key));
    r.push(owned("/f"));
    assert(r@.map_values(|s: String| s@) =~= reg_delete(key@));
    r
}

fn push_command(v: &mut Vec<Vec<String>>, c: Vec<String>)
    ensures
        commands_view(final(v)@) == commands_view(old(v)@).push(c@.map_values(|s: String| s@)),
{
    v.push(c);
    assert(commands_view(v@) =~= commands_view(old(v)@).push(c@.map_values(|s: String| s@)));
}

fn push_legacy_deletes(v: &mut Vec<Vec<String>>)
    ensures
        commands_view(final(v)@) == commands_view(old(v)@) + legacy_deletes(),
{
    let mut i: usize = 0;
    while i < LEGACY_KEYS.len()
        invariant
            i <= LEGACY_KEYS@.len(),
            commands_view(v@) == commands_view(old(v)@) + legacy_deletes().take(i as int),
        decreases LEGACY_KEYS@.len() - i,
    {
        push_command(v, delete_args(LEGACY_KEYS[i]));
        i += 1;
        assert(legacy_deletes().take(i as int) =~= legacy_deletes().take(i - 1).push(
            reg_delete(LEGACY_KEYS@[i - 1]@),
        ));
    }
    assert(legacy_deletes().take(i as int) =~= legacy_deletes());
}

impl ContextMenu {
    /// The command line that packs the selected item (see [`pack_command_spec`]).
    pub fn pack_command(exe: &str) -> (r: String)
        ensures
            r@ == pack_command_spec(exe@),
    {
        let mut r = owned("\"");
        push_str(&mut r, exe);
        push_str(&mut r, "\" gui-pack \"%1\"");
        r
    }

    /// The command line that unpacks the selected document (see
    /// [`unpack_command_spec`]).
    pub fn unpack_command(exe: &str) -> (r: String)
        ensures
            r@ == unpack_command_spec(exe@),
    {
        let mut r = owned("\"");
        push_str(&mut r, exe);
        push_str(&mut r, "\" gui-unpack \"%1\"");
        r
    }

    /// The `reg` commands of the entries that are always installed; each must succeed.
    pub fn install_entries(exe: &str) -> (r: Vec<Vec<String>>)
        ensures
            commands_view(r@) == install_entries_spec(exe@),
    {
        let pack = Self::pack_command(exe);
        let mut r: Vec<Vec<String>> = Vec::new();
        push_command(&mut r, add_args(DIR_KEY, PACK_LABEL));
        push_command(&mut r, add_args(DIR_COMMAND_KEY, pack.as_str()));
        push_command(&mut r, add_args(ANY_KEY, PACK_LABEL));
        push_command(&mut r, add_args(ANY_COMMAND_KEY, pack.as_str()));
        assert(commands_view(r@) =~= install_entries_spec(exe@));
        r
    }

    /// The key of the unpack entry under a ProgID (see [`progid_key_spec`]).
    pub fn progid_unpack_key(progid: &str) -> (r: String)
        ensures
            r@ == progid_key_spec(progid@),
    {
        let mut r = owned(USER_CLASSES);
        push_str(&mut r, progid);
        push_str(&mut r, UNPACK_SHELL);
        r
    }

    /// The `reg` commands that add the unpack entry under a ProgID: its name, then its
    /// command. When the second fails, the first is undone by deleting the key.
    pub fn try_add_progid_unpack_menu(progid: &str, exe: &str) -> (r: Vec<Vec<String>>)
        ensures
            commands_view(r@) == progid_menu_spec(progid@, exe@),
    {
        let key = Self::progid_unpack_key(progid);
        let mut command_key = Self::progid_unpack_key(progid);
        push_str(&mut command_key, COMMAND_SUFFIX);
        let unpack = Self::unpack_command(exe);
        let mut r: Vec<Vec<String>> = Vec::new();
        push_command(&mut r, add_args(key.as_str(), UNPACK_LABEL));
        push_command(&mut r, add_args(command_key.as_str(), unpack.as_str()));
        assert(commands_view(r@) =~= progid_menu_spec(progid@, exe@));
        r
    }

    /// One step of adding the unpack entry under a ProgID (see [`progid_step_spec`]):
    /// told how many commands ran and whether the last one succeeded, says what to do.
    pub fn progid_menu_step(progid: &str, exe: &str, ran: usize, last_ok: bool) -> (r: ProgidStep)
        ensures
            progid_step_spec(r, progid@, exe@, ran as nat, last_ok),
    {
        if ran == 0 || (ran == 1 && last_ok) {
            let mut commands = Self::try_add_progid_unpack_menu(progid, exe);
            let k: usize = if ran == 0 { 0 } else { 1 };
            let ghost cv = commands_view(commands@);
            assert(cv.len() == 2);
            let c = commands.remove(k);
            assert(c@.map_values(|s: String| s@) == cv[k as int]);
            ProgidStep::Run(c)
        } else if ran == 2 && !last_ok {
            let key = Self::progid_unpack_key(progid);
            ProgidStep::Run(delete_args(key.as_str()))
        } else {
            ProgidStep::Done(ran == 2 && last_ok)
        }
    }

    /// The `reg` commands that finish an install (see [`finish_install_spec`]).
    pub fn finish_install(exe: &str, progid_added: bool) -> (r: (Vec<Vec<String>>, Vec<Vec<String>>))
        ensures
            (commands_view(r.0@), commands_view(r.1@)) == finish_install_spec(exe@, progid_added),
    {
        let mut required: Vec<Vec<String>> = Vec::new();
        let mut optional: Vec<Vec<String>> = Vec::new();
        if progid_added {
            push_command(&mut optional, delete_args(ANY_UNPACK_KEY));
        } else {
            let unpack = Self::unpack_command(exe);
            push_command(&mut required, add_args(ANY_UNPACK_KEY, UNPACK_LABEL));
            push_command(&mut required, add_args(ANY_UNPACK_COMMAND_KEY, unpack.as_str()));
        }
        let ghost before = commands_view(optional@);
        push_legacy_deletes(&mut optional);
        assert(commands_view(required@) =~= finish_install_spec(exe@, progid_added).0);
        assert(commands_view(optional@) =~= finish_install_spec(exe@, progid_added).1);
        (required, optional)
    }

    /// The `reg` commands of an uninstall (see [`uninstall_spec`]); a failure of any
    /// of them is ignored.
    pub fn uninstall() -> (r: Vec<Vec<String>>)
        ensures
            commands_view(r@) == uninstall_spec(),
    {
        let mut r: Vec<Vec<String>> = Vec::new();
        push_command(&mut r, delete_args(DIR_KEY));
        push_command(&mut r, delete_args(ANY_KEY));
        push_command(&mut r, delete_args(ANY_UNPACK_KEY));
        let ghost head = commands_view(r@);
        let ghost progids = KNOWN_PROGIDS@.map_values(|p: &str| reg_delete(progid_key_spec(p@)));
        let mut i: usize = 0;
        while i < KNOWN_PROGIDS.len()
            invariant
                i <= KNOWN_PROGIDS@.len(),
                progids == KNOWN_PROGIDS@.map_values(|p: &str| reg_delete(progid_key_spec(p@))),
                commands_view(r@) == head + progids.take(i as int),
            decreases KNOWN_PROGIDS@.len() - i,
        {
            let key = Self::progid_unpack_key(KNOWN_PROGIDS[i]);
            push_command(&mut r, delete_args(key.as_str()));
            i += 1;
            assert(progids.take(i as int) =~= progids.take(i - 1).push(progids[i - 1]));
        }
        assert(progids.take(i as int) =~= progids);
        push_legacy_deletes(&mut r);
        assert(head =~= seq![reg_delete(DIR_KEY@), reg_delete(ANY_KEY@), reg_delete(ANY_UNPACK_KEY@)]);
        r
    }
}

/// `p` occurs in `s` at `i`.
pub open spec fn occurs_at(s: Seq<char>, p: Seq<char>, i: int) -> bool {
    0 <= i && i + p.len() <= s.len() && s.subrange(i, i + p.len()) == p
}

/// The last position at or before `i` where `p` occurs in `s`, or -1.
pub open spec fn last_occurrence(s: Seq<char>, p: Seq<char>, i: int) -> int
    decreases i + 1,
{
    if i < 0 {
        -1
    } else if occurs_at(s, p, i) {
        i
    } else {
        last_occurrence(s, p, i - 1)
    }
}

/// The marker of a value's type in the output of `reg query`.
pub open spec fn reg_marker() -> Seq<char> {
    seq!['R', 'E', 'G', '_']
}

/// The prefix of a key line in the output of `reg query`.
pub open spec fn key_marker() -> Seq<char> {
    seq!['H', 'K', 'E', 'Y', '_']
}

/// What one trimmed line of `reg query` output says of the default value: nothing,
/// when it names no type followed by a space; otherwise the text after that space,
/// trimmed, which is no ProgID when it is empty or starts with `(` ("value not set").
pub open spec fn line_value(l: Seq<char>) -> Option<Option<Seq<char>>> {
    let pos = last_occurrence(l, reg_marker(), l.len() - 4);
    if pos < 0 {
        None
    } else {
        let rest = l.skip(pos);
        let sp = find_char(rest, ' ');
        if sp >= rest.len() {
            None
        } else {
            let v = trim(rest.skip(sp));
            if v.len() == 0 || v[0] == '(' {
                Some(None)
            } else {
                Some(Some(v))
            }
        }
    }
}

/// The ProgID that `reg query` output names: the value of the first line, other than
/// blank lines and key lines, that names a type.
pub open spec fn progid_from_lines(ls: Seq<Seq<char>>) -> Option<Seq<char>>
    decreases ls.len(),
{
    if ls.len() == 0 {
        None
    } else {
        let l = trim(ls[0]);
        if l.len() == 0 || (l.len() >= 5 && l.take(5) == key_marker()) {
            progid_from_lines(ls.skip(1))
        } else {
            match line_value(l) {
                Some(x) => x,
                None => progid_from_lines(ls.skip(1)),
            }
        }
    }
}

/// The last position where `REG_` occurs in `l`.
fn find_reg_marker(l: &Vec<char>) -> (r: Option<usize>)
    ensures
        match r {
            Some(p) => last_occurrence(l@, reg_marker(), l@.len() - 4) == p && p + 4 <= l.len(),
            None => last_occurrence(l@, reg_marker(), l@.len() - 4) < 0,
        },
{
    if l.len() < 4 {
        return None;
    }
    let mut k: usize = l.len() - 3;
    while k > 0
        invariant
            k <= l.len() - 3,
            l.len() >= 4,
            last_occurrence(l@, reg_marker(), l@.len() - 4) == last_occurrence(l@, reg_marker(), k - 1),
        decreases k,
    {
        let i = k - 1;
        if l[i] == 'R' && l[i + 1] == 'E' && l[i + 2] == 'G' && l[i + 3] == '_' {
            assert(l@.subrange(i as int, i + 4) =~= reg_marker());
            return Some(i);
        }
        assert(!occurs_at(l@, reg_marker(), i as int)) by {
            if occurs_at(l@, reg_marker(), i as int) {
                assert(l@.subrange(i as int, i + 4)[0] == l@[i as int]);
                assert(l@.subrange(i as int, i + 4)[1] == l@[i + 1]);
                assert(l@.subrange(i as int, i + 4)[2] == l@[i + 2]);
                assert(l@.subrange(i as int, i + 4)[3] == l@[i + 3]);
            }
        }
        k -= 1;
    }
    None
}

/// Whether `l` starts with `HKEY_`.
fn is_key_line(l: &Vec<char>) -> (r: bool)
    ensures
        r == (l@.len() >= 5 && l@.take(5) == key_marker()),
{
    if l.len() >= 5 && l[0] == 'H' && l[1] == 'K' && l[2] == 'E' && l[3] == 'Y' && l[4] == '_' {
        assert(l@.take(5) =~= key_marker());
        true
    } else {
        assert(l@.len() >= 5 ==> l@.take(5)[0] == l@[0] && l@.take(5)[1] == l@[1] && l@.take(5)[2]
            == l@[2] && l@.take(5)[3] == l@[3] && l@.take(5)[4] == l@[4]);
        false
    }
}

/// What one trimmed line says of the default value (see [`line_value`]).
fn value_of_line(l: &Vec<char>) -> (r: Option<Option<String>>)
    ensures
        match r {
            None => line_value(l@) is None,
            Some(None) => line_value(l@) == Some(None::<Seq<char>>),
            Some(Some(v)) => line_value(l@) == Some(Some(v@)),
        },
{
    match find_reg_marker(l) {
        None => None,
        Some(pos) => {
            let mut j: usize = pos;
            while j < l.len() && l[j] != ' '
                invariant
                    pos <= j <= l.len(),
                    forall|m: int| pos <= m < j ==> l@[m] != ' ',
                decreases l.len() - j,
            {
                j += 1;
            }
            let ghost rest = l@.skip(pos as int);
            proof {
                assert forall|m: int| 0 <= m < j - pos implies rest[m] != ' ' by {
                    assert(rest[m] == l@[pos + m]);
                }
                if j < l.len() {
                    assert(rest[j - pos] == l@[j as int]);
                }
                lemma_find_char_at(rest, ' ', j - pos);
            }
            if j >= l.len() {
                return None;
            }
            let tail = sub_chars(l, j, l.len());
            assert(tail@ =~= rest.skip(j - pos));
            let v = trim_chars(&tail);
            if v.len() == 0 || v[0] == '(' {
                Some(None)
            } else {
                Some(Some(string_of(v.as_slice())))
            }
        },
    }
}

impl ContextMenu {
    /// The ProgID for `.docx` that the output of `reg query HKEY_CLASSES_ROOT\.docx /ve`
    /// names (see [`progid_from_lines`]), if any.
    pub fn parse_progid(stdout: &str) -> (r: Option<String>)
        ensures
            match r {
                Some(v) => progid_from_lines(lines(stdout@)) == Some(v@),
                None => progid_from_lines(lines(stdout@)) is None,
            },
    {
        let cs = chars_of(stdout);
        let ls = split_lines(&cs);
        let ghost all = lines(stdout@);
        assert(all.skip(0) =~= all);
        let mut i: usize = 0;
        while i < ls.len()
            invariant
                i <= ls.len(),
                ls@.len() == all.len(),
                all == lines(stdout@),
                forall|k: int| 0 <= k < ls@.len() ==> #[trigger] ls@[k]@ == all[k],
                progid_from_lines(all) == progid_from_lines(all.skip(i as int)),
            decreases ls.len() - i,
        {
            let ghost here = all.skip(i as int);
            assert(here[0] == all[i as int]);
            assert(here.skip(1) =~= all.skip(i + 1));
            let l = trim_chars(&ls[i]);
            if l.len() == 0 || is_key_line(&l) {
                i += 1;
            } else {
                match value_of_line(&l) {
                    Some(x) => {
                        return x;
                    },
                    None => {
                        i += 1;
                    },
                }
            }
        }
        assert(all.skip(i as int).len() == 0);
        None
    }
}

} // verus!
