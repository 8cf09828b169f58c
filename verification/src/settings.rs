//! The user's settings: interface language, exclude patterns, exclude file, fallback
//! encodings, and whether the context menu offer was made.
use vstd::prelude::*;
use crate::text::push_str;

verus! {

broadcast use vstd::string::group_string_axioms;

/// Encodings tried, in order, for files that are not UTF-8.
pub const DEFAULT_LOCAL_ENCODINGS: [&'static str; 4] = ["UTF-8", "GBK", "SHIFT_JIS", "EUC-KR"];

/// The user's settings.
pub struct Settings {
    pub language: String,
    pub exclude_patterns: Vec<String>,
    pub exclude_file: String,
    pub local_encodings: Vec<String>,
    pub context_menu_prompted: bool,
}

fn owned(s: &str) -> (r: String)
    ensures
        r@ == s@,
{
    let mut r = String::new();
    push_str(&mut r, s);
    r
}

/// The language of a setting that does not name one.
pub fn default_language() -> (r: String)
    ensures
        r@ == "en"@,
{
    owned("en")
}

/// The fallback encodings of a setting that does not name them.
pub fn default_encodings() -> (r: Vec<String>)
    ensures
        r@.map_values(|s: String| s@) == DEFAULT_LOCAL_ENCODINGS@.map_values(|s: &str| s@),
{
    let mut v: Vec<String> = Vec::new();
    let mut i: usize = 0;
    while i < DEFAULT_LOCAL_ENCODINGS.len()
        invariant
            i <= DEFAULT_LOCAL_ENCODINGS@.len(),
            v@.map_values(|s: String| s@) == DEFAULT_LOCAL_ENCODINGS@.map_values(|s: &str| s@).take(i as int),
        decreases DEFAULT_LOCAL_ENCODINGS.len() - i,
    {
        let ghost before = v@.map_values(|s: String| s@);
        v.push(owned(DEFAULT_LOCAL_ENCODINGS[i]));
        assert(v@.map_values(|s: String| s@) =~= before.push(DEFAULT_LOCAL_ENCODINGS@[i as int]@));
        i += 1;
        assert(DEFAULT_LOCAL_ENCODINGS@.map_values(|s: &str| s@).take(i as int) =~= before.push(DEFAULT_LOCAL_ENCODINGS@[i - 1]@));
    }
    assert(DEFAULT_LOCAL_ENCODINGS@.map_values(|s: &str| s@).take(i as int) =~= DEFAULT_LOCAL_ENCODINGS@.map_values(|s: &str| s@));
    v
}

impl Default for Settings {
    fn default() -> (r: Self)
        ensures
            r.language@ == "en"@,
            r.exclude_patterns@.len() == 0,
            r.exclude_file@ == Seq::<char>::empty(),
            r.local_encodings@.map_values(|s: String| s@) == DEFAULT_LOCAL_ENCODINGS@.map_values(|s: &str| s@),
            !r.context_menu_prompted,
    {
        Settings {
            language: owned("en"),
            exclude_patterns: Vec::new(),
            exclude_file: String::new(),
            local_encodings: default_encodings(),
            context_menu_prompted: false,
        }
    }
}

} // verus!
