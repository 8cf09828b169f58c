//! Names and lists that the rest of the library shares.
use vstd::prelude::*;

verus! {

/// File name of a pack whose output was not named.
pub const DEFAULT_OUTPUT: &'static str = "output.docx";

/// Suffix of the directory that an unpack writes into by default.
pub const UNPACKED_SUFFIX: &'static str = "_unpacked";

pub const APP_NAME: &'static str = "DocPack";

pub const BACKSLASH: &'static str = "\\";

pub const FORWARD_SLASH: &'static str = "/";

/// Device names that Windows reserves, with or without an extension.
pub const WINDOWS_RESERVED: [&'static str; 22] = [
    "CON", "PRN", "AUX", "NUL", "COM1", "COM2", "COM3", "COM4", "COM5", "COM6", "COM7", "COM8",
    "COM9", "LPT1", "LPT2", "LPT3", "LPT4", "LPT5", "LPT6", "LPT7", "LPT8", "LPT9",
];

/// Characters that may not stand in a file name written by an unpack.
pub const FORBIDDEN_CHARS: [char; 8] = ['<', '>', ':', '"', '|', '?', '*', '\0'];

/// Patterns that a pack excludes unless told otherwise.
pub const DEFAULT_EXCLUDES: [&'static str; 54] = [
    ".*",
    "node_modules",
    "target",
    "Thumbs.db",
    "__pycache__",
    "dist",
    "build",
    "vendor",
    "package-lock.json",
    "yarn.lock",
    "Cargo.lock",
    "*.exe",
    "*.dll",
    "*.so",
    "*.dylib",
    "*.bin",
    "*.pdf",
    "*.zip",
    "*.docx",
    "*.tar",
    "*.gz",
    "*.7z",
    "*.rar",
    "*.png",
    "*.jpg",
    "*.jpeg",
    "*.gif",
    "*.ico",
    "*.svg",
    "*.webp",
    "*.bmp",
    "*.tiff",
    "*.ttf",
    "*.otf",
    "*.woff",
    "*.woff2",
    "*.eot",
    "*.mp3",
    "*.mp4",
    "*.avi",
    "*.mov",
    "*.wav",
    "*.flac",
    "*.aac",
    "*.ogg",
    "*.o",
    "*.obj",
    "*.lib",
    "*.a",
    "*.pyc",
    "*.tmp",
    "*.bak",
    "*.swp",
    "*.swo",
];

} // verus!
