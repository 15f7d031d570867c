//! Plain parts of progress reporting: how much is said, and how a path is
//! shortened to fit a label.
use vstd::prelude::*;

verus! {

/// How much progress reporting prints.
#[derive(PartialEq, Eq, Structural, Debug, Clone, Copy)]
pub enum Verbosity {
    Quiet,
    Normal,
    Verbose,
}

impl Verbosity {
    pub open spec fn rank(self) -> int {
        match self {
            Verbosity::Quiet => 0,
            Verbosity::Normal => 1,
            Verbosity::Verbose => 2,
        }
    }

    /// Whether a message that needs `required` is printed at this level.
    pub fn allows(self, required: Verbosity) -> (r: bool)
        ensures
            r == (self.rank() >= required.rank()),
    {
        let a: u8 = match self {
            Verbosity::Quiet => 0,
            Verbosity::Normal => 1,
            Verbosity::Verbose => 2,
        };
        let b: u8 = match required {
            Verbosity::Quiet => 0,
            Verbosity::Normal => 1,
            Verbosity::Verbose => 2,
        };
        a >= b
    }
}

impl Default for Verbosity {
    fn default() -> (r: Verbosity)
        ensures
            r == Verbosity::Normal,
    {
        Verbosity::Normal
    }
}

/// Why the compressor left a file alone.
#[derive(PartialEq, Eq, Structural, Debug, Clone, Copy)]
pub enum SkipKind {
    NotFile,
    AlreadyCompressed,
    NotCompressed,
    EmptyFile,
    TooLarge,
    ReadError,
    ZfsFilesystem,
    HasRequiredXattr,
    FsNotSupported,
    HardLink,
}

/// Routine skips (hard links are common in target directories) are only
/// reported verbosely; skips that may surprise the user are reported at the
/// normal level.
pub open spec fn skip_verbosity(kind: SkipKind) -> Verbosity {
    match kind {
        SkipKind::NotFile | SkipKind::AlreadyCompressed | SkipKind::NotCompressed
        | SkipKind::EmptyFile | SkipKind::HardLink => Verbosity::Verbose,
        _ => Verbosity::Normal,
    }
}

pub fn required_verbosity(kind: SkipKind) -> (r: Verbosity)
    ensures
        r == skip_verbosity(kind),
{
    match kind {
        SkipKind::NotFile | SkipKind::AlreadyCompressed | SkipKind::NotCompressed
        | SkipKind::EmptyFile | SkipKind::HardLink => Verbosity::Verbose,
        SkipKind::TooLarge | SkipKind::ReadError | SkipKind::ZfsFilesystem
        | SkipKind::HasRequiredXattr | SkipKind::FsNotSupported => Verbosity::Normal,
    }
}

/// Width of the label column of a progress bar.
pub const PREFIX_LEN: usize = 25;

/// A path shortened to `max_len` characters: kept whole if it fits, else
/// `...` followed by its last `max_len - 3` characters (none when
/// `max_len < 3`).
pub open spec fn truncated(text: Seq<char>, max_len: nat) -> Seq<char> {
    if text.len() <= max_len {
        text
    } else {
        let tail = if max_len >= 3 {
            max_len - 3
        } else {
            0
        };
        "..."@ + text.subrange(text.len() - tail, text.len() as int)
    }
}

pub fn truncate_path(path: &str, max_len: usize) -> (r: String)
    ensures
        r@ == truncated(path@, max_len as nat),
{
    let n = path.unicode_len();
    if n <= max_len {
        return path.to_owned();
    }
    let tail = max_len.saturating_sub(3);
    let out = "...".to_owned();
    out.concat(path.substring_char(n - tail, n))
}

} // verus!
