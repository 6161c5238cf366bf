//! Hot delta indexing: which changed files are worth re-indexing.

use vstd::prelude::*;
use crate::paths::{components, components_of, file_name, file_name_of, is_noise_name};
use crate::digest::{hex_encode, hex_lower, sha256, sha256_of};
use crate::text::{chars_of, ends_with, has_suffix, lower_of, to_lower, string_of, str_eq};
use vstd::string::StringSliceAdditionalSpecFns;
use vstd::utf8::encode_utf8;

verus! {

broadcast use vstd::string::group_string_axioms;

/// How far a scan of the project has come: whether one runs, how many files
/// it has to read and has read, and the file it reads now.
#[derive(Debug, Clone)]
pub struct ScanProgress {
    pub scanning: bool,
    pub total: usize,
    pub processed: usize,
    pub current_file: String,
}

/// Default maximum file size for hot delta indexing (256 KB).
pub const DEFAULT_MAX_DELTA_FILE_BYTES: u64 = 262144;

/// Result of indexing a single file delta.
#[derive(Debug, Clone, PartialEq, Eq)]
pub enum DeltaIndexResult {
    Indexed { symbols: usize, dependencies: usize },
    Unchanged,
    SkippedNoise,
    SkippedTooLarge { size_bytes: u64 },
    SkippedBinary,
    Deleted,
}

/// Filter decision for delta indexing.
#[derive(Debug, Clone, Copy, PartialEq, Eq, Structural)]
pub enum NoiseFilterDecision {
    Process,
    NoiseDir,
    MinifiedOrBundle,
    LockFile,
    LargeOrBinaryData,
    ExceedsSizeLimit(u64),
}

/// Events emitted by the live file watcher.
#[derive(Debug, Clone, PartialEq, Eq)]
pub enum DeltaFileEvent {
    Modified(String),
    Removed(String),
}

pub open spec fn is_lock_file(n: Seq<char>) -> bool {
    ||| n == "package-lock.json"@
    ||| n == "pnpm-lock.yaml"@
    ||| n == "yarn.lock"@
    ||| n == "cargo.lock"@
    ||| n == "poetry.lock"@
    ||| n == "composer.lock"@
    ||| n == "gemfile.lock"@
}

pub open spec fn is_minified(n: Seq<char>) -> bool {
    ||| has_suffix(n, ".min.js"@)
    ||| has_suffix(n, ".min.css"@)
    ||| has_suffix(n, ".bundle.js"@)
    ||| has_suffix(n, ".chunk.js"@)
    ||| has_suffix(n, ".map"@)
}

pub open spec fn is_heavy_data(n: Seq<char>) -> bool {
    ||| has_suffix(n, ".log"@)
    ||| has_suffix(n, ".sqlite"@)
    ||| has_suffix(n, ".sqlite3"@)
    ||| has_suffix(n, ".db"@)
    ||| has_suffix(n, ".csv"@)
    ||| has_suffix(n, ".tsv"@)
    ||| has_suffix(n, ".parquet"@)
    ||| has_suffix(n, ".dump"@)
    ||| has_suffix(n, ".bin"@)
    ||| has_suffix(n, ".exe"@)
    ||| has_suffix(n, ".dll"@)
    ||| has_suffix(n, ".so"@)
    ||| has_suffix(n, ".dylib"@)
    ||| has_suffix(n, ".wasm"@)
}

/// Some directory on the way to the file (or the path itself) is a noise
/// directory: `dir_flags[i]` says whether the path made of the first `i + 1`
/// components is a directory (missing flags count as not a directory).
pub open spec fn has_noise_ancestor(path: Seq<char>, dir_flags: Seq<bool>) -> bool {
    let cs = components(path);
    exists|i: int|
        0 <= i < cs.len() && i < dir_flags.len() && #[trigger] dir_flags[i] && is_noise_name(cs[i])
}

/// The filter decision for a changed file.
pub open spec fn noise_decision(
    path: Seq<char>,
    dir_flags: Seq<bool>,
    file_size: Option<u64>,
    max_bytes: u64,
) -> NoiseFilterDecision {
    if has_noise_ancestor(path, dir_flags) {
        NoiseFilterDecision::NoiseDir
    } else {
        match file_name(path) {
            None => NoiseFilterDecision::NoiseDir,
            Some(n) => {
                let l = lower_of(n);
                if is_lock_file(l) {
                    NoiseFilterDecision::LockFile
                } else if is_minified(l) {
                    NoiseFilterDecision::MinifiedOrBundle
                } else if is_heavy_data(l) {
                    NoiseFilterDecision::LargeOrBinaryData
                } else {
                    match file_size {
                        Some(len) => if len > max_bytes {
                            NoiseFilterDecision::ExceedsSizeLimit(len)
                        } else {
                            NoiseFilterDecision::Process
                        },
                        None => NoiseFilterDecision::Process,
                    }
                }
            },
        }
    }
}

fn word(v: &Vec<char>, w: &str) -> (r: bool)
    ensures
        r == (v@ == w@),
{
    crate::paths::is_word(v, w)
}

fn suffix(v: &Vec<char>, w: &str) -> (r: bool)
    ensures
        r == has_suffix(v@, w@),
{
    ends_with(v, &chars_of(w))
}

/// Checks if a file path is noise, a lockfile, minified, or exceeds the size
/// limit. `dir_flags[i]` tells whether the path of the first `i + 1`
/// components is a directory; `file_size` is the size of the path when it is a
/// regular file.
pub fn check_noise_or_huge_file(
    path: &str,
    dir_flags: &[bool],
    file_size: Option<u64>,
    max_bytes: u64,
) -> (r: NoiseFilterDecision)
    ensures
        r == noise_decision(path@, dir_flags@, file_size, max_bytes),
{
    let v = chars_of(path);
    let cs = components_of(&v);
    let mut i: usize = 0;
    while i < cs.len()
        invariant
            i <= cs@.len(),
            cs@.len() == components(path@).len(),
            forall|k: int| 0 <= k < cs@.len() ==> #[trigger] cs@[k]@ == components(path@)[k],
            forall|k: int|
                0 <= k < i ==> !(k < dir_flags@.len() && #[trigger] dir_flags@[k] && is_noise_name(
                    components(path@)[k],
                )),
        decreases cs@.len() - i,
    {
        if i < dir_flags.len() && dir_flags[i] && crate::paths::is_noise_dir_name(&cs[i]) {
            assert(cs@[i as int]@ == components(path@)[i as int]);
            return NoiseFilterDecision::NoiseDir;
        }
        i += 1;
    }
    let name = match file_name_of(&v) {
        None => {
            return NoiseFilterDecision::NoiseDir;
        },
        Some(n) => n,
    };
    let ls = to_lower(string_of(&name).as_str());
    let l = chars_of(ls.as_str());
    if word(&l, "package-lock.json") || word(&l, "pnpm-lock.yaml") || word(&l, "yarn.lock") || word(
        &l,
        "cargo.lock",
    ) || word(&l, "poetry.lock") || word(&l, "composer.lock") || word(&l, "gemfile.lock") {
        return NoiseFilterDecision::LockFile;
    }
    if suffix(&l, ".min.js") || suffix(&l, ".min.css") || suffix(&l, ".bundle.js") || suffix(
        &l,
        ".chunk.js",
    ) || suffix(&l, ".map") {
        return NoiseFilterDecision::MinifiedOrBundle;
    }
    if suffix(&l, ".log") || suffix(&l, ".sqlite") || suffix(&l, ".sqlite3") || suffix(&l, ".db")
        || suffix(&l, ".csv") || suffix(&l, ".tsv") || suffix(&l, ".parquet") || suffix(
        &l,
        ".dump",
    ) || suffix(&l, ".bin") || suffix(&l, ".exe") || suffix(&l, ".dll") || suffix(&l, ".so")
        || suffix(&l, ".dylib") || suffix(&l, ".wasm") {
        return NoiseFilterDecision::LargeOrBinaryData;
    }
    match file_size {
        Some(len) => if len > max_bytes {
            NoiseFilterDecision::ExceedsSizeLimit(len)
        } else {
            NoiseFilterDecision::Process
        },
        None => NoiseFilterDecision::Process,
    }
}

/// Convenience boolean check.
pub fn is_noise_or_huge_file(
    path: &str,
    dir_flags: &[bool],
    file_size: Option<u64>,
    max_bytes: u64,
) -> (r: bool)
    ensures
        r == (noise_decision(path@, dir_flags@, file_size, max_bytes)
            != NoiseFilterDecision::Process),
{
    let d = check_noise_or_huge_file(path, dir_flags, file_size, max_bytes);
    match d {
        NoiseFilterDecision::Process => false,
        _ => true,
    }
}

/// What screening decides before a changed file is read: skipped as noise
/// (noise folder, minified bundle, lock file, data, or matched by an ignore
/// pattern), as too large, or as binary; `None` when the file is to be read.
pub open spec fn screened(noise: NoiseFilterDecision, is_binary: bool, ignored: bool) -> Option<
    DeltaIndexResult,
> {
    match noise {
        NoiseFilterDecision::Process => if is_binary {
            Some(DeltaIndexResult::SkippedBinary)
        } else if ignored {
            Some(DeltaIndexResult::SkippedNoise)
        } else {
            None
        },
        NoiseFilterDecision::ExceedsSizeLimit(n) => Some(DeltaIndexResult::SkippedTooLarge { size_bytes: n }),
        _ => Some(DeltaIndexResult::SkippedNoise),
    }
}

/// The screening of a changed file, from the noise filter's decision,
/// whether the file is binary and whether an ignore pattern matches it (in
/// that order of precedence).
pub fn screen_delta(noise: NoiseFilterDecision, is_binary: bool, ignored: bool) -> (r: Option<
    DeltaIndexResult,
>)
    ensures
        r == screened(noise, is_binary, ignored),
{
    match noise {
        NoiseFilterDecision::Process => if is_binary {
            Some(DeltaIndexResult::SkippedBinary)
        } else if ignored {
            Some(DeltaIndexResult::SkippedNoise)
        } else {
            None
        },
        NoiseFilterDecision::ExceedsSizeLimit(n) => Some(DeltaIndexResult::SkippedTooLarge { size_bytes: n }),
        _ => Some(DeltaIndexResult::SkippedNoise),
    }
}

/// The content digest the index stores for a file: the SHA-256 of its text
/// (as UTF-8) in lower-case hex.
pub open spec fn source_digest_of(source: Seq<char>) -> Seq<char> {
    hex_lower(sha256_of(encode_utf8(source)))
}

/// The content digest of a file's text.
pub fn source_digest(source: &str) -> (r: String)
    ensures
        r@ == source_digest_of(source@),
{
    let d = sha256(source.as_bytes());
    hex_encode(d.as_slice())
}

/// A file is unchanged when the index holds a non-empty digest for it that
/// equals the new one.
pub fn is_unchanged(stored: Option<&str>, digest: &str) -> (r: bool)
    ensures
        r == (stored matches Some(s) && s@.len() > 0 && s@ == digest@),
{
    match stored {
        Some(s) => !s.is_empty() && str_eq(s, digest),
        None => false,
    }
}

/// What re-indexing a changed file comes to before it is parsed: the
/// screening verdict (`screened`) when there is one; else `SkippedNoise`
/// when its text could not be read; else `Unchanged` when the index holds a
/// non-empty digest equal to the text's; else nothing yet (the file is to be
/// parsed). `stored` is the digest the index holds for the file.
pub fn delta_outcome(
    noise: NoiseFilterDecision,
    is_binary: bool,
    ignored: bool,
    source: Option<&str>,
    stored: Option<&str>,
) -> (r: Option<DeltaIndexResult>)
    ensures
        r == if screened(noise, is_binary, ignored) is Some {
            screened(noise, is_binary, ignored)
        } else {
            match source {
                None => Some(DeltaIndexResult::SkippedNoise),
                Some(src) => if stored matches Some(s) && s@.len() > 0 && s@ == source_digest_of(src@) {
                    Some(DeltaIndexResult::Unchanged)
                } else {
                    None
                },
            }
        },
{
    let screen = screen_delta(noise, is_binary, ignored);
    if screen.is_some() {
        return screen;
    }
    match source {
        None => Some(DeltaIndexResult::SkippedNoise),
        Some(src) => {
            let digest = source_digest(src);
            if is_unchanged(stored, digest.as_str()) {
                Some(DeltaIndexResult::Unchanged)
            } else {
                None
            }
        },
    }
}

} // verus!
