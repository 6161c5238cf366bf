//! Project registry domain: scale and status classification, path
//! normalisation for stored paths, and the choice of a free project name.

use vstd::prelude::*;
use crate::digest::{decimal_number, decimal_of_u64};
use crate::text::{
    ascii_upper_seq, chars_of, is_ascii_seq, push_all, push_char, str_eq, to_upper, upper_of,
};

verus! {

/// A file change queued for a project, waiting to be replayed into its graph
/// (`synced_at` is set once it was).
#[derive(Debug, Clone)]
pub struct PendingSync {
    pub id: i64,
    pub project_id: i64,
    pub action: String,
    pub file_path: String,
    pub queued_at: String,
    pub synced_at: Option<String>,
}

broadcast use vstd::string::group_string_axioms;

/// Scale classification for resource profiling.
#[derive(Debug, Clone, Copy, PartialEq, Eq, Structural)]
pub enum Scale {
    Unknown,
    Small,
    Medium,
    Large,
    Enterprise,
}

/// The scale that a file count falls into.
pub open spec fn scale_for_count(count: int) -> Scale {
    if count <= 99 {
        Scale::Small
    } else if count <= 999 {
        Scale::Medium
    } else if count <= 9999 {
        Scale::Large
    } else {
        Scale::Enterprise
    }
}

/// The stored label of a scale.
pub open spec fn scale_label(s: Scale) -> Seq<char> {
    match s {
        Scale::Unknown => "UNKNOWN"@,
        Scale::Small => "SMALL"@,
        Scale::Medium => "MEDIUM"@,
        Scale::Large => "LARGE"@,
        Scale::Enterprise => "ENTERPRISE"@,
    }
}

/// The scale named by an upper-cased label; anything else is `Unknown`.
pub open spec fn scale_from_label(u: Seq<char>) -> Scale {
    if u == "SMALL"@ {
        Scale::Small
    } else if u == "MEDIUM"@ {
        Scale::Medium
    } else if u == "LARGE"@ {
        Scale::Large
    } else if u == "ENTERPRISE"@ {
        Scale::Enterprise
    } else {
        Scale::Unknown
    }
}

/// The display icon of a scale.
pub open spec fn scale_icon(s: Scale) -> Seq<char> {
    match s {
        Scale::Unknown => "❓"@,
        Scale::Small => "📄"@,
        Scale::Medium => "📁"@,
        Scale::Large => "🏗️"@,
        Scale::Enterprise => "🏢"@,
    }
}

impl Scale {
    /// Classify a project by its file count (excluding noise directories).
    pub fn from_file_count(count: i64) -> (r: Scale)
        ensures
            r == scale_for_count(count as int),
    {
        if count <= 99 {
            Scale::Small
        } else if count <= 999 {
            Scale::Medium
        } else if count <= 9999 {
            Scale::Large
        } else {
            Scale::Enterprise
        }
    }

    pub fn as_str(&self) -> (r: &'static str)
        ensures
            r@ == scale_label(*self),
    {
        match self {
            Scale::Unknown => "UNKNOWN",
            Scale::Small => "SMALL",
            Scale::Medium => "MEDIUM",
            Scale::Large => "LARGE",
            Scale::Enterprise => "ENTERPRISE",
        }
    }

    /// Parses a label case-insensitively; unknown labels give `Unknown`.
    pub fn from_str(s: &str) -> (r: Scale)
        ensures
            r == scale_from_label(upper_of(s@)),
            is_ascii_seq(s@) ==> r == scale_from_label(ascii_upper_seq(s@)),
    {
        let u = to_upper(s);
        if str_eq(u.as_str(), "SMALL") {
            Scale::Small
        } else if str_eq(u.as_str(), "MEDIUM") {
            Scale::Medium
        } else if str_eq(u.as_str(), "LARGE") {
            Scale::Large
        } else if str_eq(u.as_str(), "ENTERPRISE") {
            Scale::Enterprise
        } else {
            Scale::Unknown
        }
    }

    /// Returns an emoji indicator for display.
    pub fn icon(&self) -> (r: &'static str)
        ensures
            r@ == scale_icon(*self),
    {
        match self {
            Scale::Unknown => "❓",
            Scale::Small => "📄",
            Scale::Medium => "📁",
            Scale::Large => "🏗️",
            Scale::Enterprise => "🏢",
        }
    }
}

/// Project status in the lifecycle.
#[derive(Debug, Clone, Copy, PartialEq, Eq, Structural)]
pub enum ProjectStatus {
    Active,
    Sleeping,
    Scanning,
}

pub open spec fn status_label(s: ProjectStatus) -> Seq<char> {
    match s {
        ProjectStatus::Active => "ACTIVE"@,
        ProjectStatus::Sleeping => "SLEEPING"@,
        ProjectStatus::Scanning => "SCANNING"@,
    }
}

/// The status named by an upper-cased label; anything else is `Sleeping`.
pub open spec fn status_from_label(u: Seq<char>) -> ProjectStatus {
    if u == "ACTIVE"@ {
        ProjectStatus::Active
    } else if u == "SCANNING"@ {
        ProjectStatus::Scanning
    } else {
        ProjectStatus::Sleeping
    }
}

pub open spec fn status_icon(s: ProjectStatus) -> Seq<char> {
    match s {
        ProjectStatus::Active => "🟢"@,
        ProjectStatus::Sleeping => "💤"@,
        ProjectStatus::Scanning => "🔍"@,
    }
}

impl ProjectStatus {
    pub fn as_str(&self) -> (r: &'static str)
        ensures
            r@ == status_label(*self),
    {
        match self {
            ProjectStatus::Active => "ACTIVE",
            ProjectStatus::Sleeping => "SLEEPING",
            ProjectStatus::Scanning => "SCANNING",
        }
    }

    /// Parses a label case-insensitively; unknown labels give `Sleeping`.
    pub fn from_str(s: &str) -> (r: ProjectStatus)
        ensures
            r == status_from_label(upper_of(s@)),
            is_ascii_seq(s@) ==> r == status_from_label(ascii_upper_seq(s@)),
    {
        let u = to_upper(s);
        if str_eq(u.as_str(), "ACTIVE") {
            ProjectStatus::Active
        } else if str_eq(u.as_str(), "SCANNING") {
            ProjectStatus::Scanning
        } else {
            ProjectStatus::Sleeping
        }
    }

    /// Returns an emoji indicator for display.
    pub fn icon(&self) -> (r: &'static str)
        ensures
            r@ == status_icon(*self),
    {
        match self {
            ProjectStatus::Active => "🟢",
            ProjectStatus::Sleeping => "💤",
            ProjectStatus::Scanning => "🔍",
        }
    }
}

/// Parsing the stored label of a scale gives the scale back.
pub proof fn lemma_scale_label_roundtrip(s: Scale)
    ensures
        is_ascii_seq(scale_label(s)),
        scale_from_label(ascii_upper_seq(scale_label(s))) == s,
{
    reveal_strlit("UNKNOWN");
    reveal_strlit("SMALL");
    reveal_strlit("MEDIUM");
    reveal_strlit("LARGE");
    reveal_strlit("ENTERPRISE");
    assert(ascii_upper_seq(scale_label(s)) =~= scale_label(s));
    let l = scale_label(s);
    match s {
        Scale::Unknown => {
            assert(l[0] != "SMALL"@[0] && l[0] != "MEDIUM"@[0] && l[0] != "LARGE"@[0] && l[0]
                != "ENTERPRISE"@[0]);
        },
        Scale::Small => {},
        Scale::Medium => {
            assert(l[0] != "SMALL"@[0]);
        },
        Scale::Large => {
            assert(l[0] != "SMALL"@[0] && l[0] != "MEDIUM"@[0]);
        },
        Scale::Enterprise => {
            assert(l[0] != "SMALL"@[0] && l[0] != "MEDIUM"@[0] && l[0] != "LARGE"@[0]);
        },
    }
}

/// Parsing the stored label of a status gives the status back.
pub proof fn lemma_status_label_roundtrip(s: ProjectStatus)
    ensures
        is_ascii_seq(status_label(s)),
        status_from_label(ascii_upper_seq(status_label(s))) == s,
{
    reveal_strlit("ACTIVE");
    reveal_strlit("SLEEPING");
    reveal_strlit("SCANNING");
    assert(ascii_upper_seq(status_label(s)) =~= status_label(s));
    let l = status_label(s);
    match s {
        ProjectStatus::Active => {},
        ProjectStatus::Sleeping => {
            assert(l[1] != "ACTIVE"@[1] && l[1] != "SCANNING"@[1]);
        },
        ProjectStatus::Scanning => {
            assert(l[0] != "ACTIVE"@[0]);
        },
    }
}

/// The `i`-th name tried for a project called `base`: `base` itself first,
/// then `base-2`, `base-3`, ...
pub open spec fn candidate_name(base: Seq<char>, i: nat) -> Seq<char> {
    if i < 2 {
        base
    } else {
        base + seq!['-'] + decimal_number(i)
    }
}

/// The first of the candidates `i..=100` that no registered project uses.
pub open spec fn first_free_name(base: Seq<char>, taken: Seq<Seq<char>>, i: nat) -> Option<
    Seq<char>,
>
    decreases 101 - i,
{
    if i > 100 {
        None
    } else if !taken.contains(candidate_name(base, i)) {
        Some(candidate_name(base, i))
    } else {
        first_free_name(base, taken, i + 1)
    }
}

/// The characters of each string, in order.
pub open spec fn names_of(v: Seq<String>) -> Seq<Seq<char>> {
    v.map_values(|s: String| s@)
}

/// Whether `name` is among `taken`.
fn is_taken(taken: &[String], name: &str) -> (r: bool)
    ensures
        r == names_of(taken@).contains(name@),
{
    let mut i: usize = 0;
    while i < taken.len()
        invariant
            i <= taken@.len(),
            forall|j: int| 0 <= j < i ==> #[trigger] taken@[j]@ != name@,
        decreases taken@.len() - i,
    {
        if str_eq(taken[i].as_str(), name) {
            assert(names_of(taken@)[i as int] == name@);
            return true;
        }
        i += 1;
    }
    proof {
        if names_of(taken@).contains(name@) {
            let j = choose|j: int| 0 <= j < names_of(taken@).len() && names_of(taken@)[j] == name@;
            assert(taken@[j]@ == name@);
        }
    }
    false
}

/// A name for a new project called `base_name` that none of the registered
/// names `taken` uses: `base_name` itself, else the first free of
/// `base_name-2` ... `base_name-100`; `None` when all of them are taken.
pub fn unique_name(base_name: &str, taken: &[String]) -> (r: Option<String>)
    ensures
        match r {
            Some(n) => first_free_name(base_name@, names_of(taken@), 1) == Some(n@),
            None => first_free_name(base_name@, names_of(taken@), 1) is None,
        },
{
    if !is_taken(taken, base_name) {
        return Some(base_name.to_owned());
    }
    let base = chars_of(base_name);
    let mut i: u64 = 2;
    while i <= 100
        invariant
            2 <= i <= 101,
            base@ == base_name@,
            first_free_name(base_name@, names_of(taken@), 1) == first_free_name(
                base_name@,
                names_of(taken@),
                i as nat,
            ),
        decreases 101 - i,
    {
        let mut candidate = String::new();
        push_all(&mut candidate, &base);
        push_char(&mut candidate, '-');
        let digits = decimal_of_u64(i);
        push_all(&mut candidate, &digits);
        assert(candidate@ == candidate_name(base_name@, i as nat));
        if !is_taken(taken, candidate.as_str()) {
            return Some(candidate);
        }
        i += 1;
    }
    None
}

/// The name chosen for a new project is used by no registered project, and
/// every candidate tried before it is taken.
pub proof fn lemma_unique_name_is_free(base: Seq<char>, taken: Seq<Seq<char>>, i: nat)
    requires
        1 <= i,
    ensures
        first_free_name(base, taken, i) matches Some(n) ==> !taken.contains(n) && exists|k: nat|
            i <= k <= 100 && n == candidate_name(base, k) && forall|m: nat|
                i <= m < k ==> taken.contains(#[trigger] candidate_name(base, m)),
    decreases 101 - i,
{
    if i <= 100 && taken.contains(candidate_name(base, i)) {
        lemma_unique_name_is_free(base, taken, i + 1);
        if let Some(n) = first_free_name(base, taken, i + 1) {
            let k = choose|k: nat|
                i + 1 <= k <= 100 && n == candidate_name(base, k) && forall|m: nat|
                    i + 1 <= m < k ==> taken.contains(#[trigger] candidate_name(base, m));
            assert forall|m: nat| i <= m < k implies taken.contains(
                #[trigger] candidate_name(base, m),
            ) by {
                if m > i {
                }
            }
        }
    } else if i <= 100 {
        assert(first_free_name(base, taken, i) == Some(candidate_name(base, i)));
    }
}

} // verus!
