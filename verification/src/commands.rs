//! The decisions and tallies of the subcommands: localization state of each
//! file, counters of the summaries, and what initialisation does.
use vstd::prelude::*;

use crate::patch::{first_new, Patch, PatchFile};
use crate::text::{chars_eq, chars_of, contains, contains_chars};
use crate::util::opt_view;

verus! {

/// The localization state of one file, as `check` reports it.
#[derive(Debug, Clone, Copy, PartialEq, Eq, Structural)]
pub enum CheckStatus {
    /// The file does not exist.
    Missing,
    /// The file could not be read.
    Unreadable,
    /// The official source could not be fetched.
    Unreachable,
    /// The file is the official source, unlocalized.
    NotLocalized,
    /// The file is the official source, localized.
    Localized,
    /// The file is localized but differs from the official source.
    NeedsUpdate,
    /// The file differs from the official source and is not localized.
    Customized,
}

/// The file holds the first localized text, which is not empty.
pub open spec fn is_localized(content: Seq<char>, patches: Seq<Patch>) -> bool {
    first_new(patches).len() > 0 && contains(content, first_new(patches))
}

/// The state of a file, given whether it exists, its content (`None` when it
/// could not be read) and its official source (`None` when that could not be
/// fetched).
pub open spec fn check_spec(
    patches: Seq<Patch>,
    exists: bool,
    content: Option<Seq<char>>,
    official: Option<Seq<char>>,
) -> CheckStatus {
    if !exists {
        CheckStatus::Missing
    } else {
        match content {
            None => CheckStatus::Unreadable,
            Some(c) => match official {
                None => CheckStatus::Unreachable,
                Some(o) => {
                    let zh = is_localized(c, patches);
                    if c == o && !zh {
                        CheckStatus::NotLocalized
                    } else if c == o && zh {
                        CheckStatus::Localized
                    } else if c != o && zh {
                        CheckStatus::NeedsUpdate
                    } else {
                        CheckStatus::Customized
                    }
                },
            },
        }
    }
}

/// Decides the localization state of one file.
pub fn check_file(pf: &PatchFile, exists: bool, content: Option<&str>, official: Option<&str>) -> (r:
    CheckStatus)
    ensures
        r == check_spec(pf.patches@, exists, opt_view(content), opt_view(official)),
{
    if !exists {
        return CheckStatus::Missing;
    }
    let c = match content {
        None => {
            return CheckStatus::Unreadable;
        },
        Some(c) => c,
    };
    let cc = chars_of(c);
    let first: Vec<char> = if pf.patches.len() > 0 {
        chars_of(pf.patches[0].new.as_str())
    } else {
        Vec::new()
    };
    assert(first@ == first_new(pf.patches@));
    let zh = first.len() > 0 && contains_chars(cc.as_slice(), first.as_slice());
    let o = match official {
        None => {
            return CheckStatus::Unreachable;
        },
        Some(o) => o,
    };
    let oc = chars_of(o);
    let same = chars_eq(cc.as_slice(), oc.as_slice());
    if same && !zh {
        CheckStatus::NotLocalized
    } else if same && zh {
        CheckStatus::Localized
    } else if !same && zh {
        CheckStatus::NeedsUpdate
    } else {
        CheckStatus::Customized
    }
}

/// The counters of the `check` summary.
pub struct CheckTally {
    pub ok: usize,
    pub updated: usize,
    pub outdated: usize,
    pub missing: usize,
}

impl CheckTally {
    /// The number of files counted.
    pub open spec fn total(&self) -> int {
        self.ok + self.updated + self.outdated + self.missing
    }

    /// All counters at zero.
    pub fn new() -> (r: CheckTally)
        ensures
            r.ok == 0 && r.updated == 0 && r.outdated == 0 && r.missing == 0,
    {
        CheckTally { ok: 0, updated: 0, outdated: 0, missing: 0 }
    }

    /// Counts one file: a localized one as ok, one that needs an update as
    /// updated, a missing or unreadable one as missing, any other as outdated.
    pub fn record(&mut self, status: CheckStatus)
        requires
            old(self).ok < usize::MAX,
            old(self).updated < usize::MAX,
            old(self).outdated < usize::MAX,
            old(self).missing < usize::MAX,
        ensures
            final(self).ok == old(self).ok + if status == CheckStatus::Localized {
                1int
            } else {
                0int
            },
            final(self).updated == old(self).updated + if status == CheckStatus::NeedsUpdate {
                1int
            } else {
                0int
            },
            final(self).missing == old(self).missing + if status == CheckStatus::Missing || status
                == CheckStatus::Unreadable {
                1int
            } else {
                0int
            },
            final(self).outdated == old(self).outdated + if status == CheckStatus::Unreachable
                || status == CheckStatus::NotLocalized || status == CheckStatus::Customized {
                1int
            } else {
                0int
            },
            final(self).total() == old(self).total() + 1,
    {
        match status {
            CheckStatus::Localized => {
                self.ok = self.ok + 1;
            },
            CheckStatus::NeedsUpdate => {
                self.updated = self.updated + 1;
            },
            CheckStatus::Missing | CheckStatus::Unreadable => {
                self.missing = self.missing + 1;
            },
            _ => {
                self.outdated = self.outdated + 1;
            },
        }
    }
}

/// The counters of the `apply` summary.
pub struct ApplyTally {
    pub total: usize,
    pub skipped: usize,
    pub errors: usize,
}

impl ApplyTally {
    /// All counters at zero.
    pub fn new() -> (r: ApplyTally)
        ensures
            r.total == 0 && r.skipped == 0 && r.errors == 0,
    {
        ApplyTally { total: 0, skipped: 0, errors: 0 }
    }

    /// Counts the outcome of one file: `Some(n)` replacements, or `None` for
    /// an error. Outside a preview a file with no replacement is skipped.
    pub fn record(&mut self, outcome: Option<usize>, dry_run: bool)
        requires
            outcome matches Some(n) ==> old(self).total + n <= usize::MAX,
            old(self).skipped < usize::MAX,
            old(self).errors < usize::MAX,
        ensures
            match outcome {
                Some(n) => {
                    &&& final(self).total == old(self).total + n
                    &&& final(self).skipped == old(self).skipped + if n == 0 && !dry_run {
                        1int
                    } else {
                        0int
                    }
                    &&& final(self).errors == old(self).errors
                },
                None => {
                    &&& final(self).total == old(self).total
                    &&& final(self).skipped == old(self).skipped
                    &&& final(self).errors == old(self).errors + 1
                },
            },
    {
        match outcome {
            Some(n) => {
                if n == 0 && !dry_run {
                    self.skipped = self.skipped + 1;
                }
                self.total = self.total + n;
            },
            None => {
                self.errors = self.errors + 1;
            },
        }
    }
}

/// The first of the scanned directories that holds the backup looked for,
/// given for each whether it does; `revert` of one file restores from it.
pub fn first_found(found: &Vec<bool>) -> (r: Option<usize>)
    ensures
        match r {
            Some(i) => i < found@.len() && found@[i as int] && forall|j: int|
                0 <= j < i ==> !found@[j],
            None => forall|j: int| 0 <= j < found@.len() ==> !found@[j],
        },
{
    for i in 0..found.len()
        invariant
            forall|j: int| 0 <= j < i ==> !found@[j],
    {
        if found[i] {
            return Some(i);
        }
    }
    None
}

/// What `init` does for one file: `(backup, protect)`, nothing for a file
/// that does not exist.
pub fn init_plan(pf: &PatchFile, exists: bool) -> (r: (bool, bool))
    ensures
        r.0 == (exists && pf.backup),
        r.1 == (exists && pf.protect),
{
    (exists && pf.backup, exists && pf.protect)
}

/// The number of replacements over the first `k` files.
pub open spec fn patch_count(files: Seq<PatchFile>, k: nat) -> nat
    decreases k,
{
    if k == 0 {
        0
    } else {
        patch_count(files, (k - 1) as nat) + files[k - 1].patches@.len()
    }
}

/// The counts of `k` files bound those of fewer.
proof fn lemma_patch_count_monotone(files: Seq<PatchFile>, j: nat, k: nat)
    requires
        j <= k,
    ensures
        patch_count(files, j) <= patch_count(files, k),
    decreases k,
{
    if j < k {
        lemma_patch_count_monotone(files, j, (k - 1) as nat);
    }
}

/// The number of replacements over all files.
pub fn count_patches(files: &Vec<PatchFile>) -> (r: usize)
    requires
        patch_count(files@, files@.len()) <= usize::MAX,
    ensures
        r == patch_count(files@, files@.len()),
{
    let mut total: usize = 0;
    for i in 0..files.len()
        invariant
            patch_count(files@, files@.len()) <= usize::MAX,
            total == patch_count(files@, i as nat),
    {
        proof {
            lemma_patch_count_monotone(files@, (i + 1) as nat, files@.len());
        }
        total = total + files[i].patches.len();
    }
    total
}

} // verus!
