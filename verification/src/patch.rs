//! Localization definitions and the rules that check them against the
//! official source and apply them to a local file.
use vstd::prelude::*;

use crate::text::{
    chars_eq, chars_of, contains, contains_chars, replace_all, replace_chars, string_of,
    string_views,
};
use crate::util::{diff_lines, diff_text};

verus! {

/// Where the localization definitions are published.
pub const PATCHES_URL: &'static str =
    "https://raw.githubusercontent.com/danxcheng/ml4w-zh/master/patches/patches.json";

/// Root of the official ML4W dotfiles sources.
pub const ML4W_RAW: &'static str = "https://raw.githubusercontent.com/mylinuxforwork/dotfiles";

/// The localization of one file.
#[derive(Debug)]
pub struct PatchFile {
    pub path: String,
    pub source: String,
    pub backup: bool,
    pub protect: bool,
    pub patches: Vec<Patch>,
}

/// One replacement: `old` text becomes `new` text.
#[derive(Debug)]
pub struct Patch {
    pub old: String,
    pub new: String,
}

/// The URL of the official source of a localized file.
pub open spec fn source_url(source: Seq<char>) -> Seq<char> {
    ML4W_RAW@ + "/"@ + source
}

/// The URL of the official source of `pf`.
pub fn official_url(pf: &PatchFile) -> (r: String)
    ensures
        r@ == source_url(pf.source@),
{
    let mut v = chars_of(ML4W_RAW);
    let slash = chars_of("/");
    crate::text::append_chars(&mut v, slash.as_slice());
    let s = chars_of(pf.source.as_str());
    crate::text::append_chars(&mut v, s.as_slice());
    string_of(v.as_slice())
}

/// The localized text of the first replacement, empty when there is none.
pub open spec fn first_new(patches: Seq<Patch>) -> Seq<char> {
    if patches.len() > 0 {
        patches[0].new@
    } else {
        Seq::empty()
    }
}

/// The state of a local file against its official source: `match` when they
/// are equal, else `patched` when the file holds the first localized text,
/// else `mismatch`.
pub open spec fn source_status(local: Seq<char>, official: Seq<char>, patches: Seq<Patch>) -> Seq<
    char,
> {
    if local == official {
        "match"@
    } else if contains(local, first_new(patches)) {
        "patched"@
    } else {
        "mismatch"@
    }
}

/// Compares a local file's content with its official source; returns the
/// state (`match`, `patched` or `mismatch`) and the official content.
pub fn verify_against_source(pf: &PatchFile, local: &str, official: &str) -> (r: (String, String))
    ensures
        r.0@ == source_status(local@, official@, pf.patches@),
        r.1@ == official@,
{
    let l = chars_of(local);
    let o = chars_of(official);
    let official_copy = string_of(o.as_slice());
    if chars_eq(l.as_slice(), o.as_slice()) {
        return (string_of(chars_of("match").as_slice()), official_copy);
    }
    let first: Vec<char> = if pf.patches.len() > 0 {
        chars_of(pf.patches[0].new.as_str())
    } else {
        Vec::new()
    };
    assert(first@ == first_new(pf.patches@));
    if contains_chars(l.as_slice(), first.as_slice()) {
        (string_of(chars_of("patched").as_slice()), official_copy)
    } else {
        (string_of(chars_of("mismatch").as_slice()), official_copy)
    }
}

/// The text and the count after the first `k` replacements: a replacement
/// whose new text is already present, or whose old text is absent, is passed
/// over; any other replaces all occurrences of its old text and is counted.
pub open spec fn apply_prefix(content: Seq<char>, patches: Seq<Patch>, k: nat) -> (Seq<char>, nat)
    decreases k,
{
    if k == 0 {
        (content, 0)
    } else {
        let prev = apply_prefix(content, patches, (k - 1) as nat);
        let p = patches[k - 1];
        if contains(prev.0, p.new@) {
            prev
        } else if contains(prev.0, p.old@) {
            (replace_all(prev.0, p.old@, p.new@), prev.1 + 1)
        } else {
            prev
        }
    }
}

/// The text and the count after all replacements.
pub open spec fn apply_all(content: Seq<char>, patches: Seq<Patch>) -> (Seq<char>, nat) {
    apply_prefix(content, patches, patches.len())
}

/// The count never exceeds the number of replacements considered.
pub proof fn lemma_apply_count_bound(content: Seq<char>, patches: Seq<Patch>, k: nat)
    ensures
        apply_prefix(content, patches, k).1 <= k,
    decreases k,
{
    if k > 0 {
        lemma_apply_count_bound(content, patches, (k - 1) as nat);
    }
}

/// Applies the replacements in order to `content`; returns the new text and
/// the number of replacements performed.
pub fn apply_patches(content: &str, patches: &Vec<Patch>) -> (r: (String, usize))
    ensures
        r.0@ == apply_all(content@, patches@).0,
        r.1 == apply_all(content@, patches@).1,
        r.1 <= patches@.len(),
{
    let mut result = chars_of(content);
    let mut count: usize = 0;
    for i in 0..patches.len()
        invariant
            result@ == apply_prefix(content@, patches@, i as nat).0,
            count == apply_prefix(content@, patches@, i as nat).1,
            count <= i,
    {
        let new = chars_of(patches[i].new.as_str());
        if !contains_chars(result.as_slice(), new.as_slice()) {
            let old = chars_of(patches[i].old.as_str());
            if contains_chars(result.as_slice(), old.as_slice()) {
                result = replace_chars(result.as_slice(), old.as_slice(), new.as_slice());
                count = count + 1;
            }
        }
    }
    (string_of(result.as_slice()), count)
}

/// What localizing one file does, decided from its local and official content.
pub struct ApplyPlan {
    /// The state of the local file (see `verify_against_source`).
    pub status: String,
    /// The differences to show for an unofficial file in a preview.
    pub diff: Vec<String>,
    /// Back the file up before writing it.
    pub backup: bool,
    /// Create the `PROTECTED` marker beside the file.
    pub protect: bool,
    /// The localized content.
    pub content: String,
    /// The number of replacements performed.
    pub count: usize,
    /// Write `content` back to the file.
    pub write: bool,
}

/// Decides how to localize one file (or preview it, with `dry_run`) whose
/// content is `local` and whose official source is `official`. Only a file
/// equal to its official source is localized; the count is what `apply`
/// reports for the file.
pub fn apply_one(pf: &PatchFile, dry_run: bool, local: &str, official: &str) -> (r: ApplyPlan)
    ensures
        r.status@ == source_status(local@, official@, pf.patches@),
        string_views(r.diff@) == if local@ != official@ && !contains(
            local@,
            first_new(pf.patches@),
        ) && dry_run {
            diff_lines(official@, local@)
        } else {
            Seq::empty()
        },
        r.backup == (local@ == official@ && !dry_run && pf.backup),
        r.protect == (local@ == official@ && !dry_run && pf.protect),
        local@ == official@ ==> r.content@ == apply_all(local@, pf.patches@).0 && r.count
            == apply_all(local@, pf.patches@).1,
        local@ != official@ ==> r.content@ == local@ && r.count == 0,
        r.write == (local@ == official@ && r.count > 0 && !dry_run),
        r.write || r.backup || r.protect ==> local@ == official@,
        dry_run ==> !r.write && !r.backup && !r.protect,
        r.count <= pf.patches@.len(),
{
    let (status, _official) = verify_against_source(pf, local, official);
    let l = chars_of(local);
    let o = chars_of(official);
    if !chars_eq(l.as_slice(), o.as_slice()) {
        let first: Vec<char> = if pf.patches.len() > 0 {
            chars_of(pf.patches[0].new.as_str())
        } else {
            Vec::new()
        };
        assert(first@ == first_new(pf.patches@));
        let patched = contains_chars(l.as_slice(), first.as_slice());
        let diff = if !patched && dry_run {
            diff_text(official, local)
        } else {
            let d: Vec<String> = Vec::new();
            assert(string_views(d@) =~= Seq::empty());
            d
        };
        return ApplyPlan {
            status,
            diff,
            backup: false,
            protect: false,
            content: string_of(l.as_slice()),
            count: 0,
            write: false,
        };
    }
    let (content, count) = apply_patches(local, &pf.patches);
    let d: Vec<String> = Vec::new();
    assert(string_views(d@) =~= Seq::empty());
    ApplyPlan {
        status,
        diff: d,
        backup: !dry_run && pf.backup,
        protect: !dry_run && pf.protect,
        content,
        count,
        write: count > 0 && !dry_run,
    }
}

/// Indices, in order, among the first `k` replacements, of those whose old
/// text is absent from `official`.
pub open spec fn missing_indices(official: Seq<char>, patches: Seq<Patch>, k: nat) -> Seq<nat>
    decreases k,
{
    if k == 0 {
        Seq::empty()
    } else {
        let prev = missing_indices(official, patches, (k - 1) as nat);
        if contains(official, patches[k - 1].old@) {
            prev
        } else {
            prev.push((k - 1) as nat)
        }
    }
}

/// The count of missing indices is bounded by the replacements considered.
proof fn lemma_missing_len(official: Seq<char>, patches: Seq<Patch>, k: nat)
    ensures
        missing_indices(official, patches, k).len() <= k,
    decreases k,
{
    if k > 0 {
        lemma_missing_len(official, patches, (k - 1) as nat);
    }
}

/// The indices of the replacements whose old text the official source lacks.
pub fn missing_patches(official: &str, patches: &Vec<Patch>) -> (r: Vec<usize>)
    ensures
        r@.map_values(|i: usize| i as nat) == missing_indices(official@, patches@, patches@.len()),
{
    let o = chars_of(official);
    let mut r: Vec<usize> = Vec::new();
    for i in 0..patches.len()
        invariant
            o@ == official@,
            r@.map_values(|j: usize| j as nat) == missing_indices(official@, patches@, i as nat),
    {
        let old = chars_of(patches[i].old.as_str());
        let ghost before = r@;
        if !contains_chars(o.as_slice(), old.as_slice()) {
            r.push(i);
            assert(r@.map_values(|j: usize| j as nat) =~= before.map_values(|j: usize| j as nat).push(
                i as nat,
            ));
        }
    }
    r
}

/// The outcome of checking one file's definitions against its official source.
pub struct FileValidation {
    /// The official source could be fetched.
    pub fetched: bool,
    /// Indices of the replacements whose old text the official source lacks.
    pub missing: Vec<usize>,
    /// The error count after this file.
    pub errors: usize,
    /// No error so far: the file is reported as passing.
    pub passed: bool,
}

/// Checks one file's definitions, given the errors counted so far and its
/// official source, `None` when that could not be fetched (one error).
pub fn validate_file(errors: usize, pf: &PatchFile, official: Option<&str>) -> (r: FileValidation)
    requires
        errors + pf.patches@.len() < usize::MAX,
    ensures
        r.fetched == official is Some,
        official is None ==> r.missing@.len() == 0 && r.errors == errors + 1,
        official matches Some(o) ==> r.missing@.map_values(|i: usize| i as nat)
            == missing_indices(o@, pf.patches@, pf.patches@.len()) && r.errors == errors
            + r.missing@.len(),
        r.passed == (official is Some && r.errors == 0),
{
    match official {
        None => FileValidation { fetched: false, missing: Vec::new(), errors: errors + 1, passed: false },
        Some(o) => {
            let missing = missing_patches(o, &pf.patches);
            proof {
                lemma_missing_len(o@, pf.patches@, pf.patches@.len());
                assert(missing@.len() == missing@.map_values(|i: usize| i as nat).len());
            }
            let e = errors + missing.len();
            FileValidation { fetched: true, missing, errors: e, passed: e == 0 }
        },
    }
}

} // verus!
