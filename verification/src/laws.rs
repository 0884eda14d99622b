//! Properties that relate the library's functions to one another.
use vstd::prelude::*;

use crate::commands::{check_spec, patch_count, CheckStatus};
use crate::patch::{apply_all, apply_prefix, missing_indices, source_status, Patch, PatchFile};
use crate::text::{
    contains, decimal, digit_char, first_newline, lines, occurs_at, replace_all, strip_cr,
};
use crate::util::{
    backup_file_spec, changed_lines, diff_lines, expand_spec, is_white_space, join_path,
    line_change, path_file_name, path_parent, trim_end_spec, trim_spec, BACKUP_DIR,
};

verus! {

/// A replacement whose (non-empty) pattern does not occur leaves the text as it is.
pub proof fn lemma_replace_absent(s: Seq<char>, from: Seq<char>, to: Seq<char>)
    requires
        from.len() > 0,
        !contains(s, from),
    ensures
        replace_all(s, from, to) == s,
    decreases s.len(),
{
    if s.len() > 0 {
        assert(!occurs_at(s, from, 0));
        let t = s.drop_first();
        assert(!contains(t, from)) by {
            if contains(t, from) {
                let i = choose|i: int| occurs_at(t, from, i);
                assert(s.subrange(i + 1, i + 1 + from.len()) =~= t.subrange(i, i + from.len()));
                assert(occurs_at(s, from, i + 1));
            }
        }
        lemma_replace_absent(t, from, to);
        assert(seq![s[0]] + t =~= s);
    }
}

/// Replacing every `c` by a text without `c` leaves no `c` behind.
proof fn lemma_replace_char_removes(s: Seq<char>, c: char, to: Seq<char>)
    requires
        !to.contains(c),
    ensures
        !replace_all(s, seq![c], to).contains(c),
    decreases s.len(),
{
    if s.len() > 0 {
        let t = s.drop_first();
        lemma_replace_char_removes(t, c, to);
        let rest = replace_all(t, seq![c], to);
        if occurs_at(s, seq![c], 0) {
            assert(replace_all(s, seq![c], to) == to + rest);
            assert(s.skip(1) =~= t);
            assert forall|i: int| 0 <= i < (to + rest).len() implies (to + rest)[i] != c by {
                if i < to.len() {
                    assert((to + rest)[i] == to[i]);
                } else {
                    assert((to + rest)[i] == rest[i - to.len()]);
                }
            }
        } else {
            assert(s.subrange(0, 1) =~= seq![s[0]]);
            assert(s[0] != c);
            assert forall|i: int| 0 <= i < (seq![s[0]] + rest).len() implies (seq![s[0]]
                + rest)[i] != c by {
                if i > 0 {
                    assert((seq![s[0]] + rest)[i] == rest[i - 1]);
                }
            }
        }
    }
}

/// A text without the character `c` does not contain the pattern `[c]`.
proof fn lemma_no_char_no_pattern(s: Seq<char>, c: char)
    requires
        !s.contains(c),
    ensures
        !contains(s, seq![c]),
{
    if contains(s, seq![c]) {
        let i = choose|i: int| occurs_at(s, seq![c], i);
        assert(s.subrange(i, i + 1)[0] == s[i]);
    }
}

/// With an absolute home directory, every expanded path is absolute.
pub proof fn law_expand_is_absolute(path: Seq<char>, home: Seq<char>)
    requires
        home.len() > 0,
        home[0] == '/',
    ensures
        expand_spec(path, home).len() > 0,
        expand_spec(path, home)[0] == '/',
{
    let p = replace_all(path, seq!['~'], home);
    if !(p.len() > 0 && p[0] == '/') {
        let j = join_path(home, p);
        if home.last() == '/' {
            assert(j == home + p);
        } else {
            assert(j == home + seq!['/'] + p);
        }
        assert(j[0] == home[0]);
    }
}

/// With a home directory free of `~`, an expanded path holds no `~`.
pub proof fn law_expand_has_no_tilde(path: Seq<char>, home: Seq<char>)
    requires
        !home.contains('~'),
    ensures
        !expand_spec(path, home).contains('~'),
{
    let p = replace_all(path, seq!['~'], home);
    lemma_replace_char_removes(path, '~', home);
    let q = expand_spec(path, home);
    if !(p.len() > 0 && p[0] == '/') {
        let sep = if joins_without_separator(home) {
            Seq::<char>::empty()
        } else {
            seq!['/']
        };
        assert(q == home + sep + p);
        assert forall|i: int| 0 <= i < q.len() implies q[i] != '~' by {
            if i < home.len() {
                assert(q[i] == home[i]);
            } else if i < home.len() + sep.len() {
                assert(q[i] == sep[i - home.len()]);
            } else {
                assert(q[i] == p[i - home.len() - sep.len()]);
            }
        }
    }
}

/// `join_path` adds no separator after an empty base or one ending in `/`.
spec fn joins_without_separator(base: Seq<char>) -> bool {
    base.len() == 0 || base.last() == '/'
}

/// With an absolute home directory free of `~`, expanding an expanded path
/// changes nothing.
pub proof fn law_expand_idempotent(path: Seq<char>, home: Seq<char>)
    requires
        home.len() > 0,
        home[0] == '/',
        !home.contains('~'),
    ensures
        expand_spec(expand_spec(path, home), home) == expand_spec(path, home),
{
    let q = expand_spec(path, home);
    law_expand_is_absolute(path, home);
    law_expand_has_no_tilde(path, home);
    lemma_no_char_no_pattern(q, '~');
    lemma_replace_absent(q, seq!['~'], home);
}

/// No message among the first `n` positions exactly when the lines there agree.
proof fn lemma_changed_lines_empty(la: Seq<Seq<char>>, lb: Seq<Seq<char>>, n: nat)
    requires
        n <= la.len(),
        n <= lb.len(),
    ensures
        changed_lines(la, lb, n).len() == 0 <==> forall|i: int| 0 <= i < n ==> la[i] == lb[i],
    decreases n,
{
    if n > 0 {
        lemma_changed_lines_empty(la, lb, (n - 1) as nat);
    }
}

/// Comparing two texts reports nothing exactly when their lines are the same.
pub proof fn law_diff_empty_iff_same_lines(a: Seq<char>, b: Seq<char>)
    ensures
        diff_lines(a, b).len() == 0 <==> lines(a) == lines(b),
{
    let la = lines(a);
    let lb = lines(b);
    let n = if la.len() <= lb.len() {
        la.len()
    } else {
        lb.len()
    };
    lemma_changed_lines_empty(la, lb, n);
    if diff_lines(a, b).len() == 0 {
        assert(la.len() == lb.len());
        assert(la =~= lb);
    }
}

/// A text compared with itself reports nothing.
pub proof fn law_diff_self_empty(a: Seq<char>)
    ensures
        diff_lines(a, a).len() == 0,
{
    law_diff_empty_iff_same_lines(a, a);
}

/// `revert` looks for the backup of the file `name` in `dir` exactly where the
/// backup of that file was stored.
pub proof fn law_revert_finds_backup(file: Seq<char>, dir: Seq<char>, name: Seq<char>)
    requires
        path_parent(file) == Some(dir),
        path_file_name(file) == Some(name),
    ensures
        backup_file_spec(path_parent(file), path_file_name(file), file) == join_path(
            join_path(dir, BACKUP_DIR@),
            name,
        ),
{
}

/// A text that already holds the new text of every replacement is left as it
/// is, with nothing counted.
pub proof fn law_apply_already_localized(content: Seq<char>, patches: Seq<Patch>, k: nat)
    requires
        k <= patches.len(),
        forall|i: int| 0 <= i < patches.len() ==> contains(content, #[trigger] patches[i].new@),
    ensures
        apply_prefix(content, patches, k) == (content, 0nat),
    decreases k,
{
    if k > 0 {
        law_apply_already_localized(content, patches, (k - 1) as nat);
        assert(contains(content, patches[k - 1].new@));
    }
}

/// When nothing is counted, the text is left as it is: a count of zero means
/// there was nothing to change.
pub proof fn law_zero_count_unchanged(content: Seq<char>, patches: Seq<Patch>, k: nat)
    requires
        apply_prefix(content, patches, k).1 == 0,
    ensures
        apply_prefix(content, patches, k).0 == content,
    decreases k,
{
    if k > 0 {
        let prev = apply_prefix(content, patches, (k - 1) as nat);
        assert(prev.1 == 0);
        law_zero_count_unchanged(content, patches, (k - 1) as nat);
    }
}

/// `c` is one of the ASCII digits `0` to `9`.
pub open spec fn is_digit(c: char) -> bool {
    48 <= (c as u32) <= 57
}

/// The number that a string of ASCII digits denotes in base ten.
pub open spec fn digits_value(s: Seq<char>) -> int
    decreases s.len(),
{
    if s.len() == 0 {
        0
    } else {
        10 * digits_value(s.drop_last()) + ((s.last() as u32) - 48)
    }
}

/// The digit character of `d` is the ASCII digit whose value is `d`.
proof fn lemma_digit_char(d: nat)
    requires
        d < 10,
    ensures
        (digit_char(d) as u32) == 48 + d,
{
}

/// The decimal notation of `n` is a non-empty string of digits, without a
/// leading zero unless `n` is zero, that reads back as `n`.
pub proof fn law_decimal_reads_back(n: nat)
    ensures
        decimal(n).len() > 0,
        forall|i: int| 0 <= i < decimal(n).len() ==> is_digit(#[trigger] decimal(n)[i]),
        digits_value(decimal(n)) == n,
        n > 0 ==> decimal(n)[0] != '0',
    decreases n,
{
    if n < 10 {
        lemma_digit_char(n);
        assert(decimal(n) =~= seq![digit_char(n)]);
        assert(decimal(n).drop_last() =~= Seq::<char>::empty());
        assert(digits_value(Seq::<char>::empty()) == 0);
        assert(decimal(n).last() == digit_char(n));
        assert(digits_value(decimal(n)) == 10 * digits_value(decimal(n).drop_last()) + ((
        decimal(n).last() as u32) - 48));
    } else {
        let q = n / 10;
        let r = n % 10;
        law_decimal_reads_back(q);
        lemma_digit_char(r);
        let d = decimal(n);
        assert(d == decimal(q).push(digit_char(r)));
        assert(d.drop_last() =~= decimal(q));
        assert forall|i: int| 0 <= i < d.len() implies is_digit(#[trigger] d[i]) by {
            if i < decimal(q).len() {
                assert(d[i] == decimal(q)[i]);
            }
        }
        assert(n == 10 * q + r) by (nonlinear_arith)
            requires
                q == n / 10,
                r == n % 10,
        ;
        assert(q > 0);
        assert(d[0] == decimal(q)[0]);
        assert(d.last() == digit_char(r));
        assert(digits_value(d) == 10 * digits_value(d.drop_last()) + ((d.last() as u32) - 48));
    }
}

/// A differing pair of lines among the first `n` positions is reported.
proof fn lemma_changed_lines_reports(la: Seq<Seq<char>>, lb: Seq<Seq<char>>, n: nat, i: int)
    requires
        0 <= i < n,
        n <= la.len(),
        n <= lb.len(),
        la[i] != lb[i],
    ensures
        changed_lines(la, lb, n).contains(line_change((i + 1) as nat, la[i], lb[i])),
    decreases n,
{
    let prev = changed_lines(la, lb, (n - 1) as nat);
    let m = line_change((i + 1) as nat, la[i], lb[i]);
    if i == n - 1 {
        let all = changed_lines(la, lb, n);
        assert(all == prev + seq![m]);
        assert(all[prev.len() as int] == m);
    } else {
        lemma_changed_lines_reports(la, lb, (n - 1) as nat, i);
        let j = choose|j: int| 0 <= j < prev.len() && prev[j] == m;
        let all = changed_lines(la, lb, n);
        assert(all[j] == m);
    }
}

/// Every message among the first `n` positions reports a differing pair of
/// lines, under its 1-based position written in decimal.
proof fn lemma_changed_lines_sound(la: Seq<Seq<char>>, lb: Seq<Seq<char>>, n: nat, j: int)
    requires
        n <= la.len(),
        n <= lb.len(),
        0 <= j < changed_lines(la, lb, n).len(),
    ensures
        exists|i: int|
            0 <= i < n && la[i] != lb[i] && changed_lines(la, lb, n)[j] == "  L"@ + decimal(
                (i + 1) as nat,
            ) + ": -"@ + la[i] + "+"@ + lb[i],
    decreases n,
{
    let prev = changed_lines(la, lb, (n - 1) as nat);
    if j < prev.len() {
        lemma_changed_lines_sound(la, lb, (n - 1) as nat, j);
        let i = choose|i: int|
            0 <= i < n - 1 && la[i] != lb[i] && prev[j] == "  L"@ + decimal((i + 1) as nat)
                + ": -"@ + la[i] + "+"@ + lb[i];
        assert(changed_lines(la, lb, n)[j] == prev[j]);
    } else {
        let i = n - 1;
        assert(la[i] != lb[i]);
        assert(changed_lines(la, lb, n)[j] == line_change((i + 1) as nat, la[i], lb[i]));
    }
}

/// Comparing two texts reports each position where their lines differ as
/// `  L<n>: -<line of a>+<line of b>`, where `<n>` is the full decimal
/// 1-based line number; every such message reports a differing position.
pub proof fn law_diff_reports_each_differing_line(a: Seq<char>, b: Seq<char>)
    ensures
        forall|i: int|
            #![trigger lines(a)[i], lines(b)[i]]
            0 <= i < lines(a).len() && i < lines(b).len() && lines(a)[i] != lines(b)[i]
                ==> diff_lines(a, b).contains(
                "  L"@ + decimal((i + 1) as nat) + ": -"@ + lines(a)[i] + "+"@ + lines(b)[i],
            ),
        forall|j: int|
            0 <= j < diff_lines(a, b).len() && (lines(a).len() == lines(b).len() || j
                < diff_lines(a, b).len() - 1) ==> exists|i: int|
                0 <= i < lines(a).len() && i < lines(b).len() && lines(a)[i] != lines(b)[i]
                    && #[trigger] diff_lines(a, b)[j] == "  L"@ + decimal((i + 1) as nat) + ": -"@
                    + lines(a)[i] + "+"@ + lines(b)[i],
{
    let la = lines(a);
    let lb = lines(b);
    let n: nat = if la.len() <= lb.len() {
        la.len()
    } else {
        lb.len()
    };
    let changed = changed_lines(la, lb, n);
    let tail = if la.len() != lb.len() {
        seq![
            "  行数差异: "@ + decimal(la.len()) + " vs "@ + decimal(lb.len()),
        ]
    } else {
        Seq::<Seq<char>>::empty()
    };
    assert(diff_lines(a, b) == changed + tail);
    assert forall|i: int|
        #![trigger lines(a)[i], lines(b)[i]]
        0 <= i < lines(a).len() && i < lines(b).len() && lines(a)[i] != lines(b)[i]
            implies diff_lines(a, b).contains(
        "  L"@ + decimal((i + 1) as nat) + ": -"@ + lines(a)[i] + "+"@ + lines(b)[i],
    ) by {
        lemma_changed_lines_reports(la, lb, n, i);
        let m = line_change((i + 1) as nat, la[i], lb[i]);
        let k = choose|k: int| 0 <= k < changed.len() && changed[k] == m;
        assert(diff_lines(a, b)[k] == m);
    }
    assert forall|j: int|
        0 <= j < diff_lines(a, b).len() && (lines(a).len() == lines(b).len() || j < diff_lines(
            a,
            b,
        ).len() - 1) implies exists|i: int|
        0 <= i < lines(a).len() && i < lines(b).len() && lines(a)[i] != lines(b)[i]
            && #[trigger] diff_lines(a, b)[j] == "  L"@ + decimal((i + 1) as nat) + ": -"@
            + lines(a)[i] + "+"@ + lines(b)[i] by {
        assert(j < changed.len());
        assert(diff_lines(a, b)[j] == changed[j]);
        lemma_changed_lines_sound(la, lb, n, j);
        let i = choose|i: int|
            0 <= i < n && la[i] != lb[i] && changed[j] == "  L"@ + decimal((i + 1) as nat) + ": -"@
                + la[i] + "+"@ + lb[i];
        assert(0 <= i < lines(a).len() && i < lines(b).len() && lines(a)[i] != lines(b)[i]);
    }
}

/// When the line counts differ, the last message gives both counts in full
/// decimal: `  行数差异: <lines of a> vs <lines of b>`; when they agree, no
/// message is about counts.
pub proof fn law_diff_reports_line_counts(a: Seq<char>, b: Seq<char>)
    ensures
        lines(a).len() != lines(b).len() ==> diff_lines(a, b).len() > 0 && diff_lines(a, b).last()
            == "  行数差异: "@ + decimal(lines(a).len()) + " vs "@ + decimal(lines(b).len()),
{
}

/// The state of a file is judged by its first replacement alone: the file is
/// localized when that replacement's new text is non-empty and occurs in it;
/// with that, equality with the official source tells `Localized` from
/// `NeedsUpdate`, and `NotLocalized` from `Customized` without it.
pub proof fn law_check_by_first_replacement(
    patches: Seq<Patch>,
    content: Seq<char>,
    official: Seq<char>,
)
    ensures
        ({
            let zh = patches.len() > 0 && patches[0].new@.len() > 0 && contains(
                content,
                patches[0].new@,
            );
            let r = check_spec(patches, true, Some(content), Some(official));
            &&& zh && content != official ==> r == CheckStatus::NeedsUpdate
            &&& zh && content == official ==> r == CheckStatus::Localized
            &&& !zh && content == official ==> r == CheckStatus::NotLocalized
            &&& !zh && content != official ==> r == CheckStatus::Customized
        }),
        check_spec(patches, false, Some(content), Some(official)) == CheckStatus::Missing,
        check_spec(patches, true, None, Some(official)) == CheckStatus::Unreadable,
        check_spec(patches, true, Some(content), None) == CheckStatus::Unreachable,
{
}

/// A local file differing from its official source is `patched` exactly when
/// it holds the new text of the first replacement (always, when there is no
/// replacement); a file equal to its source is `match`.
pub proof fn law_status_by_first_replacement(
    local: Seq<char>,
    official: Seq<char>,
    patches: Seq<Patch>,
)
    ensures
        local == official ==> source_status(local, official, patches) == "match"@,
        local != official && patches.len() == 0 ==> source_status(local, official, patches)
            == "patched"@,
        local != official && patches.len() > 0 && contains(local, patches[0].new@)
            ==> source_status(local, official, patches) == "patched"@,
        local != official && patches.len() > 0 && !contains(local, patches[0].new@)
            ==> source_status(local, official, patches) == "mismatch"@,
{
    if local != official && patches.len() == 0 {
        assert(occurs_at(local, Seq::<char>::empty(), 0)) by {
            assert(local.subrange(0, 0) =~= Seq::<char>::empty());
        }
    }
}

/// Among the first `k` replacements, index `i` is reported exactly when its
/// old text does not occur in the official source, and only such indices
/// below `k` are reported, in increasing order.
proof fn lemma_missing_indices(official: Seq<char>, patches: Seq<Patch>, k: nat)
    requires
        k <= patches.len(),
    ensures
        forall|i: int|
            0 <= i < k ==> (missing_indices(official, patches, k).contains(i as nat) <==> !contains(
                official,
                #[trigger] patches[i].old@,
            )),
        forall|j: int|
            0 <= j < missing_indices(official, patches, k).len() ==> #[trigger] missing_indices(
                official,
                patches,
                k,
            )[j] < k,
        forall|j1: int, j2: int|
            0 <= j1 < j2 < missing_indices(official, patches, k).len() ==> #[trigger] missing_indices(
                official,
                patches,
                k,
            )[j1] < #[trigger] missing_indices(official, patches, k)[j2],
    decreases k,
{
    if k > 0 {
        let km = (k - 1) as nat;
        lemma_missing_indices(official, patches, km);
        let prev = missing_indices(official, patches, km);
        let cur = missing_indices(official, patches, k);
        assert forall|i: int| 0 <= i < k implies (cur.contains(i as nat) <==> !contains(
            official,
            #[trigger] patches[i].old@,
        )) by {
            if contains(official, patches[k - 1].old@) {
                assert(cur == prev);
                if i == k - 1 {
                    if prev.contains(i as nat) {
                        let j = choose|j: int| 0 <= j < prev.len() && prev[j] == i as nat;
                        assert(prev[j] < km);
                    }
                }
            } else {
                assert(cur == prev.push(km));
                if i < k - 1 {
                    if cur.contains(i as nat) {
                        let j = choose|j: int| 0 <= j < cur.len() && cur[j] == i as nat;
                        if j < prev.len() {
                            assert(prev[j] == i as nat);
                        }
                    }
                    if prev.contains(i as nat) {
                        let j = choose|j: int| 0 <= j < prev.len() && prev[j] == i as nat;
                        assert(cur[j] == i as nat);
                    }
                } else {
                    assert(cur[prev.len() as int] == km);
                }
            }
        }
    }
}

/// Validation reports replacement `i` exactly when its old text does not occur
/// in the official source, so nothing is reported exactly when every old text
/// occurs there.
pub proof fn law_missing_exactly_absent(official: Seq<char>, patches: Seq<Patch>)
    ensures
        forall|i: int|
            0 <= i < patches.len() ==> (missing_indices(official, patches, patches.len()).contains(
                i as nat,
            ) <==> !contains(official, #[trigger] patches[i].old@)),
        missing_indices(official, patches, patches.len()).len() == 0 <==> forall|i: int|
            0 <= i < patches.len() ==> contains(official, #[trigger] patches[i].old@),
{
    lemma_missing_indices(official, patches, patches.len());
    let m = missing_indices(official, patches, patches.len());
    if m.len() != 0 {
        let i = m[0] as int;
        assert(m.contains(m[0]));
        assert(0 <= i < patches.len());
        assert(!contains(official, patches[i].old@));
    } else {
        assert forall|i: int| 0 <= i < patches.len() implies contains(
            official,
            #[trigger] patches[i].old@,
        ) by {
            assert(!m.contains(i as nat));
        }
    }
}

/// Counting over a prefix does not depend on the files after it.
proof fn lemma_patch_count_prefix(files: Seq<PatchFile>, f: PatchFile, k: nat)
    requires
        k <= files.len(),
    ensures
        patch_count(files.push(f), k) == patch_count(files, k),
    decreases k,
{
    if k > 0 {
        lemma_patch_count_prefix(files, f, (k - 1) as nat);
        assert(files.push(f)[k - 1] == files[k - 1]);
    }
}

/// No file, no replacement; appending a file with `m` replacements adds
/// exactly `m` to the count.
pub proof fn law_count_patches_sums(files: Seq<PatchFile>, f: PatchFile)
    ensures
        patch_count(Seq::<PatchFile>::empty(), 0) == 0,
        patch_count(files.push(f), files.len() + 1) == patch_count(files, files.len())
            + f.patches@.len(),
{
    lemma_patch_count_prefix(files, f, files.len());
    assert(files.push(f)[files.len() as int] == f);
}

/// A path without `~` is only resolved: an absolute one is kept as it is, a
/// relative one is joined onto the home directory.
pub proof fn law_expand_plain_path(path: Seq<char>, home: Seq<char>)
    requires
        !path.contains('~'),
    ensures
        path.len() > 0 && path[0] == '/' ==> expand_spec(path, home) == path,
        !(path.len() > 0 && path[0] == '/') ==> expand_spec(path, home) == join_path(home, path),
{
    lemma_no_char_no_pattern(path, '~');
    lemma_replace_absent(path, seq!['~'], home);
}

/// Where the first newline of `s` is: nothing before it is a newline, and it
/// is a newline unless it is the end.
proof fn lemma_first_newline_is_first(s: Seq<char>)
    ensures
        first_newline(s) <= s.len(),
        forall|j: int| 0 <= j < first_newline(s) ==> s[j] != '\n',
        first_newline(s) < s.len() ==> s[first_newline(s) as int] == '\n',
    decreases s.len(),
{
    if s.len() > 0 && s[0] != '\n' {
        let t = s.drop_first();
        lemma_first_newline_is_first(t);
        assert forall|j: int| 0 <= j < first_newline(s) implies s[j] != '\n' by {
            if j > 0 {
                assert(s[j] == t[j - 1]);
            }
        }
        if first_newline(s) < s.len() {
            assert(s[first_newline(s) as int] == t[first_newline(t) as int]);
        }
    }
}

/// The number of newlines in `s`.
pub open spec fn newline_count(s: Seq<char>) -> nat
    decreases s.len(),
{
    if s.len() == 0 {
        0
    } else {
        newline_count(s.drop_last()) + if s.last() == '\n' {
            1nat
        } else {
            0nat
        }
    }
}

/// Newlines of a concatenation add up.
proof fn lemma_newline_count_add(x: Seq<char>, y: Seq<char>)
    ensures
        newline_count(x + y) == newline_count(x) + newline_count(y),
    decreases y.len(),
{
    if y.len() == 0 {
        assert(x + y =~= x);
    } else {
        lemma_newline_count_add(x, y.drop_last());
        assert((x + y).drop_last() =~= x + y.drop_last());
        assert((x + y).last() == y.last());
    }
}

/// A text without newlines has none to count.
proof fn lemma_newline_count_none(s: Seq<char>)
    requires
        forall|j: int| 0 <= j < s.len() ==> s[j] != '\n',
    ensures
        newline_count(s) == 0,
    decreases s.len(),
{
    if s.len() > 0 {
        lemma_newline_count_none(s.drop_last());
    }
}

/// No line holds a newline, and there is one line per newline plus one for
/// a last line that no newline ends.
pub proof fn law_lines_split_at_newlines(s: Seq<char>)
    ensures
        forall|i: int, j: int|
            0 <= i < lines(s).len() && 0 <= j < lines(s)[i].len() ==> #[trigger] lines(s)[i][j]
                != '\n',
        lines(s).len() == newline_count(s) + if s.len() > 0 && s.last() != '\n' {
            1nat
        } else {
            0nat
        },
    decreases s.len(),
{
    if s.len() > 0 {
        lemma_first_newline_is_first(s);
        let k = first_newline(s);
        if k >= s.len() {
            lemma_newline_count_none(s);
            assert(lines(s) == seq![s]);
        } else {
            let head = s.take(k as int);
            let rest = s.skip(k + 1 as int);
            law_lines_split_at_newlines(rest);
            assert(lines(s) == seq![strip_cr(head)] + lines(rest));
            assert forall|i: int, j: int|
                0 <= i < lines(s).len() && 0 <= j < lines(s)[i].len() implies #[trigger] lines(
                s,
            )[i][j] != '\n' by {
                if i == 0 {
                    assert(lines(s)[0] == strip_cr(head));
                    assert(strip_cr(head)[j] == head[j]);
                } else {
                    assert(lines(s)[i] == lines(rest)[i - 1]);
                }
            }
            assert(s =~= head + seq!['\n'] + rest);
            lemma_newline_count_add(head + seq!['\n'], rest);
            lemma_newline_count_add(head, seq!['\n']);
            lemma_newline_count_none(head);
            let nl = seq!['\n'];
            assert(nl.drop_last() =~= Seq::<char>::empty());
            assert(newline_count(Seq::<char>::empty()) == 0);
            assert(nl.len() == 1 && nl.last() == '\n');
            assert(newline_count(nl) == newline_count(nl.drop_last()) + 1);
            if rest.len() > 0 {
                assert(rest.last() == s.last());
            } else {
                assert(s.last() == '\n');
            }
        }
    }
}

/// Trailing white space is removed, up to the last other character.
proof fn lemma_trim_end(t: Seq<char>)
    ensures
        exists|e: int|
            0 <= e <= t.len() && trim_end_spec(t) == t.take(e) && (forall|k: int|
                e <= k < t.len() ==> is_white_space(#[trigger] t[k])) && (e == 0
                || !is_white_space(t[e - 1])),
    decreases t.len(),
{
    if t.len() > 0 && is_white_space(t.last()) {
        let u = t.drop_last();
        lemma_trim_end(u);
        let e = choose|e: int|
            0 <= e <= u.len() && trim_end_spec(u) == u.take(e) && (forall|k: int|
                e <= k < u.len() ==> is_white_space(#[trigger] u[k])) && (e == 0
                || !is_white_space(u[e - 1]));
        assert(u.take(e) =~= t.take(e));
        assert forall|k: int| e <= k < t.len() implies is_white_space(#[trigger] t[k]) by {
            if k < u.len() {
                assert(t[k] == u[k]);
            }
        }
        if e > 0 {
            assert(t[e - 1] == u[e - 1]);
        }
    } else {
        assert(t.take(t.len() as int) =~= t);
    }
}

/// Trimming keeps the stretch of `s` between its leading and its trailing
/// white space: everything removed is white space, and the result neither
/// starts nor ends with white space.
pub proof fn law_trim_keeps_inner_text(s: Seq<char>)
    ensures
        exists|i: int, j: int|
            0 <= i <= j <= s.len() && trim_spec(s) == s.subrange(i, j) && (forall|k: int|
                0 <= k < i ==> is_white_space(#[trigger] s[k])) && (forall|k: int|
                j <= k < s.len() ==> is_white_space(#[trigger] s[k])) && (i == j || (
            !is_white_space(s[i]) && !is_white_space(s[j - 1]))),
    decreases s.len(),
{
    if s.len() > 0 && is_white_space(s[0]) {
        let t = s.drop_first();
        law_trim_keeps_inner_text(t);
        let (i, j) = choose|i: int, j: int|
            0 <= i <= j <= t.len() && trim_spec(t) == t.subrange(i, j) && (forall|k: int|
                0 <= k < i ==> is_white_space(#[trigger] t[k])) && (forall|k: int|
                j <= k < t.len() ==> is_white_space(#[trigger] t[k])) && (i == j || (
            !is_white_space(t[i]) && !is_white_space(t[j - 1])));
        assert(t.subrange(i, j) =~= s.subrange(i + 1, j + 1));
        assert forall|k: int| 0 <= k < i + 1 implies is_white_space(#[trigger] s[k]) by {
            if k > 0 {
                assert(s[k] == t[k - 1]);
            }
        }
        assert forall|k: int| j + 1 <= k < s.len() implies is_white_space(#[trigger] s[k]) by {
            assert(s[k] == t[k - 1]);
        }
        if i != j {
            assert(s[i + 1] == t[i] && s[j] == t[j - 1]);
        }
        assert(trim_spec(s) == trim_spec(t));
    } else {
        lemma_trim_end(s);
        let e = choose|e: int|
            0 <= e <= s.len() && trim_end_spec(s) == s.take(e) && (forall|k: int|
                e <= k < s.len() ==> is_white_space(#[trigger] s[k])) && (e == 0
                || !is_white_space(s[e - 1]));
        assert(s.take(e) =~= s.subrange(0, e));
        assert(trim_spec(s) == s.subrange(0, e));
    }
}

/// Replacement works from the left: when the first occurrence of `from` in
/// `x + from + y` is the one after `x`, the text before it is kept, that
/// occurrence becomes `to`, and replacement goes on in `y`.
pub proof fn law_replace_leftmost(x: Seq<char>, from: Seq<char>, y: Seq<char>, to: Seq<char>)
    requires
        from.len() > 0,
        forall|p: int| 0 <= p < x.len() ==> !occurs_at(x + from + y, from, p),
    ensures
        replace_all(x + from + y, from, to) == x + to + replace_all(y, from, to),
    decreases x.len(),
{
    let s = x + from + y;
    if x.len() == 0 {
        assert(s =~= from + y);
        assert(s.subrange(0, from.len() as int) =~= from);
        assert(s.skip(from.len() as int) =~= y);
        assert(x + to + replace_all(y, from, to) =~= to + replace_all(y, from, to));
    } else {
        let x1 = x.drop_first();
        assert(!occurs_at(s, from, 0));
        assert(s.drop_first() =~= x1 + from + y);
        assert forall|p: int| 0 <= p < x1.len() implies !occurs_at(x1 + from + y, from, p) by {
            assert((x1 + from + y).subrange(p, p + from.len()) =~= s.subrange(
                p + 1,
                p + 1 + from.len(),
            ));
            assert(!occurs_at(s, from, p + 1));
        }
        law_replace_leftmost(x1, from, y, to);
        assert(s[0] == x[0]);
        assert(seq![x[0]] + (x1 + to + replace_all(y, from, to)) =~= x + to + replace_all(
            y,
            from,
            to,
        ));
    }
}

/// Applying rules only looks at the rules considered so far.
proof fn lemma_apply_prefix_stable(content: Seq<char>, patches: Seq<Patch>, p: Patch, k: nat)
    requires
        k <= patches.len(),
    ensures
        apply_prefix(content, patches.push(p), k) == apply_prefix(content, patches, k),
    decreases k,
{
    if k > 0 {
        lemma_apply_prefix_stable(content, patches, p, (k - 1) as nat);
        assert(patches.push(p)[k - 1] == patches[k - 1]);
    }
}

/// With no rule nothing changes; appending a rule to a list applies it to the
/// result of the list: passed over when its new text is present or its old
/// text absent, else all its old text is replaced and it is counted once.
pub proof fn law_apply_append_rule(content: Seq<char>, patches: Seq<Patch>, p: Patch)
    ensures
        apply_all(content, Seq::<Patch>::empty()) == (content, 0nat),
        ({
            let before = apply_all(content, patches);
            let after = apply_all(content, patches.push(p));
            &&& contains(before.0, p.new@) ==> after == before
            &&& !contains(before.0, p.new@) && !contains(before.0, p.old@) ==> after == before
            &&& !contains(before.0, p.new@) && contains(before.0, p.old@) ==> after == (
            replace_all(before.0, p.old@, p.new@), before.1 + 1)
        }),
{
    lemma_apply_prefix_stable(content, patches, p, patches.len());
    assert(patches.push(p)[patches.len() as int] == p);
}

} // verus!
