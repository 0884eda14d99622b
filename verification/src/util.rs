//! Path arithmetic over the home directory, backup locations and the
//! line-by-line comparison of two texts.
use vstd::prelude::*;

use crate::text::{
    append_chars, chars_eq, chars_of, decimal, lines, push_decimal, replace_all, replace_chars,
    split_lines, string_of, string_views,
};

verus! {

/// Name of the directory, beside a localized file, that holds its backups.
pub const BACKUP_DIR: &'static str = ".ml4w-zh-backups";

/// File name of the cached localization definitions.
pub const CACHE_FILE: &'static str = "patches.json";

/// The home directory: the value of `HOME` when it is set, else the
/// author's home directory.
pub fn home_from(var: Option<&str>) -> (r: String)
    ensures
        r@ == match var {
            Some(h) => h@,
            None => "/home/danxcheng"@,
        },
{
    match var {
        Some(h) => string_of(chars_of(h).as_slice()),
        None => string_of(chars_of("/home/danxcheng").as_slice()),
    }
}

/// `rel` appended to `base` as a path: an absolute `rel` replaces `base`,
/// otherwise a `/` separates the two unless `base` is empty or ends in one.
pub open spec fn join_path(base: Seq<char>, rel: Seq<char>) -> Seq<char> {
    if rel.len() > 0 && rel[0] == '/' {
        rel
    } else if base.len() == 0 || base.last() == '/' {
        base + rel
    } else {
        base + seq!['/'] + rel
    }
}

/// `path` with every `~` replaced by `home`, then resolved against `home`
/// unless it is absolute.
pub open spec fn expand_spec(path: Seq<char>, home: Seq<char>) -> Seq<char> {
    let p = replace_all(path, seq!['~'], home);
    if p.len() > 0 && p[0] == '/' {
        p
    } else {
        join_path(home, p)
    }
}

/// `path` joins `rel` onto `base` (see `join_path`).
pub fn join(base: &str, rel: &str) -> (r: String)
    ensures
        r@ == join_path(base@, rel@),
{
    let b = chars_of(base);
    let r = chars_of(rel);
    if r.len() > 0 && r[0] == '/' {
        return string_of(r.as_slice());
    }
    let mut out = b;
    if out.len() > 0 && out[out.len() - 1] != '/' {
        out.push('/');
    }
    append_chars(&mut out, r.as_slice());
    string_of(out.as_slice())
}

/// Expands `~` in `path` to `home` and resolves a relative path against `home`.
pub fn expand(path: &str, home: &str) -> (r: String)
    ensures
        r@ == expand_spec(path@, home@),
{
    let p = chars_of(path);
    let h = chars_of(home);
    let tilde: Vec<char> = vec!['~'];
    assert(tilde@ =~= seq!['~']);
    let replaced = replace_chars(p.as_slice(), tilde.as_slice(), h.as_slice());
    let s = string_of(replaced.as_slice());
    if replaced.len() > 0 && replaced[0] == '/' {
        s
    } else {
        join(home, s.as_str())
    }
}

/// The cache directory, `~/.cache/ml4w-zh`.
pub fn cache_dir(home: &str) -> (r: String)
    ensures
        r@ == join_path(home@, ".cache/ml4w-zh"@),
{
    join(home, ".cache/ml4w-zh")
}

/// The cached copy of the localization definitions inside `cache_dir`.
pub fn cache_path(home: &str) -> (r: String)
    ensures
        r@ == join_path(join_path(home@, ".cache/ml4w-zh"@), CACHE_FILE@),
{
    let dir = cache_dir(home);
    join(dir.as_str(), CACHE_FILE)
}

/// The message for line `n` (counted from 1) that differs between the texts.
pub open spec fn line_change(n: nat, old_line: Seq<char>, new_line: Seq<char>) -> Seq<char> {
    "  L"@ + decimal(n) + ": -"@ + old_line + "+"@ + new_line
}

/// The message for texts with `na` and `nb` lines.
pub open spec fn count_change(na: nat, nb: nat) -> Seq<char> {
    "  行数差异: "@ + decimal(na) + " vs "@ + decimal(nb)
}

/// One message for each of the first `n` line positions where `la` and `lb` differ.
pub open spec fn changed_lines(la: Seq<Seq<char>>, lb: Seq<Seq<char>>, n: nat) -> Seq<Seq<char>>
    decreases n,
{
    if n == 0 {
        Seq::empty()
    } else {
        changed_lines(la, lb, (n - 1) as nat) + if la[n - 1] != lb[n - 1] {
            seq![line_change(n, la[n - 1], lb[n - 1])]
        } else {
            Seq::empty()
        }
    }
}

/// The comparison of `a` with `b`: one message per differing line among the
/// positions both have, then one for the line counts when they differ.
pub open spec fn diff_lines(a: Seq<char>, b: Seq<char>) -> Seq<Seq<char>> {
    let la = lines(a);
    let lb = lines(b);
    let n = if la.len() <= lb.len() {
        la.len()
    } else {
        lb.len()
    };
    changed_lines(la, lb, n) + if la.len() != lb.len() {
        seq![count_change(la.len(), lb.len())]
    } else {
        Seq::empty()
    }
}

/// Compares `a` with `b` line by line and describes the differences.
pub fn diff_text(a: &str, b: &str) -> (r: Vec<String>)
    ensures
        string_views(r@) == diff_lines(a@, b@),
{
    let ac = chars_of(a);
    let bc = chars_of(b);
    let la = split_lines(ac.as_slice());
    let lb = split_lines(bc.as_slice());
    let ghost sa = lines(a@);
    let ghost sb = lines(b@);
    assert(sa.len() == la@.len() && sb.len() == lb@.len());
    let n = if la.len() <= lb.len() {
        la.len()
    } else {
        lb.len()
    };
    let mut out: Vec<String> = Vec::new();
    for i in 0..n
        invariant
            n <= la@.len(),
            n <= lb@.len(),
            sa == lines(a@),
            sb == lines(b@),
            forall|k: int| 0 <= k < la@.len() ==> #[trigger] la@[k]@ == sa[k],
            forall|k: int| 0 <= k < lb@.len() ==> #[trigger] lb@[k]@ == sb[k],
            sa.len() == la@.len(),
            sb.len() == lb@.len(),
            string_views(out@) == changed_lines(sa, sb, i as nat),
    {
        assert(la@[i as int]@ == sa[i as int]);
        assert(lb@[i as int]@ == sb[i as int]);
        let same = chars_eq(la[i].as_slice(), lb[i].as_slice());
        let ghost before = out@;
        if !same {
            let mut m = chars_of("  L");
            push_decimal(&mut m, i + 1);
            let sep = chars_of(": -");
            append_chars(&mut m, sep.as_slice());
            append_chars(&mut m, la[i].as_slice());
            let plus = chars_of("+");
            append_chars(&mut m, plus.as_slice());
            append_chars(&mut m, lb[i].as_slice());
            assert(m@ =~= line_change((i + 1) as nat, sa[i as int], sb[i as int]));
            out.push(string_of(m.as_slice()));
            assert(string_views(out@) =~= string_views(before).push(m@));
        } else {
            assert(out@ == before);
        }
        assert(changed_lines(sa, sb, (i + 1) as nat) == changed_lines(sa, sb, i as nat) + if sa[i
            as int] != sb[i as int] {
            seq![line_change((i + 1) as nat, sa[i as int], sb[i as int])]
        } else {
            Seq::<Seq<char>>::empty()
        });
        assert(string_views(out@) =~= changed_lines(sa, sb, (i + 1) as nat));
    }
    if la.len() != lb.len() {
        let ghost before = out@;
        let mut m = chars_of("  行数差异: ");
        push_decimal(&mut m, la.len());
        let vs = chars_of(" vs ");
        append_chars(&mut m, vs.as_slice());
        push_decimal(&mut m, lb.len());
        out.push(string_of(m.as_slice()));
        assert(string_views(out@) =~= string_views(before).push(m@));
    }
    assert(string_views(out@) =~= diff_lines(a@, b@));
    out
}

/// What `std::path::Path::parent` gives for `path`: the path without its
/// final component.
pub uninterp spec fn path_parent(path: Seq<char>) -> Option<Seq<char>>;

/// What `std::path::Path::file_name` gives for `path`: its final component
/// when that is a normal name.
pub uninterp spec fn path_file_name(path: Seq<char>) -> Option<Seq<char>>;

/// Calls `std::path::Path::parent`. Trusted: the result is the value named by
/// `path_parent`, and, as the documentation states, there is none for the
/// empty path and for the root `/`.
#[verifier::external_body]
fn parent_of(path: &str) -> (r: Option<String>)
    ensures
        match r {
            Some(p) => path_parent(path@) == Some(p@),
            None => path_parent(path@) == None::<Seq<char>>,
        },
        path@.len() == 0 ==> r is None,
        path@ == seq!['/'] ==> r is None,
{
    match std::path::Path::new(path).parent() {
        Some(p) => Some(p.to_string_lossy().into_owned()),
        None => None,
    }
}

/// Calls `std::path::Path::file_name`. Trusted: the result is the value named
/// by `path_file_name`, and, as the documentation states, the empty path has
/// none.
#[verifier::external_body]
fn file_name_of(path: &str) -> (r: Option<String>)
    ensures
        match r {
            Some(n) => path_file_name(path@) == Some(n@),
            None => path_file_name(path@) == None::<Seq<char>>,
        },
        path@.len() == 0 ==> r is None,
{
    match std::path::Path::new(path).file_name() {
        Some(n) => Some(n.to_string_lossy().into_owned()),
        None => None,
    }
}

/// The views of an optional string.
pub open spec fn opt_view(o: Option<&str>) -> Option<Seq<char>> {
    match o {
        Some(s) => Some(s@),
        None => None,
    }
}

/// The backup directory for a file whose parent directory is `parent`.
pub open spec fn backup_dir_spec(parent: Option<Seq<char>>) -> Seq<char> {
    match parent {
        Some(p) => join_path(p, BACKUP_DIR@),
        None => BACKUP_DIR@,
    }
}

/// The backup directory given the parent directory of the file.
pub fn backup_dir_in(parent: Option<&str>) -> (r: String)
    ensures
        r@ == backup_dir_spec(opt_view(parent)),
{
    match parent {
        Some(p) => join(p, BACKUP_DIR),
        None => string_of(chars_of(BACKUP_DIR).as_slice()),
    }
}

/// The backup directory of a file: `.ml4w-zh-backups` beside it.
pub fn backup_dir_for(path: &str) -> (r: String)
    ensures
        r@ == backup_dir_spec(path_parent(path@)),
{
    let parent = parent_of(path);
    match parent {
        Some(p) => backup_dir_in(Some(p.as_str())),
        None => backup_dir_in(None),
    }
}

/// The backup copy of `file`, given its parent directory and its file name:
/// the file name inside the backup directory, or the whole path when the
/// file has no name.
pub open spec fn backup_file_spec(
    parent: Option<Seq<char>>,
    name: Option<Seq<char>>,
    file: Seq<char>,
) -> Seq<char> {
    join_path(
        backup_dir_spec(parent),
        match name {
            Some(n) => n,
            None => file,
        },
    )
}

/// The backup copy of `file`, given its parent directory and file name.
pub fn backup_file_in(parent: Option<&str>, name: Option<&str>, file: &str) -> (r: String)
    ensures
        r@ == backup_file_spec(opt_view(parent), opt_view(name), file@),
{
    let dir = backup_dir_in(parent);
    match name {
        Some(n) => join(dir.as_str(), n),
        None => join(dir.as_str(), file),
    }
}

/// Where the backup copy of `file` is kept.
pub fn backup_file_for(file: &str) -> (r: String)
    ensures
        r@ == backup_file_spec(path_parent(file@), path_file_name(file@), file@),
{
    let parent = parent_of(file);
    let name = file_name_of(file);
    let p = match &parent {
        Some(p) => Some(p.as_str()),
        None => None,
    };
    let n = match &name {
        Some(n) => Some(n.as_str()),
        None => None,
    };
    backup_file_in(p, n, file)
}

/// The `PROTECTED` marker for a file whose parent directory is `parent`.
pub open spec fn protect_marker_spec(parent: Option<Seq<char>>) -> Option<Seq<char>> {
    match parent {
        Some(p) => Some(join_path(p, "PROTECTED"@)),
        None => None,
    }
}

/// The `PROTECTED` marker given the parent directory of the file.
pub fn protect_marker_in(parent: Option<&str>) -> (r: Option<String>)
    ensures
        match r {
            Some(m) => protect_marker_spec(opt_view(parent)) == Some(m@),
            None => protect_marker_spec(opt_view(parent)) == None::<Seq<char>>,
        },
{
    match parent {
        Some(p) => Some(join(p, "PROTECTED")),
        None => None,
    }
}

/// The `PROTECTED` marker beside `file`; none when `file` has no parent.
pub fn protect_marker_for(file: &str) -> (r: Option<String>)
    ensures
        match r {
            Some(m) => protect_marker_spec(path_parent(file@)) == Some(m@),
            None => protect_marker_spec(path_parent(file@)) == None::<Seq<char>>,
        },
{
    let parent = parent_of(file);
    match &parent {
        Some(p) => protect_marker_in(Some(p.as_str())),
        None => protect_marker_in(None),
    }
}

/// The directories, relative to home, whose backups `revert` restores.
pub open spec fn revert_subdirs() -> Seq<Seq<char>> {
    seq![
        ".config/hypr/scripts"@,
        ".config/ml4w/scripts"@,
        ".config/rofi"@,
        ".config/waybar"@,
        ".config/hypr/conf/keybindings"@,
    ]
}

/// The directories whose backups `revert` restores, in the order searched.
pub fn revert_scan_dirs(home: &str) -> (r: Vec<String>)
    ensures
        r@.len() == revert_subdirs().len(),
        forall|i: int|
            0 <= i < r@.len() ==> #[trigger] r@[i]@ == join_path(home@, revert_subdirs()[i]),
{
    let mut r: Vec<String> = Vec::new();
    r.push(join(home, ".config/hypr/scripts"));
    r.push(join(home, ".config/ml4w/scripts"));
    r.push(join(home, ".config/rofi"));
    r.push(join(home, ".config/waybar"));
    r.push(join(home, ".config/hypr/conf/keybindings"));
    r
}

/// For a file named `name` in the scanned directory `dir`: its backup copy
/// and the file it restores.
pub fn revert_paths(dir: &str, name: &str) -> (r: (String, String))
    ensures
        r.0@ == join_path(join_path(dir@, BACKUP_DIR@), name@),
        r.1@ == join_path(dir@, name@),
{
    let bak_dir = join(dir, BACKUP_DIR);
    (join(bak_dir.as_str(), name), join(dir, name))
}

/// The directory of localization definitions under the project root.
pub fn definitions_dir(root: &str) -> (r: String)
    ensures
        r@ == join_path(root@, "patches/definitions"@),
{
    join(root, "patches/definitions")
}

/// The generated definitions file under the project root.
pub fn patches_output_path(root: &str) -> (r: String)
    ensures
        r@ == join_path(root@, "patches/patches.json"@),
{
    join(root, "patches/patches.json")
}

/// Whether a definitions file, by its extension, is a TOML file.
pub fn is_definition_file(extension: Option<&str>) -> (r: bool)
    ensures
        r == (opt_view(extension) == Some("toml"@)),
{
    match extension {
        Some(e) => {
            let c = chars_of(e);
            let t = chars_of("toml");
            chars_eq(c.as_slice(), t.as_slice())
        },
        None => false,
    }
}

/// Index of the last `.` in `s`, or -1 when there is none.
pub open spec fn last_dot(s: Seq<char>) -> int
    decreases s.len(),
{
    if s.len() == 0 {
        -1
    } else if s.last() == '.' {
        s.len() - 1
    } else {
        last_dot(s.drop_last())
    }
}

/// The extension of a path with the given file name, as documented for
/// `std::path::Path::extension`: none without a file name, none without a
/// dot, none for a name whose only dot leads it, else the part after the
/// last dot.
pub open spec fn extension_spec(file_name: Option<Seq<char>>) -> Option<Seq<char>> {
    match file_name {
        None => None,
        Some(f) => if last_dot(f) <= 0 {
            None
        } else {
            Some(f.skip(last_dot(f) + 1))
        },
    }
}

/// The index of the last `.` in `s`.
fn last_dot_index(s: &[char]) -> (r: Option<usize>)
    ensures
        match r {
            Some(i) => last_dot(s@) == i as int && i < s@.len(),
            None => last_dot(s@) == -1,
        },
{
    let mut i = s.len();
    assert(s@.take(i as int) =~= s@);
    while i > 0
        invariant
            i <= s@.len(),
            last_dot(s@) == last_dot(s@.take(i as int)),
        decreases i,
    {
        assert(s@.take(i as int).last() == s@[i - 1]);
        if s[i - 1] == '.' {
            return Some(i - 1);
        }
        assert(s@.take(i as int).drop_last() =~= s@.take(i - 1));
        i = i - 1;
    }
    None
}

/// The extension of a path whose file name is `file_name`.
pub fn extension_in(file_name: Option<&str>) -> (r: Option<String>)
    ensures
        match r {
            Some(e) => extension_spec(opt_view(file_name)) == Some(e@),
            None => extension_spec(opt_view(file_name)) == None::<Seq<char>>,
        },
{
    match file_name {
        None => None,
        Some(f) => {
            let c = chars_of(f);
            match last_dot_index(c.as_slice()) {
                None => None,
                Some(k) => if k == 0 {
                    None
                } else {
                    assert(k < c.len());
                    let e = crate::text::copy_range(c.as_slice(), k + 1, c.len());
                    assert(e@ =~= c@.skip(k + 1));
                    Some(string_of(e.as_slice()))
                },
            }
        },
    }
}

/// Whether `path` names a TOML definitions file.
pub fn is_definition_path(path: &str) -> (r: bool)
    ensures
        r == (extension_spec(path_file_name(path@)) == Some("toml"@)),
{
    let name = file_name_of(path);
    let ext = match &name {
        Some(n) => extension_in(Some(n.as_str())),
        None => extension_in(None),
    };
    match &ext {
        Some(e) => is_definition_file(Some(e.as_str())),
        None => is_definition_file(None),
    }
}

/// Unicode `White_Space` characters, as `char::is_whitespace` reports them.
pub open spec fn is_white_space(c: char) -> bool {
    let u = c as u32;
    ||| 0x9 <= u <= 0xd
    ||| u == 0x20
    ||| u == 0x85
    ||| u == 0xa0
    ||| u == 0x1680
    ||| 0x2000 <= u <= 0x200a
    ||| u == 0x2028
    ||| u == 0x2029
    ||| u == 0x202f
    ||| u == 0x205f
    ||| u == 0x3000
}

/// `s` without its trailing white space.
pub open spec fn trim_end_spec(s: Seq<char>) -> Seq<char>
    decreases s.len(),
{
    if s.len() > 0 && is_white_space(s.last()) {
        trim_end_spec(s.drop_last())
    } else {
        s
    }
}

/// `s` without its leading and trailing white space.
pub open spec fn trim_spec(s: Seq<char>) -> Seq<char>
    decreases s.len(),
{
    if s.len() > 0 && is_white_space(s[0]) {
        trim_spec(s.drop_first())
    } else {
        trim_end_spec(s)
    }
}

/// What `str::to_lowercase` gives for `s`: its Unicode lowercase mapping.
pub uninterp spec fn lowercase(s: Seq<char>) -> Seq<char>;

/// Whether `c` is Unicode white space.
fn is_white_space_char(c: char) -> (r: bool)
    ensures
        r == is_white_space(c),
{
    let u = c as u32;
    (0x9 <= u && u <= 0xd) || u == 0x20 || u == 0x85 || u == 0xa0 || u == 0x1680 || (0x2000 <= u
        && u <= 0x200a) || u == 0x2028 || u == 0x2029 || u == 0x202f || u == 0x205f || u == 0x3000
}

/// `s` without its leading and trailing white space.
pub fn trimmed(s: &str) -> (r: String)
    ensures
        r@ == trim_spec(s@),
{
    let c = chars_of(s);
    let n = c.len();
    let mut start: usize = 0;
    assert(c@.skip(0) =~= c@);
    while start < n && is_white_space_char(c[start])
        invariant
            start <= n == c@.len(),
            trim_spec(c@) == trim_spec(c@.skip(start as int)),
        decreases n - start,
    {
        assert(c@.skip(start as int).drop_first() =~= c@.skip(start + 1));
        start = start + 1;
    }
    let mut end: usize = n;
    assert(c@.subrange(start as int, end as int) =~= c@.skip(start as int));
    while end > start && is_white_space_char(c[end - 1])
        invariant
            start <= end <= n == c@.len(),
            trim_spec(c@) == trim_end_spec(c@.subrange(start as int, end as int)),
        decreases end,
    {
        assert(c@.subrange(start as int, end as int).drop_last() =~= c@.subrange(
            start as int,
            end - 1,
        ));
        end = end - 1;
    }
    let r = crate::text::copy_range(c.as_slice(), start, end);
    string_of(r.as_slice())
}

/// Calls `str::to_lowercase`. Trusted: the result is the value named by
/// `lowercase`.
#[verifier::external_body]
fn lowercased(s: &str) -> (r: String)
    ensures
        r@ == lowercase(s@),
{
    s.to_lowercase()
}

/// Whether an already trimmed and lowercased answer is a yes.
pub fn is_yes(answer: &str) -> (r: bool)
    ensures
        r == (answer@ == "y"@ || answer@ == "yes"@),
{
    let a = chars_of(answer);
    let y = chars_of("y");
    let yes = chars_of("yes");
    chars_eq(a.as_slice(), y.as_slice()) || chars_eq(a.as_slice(), yes.as_slice())
}

/// Whether the answer to a confirmation prompt accepts it: `y` or `yes`, in
/// any case, with surrounding white space ignored.
pub fn is_affirmative(answer: &str) -> (r: bool)
    ensures
        r == (lowercase(trim_spec(answer@)) == "y"@ || lowercase(trim_spec(answer@)) == "yes"@),
{
    let t = trimmed(answer);
    let l = lowercased(t.as_str());
    is_yes(l.as_str())
}

} // verus!
