use vstd::prelude::*;
use vstd::string::*;

verus! {

/// Index of the last occurrence of `c` in `s`, or -1 when `c` does not occur.
pub open spec fn last_index_of(s: Seq<char>, c: char) -> int
    decreases s.len(),
{
    if s.len() == 0 {
        -1
    } else if s.last() == c {
        s.len() - 1
    } else {
        last_index_of(s.drop_last(), c)
    }
}

/// A separator between path components: `/`, or `\\` as on Windows.
pub open spec fn is_sep(c: char) -> bool {
    c == '/' || c == '\\'
}

/// Index of the last separator in `s`, or -1 when there is none.
pub open spec fn last_sep(s: Seq<char>) -> int
    decreases s.len(),
{
    if s.len() == 0 {
        -1
    } else if is_sep(s.last()) {
        s.len() - 1
    } else {
        last_sep(s.drop_last())
    }
}

/// `s` ends with a `.` component: a dot at the start or right after a separator.
pub open spec fn ends_with_dot_component(s: Seq<char>) -> bool {
    s.len() > 0 && s.last() == '.' && (s.len() == 1 || is_sep(s[s.len() - 2]))
}

/// The path without its trailing separators and `.` components, which do not
/// change the file it names.
pub open spec fn trim_end(s: Seq<char>) -> Seq<char>
    decreases s.len(),
{
    if s.len() > 0 && (is_sep(s.last()) || ends_with_dot_component(s)) {
        trim_end(s.drop_last())
    } else {
        s
    }
}

/// The separator a path uses: its last one, `/` when it has none.
pub open spec fn sep_style(s: Seq<char>) -> char {
    if last_sep(s) >= 0 {
        s[last_sep(s)]
    } else {
        '/'
    }
}

/// Everything up to and including the separator before the last component
/// (empty for a bare name).
pub open spec fn dir_prefix_of(p: Seq<char>) -> Seq<char> {
    trim_end(p).subrange(0, last_sep(trim_end(p)) + 1)
}

/// The last component of a path, trailing separators and `.` components
/// skipped.
pub open spec fn file_name_of(p: Seq<char>) -> Seq<char> {
    trim_end(p).subrange(last_sep(trim_end(p)) + 1, trim_end(p).len() as int)
}

/// A path names a file when its last component is neither empty, `.` nor `..`.
pub open spec fn has_file_name(p: Seq<char>) -> bool {
    let n = file_name_of(p);
    n.len() > 0 && n != seq!['.'] && n != seq!['.', '.']
}

/// A file name without its extension; a leading dot does not start an extension.
pub open spec fn stem_of(name: Seq<char>) -> Seq<char> {
    let d = last_index_of(name, '.');
    if d > 0 {
        name.subrange(0, d)
    } else {
        name
    }
}

pub open spec fn webp_ext() -> Seq<char> {
    seq!['.', 'w', 'e', 'b', 'p']
}

pub open spec fn sidecar_ext() -> Seq<char> {
    seq!['.', 'c', 'u', 'l', 'l', '.', 'j', 's', 'o', 'n']
}

/// The sibling directory that holds the previews of a directory's images.
#[derive(Clone, Copy, Debug, PartialEq, Eq)]
pub enum PreviewDir {
    /// `_preview`
    Preview,
    /// `_cull`, used by the culling workflow
    Cull,
}

pub open spec fn preview_dir_name(d: PreviewDir) -> Seq<char> {
    match d {
        PreviewDir::Preview => seq!['_', 'p', 'r', 'e', 'v', 'i', 'e', 'w'],
        PreviewDir::Cull => seq!['_', 'c', 'u', 'l', 'l'],
    }
}

/// The preview of `p`: same base name with the `.webp` extension, inside the
/// preview directory that sits next to `p`.
pub open spec fn preview_path_spec(p: Seq<char>, d: PreviewDir) -> Option<Seq<char>> {
    if has_file_name(p) {
        Some(
            dir_prefix_of(p) + preview_dir_name(d) + seq![sep_style(trim_end(p))] + stem_of(
                file_name_of(p),
            ) + webp_ext(),
        )
    } else {
        None
    }
}

/// The path with its extension replaced by `.cull.json`.
pub open spec fn sidecar_path_spec(p: Seq<char>) -> Option<Seq<char>> {
    if has_file_name(p) {
        Some(dir_prefix_of(p) + stem_of(file_name_of(p)) + sidecar_ext())
    } else {
        None
    }
}

proof fn lemma_last_index_of(s: Seq<char>, c: char)
    ensures
        -1 <= last_index_of(s, c) < s.len(),
        last_index_of(s, c) >= 0 ==> s[last_index_of(s, c)] == c,
        forall|j: int| last_index_of(s, c) < j < s.len() ==> s[j] != c,
    decreases s.len(),
{
    if s.len() > 0 && s.last() != c {
        let t = s.drop_last();
        lemma_last_index_of(t, c);
        assert forall|j: int| last_index_of(s, c) < j < s.len() implies s[j] != c by {
            if j < t.len() {
                assert(s[j] == t[j]);
            }
        }
    }
}

proof fn lemma_last_index_unique(s: Seq<char>, c: char, i: int)
    requires
        -1 <= i < s.len(),
        i >= 0 ==> s[i] == c,
        forall|j: int| i < j < s.len() ==> s[j] != c,
    ensures
        last_index_of(s, c) == i,
{
    lemma_last_index_of(s, c);
}

proof fn lemma_last_sep(s: Seq<char>)
    ensures
        -1 <= last_sep(s) < s.len(),
        last_sep(s) >= 0 ==> is_sep(s[last_sep(s)]),
        forall|j: int| last_sep(s) < j < s.len() ==> !is_sep(s[j]),
    decreases s.len(),
{
    if s.len() > 0 && !is_sep(s.last()) {
        let t = s.drop_last();
        lemma_last_sep(t);
        assert forall|j: int| last_sep(s) < j < s.len() implies !is_sep(s[j]) by {
            if j < t.len() {
                assert(s[j] == t[j]);
            }
        }
    }
}

proof fn lemma_last_sep_unique(s: Seq<char>, i: int)
    requires
        -1 <= i < s.len(),
        i >= 0 ==> is_sep(s[i]),
        forall|j: int| i < j < s.len() ==> !is_sep(s[j]),
    ensures
        last_sep(s) == i,
{
    lemma_last_sep(s);
}

/// For a source `<dir><stem>.<ext>`, whatever the extension and its case, the
/// derived preview is `<dir><preview dir><sep><stem>.webp`, where `<sep>` is the
/// separator that ends `<dir>` (`/` for a bare name).
pub proof fn lemma_preview_path_of_source(
    dir: Seq<char>,
    stem: Seq<char>,
    ext: Seq<char>,
    d: PreviewDir,
)
    requires
        dir.len() == 0 || is_sep(dir.last()),
        stem.len() > 0,
        forall|i: int| 0 <= i < stem.len() ==> !is_sep(stem[i]),
        ext.len() > 0,
        forall|i: int| 0 <= i < ext.len() ==> !is_sep(ext[i]) && ext[i] != '.',
    ensures
        preview_path_spec(dir + stem + seq!['.'] + ext, d) == Some(
            dir + preview_dir_name(d) + seq![
                if dir.len() > 0 {
                    dir.last()
                } else {
                    '/'
                },
            ] + stem + webp_ext(),
        ),
{
    let name = stem + seq!['.'] + ext;
    let p = dir + name;
    assert(p =~= dir + stem + seq!['.'] + ext);
    assert(p.last() == ext.last());
    assert(trim_end(p) == p);
    assert forall|j: int| dir.len() - 1 < j < p.len() implies !is_sep(p[j]) by {
        let k = j - dir.len();
        assert(p[j] == name[k]);
        if k < stem.len() {
            assert(name[k] == stem[k]);
        } else if k > stem.len() {
            assert(name[k] == ext[k - stem.len() - 1]);
        }
    }
    if dir.len() > 0 {
        assert(p[dir.len() - 1] == dir.last());
    }
    lemma_last_sep_unique(p, dir.len() - 1);
    assert(file_name_of(p) =~= name);
    assert(dir_prefix_of(p) =~= dir);
    assert forall|j: int| stem.len() < j < name.len() implies name[j] != '.' by {
        assert(name[j] == ext[j - stem.len() - 1]);
    }
    lemma_last_index_unique(name, '.', stem.len() as int);
    assert(stem_of(name) =~= stem);
    assert(name.len() >= 3);
    assert(name != seq!['.']) by {
        assert(seq!['.'].len() == 1);
    }
    assert(name != seq!['.', '.']) by {
        assert(seq!['.', '.'].len() == 2);
    }
}

/// A trailing separator or `.` component changes neither the preview path nor
/// the sidecar path: `/a/b.ARW/` and `/a/b.ARW/.` derive what `/a/b.ARW` does.
pub proof fn lemma_trailing_components_ignored(p: Seq<char>, d: PreviewDir)
    requires
        p.len() > 0,
        is_sep(p.last()) || ends_with_dot_component(p),
    ensures
        preview_path_spec(p, d) == preview_path_spec(p.drop_last(), d),
        sidecar_path_spec(p) == sidecar_path_spec(p.drop_last()),
{
    assert(trim_end(p) == trim_end(p.drop_last()));
}

fn is_sep_char(c: char) -> (r: bool)
    ensures
        r == is_sep(c),
{
    c == '/' || c == '\\'
}

fn find_last(s: &str, c: char) -> (r: Option<usize>)
    ensures
        match r {
            Some(i) => i < s@.len() && i as int == last_index_of(s@, c),
            None => last_index_of(s@, c) == -1,
        },
{
    let n = s.unicode_len();
    let mut i: usize = n;
    while i > 0
        invariant
            i <= n,
            n == s@.len(),
            forall|j: int| i <= j < n ==> s@[j] != c,
        decreases i,
    {
        if s.get_char(i - 1) == c {
            proof {
                lemma_last_index_unique(s@, c, i - 1);
            }
            return Some(i - 1);
        }
        i = i - 1;
    }
    proof {
        lemma_last_index_unique(s@, c, -1);
    }
    None
}

/// The length of `trim_end(p)`.
fn trimmed_len(p: &str) -> (k: usize)
    ensures
        k <= p@.len(),
        p@.subrange(0, k as int) == trim_end(p@),
{
    let n = p.unicode_len();
    let mut k: usize = n;
    assert(p@.subrange(0, n as int) =~= p@);
    loop
        invariant
            k <= n,
            n == p@.len(),
            trim_end(p@.subrange(0, k as int)) == trim_end(p@),
        decreases k,
    {
        let ghost t = p@.subrange(0, k as int);
        if k == 0 {
            assert(trim_end(t) == t);
            return k;
        }
        let c = p.get_char(k - 1);
        assert(t.last() == c);
        let dot_component = c == '.' && (k == 1 || is_sep_char(p.get_char(k - 2)));
        assert(dot_component == ends_with_dot_component(t)) by {
            if k >= 2 {
                assert(t[k - 2] == p@[k - 2]);
            }
        }
        if is_sep_char(c) || dot_component {
            assert(t.drop_last() =~= p@.subrange(0, k - 1));
            k = k - 1;
        } else {
            assert(trim_end(t) == t);
            return k;
        }
    }
}

/// Index of the last separator among the first `k` characters.
fn find_last_sep(p: &str, k: usize) -> (r: Option<usize>)
    requires
        k <= p@.len(),
    ensures
        match r {
            Some(i) => i < k && i as int == last_sep(p@.subrange(0, k as int)),
            None => last_sep(p@.subrange(0, k as int)) == -1,
        },
{
    let ghost t = p@.subrange(0, k as int);
    let mut i: usize = k;
    while i > 0
        invariant
            i <= k,
            k <= p@.len(),
            t == p@.subrange(0, k as int),
            forall|j: int| i <= j < k ==> !is_sep(t[j]),
        decreases i,
    {
        if is_sep_char(p.get_char(i - 1)) {
            proof {
                lemma_last_sep_unique(t, i - 1);
            }
            return Some(i - 1);
        }
        i = i - 1;
    }
    proof {
        lemma_last_sep_unique(t, -1);
    }
    None
}

/// The separator that `s` uses: its last one, `/` when it has none.
pub(crate) fn separator_of(s: &str) -> (c: char)
    ensures
        c == sep_style(s@),
        is_sep(c),
{
    let n = s.unicode_len();
    assert(s@.subrange(0, n as int) =~= s@);
    proof {
        lemma_last_sep(s@);
    }
    match find_last_sep(s, n) {
        Some(i) => s.get_char(i),
        None => '/',
    }
}

/// Splits a path into its directory prefix (with the trailing separator), its
/// last component and its separator; `None` when the path names no file.
fn split_name(p: &str) -> (r: Option<(String, String, char)>)
    ensures
        match r {
            Some((dir, name, sep)) => has_file_name(p@) && dir@ == dir_prefix_of(p@) && name@
                == file_name_of(p@) && sep == sep_style(trim_end(p@)) && is_sep(sep),
            None => !has_file_name(p@),
        },
{
    let k = trimmed_len(p);
    let ghost t = trim_end(p@);
    let last = find_last_sep(p, k);
    let start: usize = match last {
        Some(i) => i + 1,
        None => 0,
    };
    let sep = match last {
        Some(i) => p.get_char(i),
        None => '/',
    };
    proof {
        lemma_last_sep(t);
    }
    assert(sep == sep_style(t));
    let name = p.substring_char(start, k);
    assert(name@ =~= file_name_of(p@));
    let name_len = k - start;
    if name_len == 0 {
        return None;
    }
    let first = name.get_char(0);
    if name_len == 1 && first == '.' {
        assert(name@ =~= seq!['.']);
        return None;
    }
    if name_len == 2 && first == '.' && name.get_char(1) == '.' {
        assert(name@ =~= seq!['.', '.']);
        return None;
    }
    assert(name@ != seq!['.']) by {
        if name@ == seq!['.'] {
            assert(seq!['.'][0] == '.');
        }
    }
    assert(name@ != seq!['.', '.']) by {
        if name@ == seq!['.', '.'] {
            assert(seq!['.', '.'][0] == '.');
            assert(seq!['.', '.'][1] == '.');
        }
    }
    let dir = p.substring_char(0, start);
    assert(dir@ =~= dir_prefix_of(p@));
    Some((String::from_str(dir), String::from_str(name), sep))
}

/// The last component of `path`, if it names a file; trailing separators and
/// `.` components are skipped.
pub fn file_name(path: &str) -> (r: Option<String>)
    ensures
        match r {
            Some(s) => has_file_name(path@) && s@ == file_name_of(path@),
            None => !has_file_name(path@),
        },
{
    match split_name(path) {
        Some((_, name, _)) => Some(name),
        None => None,
    }
}

/// Splits a path into its directory prefix, its base name without extension
/// and its separator; `None` when the path names no file.
fn split_stem(p: &str) -> (r: Option<(String, String, char)>)
    ensures
        match r {
            Some((dir, stem, sep)) => has_file_name(p@) && dir@ == dir_prefix_of(p@) && stem@
                == stem_of(file_name_of(p@)) && sep == sep_style(trim_end(p@)) && is_sep(sep),
            None => !has_file_name(p@),
        },
{
    match split_name(p) {
        None => None,
        Some((dir, name, sep)) => {
            let name_len = name.as_str().unicode_len();
            let stem_end: usize = match find_last(name.as_str(), '.') {
                Some(d) => if d > 0 {
                    d
                } else {
                    name_len
                },
                None => name_len,
            };
            let stem = String::from_str(name.as_str().substring_char(0, stem_end));
            assert(stem@ =~= stem_of(file_name_of(p@)));
            Some((dir, stem, sep))
        },
    }
}

/// The preview path of the image at `path`, in the given preview directory.
pub fn preview_path_in(path: &str, dir: PreviewDir) -> (r: Option<String>)
    ensures
        match r {
            Some(s) => preview_path_spec(path@, dir) == Some(s@),
            None => preview_path_spec(path@, dir) is None,
        },
{
    match split_stem(path) {
        None => None,
        Some((prefix, stem, sep)) => {
            let mut out = prefix;
            let sep_str = if sep == '\\' {
                "\\"
            } else {
                "/"
            };
            let sub = match dir {
                PreviewDir::Preview => "_preview",
                PreviewDir::Cull => "_cull",
            };
            proof {
                reveal_strlit("_preview");
                reveal_strlit("_cull");
                reveal_strlit("/");
                reveal_strlit("\\");
                reveal_strlit(".webp");
            }
            assert(sep_str@ =~= seq![sep]);
            assert(sub@ =~= preview_dir_name(dir));
            out.append(sub);
            out.append(sep_str);
            out.append(stem.as_str());
            out.append(".webp");
            assert(out@ =~= dir_prefix_of(path@) + preview_dir_name(dir) + seq![
                sep_style(trim_end(path@)),
            ] + stem_of(
                file_name_of(path@),
            ) + webp_ext());
            Some(out)
        },
    }
}

/// The preview path used by the culling workflow: `<dir>_cull/<stem>.webp`.
pub fn get_preview_path(path: &str) -> (r: Option<String>)
    ensures
        match r {
            Some(s) => preview_path_spec(path@, PreviewDir::Cull) == Some(s@),
            None => preview_path_spec(path@, PreviewDir::Cull) is None,
        },
{
    preview_path_in(path, PreviewDir::Cull)
}

/// The cull-state sidecar of a preview: its extension replaced by `.cull.json`.
pub fn sidecar_path(preview: &str) -> (r: Option<String>)
    ensures
        match r {
            Some(s) => sidecar_path_spec(preview@) == Some(s@),
            None => sidecar_path_spec(preview@) is None,
        },
{
    match split_stem(preview) {
        None => None,
        Some((prefix, stem, _)) => {
            let mut out = prefix;
            proof {
                reveal_strlit(".cull.json");
            }
            out.append(stem.as_str());
            out.append(".cull.json");
            assert(out@ =~= dir_prefix_of(preview@) + stem_of(file_name_of(preview@))
                + sidecar_ext());
            Some(out)
        },
    }
}

} // verus!
