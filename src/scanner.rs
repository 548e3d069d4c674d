//! Choosing image candidates among the entries of a directory walk.

use vstd::prelude::*;
use crate::error::PtimeError;

verus! {

/// An image file found under the scan root.
#[derive(Clone, Debug)]
pub struct FoundFile {
    pub rel_path: String,
    pub abs_path: String,
}

/// One step of a directory walk: an entry, or a failure to read one.
#[derive(Clone, Debug)]
pub enum WalkEntry {
    Entry { path: String, is_file: bool },
    Failed { path: String, message: String },
}

/// The path without trailing `/` and trailing `/.` components, so that it
/// ends in its last named segment, as `Path::file_name` reads it.
pub open spec fn trim_tail(s: Seq<char>) -> Seq<char>
    decreases s.len(),
{
    if s.len() > 0 && s.last() == '/' {
        trim_tail(s.drop_last())
    } else if s.len() >= 2 && s.last() == '.' && s[s.len() - 2] == '/' {
        trim_tail(s.drop_last())
    } else {
        s
    }
}

/// Where the last segment of a path starts: after its last `/`.
pub open spec fn segment_start(s: Seq<char>) -> int
    decreases s.len(),
{
    if s.len() == 0 {
        0
    } else if s.last() == '/' {
        s.len() as int
    } else {
        segment_start(s.drop_last())
    }
}

/// The position of the last `.` at or after `from`, or -1.
pub open spec fn last_dot(s: Seq<char>, from: int) -> int
    decreases s.len(),
{
    if s.len() == 0 || s.len() <= from {
        -1
    } else if s.last() == '.' {
        s.len() - 1
    } else {
        last_dot(s.drop_last(), from)
    }
}

/// The extension of the text after the last `/`: the text after its last
/// `.`, when that `.` is not the segment's first character.
pub open spec fn segment_extension(s: Seq<char>) -> Option<Seq<char>> {
    let st = segment_start(s);
    let d = last_dot(s, st);
    if d < 0 || d == st {
        None
    } else {
        Some(s.skip(d + 1))
    }
}

pub open spec fn same_letter(c: char, lower: char, upper: char) -> bool {
    c == lower || c == upper
}

/// `jpg` or `jpeg`, in any mix of letter case.
pub open spec fn is_jpeg_ext(e: Seq<char>) -> bool {
    ||| (e.len() == 3 && same_letter(e[0], 'j', 'J') && same_letter(e[1], 'p', 'P')
        && same_letter(e[2], 'g', 'G'))
    ||| (e.len() == 4 && same_letter(e[0], 'j', 'J') && same_letter(e[1], 'p', 'P')
        && same_letter(e[2], 'e', 'E') && same_letter(e[3], 'g', 'G'))
}

/// The extension of the last named segment of a path.
pub open spec fn extension(s: Seq<char>) -> Option<Seq<char>> {
    segment_extension(trim_tail(s))
}

pub open spec fn is_jpeg_path(s: Seq<char>) -> bool {
    match extension(s) {
        Some(e) => is_jpeg_ext(e),
        None => false,
    }
}

/// The segment that starts at `j` is empty, `.` or `..`.
pub open spec fn bad_segment_at(s: Seq<char>, j: int) -> bool {
    ||| (j < s.len() && s[j] == '/')
    ||| (j < s.len() && s[j] == '.' && (j + 1 == s.len() || s[j + 1] == '/'))
    ||| (j + 1 < s.len() && s[j] == '.' && s[j + 1] == '.' && (j + 2 == s.len() || s[j + 2]
        == '/'))
}

/// An absolute path in canonical form: it starts with `/`, has no empty,
/// `.` or `..` segment, and ends in `/` only when it is `/` itself. The
/// walk of a canonicalized root yields only such paths.
pub open spec fn is_canonical_path(s: Seq<char>) -> bool {
    &&& s.len() > 0 && s[0] == '/'
    &&& (s.len() == 1 || s.last() != '/')
    &&& forall|i: int| 0 <= i < s.len() && #[trigger] s[i] == '/' ==> !bad_segment_at(s, i + 1)
}

/// `s` without its leading run of `/`.
pub open spec fn skip_separators(s: Seq<char>) -> Seq<char>
    decreases s.len(),
{
    if s.len() > 0 && s[0] == '/' {
        skip_separators(s.drop_first())
    } else {
        s
    }
}

/// `path` with the leading `root` taken off, together with the separators
/// that follow it; `None` when `path` does not continue `root` at a segment
/// boundary. For canonical paths this is `Path::strip_prefix`.
pub open spec fn strip_root(root: Seq<char>, path: Seq<char>) -> Option<Seq<char>> {
    if root.len() <= path.len() && path.take(root.len() as int) == root {
        let rest = path.skip(root.len() as int);
        if root.len() == 0 {
            Some(rest)
        } else if root.last() == '/' || rest.len() == 0 || rest[0] == '/' {
            Some(skip_separators(rest))
        } else {
            None
        }
    } else {
        None
    }
}

proof fn lemma_skip_separators(s: Seq<char>)
    ensures
        skip_separators(s).len() == 0 || skip_separators(s)[0] != '/',
    decreases s.len(),
{
    if s.len() > 0 && s[0] == '/' {
        lemma_skip_separators(s.drop_first());
    }
}

/// Whether the path names a JPEG image by its extension, in any letter case.
pub fn is_jpeg_extension(path: &str) -> (r: bool)
    ensures
        r == is_jpeg_path(path@),
{
    let ghost s = path@;
    let n = path.unicode_len();
    let mut e: usize = n;
    assert(s.take(n as int) =~= s);
    while e > 0 && (path.get_char(e - 1) == '/' || (e >= 2 && path.get_char(e - 1) == '.'
        && path.get_char(e - 2) == '/'))
        invariant
            s == path@,
            n == s.len(),
            e <= n,
            trim_tail(s) == trim_tail(s.take(e as int)),
        decreases e,
    {
        assert(s.take(e as int).drop_last() =~= s.take(e - 1));
        e = e - 1;
    }
    assert(trim_tail(s.take(e as int)) == s.take(e as int));
    assert(s.take(e as int) =~= s.subrange(0, e as int));
    jpeg_segment_extension(path.substring_char(0, e))
}

/// Whether the text after the last `/` has a JPEG extension.
fn jpeg_segment_extension(path: &str) -> (r: bool)
    ensures
        r == match segment_extension(path@) {
            Some(e) => is_jpeg_ext(e),
            None => false,
        },
{
    let ghost s = path@;
    let n = path.unicode_len();
    let mut st: usize = n;
    assert(s.take(n as int) =~= s);
    while st > 0 && path.get_char(st - 1) != '/'
        invariant
            s == path@,
            n == s.len(),
            st <= n,
            segment_start(s) == segment_start(s.take(st as int)),
        decreases st,
    {
        assert(s.take(st as int).drop_last() =~= s.take(st - 1));
        st = st - 1;
    }
    let mut k: usize = n;
    while k > st && path.get_char(k - 1) != '.'
        invariant
            s == path@,
            n == s.len(),
            st <= k <= n,
            last_dot(s, st as int) == last_dot(s.take(k as int), st as int),
        decreases k,
    {
        assert(s.take(k as int).drop_last() =~= s.take(k - 1));
        k = k - 1;
    }
    proof {
        assert(segment_start(s.take(st as int)) == st as int);
        assert(last_dot(s.take(k as int), st as int) == (if k == st { -1 } else { k - 1 }));
    }
    if k == st || k - 1 == st {
        return false;
    }
    let ext = path.substring_char(k, n);
    assert(ext@ =~= s.skip(k as int));
    jpeg_ext(ext)
}

fn jpeg_ext(e: &str) -> (r: bool)
    ensures
        r == is_jpeg_ext(e@),
{
    let len = e.unicode_len();
    if len == 3 {
        let (a, b, c) = (e.get_char(0), e.get_char(1), e.get_char(2));
        (a == 'j' || a == 'J') && (b == 'p' || b == 'P') && (c == 'g' || c == 'G')
    } else if len == 4 {
        let (a, b, c, d) = (e.get_char(0), e.get_char(1), e.get_char(2), e.get_char(3));
        (a == 'j' || a == 'J') && (b == 'p' || b == 'P') && (c == 'e' || c == 'E') && (d == 'g'
            || d == 'G')
    } else {
        false
    }
}

fn bad_segment(s: &str, j: usize) -> (r: bool)
    requires
        j <= s@.len(),
    ensures
        r == bad_segment_at(s@, j as int),
{
    let n = s.unicode_len();
    if j < n && s.get_char(j) == '/' {
        return true;
    }
    if j < n && s.get_char(j) == '.' && (j + 1 == n || s.get_char(j + 1) == '/') {
        return true;
    }
    j < n && n - j >= 2 && s.get_char(j) == '.' && s.get_char(j + 1) == '.' && (n - j == 2
        || s.get_char(j + 2) == '/')
}

/// Whether the path is absolute and canonical.
pub fn is_canonical(s: &str) -> (r: bool)
    ensures
        r == is_canonical_path(s@),
{
    let n = s.unicode_len();
    if n == 0 || s.get_char(0) != '/' || (n > 1 && s.get_char(n - 1) == '/') {
        return false;
    }
    let mut i: usize = 0;
    while i < n
        invariant
            n == s@.len(),
            i <= n,
            forall|k: int| 0 <= k < i && #[trigger] s@[k] == '/' ==> !bad_segment_at(s@, k + 1),
        decreases n - i,
    {
        if s.get_char(i) == '/' && bad_segment(s, i + 1) {
            return false;
        }
        i = i + 1;
    }
    true
}

/// The path of `abs_path` relative to `root`, both canonical; a
/// `RelativePathError` naming `abs_path` when it does not lie under `root`.
/// The result is relative, and joined to `root` gives `abs_path` back.
pub fn compute_relative_path(root: &str, abs_path: &str) -> (r: Result<String, PtimeError>)
    requires
        is_canonical_path(root@),
        is_canonical_path(abs_path@),
    ensures
        r matches Ok(rel) ==> abs_path@ == (if rel@.len() == 0 {
            root@
        } else if root@.last() == '/' {
            root@ + rel@
        } else {
            root@ + seq!['/'] + rel@
        }),
        match strip_root(root@, abs_path@) {
            Some(rel) => r is Ok && r->Ok_0@ == rel,
            None => r matches Err(PtimeError::RelativePathError { path }) && path@ == abs_path@,
        },
        r is Ok && root@.len() > 0 ==> r->Ok_0@.len() == 0 || r->Ok_0@[0] != '/',
{
    let nr = root.unicode_len();
    let np = abs_path.unicode_len();
    if nr <= np {
        let mut i: usize = 0;
        while i < nr
            invariant
                nr == root@.len(),
                np == abs_path@.len(),
                nr <= np,
                i <= nr,
                abs_path@.take(i as int) == root@.take(i as int),
            decreases nr - i,
        {
            if abs_path.get_char(i) != root.get_char(i) {
                assert(abs_path@.take(nr as int)[i as int] != root@[i as int]);
                return Err(PtimeError::RelativePathError { path: abs_path.to_owned() });
            }
            assert(abs_path@.take(i + 1) =~= abs_path@.take(i as int).push(abs_path@[i as int]));
            assert(root@.take(i + 1) =~= root@.take(i as int).push(root@[i as int]));
            i = i + 1;
        }
        assert(root@.take(nr as int) =~= root@);
        let ghost rest = abs_path@.skip(nr as int);
        if nr == 0 {
            assert(rest =~= abs_path@.subrange(0, np as int));
            return Ok(abs_path.substring_char(nr, np).to_owned());
        }
        if root.get_char(nr - 1) == '/' || nr == np || abs_path.get_char(nr) == '/' {
            let mut j: usize = nr;
            assert(abs_path@.skip(j as int) =~= rest);
            while j < np && abs_path.get_char(j) == '/'
                invariant
                    nr <= j <= np,
                    np == abs_path@.len(),
                    j == nr || (j == nr + 1 && abs_path@[nr as int] == '/'),
                    is_canonical_path(abs_path@),
                    nr > 0,
                    skip_separators(rest) == skip_separators(abs_path@.skip(j as int)),
                decreases np - j,
            {
                assert(abs_path@.skip(j as int).drop_first() =~= abs_path@.skip(j + 1));
                j = j + 1;
            }
            assert(abs_path@.skip(j as int) =~= abs_path@.subrange(j as int, np as int));
            proof {
                lemma_skip_separators(rest);
            }
            return Ok(abs_path.substring_char(j, np).to_owned());
        }
    }
    Err(PtimeError::RelativePathError { path: abs_path.to_owned() })
}

pub open spec fn entry_path(e: WalkEntry) -> Seq<char> {
    match e {
        WalkEntry::Entry { path, .. } => path@,
        WalkEntry::Failed { path, .. } => path@,
    }
}

/// A regular file with a JPEG extension.
pub open spec fn is_candidate(e: WalkEntry) -> bool {
    match e {
        WalkEntry::Entry { path, is_file } => is_file && is_jpeg_path(path@),
        WalkEntry::Failed { .. } => false,
    }
}

/// An entry that ends the scan with an error: a failed read, or a candidate
/// outside the root.
pub open spec fn stops_scan(root: Seq<char>, e: WalkEntry) -> bool {
    e is Failed || (is_candidate(e) && strip_root(root, entry_path(e)) is None)
}

/// The error that an entry which stops the scan gives.
pub open spec fn error_for(e: WalkEntry, err: PtimeError) -> bool {
    match e {
        WalkEntry::Failed { path, message } => err matches PtimeError::DirectoryReadError {
            path: p,
            source: m,
        } && p@ == path@ && m@ == message@,
        WalkEntry::Entry { path, .. } => err matches PtimeError::RelativePathError { path: p }
            && p@ == path@,
    }
}

/// The (relative, absolute) paths of the candidates among the entries, in
/// walk order.
pub open spec fn candidates_of(root: Seq<char>, entries: Seq<WalkEntry>) -> Seq<
    (Seq<char>, Seq<char>),
>
    decreases entries.len(),
{
    if entries.len() == 0 {
        Seq::empty()
    } else {
        let init = candidates_of(root, entries.drop_last());
        let e = entries.last();
        if is_candidate(e) {
            let rel = match strip_root(root, entry_path(e)) {
                Some(r) => r,
                None => Seq::empty(),
            };
            init.push((rel, entry_path(e)))
        } else {
            init
        }
    }
}

pub open spec fn found_view(v: Seq<FoundFile>) -> Seq<(Seq<char>, Seq<char>)> {
    v.map_values(|f: FoundFile| (f.rel_path@, f.abs_path@))
}

/// The image candidates among the entries of a walk of the canonical `root`,
/// in walk order. The first entry that could not be read, or the first
/// candidate outside `root`, ends the scan with its error.
pub fn select_candidates(root: &str, entries: &Vec<WalkEntry>) -> (r: Result<
    Vec<FoundFile>,
    PtimeError,
>)
    requires
        is_canonical_path(root@),
        forall|i: int|
            0 <= i < entries@.len() && #[trigger] entries@[i] is Entry ==> is_canonical_path(
                entry_path(entries@[i]),
            ),
    ensures
        r is Ok <==> forall|i: int| 0 <= i < entries@.len() ==> !stops_scan(root@, #[trigger] entries@[i]),
        r matches Ok(v) ==> found_view(v@) == candidates_of(root@, entries@),
        r matches Err(err) ==> exists|i: int|
            0 <= i < entries@.len() && stops_scan(root@, #[trigger] entries@[i]) && (forall|j: int|
                0 <= j < i ==> !stops_scan(root@, #[trigger] entries@[j])) && error_for(entries@[i], err),
{
    let mut found: Vec<FoundFile> = Vec::new();
    let n = entries.len();
    let mut i: usize = 0;
    assert(entries@.take(0) =~= Seq::<WalkEntry>::empty());
    assert(found_view(found@) =~= Seq::<(Seq<char>, Seq<char>)>::empty());
    while i < n
        invariant
            n == entries@.len(),
            i <= n,
            forall|j: int| 0 <= j < i ==> !stops_scan(root@, #[trigger] entries@[j]),
            is_canonical_path(root@),
            forall|k: int|
                0 <= k < entries@.len() && #[trigger] entries@[k] is Entry ==> is_canonical_path(
                    entry_path(entries@[k]),
                ),
            found_view(found@) == candidates_of(root@, entries@.take(i as int)),
        decreases n - i,
    {
        assert(entries@.take(i + 1).drop_last() =~= entries@.take(i as int));
        assert(entries@.take(i + 1).last() == entries@[i as int]);
        match &entries[i] {
            WalkEntry::Failed { path, message } => {
                return Err(PtimeError::DirectoryReadError { path: path.clone(), source: message.clone() });
            },
            WalkEntry::Entry { path, is_file } => {
                if *is_file && is_jpeg_extension(path.as_str()) {
                    match compute_relative_path(root, path.as_str()) {
                        Ok(rel) => {
                            let ghost before = found@;
                            found.push(FoundFile { rel_path: rel, abs_path: path.clone() });
                            assert(found_view(found@) =~= found_view(before).push((rel@, path@)));
                        },
                        Err(e) => {
                            return Err(e);
                        },
                    }
                }
            },
        }
        i = i + 1;
    }
    assert(entries@.take(n as int) =~= entries@);
    Ok(found)
}

} // verus!
