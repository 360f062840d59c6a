//! The music library: which paths may be browsed and selected, what a listing shows,
//! and which files a selection converts. The disk is read by the caller; everything
//! here decides on the paths and facts it is handed.
use vstd::prelude::*;
use crate::error::AppError;
use crate::models::job::texts;
use crate::models::message::{
    EntryView,
    LibraryBrowseResponse,
    LibraryConvertRequest,
    LibraryEntry,
    LibraryEntryKind,
};
use crate::order::{sort_by_keys, sorts_stably};
use crate::paths::{
    body_names,
    body_part,
    components,
    has_cur_dir,
    free_of,
    is_real,
    lemma_join_starts,
    lemma_split_join,
    lemma_split_pieces_free,
    lemma_all_real_positions,
    lemma_real_positions_append,
    lemma_split_after_slash,
    split_on,
    lemma_split_len,
    real_positions,
    file_name,
    file_name_of,
    has_flac_ext,
    has_flac_ext_exec,
    has_root,
    is_parent_token,
    join,
    join_names,
    join_path,
    join_path_exec,
    layout_of,
    lemma_real_positions,
    lead,
    opt_view,
    parent,
    parent_exec,
    path_key,
    path_keys,
    path_starts_with,
    positions,
    same_path,
    same_path_exec,
    start_parts,
    starts_with_path,
    strip_prefix,
    strip_prefix_exec,
    tokens,
    views,
    Component,
};
use crate::text::{chars_of, concat, lowercase, string_of, text, to_lowercase, trim, trim_chars};

verus! {

/// The query of a library listing: the directory to list, relative to the library root.
#[derive(Debug, Clone)]
pub struct LibraryBrowseQuery {
    pub path: Option<String>,
}

/// Where an entry kind sorts in a listing: directories before files.
pub open spec fn rank(kind: LibraryEntryKind) -> u8 {
    match kind {
        LibraryEntryKind::Directory => 0,
        LibraryEntryKind::File => 1,
    }
}

/// Where an entry kind sorts in a listing: directories before files.
pub fn kind_rank(kind: &LibraryEntryKind) -> (r: u8)
    ensures
        r == rank(*kind),
{
    match kind {
        LibraryEntryKind::Directory => 0,
        LibraryEntryKind::File => 1,
    }
}

/// Whether a path names a FLAC file: its extension is `flac` in any letter case.
pub fn has_flac_extension(path: &str) -> (r: bool)
    ensures
        r == has_flac_ext(path@),
{
    has_flac_ext_exec(&chars_of(path))
}

/// A relative path as the API shows it: `.` becomes empty, backslashes become slashes.
pub fn normalize_relative(path: &str) -> (r: String)
    ensures
        r@ == crate::paths::normalize_relative(path@),
{
    string_of(&crate::paths::normalize_relative_exec(&chars_of(path)))
}

/// The path of `absolute` relative to `root` as the API shows it; empty when
/// `absolute` does not lie below `root`.
pub open spec fn relative_text(root: Seq<char>, absolute: Seq<char>) -> Seq<char> {
    match strip_prefix(absolute, root) {
        Some(p) => crate::paths::normalize_relative(p),
        None => Seq::empty(),
    }
}

/// The path of `absolute` relative to `root` as the API shows it.
pub fn to_relative_string(root: &str, absolute: &str) -> (r: String)
    ensures
        r@ == relative_text(root@, absolute@),
{
    match strip_prefix_exec(&chars_of(absolute), &chars_of(root)) {
        Some(p) => string_of(&crate::paths::normalize_relative_exec(&p)),
        None => String::new(),
    }
}

/// The parent of a relative library path as the API shows it: none for the root
/// itself (the empty path).
pub open spec fn parent_text(current: Seq<char>) -> Option<Seq<char>> {
    if current.len() == 0 {
        None
    } else {
        match parent(current) {
            Some(p) => Some(crate::paths::normalize_relative(p)),
            None => None,
        }
    }
}

/// The parent of a relative library path as the API shows it.
pub fn parent_path(current: &str) -> (r: Option<String>)
    ensures
        opt_view(r) == parent_text(current@),
{
    let v = chars_of(current);
    if v.len() == 0 {
        return None;
    }
    match parent_exec(&v) {
        Some(p) => Some(string_of(&crate::paths::normalize_relative_exec(&p))),
        None => None,
    }
}

/// Whether a path has a `..` component.
pub open spec fn has_parent_dir(s: Seq<char>) -> bool {
    exists|i: int| 0 <= i < components(s).len() && (#[trigger] components(s)[i]) is ParentDir
}

/// What a library path given relative to the root stands for, after trimming white
/// space: the empty path is the root itself; an absolute path, or one with a `..`
/// component, is refused with the reason; otherwise it is the path's names joined with
/// `/`.
pub open spec fn checked_path(raw: Seq<char>) -> Result<Seq<char>, Seq<char>> {
    let c = trim(raw);
    if c.len() == 0 {
        Ok(Seq::empty())
    } else if has_root(c) {
        Err("Absolute paths are not allowed"@)
    } else if has_parent_dir(c) {
        Err("Parent traversal and root prefixes are not allowed"@)
    } else {
        Ok(join(body_names(c)))
    }
}

/// Checks a library path given relative to the root (see `checked_path`); a refused
/// path is an `InvalidPath` error with the reason.
pub fn validate_relative_path(raw: &str) -> (r: Result<String, AppError>)
    ensures
        match r {
            Ok(p) => checked_path(raw@) matches Ok(q) && q == p@,
            Err(e) => e matches AppError::InvalidPath(m) && (checked_path(raw@) matches Err(q)
                && q == m@),
        },
{
    let c = trim_chars(&chars_of(raw));
    if c.len() == 0 {
        return Ok(String::new());
    }
    if c[0] == '/' {
        return Err(AppError::InvalidPath(text("Absolute paths are not allowed")));
    }
    let lay = layout_of(&c);
    let ghost s = c@;
    proof {
        lemma_real_positions(tokens(s), lead(s));
    }
    let mut i: usize = 0;
    while i < lay.positions.len()
        invariant
            lay.describes(s),
            s == trim(raw@),
            s.len() > 0,
            !has_root(s),
            i <= lay.positions.len(),
            forall|j: int|
                0 <= j < positions(s).len() ==> 0 <= #[trigger] positions(s)[j] < tokens(s).len(),
            forall|k: int| 0 <= k < i ==> tokens(s)[#[trigger] positions(s)[k]] != seq!['.', '.'],
        decreases lay.positions.len() - i,
    {
        let p = lay.positions[i];
        assert(crate::paths::ints(lay.positions@)[i as int] == p as int);
        assert(views(lay.tokens@)[p as int] == lay.tokens@[p as int]@);
        if is_parent_token(&lay.tokens[p]) {
            proof {
                let st = start_parts(s).len() as int;
                assert(components(s)[st + i] is ParentDir);
            }
            return Err(
                AppError::InvalidPath(text("Parent traversal and root prefixes are not allowed")),
            );
        }
        i = i + 1;
    }
    proof {
        assert forall|j: int| 0 <= j < components(s).len() implies !(#[trigger] components(
            s,
        )[j] is ParentDir) by {
            let st = start_parts(s).len() as int;
            if j >= st {
                assert(tokens(s)[positions(s)[j - st]] != seq!['.', '.']);
            }
        }
    }
    Ok(string_of(&join_names(&lay, Ghost(s))))
}

/// The path that a relative library path stands for below `root`: the checked path
/// joined to the root.
pub fn library_candidate(root: &str, raw: &str) -> (r: Result<String, AppError>)
    ensures
        match r {
            Ok(p) => checked_path(raw@) matches Ok(q) && p@ == join_path(root@, q),
            Err(e) => e matches AppError::InvalidPath(m) && (checked_path(raw@) matches Err(q)
                && q == m@),
        },
{
    let rel = validate_relative_path(raw)?;
    Ok(string_of(&join_path_exec(&chars_of(root), &chars_of(rel.as_str()))))
}

/// What the caller found out about one entry of a directory: its name, whether it is
/// a symbolic link, a directory or a regular file, and its canonical path where that
/// could be had (none for a link, or where canonicalization failed).
#[derive(Debug, Clone)]
pub struct ScannedEntry {
    pub name: String,
    pub is_symlink: bool,
    pub is_dir: bool,
    pub is_file: bool,
    pub canonical: Option<String>,
}

/// What a listing of the library shows of a directory entry, if anything: a directory,
/// or a FLAC file, that is no link and lies below the root, with its path relative to
/// the root.
pub open spec fn listed(root: Seq<char>, e: ScannedEntry) -> Option<EntryView> {
    if e.is_symlink {
        None
    } else {
        match e.canonical {
            None => None,
            Some(c) => if !path_starts_with(c@, root) {
                None
            } else if e.is_dir {
                Some(
                    EntryView {
                        name: e.name@,
                        path: relative_text(root, c@),
                        kind: LibraryEntryKind::Directory,
                    },
                )
            } else if e.is_file && has_flac_ext(c@) {
                Some(
                    EntryView {
                        name: e.name@,
                        path: relative_text(root, c@),
                        kind: LibraryEntryKind::File,
                    },
                )
            } else {
                None
            },
        }
    }
}

/// What a listing shows of the given directory entries, in their order.
pub open spec fn listing(root: Seq<char>, es: Seq<ScannedEntry>) -> Seq<EntryView>
    decreases es.len(),
{
    if es.len() == 0 {
        Seq::empty()
    } else {
        let rest = listing(root, es.drop_last());
        match listed(root, es.last()) {
            Some(v) => rest.push(v),
            None => rest,
        }
    }
}

/// How many of the entries are directories (`dirs`) or files (`!dirs`).
pub open spec fn count_kind(vs: Seq<EntryView>, dirs: bool) -> nat
    decreases vs.len(),
{
    if vs.len() == 0 {
        0
    } else {
        count_kind(vs.drop_last(), dirs) + if (vs.last().kind is Directory) == dirs {
            1nat
        } else {
            0nat
        }
    }
}

/// The text that sorts an entry kind: `0` for directories, `1` for files.
pub open spec fn rank_text(kind: LibraryEntryKind) -> Seq<char> {
    if rank(kind) == 0 {
        seq!['0']
    } else {
        seq!['1']
    }
}

/// The sort key of a listed entry: its kind's rank, then its lower-cased name.
pub open spec fn listing_key(v: EntryView) -> Seq<Seq<char>> {
    seq![rank_text(v.kind), lowercase(v.name)]
}

/// The sort keys of listed entries.
pub open spec fn listing_keys(vs: Seq<EntryView>) -> Seq<Seq<Seq<char>>> {
    Seq::new(vs.len(), |i: int| listing_key(vs[i]))
}

/// The views of library entries.
pub open spec fn entry_views(v: Seq<LibraryEntry>) -> Seq<EntryView> {
    Seq::new(v.len(), |i: int| v[i]@)
}

/// The positions of the entries that are directories (`dirs`) or files (`!dirs`).
spec fn kind_set(vs: Seq<EntryView>, dirs: bool) -> Set<int> {
    Set::new(|i: int| 0 <= i < vs.len() && (vs[i].kind is Directory) == dirs)
}

proof fn lemma_kind_set_finite(vs: Seq<EntryView>, dirs: bool)
    ensures
        kind_set(vs, dirs).finite(),
        kind_set(vs, dirs).subset_of(vstd::set_lib::set_int_range(0, vs.len() as int)),
{
    vstd::set_lib::lemma_int_range(0, vs.len() as int);
    assert(kind_set(vs, dirs).subset_of(vstd::set_lib::set_int_range(0, vs.len() as int)));
    vstd::set_lib::lemma_set_subset_finite(
        vstd::set_lib::set_int_range(0, vs.len() as int),
        kind_set(vs, dirs),
    );
}

/// The counts of a listing count its entries by kind: `count_kind(vs, true)` is the
/// number of positions that hold a directory, `count_kind(vs, false)` the number that
/// hold a file.
pub proof fn law_counts_are_kind_counts(vs: Seq<EntryView>)
    ensures
        count_kind(vs, true) == Set::new(
            |i: int| 0 <= i < vs.len() && vs[i].kind is Directory,
        ).len(),
        count_kind(vs, false) == Set::new(|i: int| 0 <= i < vs.len() && vs[i].kind is File).len(),
{
    lemma_count_kind_set(vs, true);
    lemma_count_kind_set(vs, false);
    assert(Set::new(|i: int| 0 <= i < vs.len() && vs[i].kind is Directory) =~= kind_set(vs, true));
    assert(Set::new(|i: int| 0 <= i < vs.len() && vs[i].kind is File) =~= kind_set(vs, false));
}

proof fn lemma_count_kind_set(vs: Seq<EntryView>, dirs: bool)
    ensures
        count_kind(vs, dirs) == kind_set(vs, dirs).len(),
    decreases vs.len(),
{
    lemma_kind_set_finite(vs, dirs);
    if vs.len() == 0 {
        assert(kind_set(vs, dirs) =~= Set::<int>::empty());
    } else {
        let init = vs.drop_last();
        lemma_count_kind_set(init, dirs);
        lemma_kind_set_finite(init, dirs);
        let n = vs.len() - 1;
        assert(!kind_set(init, dirs).contains(n));
        if (vs.last().kind is Directory) == dirs {
            assert(kind_set(vs, dirs) =~= kind_set(init, dirs).insert(n));
        } else {
            assert(kind_set(vs, dirs) =~= kind_set(init, dirs));
        }
    }
}

/// Reordering entries by a permutation keeps the number of each kind.
proof fn lemma_kind_set_permuted(a: Seq<EntryView>, b: Seq<EntryView>, p: Seq<int>, dirs: bool)
    requires
        crate::order::is_permutation(p, a.len() as int),
        b.len() == a.len(),
        forall|i: int| 0 <= i < b.len() ==> #[trigger] b[i] == a[p[i]],
    ensures
        kind_set(b, dirs).len() == kind_set(a, dirs).len(),
{
    lemma_kind_set_finite(b, dirs);
    let x = kind_set(b, dirs);
    let y = kind_set(a, dirs);
    let f = |i: int| p[i];
    assert(vstd::relations::injective_on(f, x)) by {
        assert forall|i1: int, i2: int|
            x.contains(i1) && x.contains(i2) && #[trigger] f(i1) == #[trigger] f(i2) implies i1
            == i2 by {
            if i1 < i2 {
                assert(p[i1] != p[i2]);
            } else if i2 < i1 {
                assert(p[i2] != p[i1]);
            }
        }
    }
    assert(x.map(f) =~= y) by {
        assert forall|j: int| #[trigger] y.contains(j) implies x.map(f).contains(j) by {
            crate::order::lemma_permutation_onto(p, a.len() as int, j);
            let i = choose|i: int| 0 <= i < a.len() && p[i] == j;
            assert(b[i] == a[p[i]]);
            assert(x.contains(i));
            assert(f(i) == j);
        }
        assert forall|j: int| #[trigger] x.map(f).contains(j) implies y.contains(j) by {
            let i = choose|i: int| x.contains(i) && f(i) == j;
            assert(b[i] == a[p[i]]);
        }
    }
    vstd::set_lib::lemma_map_size(x, y, f);
}

/// The listing of the directory `current` below `root`, given what the caller found
/// out about its entries: the entries that a listing shows (see `listed`), sorted
/// stably by kind (directories first) and then by lower-cased name; how many of them
/// are directories and files; the directory's path relative to the root and that
/// path's parent; and `root_path`, the root as configured.
pub fn browse_listing(root: &str, current: &str, root_path: String, scanned: Vec<ScannedEntry>) -> (r:
    LibraryBrowseResponse)
    ensures
        r.root_path == root_path,
        r.current_path@ == relative_text(root@, current@),
        opt_view(r.parent_path) == parent_text(relative_text(root@, current@)),
        r.directory_count == count_kind(listing(root@, scanned@), true),
        r.file_count == count_kind(listing(root@, scanned@), false),
        r.entries@.len() == listing(root@, scanned@).len(),
        r.directory_count == Set::new(
            |i: int| 0 <= i < r.entries@.len() && r.entries@[i].kind is Directory,
        ).len(),
        r.file_count == Set::new(
            |i: int| 0 <= i < r.entries@.len() && r.entries@[i].kind is File,
        ).len(),
        exists|p: Seq<int>|
            sorts_stably(p, listing_keys(listing(root@, scanned@))) && forall|i: int|
                0 <= i < r.entries@.len() ==> #[trigger] r.entries@[i]@ == listing(
                    root@,
                    scanned@,
                )[p[i]],
{
    let root_v = chars_of(root);
    let mut entries: Vec<LibraryEntry> = Vec::new();
    let mut keys: Vec<Vec<Vec<char>>> = Vec::new();
    let mut dirs: usize = 0;
    let mut files: usize = 0;
    let mut i: usize = 0;
    while i < scanned.len()
        invariant
            i <= scanned.len(),
            root_v@ == root@,
            entry_views(entries@) == listing(root@, scanned@.take(i as int)),
            keys@.len() == entries@.len(),
            forall|a: int|
                0 <= a < keys@.len() ==> views(#[trigger] keys@[a]@) == listing_key(entries@[a]@),
            dirs == count_kind(listing(root@, scanned@.take(i as int)), true),
            files == count_kind(listing(root@, scanned@.take(i as int)), false),
            dirs <= i,
            files <= i,
        decreases scanned.len() - i,
    {
        let ghost before = entry_views(entries@);
        let ghost pre = scanned@.take(i as int);
        let ghost next = scanned@.take(i + 1);
        assert(next.drop_last() =~= pre);
        assert(next.last() == scanned@[i as int]);
        let e = &scanned[i];
        let mut shown: Option<LibraryEntry> = None;
        if !e.is_symlink {
            match &e.canonical {
                Some(c) => {
                    let cv = chars_of(c.as_str());
                    if starts_with_path(&cv, &root_v) {
                        if e.is_dir {
                            shown = Some(
                                LibraryEntry {
                                    name: e.name.clone(),
                                    path: to_relative_string(root, c.as_str()),
                                    kind: LibraryEntryKind::Directory,
                                },
                            );
                        } else if e.is_file && has_flac_ext_exec(&cv) {
                            shown = Some(
                                LibraryEntry {
                                    name: e.name.clone(),
                                    path: to_relative_string(root, c.as_str()),
                                    kind: LibraryEntryKind::File,
                                },
                            );
                        }
                    }
                },
                None => {},
            }
        }
        assert(match shown {
            Some(x) => listed(root@, scanned@[i as int]) == Some(x@),
            None => listed(root@, scanned@[i as int]) is None,
        });
        match shown {
            Some(x) => {
                let is_dir = match x.kind {
                    LibraryEntryKind::Directory => true,
                    LibraryEntryKind::File => false,
                };
                let rank_key: Vec<char> = if is_dir {
                    vec!['0']
                } else {
                    vec!['1']
                };
                assert(rank_key@ =~= rank_text(x.kind));
                let lower = to_lowercase(x.name.as_str());
                let mut key: Vec<Vec<char>> = Vec::new();
                key.push(rank_key);
                key.push(chars_of(lower.as_str()));
                assert(views(key@) =~= listing_key(x@));
                let ghost xv = x@;
                entries.push(x);
                keys.push(key);
                assert(entry_views(entries@) =~= before.push(xv));
                assert(listing(root@, next) == before.push(xv));
                assert(listing(root@, next).drop_last() =~= before);
                if is_dir {
                    dirs = dirs + 1;
                } else {
                    files = files + 1;
                }
            },
            None => {
                assert(listing(root@, next) == before);
            },
        }
        i = i + 1;
    }
    assert(scanned@.take(scanned@.len() as int) =~= scanned@);
    let ghost shown_all = listing(root@, scanned@);
    assert(keys@.map_values(|k: Vec<Vec<char>>| views(k@)) =~= listing_keys(shown_all));
    let (sorted, order) = sort_by_keys(entries, keys);
    let current_path = to_relative_string(root, current);
    let parent = parent_path(current_path.as_str());
    proof {
        let p = order@;
        assert forall|j: int| 0 <= j < sorted@.len() implies #[trigger] sorted@[j]@ == shown_all[p[j]] by {
            assert(entry_views(entries@)[p[j]] == entries@[p[j]]@);
        }
        let sv = entry_views(sorted@);
        assert forall|j: int| 0 <= j < sv.len() implies #[trigger] sv[j] == shown_all[p[j]] by {
            assert(sv[j] == sorted@[j]@);
        }
        lemma_kind_set_permuted(shown_all, sv, p, true);
        lemma_kind_set_permuted(shown_all, sv, p, false);
        lemma_count_kind_set(shown_all, true);
        lemma_count_kind_set(shown_all, false);
        assert(Set::new(|i: int| 0 <= i < sorted@.len() && sorted@[i].kind is Directory) =~= kind_set(
            sv,
            true,
        ));
        assert(Set::new(|i: int| 0 <= i < sorted@.len() && sorted@[i].kind is File) =~= kind_set(
            sv,
            false,
        ));
    }
    LibraryBrowseResponse {
        root_path,
        current_path,
        parent_path: parent,
        entries: sorted,
        directory_count: dirs,
        file_count: files,
    }
}

/// Whether a path equal to `p` (component by component) was seen already.
pub open spec fn seen_path(seen: Seq<Seq<char>>, p: Seq<char>) -> bool {
    exists|i: int| 0 <= i < seen.len() && same_path(#[trigger] seen[i], p)
}

/// The name under which a selected file is converted: its file name, or
/// `unknown.flac` when it has none.
pub open spec fn name_or_unknown(p: Seq<char>) -> Seq<char> {
    match file_name(p) {
        Some(n) => n,
        None => "unknown.flac"@,
    }
}

/// The views of pairs of strings.
pub open spec fn pair_views(v: Seq<(String, String)>) -> Seq<(Seq<char>, Seq<char>)> {
    Seq::new(v.len(), |i: int| (v[i].0@, v[i].1@))
}

/// What collecting `path` does to the paths seen and the files selected: a FLAC file
/// not seen before is added to both, with its name; anything else changes nothing.
pub open spec fn collects(
    old_seen: Seq<Seq<char>>,
    old_files: Seq<(Seq<char>, Seq<char>)>,
    new_seen: Seq<Seq<char>>,
    new_files: Seq<(Seq<char>, Seq<char>)>,
    path: Seq<char>,
) -> bool {
    if has_flac_ext(path) && !seen_path(old_seen, path) {
        new_seen == old_seen.push(path) && new_files == old_files.push((path, name_or_unknown(path)))
    } else {
        new_seen == old_seen && new_files == old_files
    }
}

/// Adds the file `path` to a selection (see `collects`).
pub fn collect_file(path: &str, seen: &mut Vec<String>, files: &mut Vec<(String, String)>)
    ensures
        collects(
            texts(old(seen)@),
            pair_views(old(files)@),
            texts(final(seen)@),
            pair_views(final(files)@),
            path@,
        ),
        has_flac_ext(path@) && (forall|i: int|
            0 <= i < old(seen)@.len() ==> !same_path(#[trigger] old(seen)@[i]@, path@)) ==> texts(
            final(seen)@,
        ) == texts(old(seen)@).push(path@) && pair_views(final(files)@) == pair_views(
            old(files)@,
        ).push((path@, name_or_unknown(path@))),
        !has_flac_ext(path@) || (exists|i: int|
            0 <= i < old(seen)@.len() && same_path(#[trigger] old(seen)@[i]@, path@))
            ==> *final(seen) == *old(seen) && *final(files) == *old(files),
{
    let v = chars_of(path);
    if !has_flac_ext_exec(&v) {
        return;
    }
    let mut i: usize = 0;
    while i < seen.len()
        invariant
            i <= seen.len(),
            v@ == path@,
            forall|j: int| 0 <= j < i ==> !same_path(#[trigger] texts(seen@)[j], path@),
        decreases seen.len() - i,
    {
        let s = chars_of(seen[i].as_str());
        if same_path_exec(&s, &v) {
            assert(same_path(texts(seen@)[i as int], path@));
            return;
        }
        i = i + 1;
    }
    assert forall|j: int| 0 <= j < seen@.len() implies !same_path(#[trigger] seen@[j]@, path@) by {
        assert(texts(seen@)[j] == seen@[j]@);
    }
    let ghost old_seen = texts(seen@);
    let ghost old_files = pair_views(files@);
    seen.push(text(path));
    let name = match file_name_of(&v) {
        Some(n) => string_of(&n),
        None => text("unknown.flac"),
    };
    files.push((text(path), name));
    assert(texts(seen@) =~= old_seen.push(path@));
    assert(pair_views(files@) =~= old_files.push((path@, name_or_unknown(path@))));
}

/// Collecting skips a file only when the very same path (component by component)
/// was seen: a FLAC file whose path differs from every path seen is added, under its
/// file name, even where another file of that name was collected before.
pub proof fn law_collect_adds_every_new_path(
    old_seen: Seq<Seq<char>>,
    old_files: Seq<(Seq<char>, Seq<char>)>,
    new_seen: Seq<Seq<char>>,
    new_files: Seq<(Seq<char>, Seq<char>)>,
    path: Seq<char>,
)
    requires
        collects(old_seen, old_files, new_seen, new_files, path),
        has_flac_ext(path),
        forall|i: int| 0 <= i < old_seen.len() ==> !same_path(#[trigger] old_seen[i], path),
    ensures
        new_seen == old_seen.push(path),
        new_files.len() == old_files.len() + 1,
        new_files.last().0 == path,
        file_name(path) is Some ==> file_name(path) == Some(new_files.last().1),
{
}

/// What walking a selected directory does with one of its entries.
pub enum EntryUse {
    /// Nothing: a link, an entry without a canonical path, one outside the root, or
    /// neither a directory nor a regular file.
    Skip,
    /// Walk this directory too.
    Descend(Seq<char>),
    /// Collect this file.
    Collect(Seq<char>),
}

/// What walking a selected directory below `root` does with the entry `e`.
pub open spec fn entry_use(root: Seq<char>, e: ScannedEntry) -> EntryUse {
    if e.is_symlink {
        EntryUse::Skip
    } else {
        match e.canonical {
            None => EntryUse::Skip,
            Some(c) => if !path_starts_with(c@, root) {
                EntryUse::Skip
            } else if e.is_dir {
                EntryUse::Descend(c@)
            } else if e.is_file {
                EntryUse::Collect(c@)
            } else {
                EntryUse::Skip
            },
        }
    }
}

/// Handles one entry of a directory of a selection below `root`: a directory goes on
/// the stack of directories still to walk, a file is collected (see `entry_use`).
pub fn visit_entry(
    root: &str,
    entry: &ScannedEntry,
    stack: &mut Vec<String>,
    seen: &mut Vec<String>,
    files: &mut Vec<(String, String)>,
)
    ensures
        match entry_use(root@, *entry) {
            EntryUse::Skip => *final(stack) == *old(stack) && *final(seen) == *old(seen)
                && *final(files) == *old(files),
            EntryUse::Descend(c) => texts(final(stack)@) == texts(old(stack)@).push(c)
                && *final(seen) == *old(seen) && *final(files) == *old(files),
            EntryUse::Collect(c) => *final(stack) == *old(stack) && collects(
                texts(old(seen)@),
                pair_views(old(files)@),
                texts(final(seen)@),
                pair_views(final(files)@),
                c,
            ),
        },
{
    if entry.is_symlink {
        return;
    }
    match &entry.canonical {
        None => {},
        Some(c) => {
            let cv = chars_of(c.as_str());
            if !starts_with_path(&cv, &chars_of(root)) {
                return;
            }
            if entry.is_dir {
                let ghost before = texts(stack@);
                stack.push(c.clone());
                assert(texts(stack@) =~= before.push(c@));
            } else if entry.is_file {
                collect_file(c.as_str(), seen, files);
            }
        },
    }
}

/// The walk of a selected directory: the directories still to read, the last one
/// found read first.
pub struct DirectoryWalk {
    pub pending: Vec<String>,
}

impl DirectoryWalk {
    /// A walk that starts at the directory `start`.
    pub fn start(start: String) -> (r: DirectoryWalk)
        ensures
            r.pending@ == seq![start],
    {
        let mut pending: Vec<String> = Vec::new();
        pending.push(start);
        DirectoryWalk { pending }
    }

    /// The next directory to read, taken off the walk: the one found last; none when
    /// the walk is over.
    pub fn next_directory(&mut self) -> (r: Option<String>)
        ensures
            old(self).pending@.len() == 0 ==> r is None && final(self).pending@ == old(
                self,
            ).pending@,
            old(self).pending@.len() > 0 ==> r == Some(old(self).pending@.last())
                && final(self).pending@ == old(self).pending@.drop_last(),
    {
        self.pending.pop()
    }

    /// Handles an entry of the directory being read (see `visit_entry`): a directory
    /// joins the walk, a file is collected.
    pub fn visit(
        &mut self,
        root: &str,
        entry: &ScannedEntry,
        seen: &mut Vec<String>,
        files: &mut Vec<(String, String)>,
    )
        ensures
            match entry_use(root@, *entry) {
                EntryUse::Skip => final(self).pending == old(self).pending && *final(seen) == *old(
                    seen,
                ) && *final(files) == *old(files),
                EntryUse::Descend(c) => texts(final(self).pending@) == texts(
                    old(self).pending@,
                ).push(c) && *final(seen) == *old(seen) && *final(files) == *old(files),
                EntryUse::Collect(c) => final(self).pending == old(self).pending && collects(
                    texts(old(seen)@),
                    pair_views(old(files)@),
                    texts(final(seen)@),
                    pair_views(final(files)@),
                    c,
                ),
            },
    {
        visit_entry(root, entry, &mut self.pending, seen, files);
    }
}

/// The component keys of the paths of selected files.
pub open spec fn selection_keys(files: Seq<(String, String)>) -> Seq<Seq<Seq<char>>> {
    Seq::new(files.len(), |i: int| path_key(files[i].0@))
}

/// The component key of a path.
pub fn path_key_of(p: &str) -> (r: Vec<Vec<char>>)
    ensures
        views(r@) == path_key(p@),
{
    let v = chars_of(p);
    let lay = layout_of(&v);
    path_keys(&lay, Ghost(v@))
}

/// The files of a selection, sorted stably by path (component by component, as paths
/// compare); `NoFilesProvided` when there are none.
pub fn finish_selection(files: Vec<(String, String)>) -> (r: Result<Vec<(String, String)>, AppError>)
    ensures
        (files@.len() == 0) == (r is Err),
        r matches Err(e) ==> e is NoFilesProvided,
        r matches Ok(v) ==> v@.len() == files@.len() && exists|p: Seq<int>|
            sorts_stably(p, selection_keys(files@)) && forall|i: int|
                0 <= i < v@.len() ==> #[trigger] v@[i] == files@[p[i]],
{
    let mut keys: Vec<Vec<Vec<char>>> = Vec::new();
    let mut i: usize = 0;
    while i < files.len()
        invariant
            i <= files.len(),
            keys@.len() == i,
            forall|a: int| 0 <= a < i ==> views(#[trigger] keys@[a]@) == path_key(files@[a].0@),
        decreases files.len() - i,
    {
        keys.push(path_key_of(files[i].0.as_str()));
        i = i + 1;
    }
    assert(keys@.map_values(|k: Vec<Vec<char>>| views(k@)) =~= selection_keys(files@));
    let ghost orig = files@;
    let (sorted, order) = sort_by_keys(files, keys);
    if sorted.len() == 0 {
        return Err(AppError::NoFilesProvided);
    }
    assert(forall|j: int| 0 <= j < sorted@.len() ==> #[trigger] sorted@[j] == orig[order@[j]]);
    Ok(sorted)
}

/// Refuses a canonical path that does not lie below the library root.
pub fn check_inside_root(root: &str, canonical: &str) -> (r: Result<(), AppError>)
    ensures
        (r is Ok) == path_starts_with(canonical@, root@),
        r matches Err(e) ==> (e matches AppError::InvalidPath(m) && m@
            == "Path escapes the configured music library root"@),
{
    if starts_with_path(&chars_of(canonical), &chars_of(root)) {
        Ok(())
    } else {
        Err(AppError::InvalidPath(text("Path escapes the configured music library root")))
    }
}

/// Refuses a conversion request that names no paths.
pub fn check_convert_request(request: &LibraryConvertRequest) -> (r: Result<(), AppError>)
    ensures
        (r is Ok) == (request.paths@.len() > 0),
        r matches Err(e) ==> e is NoFilesProvided,
{
    if request.paths.len() == 0 {
        Err(AppError::NoFilesProvided)
    } else {
        Ok(())
    }
}

/// The error for a listed path that is not a directory.
pub fn not_a_directory() -> (r: AppError)
    ensures
        r matches AppError::InvalidPath(m) && m@ == "Requested path is not a directory"@,
{
    AppError::InvalidPath(text("Requested path is not a directory"))
}

/// The error for a library path that does not lead to anything on disk.
pub fn path_not_found(raw: &str) -> (r: AppError)
    ensures
        r matches AppError::InvalidPath(m) && m@ == "Path not found: "@ + raw@,
{
    AppError::InvalidPath(concat("Path not found: ", raw))
}

/// The error for a selected path whose metadata cannot be read.
pub fn path_does_not_exist(raw: &str) -> (r: AppError)
    ensures
        r matches AppError::InvalidPath(m) && m@ == "Path does not exist: "@ + raw@,
{
    AppError::InvalidPath(concat("Path does not exist: ", raw))
}

/// The error for a selected path that is neither a file nor a directory.
pub fn unsupported_selection(raw: &str) -> (r: AppError)
    ensures
        r matches AppError::InvalidPath(m) && m@ == "Unsupported selection type: "@ + raw@,
{
    AppError::InvalidPath(concat("Unsupported selection type: ", raw))
}

/// The error for a library root that cannot be accessed, with the root as configured
/// and the text of the failure.
pub fn library_root_unavailable(root: &str, detail: &str) -> (r: AppError)
    ensures
        r matches AppError::Internal(m) && m@ == "Unable to access music library root '"@ + root@
            + "': "@ + detail@,
{
    let head = concat("Unable to access music library root '", root);
    let head = concat(head.as_str(), "': ");
    AppError::Internal(concat(head.as_str(), detail))
}

/// In a listing sorted by `listing_keys`, no file comes before a directory.
pub proof fn law_directories_first(vs: Seq<EntryView>, p: Seq<int>)
    requires
        sorts_stably(p, listing_keys(vs)),
    ensures
        forall|i: int, j: int|
            0 <= i < j < p.len() ==> !((#[trigger] vs[p[i]]).kind is File && (
            #[trigger] vs[p[j]]).kind is Directory),
{
    assert forall|i: int, j: int|
        0 <= i < j < p.len() implies !((#[trigger] vs[p[i]]).kind is File && (
        #[trigger] vs[p[j]]).kind is Directory) by {
        if vs[p[i]].kind is File && vs[p[j]].kind is Directory {
            let ki = listing_keys(vs)[p[i]];
            let kj = listing_keys(vs)[p[j]];
            assert(ki[0] == seq!['1']);
            assert(kj[0] == seq!['0']);
            assert(crate::order::chars_lt(kj[0], ki[0])) by {
                reveal_with_fuel(crate::order::chars_lt, 2);
            }
            assert(crate::order::keys_lt(kj, ki));
        }
    }
}

/// Every entry of a listing is a directory or a file: the two counts add up to the
/// number of entries.
pub proof fn law_counts_add_up(vs: Seq<EntryView>)
    ensures
        count_kind(vs, true) + count_kind(vs, false) == vs.len(),
    decreases vs.len(),
{
    if vs.len() > 0 {
        law_counts_add_up(vs.drop_last());
    }
}

/// Whether no two paths of `seen` are the same path.
pub open spec fn distinct_paths(seen: Seq<Seq<char>>) -> bool {
    forall|i: int, j: int| 0 <= i < j < seen.len() ==> !same_path(#[trigger] seen[i], #[trigger] seen[j])
}

/// A selection never holds the same file twice: collecting keeps the paths seen
/// distinct, and the selected files are the paths seen, each with its name.
pub proof fn law_collect_keeps_distinct(
    old_seen: Seq<Seq<char>>,
    old_files: Seq<(Seq<char>, Seq<char>)>,
    new_seen: Seq<Seq<char>>,
    new_files: Seq<(Seq<char>, Seq<char>)>,
    path: Seq<char>,
)
    requires
        distinct_paths(old_seen),
        old_files.len() == old_seen.len(),
        forall|i: int| 0 <= i < old_seen.len() ==> #[trigger] old_files[i].0 == old_seen[i],
        collects(old_seen, old_files, new_seen, new_files, path),
    ensures
        distinct_paths(new_seen),
        new_seen.to_set() == if has_flac_ext(path) && !seen_path(old_seen, path) {
            old_seen.to_set().insert(path)
        } else {
            old_seen.to_set()
        },
        new_files.len() == new_seen.len(),
        forall|i: int| 0 <= i < new_seen.len() ==> #[trigger] new_files[i].0 == new_seen[i],
{
    if has_flac_ext(path) && !seen_path(old_seen, path) {
        old_seen.lemma_push_to_set_commute(path);
        assert forall|i: int, j: int| 0 <= i < j < new_seen.len() implies !same_path(
            #[trigger] new_seen[i],
            #[trigger] new_seen[j],
        ) by {
            if j == old_seen.len() {
                assert(new_seen[j] == path);
                assert(new_seen[i] == old_seen[i]);
                if same_path(old_seen[i], path) {
                    assert(seen_path(old_seen, path));
                }
            } else {
                assert(new_seen[i] == old_seen[i]);
                assert(new_seen[j] == old_seen[j]);
            }
        }
        assert forall|i: int| 0 <= i < new_seen.len() implies #[trigger] new_files[i].0
            == new_seen[i] by {
            if i < old_seen.len() {
                assert(old_files[i].0 == old_seen[i]);
            }
        }
    }
}

/// The names of a path without `..` components are real names other than `..`, free
/// of `/`.
proof fn lemma_body_names_plain(c: Seq<char>)
    requires
        !has_parent_dir(c),
    ensures
        forall|i: int|
            0 <= i < body_names(c).len() ==> is_real(#[trigger] body_names(c)[i]) && free_of(
                body_names(c)[i],
                '/',
            ) && body_names(c)[i] != seq!['.', '.'],
{
    lemma_real_positions(tokens(c), lead(c));
    lemma_split_pieces_free(c, '/');
    assert forall|i: int| 0 <= i < body_names(c).len() implies is_real(
        #[trigger] body_names(c)[i],
    ) && free_of(body_names(c)[i], '/') && body_names(c)[i] != seq!['.', '.'] by {
        let st = start_parts(c).len() as int;
        let k = positions(c)[i];
        assert(body_names(c)[i] == tokens(c)[k]);
        assert(components(c)[st + i] == body_part(tokens(c)[k]));
        if tokens(c)[k] == seq!['.', '.'] {
            assert(components(c)[st + i] is ParentDir);
            assert(has_parent_dir(c));
        }
    }
}

/// A path made by joining plain names is relative, its components are those names, in
/// order, and its names are the names joined.
proof fn lemma_join_plain(ns: Seq<Seq<char>>)
    requires
        forall|i: int|
            0 <= i < ns.len() ==> is_real(#[trigger] ns[i]) && free_of(ns[i], '/') && ns[i]
                != seq!['.', '.'],
    ensures
        !has_root(join(ns)),
        components(join(ns)) == Seq::new(ns.len(), |i: int| Component::Normal(ns[i])),
        body_names(join(ns)) == ns,
{
    let p = join(ns);
    if ns.len() == 0 {
        assert(p == Seq::<char>::empty());
        assert(tokens(p) == seq![Seq::<char>::empty()]);
        assert(!has_cur_dir(p));
        assert(positions(p) =~= Seq::<int>::empty()) by {
            reveal_with_fuel(real_positions, 2);
        }
        assert(components(p) =~= Seq::new(ns.len(), |i: int| Component::Normal(ns[i])));
        assert(body_names(p) =~= ns);
    } else {
        lemma_split_join(ns);
        lemma_join_starts(ns);
        assert(is_real(ns[0]));
        assert(free_of(ns[0], '/'));
        assert(p[0] == ns[0][0]);
        assert(!has_root(p));
        assert(!has_cur_dir(p));
        lemma_all_real_positions(ns);
        assert(positions(p) == Seq::new(ns.len(), |i: int| i));
        assert(start_parts(p) =~= Seq::<Component>::empty());
        assert(components(p) =~= Seq::new(ns.len(), |i: int| Component::Normal(ns[i])));
        assert(body_names(p) =~= ns);
    }
}

/// A path that validation accepts stays inside the directory it is joined to: it is
/// relative, and each of its components is a plain name (no `.`, `..` or root).
pub proof fn law_checked_path_is_plain(raw: Seq<char>, p: Seq<char>)
    requires
        checked_path(raw) matches Ok(q) && q == p,
    ensures
        !has_root(p),
        !has_parent_dir(p),
        forall|i: int| 0 <= i < components(p).len() ==> (#[trigger] components(p)[i]) is Normal,
{
    let c = trim(raw);
    if c.len() == 0 {
        lemma_join_plain(Seq::empty());
    } else {
        lemma_body_names_plain(c);
        lemma_join_plain(body_names(c));
    }
    let ns = if c.len() == 0 {
        Seq::<Seq<char>>::empty()
    } else {
        body_names(c)
    };
    assert(p == join(ns));
    assert forall|i: int| 0 <= i < components(p).len() implies (
    #[trigger] components(p)[i]) is Normal by {
        assert(components(p)[i] == Component::Normal(ns[i]));
    }
}

/// Validating an accepted path again gives it back, where it has no white space at its
/// ends to trim.
pub proof fn law_checked_path_idempotent(raw: Seq<char>, p: Seq<char>)
    requires
        checked_path(raw) matches Ok(q) && q == p,
        trim(p) == p,
    ensures
        checked_path(p) matches Ok(q) && q == p,
{
    let c = trim(raw);
    let ns = if c.len() == 0 {
        Seq::<Seq<char>>::empty()
    } else {
        body_names(c)
    };
    if c.len() == 0 {
        lemma_join_plain(ns);
    } else {
        lemma_body_names_plain(c);
        lemma_join_plain(ns);
    }
    law_checked_path_is_plain(raw, p);
    assert(p == join(ns));
    if p.len() > 0 {
        assert(body_names(p) == ns);
    }
}

/// A root with a `/` added at its end has the root's components.
proof fn lemma_trailing_slash(root: Seq<char>)
    requires
        has_root(root),
    ensures
        components(root + seq!['/']) == components(root),
        has_root(root + seq!['/']),
{
    let x = root + seq!['/'];
    assert(x.drop_last() =~= root);
    lemma_split_len(root, '/');
    assert(tokens(x) == tokens(root).push(Seq::<char>::empty()));
    assert(x[0] == root[0]);
    assert(!is_real(Seq::<char>::empty()));
    assert(tokens(x).drop_last() =~= tokens(root));
    assert(positions(x) == positions(root));
    lemma_real_positions(tokens(root), lead(root));
    assert forall|i: int| 0 <= i < positions(root).len() implies tokens(x)[#[trigger] positions(
        root,
    )[i]] == tokens(root)[positions(root)[i]] by {
        assert(positions(root)[i] < tokens(root).len());
    }
    assert(components(x) =~= components(root));
}

/// A path that validation accepts, joined to an absolute root, lies below that root:
/// the root's components begin the components of the result.
pub proof fn law_candidate_inside_root(root: Seq<char>, raw: Seq<char>, q: Seq<char>)
    requires
        has_root(root),
        checked_path(raw) matches Ok(p) && p == q,
    ensures
        path_starts_with(join_path(root, q), root),
{
    let c0 = trim(raw);
    let ns = if c0.len() == 0 {
        Seq::<Seq<char>>::empty()
    } else {
        body_names(c0)
    };
    if c0.len() > 0 {
        lemma_body_names_plain(c0);
    }
    law_checked_path_is_plain(raw, q);
    assert(q == join(ns));
    let x = if root.last() == '/' {
        root
    } else {
        root + seq!['/']
    };
    if root.last() != '/' {
        lemma_trailing_slash(root);
    }
    assert(components(x) == components(root));
    assert(has_root(x));
    assert(x.last() == '/');
    let c = join_path(root, q);
    assert(c =~= x + q);
    let cs = components(c);
    let cb = components(root);
    if ns.len() == 0 {
        assert(q == Seq::<char>::empty());
        assert(c =~= x);
        assert(cs.take(cb.len() as int) =~= cb);
    } else {
        lemma_split_after_slash(x, ns);
        lemma_split_len(x.drop_last(), '/');
        let tx = tokens(x);
        assert(tx == split_on(x.drop_last(), '/').push(Seq::<char>::empty()));
        let t = tx.drop_last();
        assert(tokens(c) == t + ns);
        lemma_join_starts(ns);
        assert(c[0] == x[0]);
        assert(has_root(c));
        assert(t.len() >= 1);
        lemma_real_positions_append(t, ns, 1);
        assert(tx.drop_last() == t);
        assert(!is_real(tx.last()));
        assert(real_positions(tx, 1) == real_positions(t, 1));
        lemma_real_positions(t, 1);
        let px = positions(x);
        assert(px == real_positions(t, 1));
        assert(positions(c) == px + Seq::new(ns.len(), |i: int| t.len() + i));
        assert(cs.len() >= cb.len());
        assert forall|i: int| 0 <= i < cb.len() implies #[trigger] cs[i] == cb[i] by {
            if i >= 1 {
                let k = px[i - 1];
                assert(positions(c)[i - 1] == k);
                assert(0 <= k < t.len());
                assert(tokens(c)[k] == t[k]);
                assert(tx[k] == t[k]);
                assert(components(x)[i] == cb[i]);
            }
        }
        assert(cs.take(cb.len() as int) =~= cb);
    }
}

} // verus!
