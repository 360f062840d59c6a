//! Unix path strings, taken apart the way `std::path::Path` takes them apart.
//!
//! A path is split at each `/` into tokens. A leading `/` is the root; otherwise a
//! leading `.` token is the current directory. The remaining tokens that are neither
//! empty nor `.` are the path's named components (`..` among them, as the parent
//! directory). Everything here is computed on characters; nothing touches a disk.
use vstd::prelude::*;
use crate::text::chars_eq;


verus! {

/// One component of a path, as `std::path::Component` has it on Unix.
pub enum Component {
    RootDir,
    CurDir,
    ParentDir,
    Normal(Seq<char>),
}

/// The pieces of `s` between the separators `sep` (`str::split`).
pub open spec fn split_on(s: Seq<char>, sep: char) -> Seq<Seq<char>>
    decreases s.len(),
{
    if s.len() == 0 {
        seq![Seq::<char>::empty()]
    } else {
        let t = split_on(s.drop_last(), sep);
        if s.last() == sep {
            t.push(Seq::<char>::empty())
        } else {
            t.update(t.len() - 1, t.last().push(s.last()))
        }
    }
}

/// The tokens of a path: its pieces between `/` separators.
pub open spec fn tokens(s: Seq<char>) -> Seq<Seq<char>> {
    split_on(s, '/')
}

/// Whether the path starts at the root.
pub open spec fn has_root(s: Seq<char>) -> bool {
    s.len() > 0 && s[0] == '/'
}

/// Whether the path starts with the current directory `.`.
pub open spec fn has_cur_dir(s: Seq<char>) -> bool {
    !has_root(s) && tokens(s)[0] == seq!['.']
}

/// The number of tokens taken by the start of the path (root or current directory).
pub open spec fn lead(s: Seq<char>) -> int {
    if has_root(s) || has_cur_dir(s) {
        1
    } else {
        0
    }
}

/// Whether a token names a component (it is neither empty nor `.`).
pub open spec fn is_real(t: Seq<char>) -> bool {
    t.len() > 0 && t != seq!['.']
}

/// The positions `j >= from` of the real tokens of `ts`, in increasing order.
pub open spec fn real_positions(ts: Seq<Seq<char>>, from: int) -> Seq<int>
    decreases ts.len(),
{
    if ts.len() <= from || ts.len() == 0 {
        Seq::<int>::empty()
    } else {
        let p = real_positions(ts.drop_last(), from);
        if is_real(ts.last()) {
            p.push(ts.len() - 1)
        } else {
            p
        }
    }
}

/// The token positions of the named components of a path.
pub open spec fn positions(s: Seq<char>) -> Seq<int> {
    real_positions(tokens(s), lead(s))
}

/// The component that a real token stands for.
pub open spec fn body_part(t: Seq<char>) -> Component {
    if t == seq!['.', '.'] {
        Component::ParentDir
    } else {
        Component::Normal(t)
    }
}

/// The component at the start of a path, if any.
pub open spec fn start_parts(s: Seq<char>) -> Seq<Component> {
    if has_root(s) {
        seq![Component::RootDir]
    } else if has_cur_dir(s) {
        seq![Component::CurDir]
    } else {
        Seq::<Component>::empty()
    }
}

/// The components of a path (`Path::components`).
pub open spec fn components(s: Seq<char>) -> Seq<Component> {
    start_parts(s) + Seq::new(positions(s).len(), |i: int| body_part(tokens(s)[positions(s)[i]]))
}

/// Tokens joined with `/` between them.
pub open spec fn join(ts: Seq<Seq<char>>) -> Seq<char>
    decreases ts.len(),
{
    if ts.len() == 0 {
        Seq::<char>::empty()
    } else if ts.len() == 1 {
        ts[0]
    } else {
        join(ts.drop_last()) + seq!['/'] + ts.last()
    }
}

/// The text of the start of a path: `/`, `.` or nothing.
pub open spec fn start_text(s: Seq<char>) -> Seq<char> {
    if has_root(s) {
        seq!['/']
    } else if has_cur_dir(s) {
        seq!['.']
    } else {
        Seq::<char>::empty()
    }
}

/// Tokens without the leading ones that are empty or `.`.
pub open spec fn trim_lead(ts: Seq<Seq<char>>) -> Seq<Seq<char>>
    decreases ts.len(),
{
    if ts.len() > 0 && !is_real(ts[0]) {
        trim_lead(ts.drop_first())
    } else {
        ts
    }
}

/// Tokens without the trailing ones that are empty or `.`.
pub open spec fn trim_trail(ts: Seq<Seq<char>>) -> Seq<Seq<char>>
    decreases ts.len(),
{
    if ts.len() > 0 && !is_real(ts.last()) {
        trim_trail(ts.drop_last())
    } else {
        ts
    }
}

/// The last component's name (`Path::file_name`): none when the path has no named
/// component or ends in `..`.
pub open spec fn file_name(s: Seq<char>) -> Option<Seq<char>> {
    let p = positions(s);
    if p.len() == 0 {
        None
    } else if tokens(s)[p.last()] == seq!['.', '.'] {
        None
    } else {
        Some(tokens(s)[p.last()])
    }
}

/// The position of the last `.` in `name`, if any.
pub open spec fn last_dot(name: Seq<char>) -> Option<int>
    decreases name.len(),
{
    if name.len() == 0 {
        None
    } else if name.last() == '.' {
        Some(name.len() - 1)
    } else {
        last_dot(name.drop_last())
    }
}

/// The extension of a path (`Path::extension`): what follows the last `.` of the file
/// name, unless that `.` is the name's first character.
pub open spec fn extension(s: Seq<char>) -> Option<Seq<char>> {
    match file_name(s) {
        None => None,
        Some(name) => match last_dot(name) {
            Some(p) => if p > 0 {
                Some(name.skip(p + 1))
            } else {
                None
            },
            None => None,
        },
    }
}

/// The file name without its extension (`Path::file_stem`).
pub open spec fn file_stem(s: Seq<char>) -> Option<Seq<char>> {
    match file_name(s) {
        None => None,
        Some(name) => match last_dot(name) {
            Some(p) => if p > 0 {
                Some(name.take(p))
            } else {
                Some(name)
            },
            None => Some(name),
        },
    }
}

/// Whether `s` equals the lower-case ASCII text `lower` when ASCII letters are compared
/// without regard to case (`str::eq_ignore_ascii_case`).
pub open spec fn eq_ignore_ascii_case(s: Seq<char>, lower: Seq<char>) -> bool {
    s.len() == lower.len() && forall|i: int|
        0 <= i < s.len() ==> (s[i] == lower[i] || ('a' <= lower[i] && lower[i] <= 'z' && (
        #[trigger] s[i]) as u32 + 32 == lower[i] as u32))
}

/// Whether a path's extension is `flac`, in any letter case.
pub open spec fn has_flac_ext(s: Seq<char>) -> bool {
    match extension(s) {
        Some(e) => eq_ignore_ascii_case(e, seq!['f', 'l', 'a', 'c']),
        None => false,
    }
}

/// The tokens that remain of `s` after its first `k` components (`k` at least 1).
pub open spec fn rest_tokens(s: Seq<char>, k: int) -> Seq<Seq<char>> {
    let st = start_parts(s).len() as int;
    if k == st {
        tokens(s).skip(lead(s))
    } else {
        tokens(s).skip(positions(s)[k - st - 1] + 1)
    }
}

/// `s` without trailing separators and `.` components, where `s` keeps its start.
pub open spec fn trim_tail_path(s: Seq<char>) -> Seq<char> {
    let p = positions(s);
    if p.len() > 0 {
        join(tokens(s).take(p.last() + 1))
    } else {
        start_text(s)
    }
}

/// `Path::strip_prefix`: when the components of `base` begin the components of `s`,
/// the rest of `s` after them, without leading or trailing separators and `.`
/// components.
pub open spec fn strip_prefix(s: Seq<char>, base: Seq<char>) -> Option<Seq<char>> {
    let cs = components(s);
    let cb = components(base);
    if !(cb.len() <= cs.len() && cs.take(cb.len() as int) == cb) {
        None
    } else if cb.len() == 0 {
        Some(trim_tail_path(s))
    } else {
        Some(join(trim_trail(trim_lead(rest_tokens(s, cb.len() as int)))))
    }
}

/// `Path::starts_with`: whether the components of `base` begin the components of `s`.
pub open spec fn path_starts_with(s: Seq<char>, base: Seq<char>) -> bool {
    strip_prefix(s, base) is Some
}

/// `Path::parent`: the path without its last component; none when the path has no
/// component or is only the root.
pub open spec fn parent(s: Seq<char>) -> Option<Seq<char>> {
    let p = positions(s);
    if components(s).len() == 0 {
        None
    } else if p.len() == 0 {
        if has_root(s) {
            None
        } else {
            Some(Seq::<char>::empty())
        }
    } else if p.len() >= 2 {
        Some(join(tokens(s).take(p[p.len() - 2] + 1)))
    } else {
        Some(start_text(s))
    }
}

/// `Path::join` (`PathBuf::push`): an absolute `rel` replaces `base`; otherwise `rel`
/// follows `base`, with a `/` between them unless `base` is empty or ends in one.
pub open spec fn join_path(base: Seq<char>, rel: Seq<char>) -> Seq<char> {
    if has_root(rel) {
        rel
    } else if base.len() > 0 && base.last() != '/' {
        base + seq!['/'] + rel
    } else {
        base + rel
    }
}

/// Whether two paths have the same components (`PathBuf`'s `==`).
pub open spec fn same_path(a: Seq<char>, b: Seq<char>) -> bool {
    components(a) == components(b)
}

/// The views of a sequence of character vectors.
pub open spec fn views(v: Seq<Vec<char>>) -> Seq<Seq<char>> {
    Seq::new(v.len(), |i: int| v[i]@)
}

/// The views of an optional string.
pub open spec fn opt_view(o: Option<String>) -> Option<Seq<char>> {
    match o {
        Some(x) => Some(x@),
        None => None,
    }
}

/// Positions as integers.
pub open spec fn ints(v: Seq<usize>) -> Seq<int> {
    Seq::new(v.len(), |i: int| v[i] as int)
}

pub proof fn lemma_split_len(s: Seq<char>, sep: char)
    ensures
        split_on(s, sep).len() >= 1,
    decreases s.len(),
{
    if s.len() > 0 {
        lemma_split_len(s.drop_last(), sep);
    }
}

/// Whether `sep` does not occur in `t`.
pub open spec fn free_of(t: Seq<char>, sep: char) -> bool {
    forall|j: int| 0 <= j < t.len() ==> #[trigger] t[j] != sep
}

/// No piece of a split holds the separator.
pub proof fn lemma_split_pieces_free(s: Seq<char>, sep: char)
    ensures
        forall|i: int| 0 <= i < split_on(s, sep).len() ==> free_of(#[trigger] split_on(s, sep)[i], sep),
    decreases s.len(),
{
    lemma_split_len(s, sep);
    if s.len() > 0 {
        lemma_split_pieces_free(s.drop_last(), sep);
        lemma_split_len(s.drop_last(), sep);
        let t = split_on(s.drop_last(), sep);
        if s.last() != sep {
            assert forall|i: int| 0 <= i < split_on(s, sep).len() implies free_of(
                #[trigger] split_on(s, sep)[i],
                sep,
            ) by {
                if i < t.len() - 1 {
                    assert(split_on(s, sep)[i] == t[i]);
                } else {
                    assert(free_of(t[t.len() - 1], sep));
                    assert(split_on(s, sep)[i] == t.last().push(s.last()));
                }
            }
        } else {
            assert forall|i: int| 0 <= i < split_on(s, sep).len() implies free_of(
                #[trigger] split_on(s, sep)[i],
                sep,
            ) by {
                if i < t.len() {
                    assert(split_on(s, sep)[i] == t[i]);
                }
            }
        }
    }
}

/// Appending text without the separator extends the last piece of a split.
pub proof fn lemma_split_append(x: Seq<char>, b: Seq<char>, sep: char)
    requires
        free_of(b, sep),
    ensures
        split_on(x + b, sep) == split_on(x, sep).update(
            split_on(x, sep).len() - 1,
            split_on(x, sep).last() + b,
        ),
    decreases b.len(),
{
    lemma_split_len(x, sep);
    if b.len() == 0 {
        assert(x + b =~= x);
        assert(split_on(x, sep).last() + b =~= split_on(x, sep).last());
        assert(split_on(x, sep).update(split_on(x, sep).len() - 1, split_on(x, sep).last())
            =~= split_on(x, sep));
    } else {
        let b2 = b.drop_last();
        assert(free_of(b2, sep)) by {
            assert forall|j: int| 0 <= j < b2.len() implies #[trigger] b2[j] != sep by {
                assert(b2[j] == b[j]);
            }
        }
        lemma_split_append(x, b2, sep);
        assert((x + b).drop_last() =~= x + b2);
        assert((x + b).last() == b.last());
        assert(b[b.len() - 1] != sep);
        lemma_split_len(x + b2, sep);
        let sx = split_on(x, sep);
        let t = split_on(x + b2, sep);
        assert(t.len() == sx.len());
        assert(t.last() == sx.last() + b2);
        assert(split_on(x + b, sep) == t.update(t.len() - 1, t.last().push(b.last())));
        assert((sx.last() + b2).push(b.last()) =~= sx.last() + b);
        assert(split_on(x + b, sep) =~= split_on(x, sep).update(
            split_on(x, sep).len() - 1,
            split_on(x, sep).last() + b,
        ));
    }
}

/// Joining pieces without the separator and splitting the result again gives the
/// pieces back.
pub proof fn lemma_split_join(ts: Seq<Seq<char>>)
    requires
        ts.len() >= 1,
        forall|i: int| 0 <= i < ts.len() ==> free_of(#[trigger] ts[i], '/'),
    ensures
        split_on(join(ts), '/') == ts,
    decreases ts.len(),
{
    if ts.len() == 1 {
        lemma_split_append(Seq::<char>::empty(), ts[0], '/');
        assert(Seq::<char>::empty() + ts[0] =~= ts[0]);
        assert(split_on(Seq::<char>::empty(), '/') == seq![Seq::<char>::empty()]);
        assert(Seq::<char>::empty() + ts[0] =~= ts[0]);
        assert(split_on(join(ts), '/') =~= ts);
    } else {
        let a = join(ts.drop_last());
        lemma_split_join(ts.drop_last());
        let x = a + seq!['/'];
        assert(x.drop_last() =~= a);
        assert(x.last() == '/');
        assert(split_on(x, '/') == split_on(a, '/').push(Seq::<char>::empty()));
        lemma_split_append(x, ts.last(), '/');
        assert(join(ts) == x + ts.last());
        assert(Seq::<char>::empty() + ts.last() =~= ts.last());
        assert(split_on(join(ts), '/') =~= ts.drop_last().push(ts.last()));
        assert(ts.drop_last().push(ts.last()) =~= ts);
    }
}

/// A join begins with its first piece.
pub proof fn lemma_join_starts(ts: Seq<Seq<char>>)
    requires
        ts.len() >= 1,
    ensures
        join(ts).len() >= ts[0].len(),
        forall|k: int| 0 <= k < ts[0].len() ==> #[trigger] join(ts)[k] == ts[0][k],
    decreases ts.len(),
{
    if ts.len() > 1 {
        lemma_join_starts(ts.drop_last());
        assert(ts.drop_last()[0] == ts[0]);
    }
}

/// When every token is real, every token is a component.
pub proof fn lemma_all_real_positions(ts: Seq<Seq<char>>)
    requires
        forall|i: int| 0 <= i < ts.len() ==> is_real(#[trigger] ts[i]),
    ensures
        real_positions(ts, 0) == Seq::new(ts.len(), |i: int| i),
    decreases ts.len(),
{
    if ts.len() > 0 {
        lemma_all_real_positions(ts.drop_last());
        assert(is_real(ts[ts.len() - 1]));
        assert(real_positions(ts, 0) =~= Seq::new(ts.len(), |i: int| i));
    }
}

/// Splitting text that ends in `/` followed by joined names gives the pieces of the
/// text, without the empty one after its last `/`, followed by the names.
pub proof fn lemma_split_after_slash(x: Seq<char>, ns: Seq<Seq<char>>)
    requires
        x.len() > 0,
        x.last() == '/',
        ns.len() >= 1,
        forall|i: int| 0 <= i < ns.len() ==> free_of(#[trigger] ns[i], '/'),
    ensures
        split_on(x + join(ns), '/') == split_on(x, '/').drop_last() + ns,
    decreases ns.len(),
{
    lemma_split_len(x, '/');
    assert(split_on(x, '/') == split_on(x.drop_last(), '/').push(Seq::<char>::empty()));
    if ns.len() == 1 {
        lemma_split_append(x, ns[0], '/');
        assert(join(ns) == ns[0]);
        assert(Seq::<char>::empty() + ns[0] =~= ns[0]);
        assert(split_on(x + join(ns), '/') =~= split_on(x, '/').drop_last() + ns);
    } else {
        let init = ns.drop_last();
        lemma_split_after_slash(x, init);
        let y = x + join(init) + seq!['/'];
        assert(y.drop_last() =~= x + join(init));
        assert(y.last() == '/');
        assert(split_on(y, '/') == split_on(x + join(init), '/').push(Seq::<char>::empty()));
        lemma_split_append(y, ns.last(), '/');
        assert(x + join(ns) =~= y + ns.last());
        assert(Seq::<char>::empty() + ns.last() =~= ns.last());
        assert(split_on(x + join(ns), '/') =~= (split_on(x, '/').drop_last() + init).push(ns.last()));
        assert((split_on(x, '/').drop_last() + init).push(ns.last()) =~= split_on(x, '/').drop_last()
            + ns);
    }
}

/// Real tokens added at the end of a token list are components at their positions.
pub proof fn lemma_real_positions_append(ts: Seq<Seq<char>>, ns: Seq<Seq<char>>, from: int)
    requires
        0 <= from <= ts.len(),
        forall|i: int| 0 <= i < ns.len() ==> is_real(#[trigger] ns[i]),
    ensures
        real_positions(ts + ns, from) == real_positions(ts, from) + Seq::new(
            ns.len(),
            |i: int| ts.len() + i,
        ),
    decreases ns.len(),
{
    if ns.len() == 0 {
        assert(ts + ns =~= ts);
        assert(real_positions(ts, from) + Seq::new(ns.len(), |i: int| ts.len() + i) =~= real_positions(
            ts,
            from,
        ));
    } else {
        let init = ns.drop_last();
        lemma_real_positions_append(ts, init, from);
        assert((ts + ns).drop_last() =~= ts + init);
        assert((ts + ns).last() == ns.last());
        assert(is_real(ns[ns.len() - 1]));
        assert(real_positions(ts + ns, from) =~= real_positions(ts, from) + Seq::new(
            ns.len(),
            |i: int| ts.len() + i,
        ));
    }
}

/// A plain name joined to any directory is the file name of the result.
pub proof fn lemma_file_name_of_join(dir: Seq<char>, n: Seq<char>)
    requires
        free_of(n, '/'),
        is_real(n),
        n != seq!['.', '.'],
    ensures
        file_name(join_path(dir, n)) == Some(n),
{
    let c = join_path(dir, n);
    assert(!has_root(n)) by {
        assert(n[0] != '/');
    }
    if dir.len() == 0 {
        assert(c =~= n);
        lemma_split_join(seq![n]);
        assert(join(seq![n]) == n);
        assert(tokens(c) == seq![n]);
        assert(!has_root(c));
        assert(!has_cur_dir(c));
        assert(lead(c) == 0);
    } else {
        let x = if dir.last() == '/' {
            dir
        } else {
            dir + seq!['/']
        };
        assert(c =~= x + n);
        assert(x.len() > 0 && x.last() == '/');
        assert(join(seq![n]) == n);
        assert(forall|i: int| 0 <= i < 1 ==> free_of(#[trigger] seq![n][i], '/'));
        lemma_split_after_slash(x, seq![n]);
        assert(x + join(seq![n]) == c);
        assert(x.drop_last() + seq!['/'] =~= x);
        lemma_split_len(x.drop_last(), '/');
        assert(split_on(x, '/') == split_on(x.drop_last(), '/').push(Seq::<char>::empty()));
        assert(tokens(c) == split_on(x, '/').drop_last() + seq![n]);
        assert(tokens(c).len() >= 2);
        assert(lead(c) <= 1);
    }
    let ts = tokens(c);
    assert(ts.last() == n);
    assert(ts.len() > lead(c));
    assert(real_positions(ts, lead(c)) == real_positions(ts.drop_last(), lead(c)).push(ts.len() - 1));
}

/// The pieces of `v` between the separators `sep`.
pub fn split_chars(v: &Vec<char>, sep: char) -> (r: Vec<Vec<char>>)
    ensures
        views(r@) == split_on(v@, sep),
{
    let mut done: Vec<Vec<char>> = Vec::new();
    let mut cur: Vec<char> = Vec::new();
    let mut i: usize = 0;
    assert(v@.take(0) =~= Seq::<char>::empty());
    assert(views(done@).push(cur@) =~= split_on(v@.take(0), sep));
    while i < v.len()
        invariant
            i <= v.len(),
            views(done@).push(cur@) == split_on(v@.take(i as int), sep),
        decreases v.len() - i,
    {
        let c = v[i];
        let ghost prev = v@.take(i as int);
        assert(v@.take(i + 1).drop_last() =~= prev);
        assert(v@.take(i + 1).last() == c);
        proof {
            lemma_split_len(prev, sep);
        }
        if c == sep {
            let ghost old_done = views(done@);
            let ghost old_cur = cur@;
            done.push(cur);
            cur = Vec::new();
            assert(views(done@) =~= old_done.push(old_cur));
            assert(views(done@).push(cur@) =~= split_on(v@.take(i + 1), sep));
        } else {
            let ghost old_done = views(done@);
            cur.push(c);
            assert(views(done@) =~= old_done);
            assert(views(done@).push(cur@) =~= split_on(v@.take(i + 1), sep));
        }
        i = i + 1;
    }
    let ghost old_done = views(done@);
    let ghost last = cur@;
    done.push(cur);
    assert(views(done@) =~= old_done.push(last));
    assert(v@.take(v.len() as int) =~= v@);
    done
}

/// Whether a token names a component.
pub fn is_real_token(t: &Vec<char>) -> (r: bool)
    ensures
        r == is_real(t@),
{
    if t.len() == 0 {
        return false;
    }
    if t.len() == 1 && t[0] == '.' {
        assert(t@ =~= seq!['.']);
        return false;
    }
    assert(t@ != seq!['.']) by {
        if t@ == seq!['.'] {
            assert(t@.len() == 1 && t@[0] == '.');
        }
    }
    true
}

/// Whether a token is `..`.
pub fn is_parent_token(t: &Vec<char>) -> (r: bool)
    ensures
        r == (t@ == seq!['.', '.']),
{
    if t.len() == 2 && t[0] == '.' && t[1] == '.' {
        assert(t@ =~= seq!['.', '.']);
        true
    } else {
        assert(t@ != seq!['.', '.']) by {
            if t@ == seq!['.', '.'] {
                assert(t@.len() == 2 && t@[0] == '.' && t@[1] == '.');
            }
        }
        false
    }
}

/// A path taken apart: its tokens, how it starts, and where its named components are.
pub struct PathLayout {
    pub tokens: Vec<Vec<char>>,
    pub root: bool,
    pub cur: bool,
    pub positions: Vec<usize>,
}

impl PathLayout {
    /// Whether this is the layout of the path `s`.
    pub open spec fn describes(&self, s: Seq<char>) -> bool {
        &&& views(self.tokens@) == tokens(s)
        &&& self.root == has_root(s)
        &&& self.cur == has_cur_dir(s)
        &&& ints(self.positions@) == positions(s)
        &&& self.tokens@.len() >= 1
    }
}

/// Facts about the positions of real tokens.
pub proof fn lemma_real_positions(ts: Seq<Seq<char>>, from: int)
    requires
        0 <= from,
    ensures
        forall|i: int|
            0 <= i < real_positions(ts, from).len() ==> from <= #[trigger] real_positions(
                ts,
                from,
            )[i] < ts.len() && is_real(ts[real_positions(ts, from)[i]]),
        forall|i: int, j: int|
            0 <= i < j < real_positions(ts, from).len() ==> #[trigger] real_positions(ts, from)[i]
                < #[trigger] real_positions(ts, from)[j],
        forall|k: int|
            from <= k < ts.len() && is_real(#[trigger] ts[k]) ==> real_positions(
                ts,
                from,
            ).contains(k),
    decreases ts.len(),
{
    if ts.len() <= from || ts.len() == 0 {
    } else {
        lemma_real_positions(ts.drop_last(), from);
        let p = real_positions(ts.drop_last(), from);
        assert forall|k: int| from <= k < ts.len() && is_real(#[trigger] ts[k]) implies real_positions(
            ts,
            from,
        ).contains(k) by {
            if k < ts.len() - 1 {
                assert(ts.drop_last()[k] == ts[k]);
                let w = choose|w: int| 0 <= w < p.len() && p[w] == k;
                if is_real(ts.last()) {
                    assert(real_positions(ts, from)[w] == k);
                } else {
                    assert(real_positions(ts, from)[w] == k);
                }
            } else {
                assert(real_positions(ts, from).last() == k);
            }
        }
    }
}

/// Takes a path apart.
pub fn layout_of(v: &Vec<char>) -> (r: PathLayout)
    ensures
        r.describes(v@),
{
    let toks = split_chars(v, '/');
    proof {
        lemma_split_len(v@, '/');
    }
    let root = v.len() > 0 && v[0] == '/';
    let cur = !root && toks[0].len() == 1 && toks[0][0] == '.';
    assert(cur == has_cur_dir(v@)) by {
        assert(views(toks@)[0] == toks@[0]@);
        if toks@[0]@ == seq!['.'] {
            assert(toks@[0]@.len() == 1 && toks@[0]@[0] == '.');
        }
        if toks@[0]@.len() == 1 && toks@[0]@[0] == '.' {
            assert(toks@[0]@ =~= seq!['.']);
        }
    }
    let start: usize = if root || cur {
        1
    } else {
        0
    };
    let ghost ts = views(toks@);
    let mut pos: Vec<usize> = Vec::new();
    let mut j: usize = start;
    assert(ints(pos@) =~= real_positions(ts.take(start as int), start as int));
    while j < toks.len()
        invariant
            start <= j <= toks.len(),
            start <= 1,
            ts == views(toks@),
            ints(pos@) == real_positions(ts.take(j as int), start as int),
        decreases toks.len() - j,
    {
        assert(ts.take(j + 1).drop_last() =~= ts.take(j as int));
        assert(ts.take(j + 1).last() == toks@[j as int]@);
        let ghost old_pos = ints(pos@);
        if is_real_token(&toks[j]) {
            pos.push(j);
            assert(ints(pos@) =~= old_pos.push(j as int));
        } else {
            assert(ints(pos@) =~= old_pos);
        }
        j = j + 1;
    }
    assert(ts.take(toks.len() as int) =~= ts);
    PathLayout { tokens: toks, root, cur, positions: pos }
}

/// Appends the characters of `t` to `r`.
pub fn extend_chars(r: &mut Vec<char>, t: &Vec<char>)
    ensures
        final(r)@ == old(r)@ + t@,
{
    let mut i: usize = 0;
    while i < t.len()
        invariant
            i <= t.len(),
            r@ == old(r)@ + t@.take(i as int),
        decreases t.len() - i,
    {
        r.push(t[i]);
        assert(t@.take(i + 1) =~= t@.take(i as int).push(t@[i as int]));
        assert(old(r)@ + t@.take(i + 1) =~= (old(r)@ + t@.take(i as int)).push(t@[i as int]));
        i = i + 1;
    }
    assert(t@.take(t.len() as int) =~= t@);
}

/// The tokens `a..b` of `ts` joined with `/`.
pub fn join_range(ts: &Vec<Vec<char>>, a: usize, b: usize) -> (r: Vec<char>)
    requires
        a <= b <= ts.len(),
    ensures
        r@ == join(views(ts@).subrange(a as int, b as int)),
{
    let ghost vs = views(ts@);
    let mut r: Vec<char> = Vec::new();
    if a == b {
        assert(vs.subrange(a as int, b as int) =~= Seq::<Seq<char>>::empty());
        return r;
    }
    extend_chars(&mut r, &ts[a]);
    assert(vs.subrange(a as int, a + 1) =~= seq![ts@[a as int]@]);
    let mut i: usize = a + 1;
    while i < b
        invariant
            a < i <= b <= ts.len(),
            vs == views(ts@),
            r@ == join(vs.subrange(a as int, i as int)),
        decreases b - i,
    {
        assert(vs.subrange(a as int, i + 1).drop_last() =~= vs.subrange(a as int, i as int));
        assert(vs.subrange(a as int, i + 1).last() == ts@[i as int]@);
        r.push('/');
        extend_chars(&mut r, &ts[i]);
        i = i + 1;
    }
    r
}

proof fn lemma_trim_lead_skip(x: Seq<Seq<char>>, k: int)
    requires
        0 <= k <= x.len(),
        forall|j: int| 0 <= j < k ==> !is_real(#[trigger] x[j]),
        k == x.len() || is_real(x[k]),
    ensures
        trim_lead(x) == x.skip(k),
    decreases k,
{
    if k > 0 {
        assert forall|j: int| 0 <= j < k - 1 implies !is_real(#[trigger] x.drop_first()[j]) by {
            assert(x.drop_first()[j] == x[j + 1]);
        }
        assert(k - 1 == x.drop_first().len() || is_real(x.drop_first()[k - 1]));
        lemma_trim_lead_skip(x.drop_first(), k - 1);
        assert(x.drop_first().skip(k - 1) =~= x.skip(k));
    } else {
        assert(x.skip(0) =~= x);
    }
}

proof fn lemma_trim_trail_take(x: Seq<Seq<char>>, k: int)
    requires
        0 <= k <= x.len(),
        forall|j: int| k <= j < x.len() ==> !is_real(#[trigger] x[j]),
        k == 0 || is_real(x[k - 1]),
    ensures
        trim_trail(x) == x.take(k),
    decreases x.len() - k,
{
    if k < x.len() {
        assert forall|j: int| k <= j < x.len() - 1 implies !is_real(#[trigger] x.drop_last()[j]) by {
            assert(x.drop_last()[j] == x[j]);
        }
        lemma_trim_trail_take(x.drop_last(), k);
        assert(x.drop_last().take(k) =~= x.take(k));
    } else {
        assert(x.take(k) =~= x);
    }
}

/// The tokens `a..b` of `ts` without leading and trailing empty or `.` tokens, joined
/// with `/`.
pub fn join_trimmed(ts: &Vec<Vec<char>>, a: usize, b: usize) -> (r: Vec<char>)
    requires
        a <= b <= ts.len(),
    ensures
        r@ == join(trim_trail(trim_lead(views(ts@).subrange(a as int, b as int)))),
{
    let ghost x = views(ts@).subrange(a as int, b as int);
    let mut lo: usize = a;
    while lo < b && !is_real_token(&ts[lo])
        invariant
            a <= lo <= b <= ts.len(),
            x == views(ts@).subrange(a as int, b as int),
            forall|j: int| 0 <= j < lo - a ==> !is_real(#[trigger] x[j]),
        decreases b - lo,
    {
        assert(x[lo - a] == ts@[lo as int]@);
        lo = lo + 1;
    }
    proof {
        if lo < b {
            assert(x[lo - a] == ts@[lo as int]@);
        }
        lemma_trim_lead_skip(x, lo - a);
    }
    let ghost y = x.skip(lo - a);
    assert(y =~= views(ts@).subrange(lo as int, b as int));
    let mut hi: usize = b;
    while hi > lo && !is_real_token(&ts[hi - 1])
        invariant
            lo <= hi <= b <= ts.len(),
            y == views(ts@).subrange(lo as int, b as int),
            forall|j: int| hi - lo <= j < y.len() ==> !is_real(#[trigger] y[j]),
        decreases hi,
    {
        assert(y[hi - 1 - lo] == ts@[hi - 1]@);
        hi = hi - 1;
    }
    proof {
        if hi > lo {
            assert(y[hi - 1 - lo] == ts@[hi - 1]@);
        }
        lemma_trim_trail_take(y, hi - lo);
        assert(y.take(hi - lo) =~= views(ts@).subrange(lo as int, hi as int));
    }
    join_range(ts, lo, hi)
}

/// The position of the last `.` in `name`.
pub fn last_dot_exec(name: &Vec<char>) -> (r: Option<usize>)
    ensures
        match r {
            Some(p) => last_dot(name@) == Some(p as int) && p < name@.len(),
            None => last_dot(name@) is None,
        },
{
    let mut j: usize = name.len();
    assert(name@.take(j as int) =~= name@);
    while j > 0
        invariant
            j <= name.len(),
            last_dot(name@) == last_dot(name@.take(j as int)),
        decreases j,
    {
        assert(name@.take(j as int).drop_last() =~= name@.take(j - 1));
        assert(name@.take(j as int).last() == name@[j - 1]);
        if name[j - 1] == '.' {
            return Some(j - 1);
        }
        j = j - 1;
    }
    None
}

/// The file name of a path (`Path::file_name`).
pub fn file_name_of(v: &Vec<char>) -> (r: Option<Vec<char>>)
    ensures
        match r {
            Some(n) => file_name(v@) == Some(n@),
            None => file_name(v@) is None,
        },
{
    let lay = layout_of(v);
    if lay.positions.len() == 0 {
        return None;
    }
    let p = lay.positions[lay.positions.len() - 1];
    proof {
        lemma_real_positions(tokens(v@), lead(v@));
        assert(positions(v@)[positions(v@).len() - 1] == p as int);
    }
    assert(views(lay.tokens@)[p as int] == lay.tokens@[p as int]@);
    if is_parent_token(&lay.tokens[p]) {
        None
    } else {
        let mut n: Vec<char> = Vec::new();
        extend_chars(&mut n, &lay.tokens[p]);
        Some(n)
    }
}

/// The extension of a path (`Path::extension`).
pub fn extension_of(v: &Vec<char>) -> (r: Option<Vec<char>>)
    ensures
        match r {
            Some(e) => extension(v@) == Some(e@),
            None => extension(v@) is None,
        },
{
    match file_name_of(v) {
        None => None,
        Some(name) => match last_dot_exec(&name) {
            Some(p) => {
                if p > 0 {
                    assert(p < name@.len());
                    let e = crate::text::slice_chars(&name, p + 1, name.len());
                    assert(e@ =~= name@.skip(p + 1));
                    Some(e)
                } else {
                    None
                }
            },
            None => None,
        },
    }
}

/// The file name without its extension (`Path::file_stem`).
pub fn file_stem_of(v: &Vec<char>) -> (r: Option<Vec<char>>)
    ensures
        match r {
            Some(e) => file_stem(v@) == Some(e@),
            None => file_stem(v@) is None,
        },
{
    match file_name_of(v) {
        None => None,
        Some(name) => match last_dot_exec(&name) {
            Some(p) => {
                if p > 0 {
                    let e = crate::text::slice_chars(&name, 0, p);
                    assert(e@ =~= name@.take(p as int));
                    Some(e)
                } else {
                    Some(name)
                }
            },
            None => Some(name),
        },
    }
}

/// `str::eq_ignore_ascii_case` against a lower-case ASCII text.
pub fn eq_ignore_ascii_case_exec(s: &Vec<char>, lower: &Vec<char>) -> (r: bool)
    ensures
        r == eq_ignore_ascii_case(s@, lower@),
{
    if s.len() != lower.len() {
        return false;
    }
    let mut i: usize = 0;
    while i < s.len()
        invariant
            s.len() == lower.len(),
            i <= s.len(),
            forall|j: int|
                0 <= j < i ==> (s@[j] == lower@[j] || ('a' <= lower@[j] && lower@[j] <= 'z' && (
                #[trigger] s@[j]) as u32 + 32 == lower@[j] as u32)),
        decreases s.len() - i,
    {
        let c = s[i];
        let l = lower[i];
        if !(c == l || ('a' <= l && l <= 'z' && (c as u32) == (l as u32) - 32)) {
            return false;
        }
        i = i + 1;
    }
    true
}

/// Whether a path's extension is `flac` in any letter case.
pub fn has_flac_ext_exec(v: &Vec<char>) -> (r: bool)
    ensures
        r == has_flac_ext(v@),
{
    match extension_of(v) {
        Some(e) => {
            let flac = vec!['f', 'l', 'a', 'c'];
            assert(flac@ =~= seq!['f', 'l', 'a', 'c']);
            eq_ignore_ascii_case_exec(&e, &flac)
        },
        None => false,
    }
}

/// A component written as characters: a tag character that orders the kinds of
/// component as `std::path::Component` orders them, followed by the name of a named one.
pub open spec fn tag(c: Component) -> Seq<char> {
    match c {
        Component::RootDir => seq!['\u{1}'],
        Component::CurDir => seq!['\u{2}'],
        Component::ParentDir => seq!['\u{3}'],
        Component::Normal(n) => seq!['\u{4}'] + n,
    }
}

/// A path's components, each written with `tag`.
pub open spec fn path_key(s: Seq<char>) -> Seq<Seq<char>> {
    components(s).map_values(|c: Component| tag(c))
}

/// The names of the tokens at a path's component positions.
pub open spec fn body_names(s: Seq<char>) -> Seq<Seq<char>> {
    Seq::new(positions(s).len(), |i: int| tokens(s)[positions(s)[i]])
}

/// `Path::to_string_lossy` of a relative path, with `.` read as the empty path and
/// backslashes turned into slashes.
pub open spec fn normalize_relative(p: Seq<char>) -> Seq<char> {
    if p == seq!['.'] {
        Seq::<char>::empty()
    } else {
        crate::text::replace_char(p, '\\', '/')
    }
}

/// Distinct components are written differently.
pub proof fn lemma_tag_injective(a: Component, b: Component)
    ensures
        tag(a) == tag(b) ==> a == b,
{
    if tag(a) == tag(b) {
        assert(tag(a)[0] == tag(b)[0]);
        match a {
            Component::Normal(n) => {
                match b {
                    Component::Normal(m) => {
                        assert(n =~= tag(a).skip(1));
                        assert(m =~= tag(b).skip(1));
                    },
                    _ => {},
                }
            },
            _ => {},
        }
    }
}

/// Comparing the written components is comparing the components.
pub proof fn lemma_path_key_prefix(s: Seq<char>, b: Seq<char>)
    ensures
        (path_key(b).len() <= path_key(s).len() && path_key(s).take(path_key(b).len() as int)
            == path_key(b)) <==> (components(b).len() <= components(s).len() && components(
            s,
        ).take(components(b).len() as int) == components(b)),
        (path_key(s) == path_key(b)) <==> (components(s) == components(b)),
{
    let cs = components(s);
    let cb = components(b);
    let ks = path_key(s);
    let kb = path_key(b);
    if kb.len() <= ks.len() && ks.take(kb.len() as int) == kb {
        assert forall|i: int| 0 <= i < cb.len() implies cs[i] == cb[i] by {
            assert(ks.take(kb.len() as int)[i] == kb[i]);
            lemma_tag_injective(cs[i], cb[i]);
        }
        assert(cs.take(cb.len() as int) =~= cb);
    }
    if cb.len() <= cs.len() && cs.take(cb.len() as int) == cb {
        assert forall|i: int| 0 <= i < kb.len() implies ks[i] == kb[i] by {
            assert(cs.take(cb.len() as int)[i] == cb[i]);
        }
        assert(ks.take(kb.len() as int) =~= kb);
    }
    assert(ks.len() == cs.len());
    assert(kb.len() == cb.len());
    if ks == kb {
        assert forall|i: int| 0 <= i < cb.len() implies cs[i] == cb[i] by {
            assert(ks[i] == tag(cs[i]));
            assert(kb[i] == tag(cb[i]));
            lemma_tag_injective(cs[i], cb[i]);
        }
        assert(cs =~= cb);
    }
}

/// The written components of a path.
pub fn path_keys(lay: &PathLayout, Ghost(s): Ghost<Seq<char>>) -> (r: Vec<Vec<char>>)
    requires
        lay.describes(s),
    ensures
        views(r@) == path_key(s),
{
    proof {
        lemma_real_positions(tokens(s), lead(s));
    }
    let mut r: Vec<Vec<char>> = Vec::new();
    if lay.root {
        let mut k: Vec<char> = Vec::new();
        k.push('\u{1}');
        assert(k@ =~= seq!['\u{1}']);
        r.push(k);
    } else if lay.cur {
        let mut k: Vec<char> = Vec::new();
        k.push('\u{2}');
        assert(k@ =~= seq!['\u{2}']);
        r.push(k);
    }
    let ghost st = start_parts(s).len() as int;
    let ghost cs = components(s);
    proof {
        if st == 1 {
            assert(cs[0] == start_parts(s)[0]);
        }
    }
    assert(views(r@) =~= cs.take(st).map_values(|c: Component| tag(c)));
    let mut i: usize = 0;
    while i < lay.positions.len()
        invariant
            lay.describes(s),
            cs == components(s),
            st == start_parts(s).len(),
            i <= lay.positions.len(),
            views(r@) == cs.take(st + i).map_values(|c: Component| tag(c)),
            forall|j: int|
                0 <= j < positions(s).len() ==> 0 <= #[trigger] positions(s)[j] < tokens(s).len(),
        decreases lay.positions.len() - i,
    {
        let p = lay.positions[i];
        assert(ints(lay.positions@)[i as int] == p as int);
        assert(p < lay.tokens.len());
        let t = &lay.tokens[p];
        assert(views(lay.tokens@)[p as int] == t@);
        let ghost old_r = views(r@);
        assert(tokens(s)[positions(s)[i as int]] == t@);
        assert(cs[st + i] == body_part(tokens(s)[positions(s)[i as int]]));
        if is_parent_token(t) {
            let k: Vec<char> = vec!['\u{3}'];
            assert(k@ =~= tag(cs[st + i]));
            r.push(k);
        } else {
            let mut k: Vec<char> = vec!['\u{4}'];
            extend_chars(&mut k, t);
            assert(k@ =~= tag(cs[st + i]));
            r.push(k);
        }
        assert(views(r@) =~= old_r.push(tag(cs[st + i])));
        assert(cs.take(st + i + 1).map_values(|c: Component| tag(c)) =~= cs.take(st + i).map_values(
            |c: Component| tag(c),
        ).push(tag(cs[st + i])));
        i = i + 1;
    }
    assert(cs.take(st + i) =~= cs);
    r
}

/// `Path::strip_prefix`.
pub fn strip_prefix_exec(s: &Vec<char>, base: &Vec<char>) -> (r: Option<Vec<char>>)
    ensures
        match r {
            Some(x) => strip_prefix(s@, base@) == Some(x@),
            None => strip_prefix(s@, base@) is None,
        },
{
    let ls = layout_of(s);
    let lb = layout_of(base);
    let ks = path_keys(&ls, Ghost(s@));
    let kb = path_keys(&lb, Ghost(base@));
    proof {
        lemma_path_key_prefix(s@, base@);
        lemma_real_positions(tokens(s@), lead(s@));
    }
    if kb.len() > ks.len() {
        return None;
    }
    let mut i: usize = 0;
    while i < kb.len()
        invariant
            kb.len() <= ks.len(),
            views(ks@) == path_key(s@),
            views(kb@) == path_key(base@),
            i <= kb.len(),
            forall|j: int| 0 <= j < i ==> views(ks@)[j] == views(kb@)[j],
        decreases kb.len() - i,
    {
        if !chars_eq(&ks[i], &kb[i]) {
            assert(views(ks@).take(kb.len() as int)[i as int] != views(kb@)[i as int]);
            proof {
                lemma_path_key_prefix(s@, base@);
            }
            return None;
        }
        i = i + 1;
    }
    assert(views(ks@).take(kb.len() as int) =~= views(kb@));
    let k = kb.len();
    let n = ls.tokens.len();
    if k == 0 {
        let np = ls.positions.len();
        if np > 0 {
            let last = ls.positions[np - 1];
            assert(ints(ls.positions@)[np - 1] == last as int);
            let r = join_range(&ls.tokens, 0, last + 1);
            assert(views(ls.tokens@).subrange(0, last + 1) =~= tokens(s@).take(last + 1));
            return Some(r);
        } else if ls.root {
            assert(start_text(s@) =~= seq!['/']);
            return Some(vec!['/']);
        } else if ls.cur {
            assert(start_text(s@) =~= seq!['.']);
            return Some(vec!['.']);
        } else {
            return Some(Vec::new());
        }
    }
    let st: usize = if ls.root || ls.cur {
        1
    } else {
        0
    };
    let a: usize = if k == st {
        st
    } else {
        let p = ls.positions[k - st - 1];
        assert(ints(ls.positions@)[k - st - 1] == p as int);
        p + 1
    };
    assert(rest_tokens(s@, k as int) =~= views(ls.tokens@).subrange(a as int, n as int));
    Some(join_trimmed(&ls.tokens, a, n))
}

/// `Path::starts_with`.
pub fn starts_with_path(s: &Vec<char>, base: &Vec<char>) -> (r: bool)
    ensures
        r == path_starts_with(s@, base@),
{
    strip_prefix_exec(s, base).is_some()
}

/// `Path::parent`.
pub fn parent_exec(s: &Vec<char>) -> (r: Option<Vec<char>>)
    ensures
        match r {
            Some(x) => parent(s@) == Some(x@),
            None => parent(s@) is None,
        },
{
    let ls = layout_of(s);
    proof {
        lemma_real_positions(tokens(s@), lead(s@));
    }
    let np = ls.positions.len();
    if np == 0 {
        if ls.root {
            return None;
        } else if ls.cur {
            return Some(Vec::new());
        } else {
            assert(components(s@) =~= Seq::<Component>::empty());
            return None;
        }
    }
    if np >= 2 {
        let q = ls.positions[np - 2];
        assert(ints(ls.positions@)[np - 2] == q as int);
        assert(positions(s@)[np - 2] == q as int);
        assert(q < ls.tokens.len());
        let r = join_range(&ls.tokens, 0, q + 1);
        assert(views(ls.tokens@).subrange(0, q + 1) =~= tokens(s@).take(q + 1));
        Some(r)
    } else if ls.root {
        assert(start_text(s@) =~= seq!['/']);
        Some(vec!['/'])
    } else if ls.cur {
        assert(start_text(s@) =~= seq!['.']);
        Some(vec!['.'])
    } else {
        Some(Vec::new())
    }
}

/// `PathBuf`'s `==`: whether two paths have the same components.
pub fn same_path_exec(a: &Vec<char>, b: &Vec<char>) -> (r: bool)
    ensures
        r == same_path(a@, b@),
{
    let la = layout_of(a);
    let lb = layout_of(b);
    let ka = path_keys(&la, Ghost(a@));
    let kb = path_keys(&lb, Ghost(b@));
    proof {
        lemma_path_key_prefix(a@, b@);
    }
    if ka.len() != kb.len() {
        return false;
    }
    let mut i: usize = 0;
    while i < ka.len()
        invariant
            ka.len() == kb.len(),
            views(ka@) == path_key(a@),
            views(kb@) == path_key(b@),
            i <= ka.len(),
            forall|j: int| 0 <= j < i ==> views(ka@)[j] == views(kb@)[j],
        decreases ka.len() - i,
    {
        if !chars_eq(&ka[i], &kb[i]) {
            assert(views(ka@)[i as int] != views(kb@)[i as int]);
            proof {
                lemma_path_key_prefix(a@, b@);
            }
            return false;
        }
        i = i + 1;
    }
    assert(views(ka@) =~= views(kb@));
    true
}

/// `Path::join`.
pub fn join_path_exec(base: &Vec<char>, rel: &Vec<char>) -> (r: Vec<char>)
    ensures
        r@ == join_path(base@, rel@),
{
    if rel.len() > 0 && rel[0] == '/' {
        let mut r: Vec<char> = Vec::new();
        extend_chars(&mut r, rel);
        return r;
    }
    let mut r: Vec<char> = Vec::new();
    extend_chars(&mut r, base);
    if base.len() > 0 && base[base.len() - 1] != '/' {
        r.push('/');
    }
    extend_chars(&mut r, rel);
    r
}

/// The names of a path's components joined with `/`.
pub fn join_names(lay: &PathLayout, Ghost(s): Ghost<Seq<char>>) -> (r: Vec<char>)
    requires
        lay.describes(s),
    ensures
        r@ == join(body_names(s)),
{
    proof {
        lemma_real_positions(tokens(s), lead(s));
    }
    let ghost names = body_names(s);
    let mut r: Vec<char> = Vec::new();
    let mut i: usize = 0;
    assert(names.take(0) =~= Seq::<Seq<char>>::empty());
    while i < lay.positions.len()
        invariant
            lay.describes(s),
            names == body_names(s),
            i <= lay.positions.len(),
            r@ == join(names.take(i as int)),
            forall|j: int|
                0 <= j < positions(s).len() ==> 0 <= #[trigger] positions(s)[j] < tokens(s).len(),
        decreases lay.positions.len() - i,
    {
        let p = lay.positions[i];
        assert(ints(lay.positions@)[i as int] == p as int);
        assert(views(lay.tokens@)[p as int] == lay.tokens@[p as int]@);
        assert(names.take(i + 1).drop_last() =~= names.take(i as int));
        assert(names.take(i + 1).last() == lay.tokens@[p as int]@);
        if i > 0 {
            r.push('/');
        } else {
            assert(names.take(1) =~= seq![lay.tokens@[p as int]@]);
        }
        extend_chars(&mut r, &lay.tokens[p]);
        i = i + 1;
    }
    assert(names.take(i as int) =~= names);
    r
}

/// A relative path as text: `.` becomes empty, backslashes become slashes.
pub fn normalize_relative_exec(p: &Vec<char>) -> (r: Vec<char>)
    ensures
        r@ == normalize_relative(p@),
{
    if p.len() == 1 && p[0] == '.' {
        assert(p@ =~= seq!['.']);
        return Vec::new();
    }
    assert(p@ != seq!['.']) by {
        if p@ == seq!['.'] {
            assert(p@.len() == 1 && p@[0] == '.');
        }
    }
    crate::text::replace_char_exec(p, '\\', '/')
}

} // verus!
