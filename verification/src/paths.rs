//! File-system paths as text (`/` separated), with the semantics of the
//! standard library's path handling on Unix: joining, splitting into
//! components, file names and extensions.

use vstd::prelude::*;

use crate::text::{chars_of, push_char, string_from_chars};

verus! {

/// Whether a path is absolute (starts at the root).
pub open spec fn spec_is_absolute(p: Seq<char>) -> bool {
    p.len() > 0 && p[0] == '/'
}

/// `base` joined with the relative path `rel`: a separator is put between
/// them unless `base` is empty or already ends with one.
pub open spec fn spec_join(base: Seq<char>, rel: Seq<char>) -> Seq<char> {
    if base.len() == 0 {
        rel
    } else if base.last() == '/' {
        base + rel
    } else {
        base + seq!['/'] + rel
    }
}

/// Whether `p` is absolute.
pub fn is_absolute(p: &str) -> (b: bool)
    ensures
        b == spec_is_absolute(p@),
{
    let v = chars_of(p);
    v.len() > 0 && v[0] == '/'
}

/// `base` joined with the relative path `rel` (as `PathBuf::push` does it).
pub fn join_path(base: &str, rel: &str) -> (r: String)
    ensures
        r@ == spec_join(base@, rel@),
{
    let v = chars_of(base);
    let mut r = String::from_str(base);
    if v.len() > 0 && v[v.len() - 1] != '/' {
        push_char(&mut r, '/');
    }
    r.append(rel);
    r
}

/// The `/`-separated pieces of a path scanned so far: the completed pieces
/// and the piece being read.
pub open spec fn split_acc(s: Seq<char>) -> (Seq<Seq<char>>, Seq<char>)
    decreases s.len(),
{
    if s.len() == 0 {
        (seq![], seq![])
    } else {
        let (done, cur) = split_acc(s.drop_last());
        if s.last() == '/' {
            (done.push(cur), seq![])
        } else {
            (done, cur.push(s.last()))
        }
    }
}

/// The pieces of `s` between separators (empty pieces included).
pub open spec fn split_pieces(s: Seq<char>) -> Seq<Seq<char>> {
    split_acc(s).0.push(split_acc(s).1)
}

/// Whether a piece is a component: empty pieces and `.` are dropped, except
/// a leading `.` (the current directory).
pub open spec fn keep_piece(p: Seq<char>, first: bool) -> bool {
    p.len() > 0 && (p != seq!['.'] || first)
}

/// The pieces that are components, in order.
pub open spec fn kept(pieces: Seq<Seq<char>>) -> Seq<Seq<char>>
    decreases pieces.len(),
{
    if pieces.len() == 0 {
        seq![]
    } else {
        let r = kept(pieces.drop_last());
        if keep_piece(pieces.last(), pieces.len() == 1) {
            r.push(pieces.last())
        } else {
            r
        }
    }
}

/// The components of a path: `/` for the root of an absolute path, then its
/// non-empty pieces, with `.` pieces dropped except at the start.
pub open spec fn spec_components(s: Seq<char>) -> Seq<Seq<char>> {
    (if spec_is_absolute(s) {
        seq![seq!['/']]
    } else {
        seq![]
    }) + kept(split_pieces(s))
}

/// The character sequences held by a list of character vectors.
pub open spec fn views(v: Seq<Vec<char>>) -> Seq<Seq<char>> {
    v.map_values(|x: Vec<char>| x@)
}

/// Whether two character vectors are equal.
pub fn chars_eq(a: &Vec<char>, b: &Vec<char>) -> (r: bool)
    ensures
        r == (a@ == b@),
{
    if a.len() != b.len() {
        return false;
    }
    let mut i: usize = 0;
    while i < a.len()
        invariant
            a@.len() == b@.len(),
            i <= a@.len(),
            forall|j: int| 0 <= j < i ==> a@[j] == b@[j],
        decreases a@.len() - i,
    {
        if a[i] != b[i] {
            return false;
        }
        i = i + 1;
    }
    assert(a@ == b@);
    true
}

/// Whether two paths are the same path: they have the same components (so
/// repeated and trailing separators and inner `.` pieces do not count).
pub fn same_path(a: &str, b: &str) -> (r: bool)
    ensures
        r == (spec_components(a@) == spec_components(b@)),
{
    let ca = path_components(a);
    let cb = path_components(b);
    if ca.len() != cb.len() {
        assert(views(ca@).len() != views(cb@).len());
        return false;
    }
    let mut i: usize = 0;
    while i < ca.len()
        invariant
            ca@.len() == cb@.len(),
            views(ca@) == spec_components(a@),
            views(cb@) == spec_components(b@),
            i <= ca@.len(),
            forall|j: int| 0 <= j < i ==> ca@[j]@ == cb@[j]@,
        decreases ca@.len() - i,
    {
        if !chars_eq(&ca[i], &cb[i]) {
            assert(views(ca@)[i as int] != views(cb@)[i as int]);
            return false;
        }
        i = i + 1;
    }
    assert(views(ca@) =~= views(cb@));
    true
}

/// Whether a piece is `.`.
fn is_dot(p: &Vec<char>) -> (r: bool)
    ensures
        r == (p@ == seq!['.']),
{
    if p.len() == 1 && p[0] == '.' {
        assert(p@ == seq!['.']);
        true
    } else {
        assert(p@.len() != 1 || p@[0] != seq!['.'][0]);
        false
    }
}

/// The components of path `p`.
pub fn path_components(p: &str) -> (r: Vec<Vec<char>>)
    ensures
        views(r@) == spec_components(p@),
{
    let v = chars_of(p);
    let mut out: Vec<Vec<char>> = Vec::new();
    if v.len() > 0 && v[0] == '/' {
        let mut root: Vec<char> = Vec::new();
        root.push('/');
        out.push(root);
    }
    let ghost prefix = views(out@);
    assert(prefix == (if spec_is_absolute(p@) {
        seq![seq!['/']]
    } else {
        seq![]
    }));
    let ghost mut done: Seq<Seq<char>> = seq![];
    let mut ndone: usize = 0;
    let mut cur: Vec<char> = Vec::new();
    let mut i: usize = 0;
    assert(v@.take(0) == Seq::<char>::empty());
    while i < v.len()
        invariant
            v@ == p@,
            i <= v@.len(),
            split_acc(v@.take(i as int)) == (done, cur@),
            ndone == done.len(),
            ndone <= i,
            views(out@) == prefix + kept(done),
        decreases v@.len() - i,
    {
        let c = v[i];
        assert(v@.take(i + 1).drop_last() == v@.take(i as int));
        assert(v@.take(i + 1).last() == c);
        if c == '/' {
            let keep = cur.len() > 0 && (!is_dot(&cur) || ndone == 0);
            proof {
                assert(done.push(cur@).drop_last() == done);
                assert(keep == keep_piece(cur@, done.push(cur@).len() == 1));
            }
            if keep {
                let ghost before = out@;
                out.push(cur);
                proof {
                    assert(views(out@) == views(before).push(views(out@).last()));
                }
            }
            proof {
                done = done.push(cur@);
            }
            cur = Vec::new();
            ndone = ndone + 1;
        } else {
            cur.push(c);
        }
        i = i + 1;
    }
    assert(v@.take(v@.len() as int) == v@);
    let keep = cur.len() > 0 && (!is_dot(&cur) || ndone == 0);
    proof {
        assert(done.push(cur@).drop_last() == done);
        assert(split_pieces(p@) == done.push(cur@));
    }
    if keep {
        let ghost before = out@;
        out.push(cur);
        proof {
            assert(views(out@) == views(before).push(views(out@).last()));
        }
    }
    out
}

/// `buf` after pushing component `x` onto it: an absolute `x` replaces it,
/// anything else is joined to it.
pub open spec fn spec_push(buf: Seq<char>, x: Seq<char>) -> Seq<char> {
    if spec_is_absolute(x) {
        x
    } else {
        spec_join(buf, x)
    }
}

/// The path built by pushing `parts` one after the other onto an empty path.
pub open spec fn push_all(parts: Seq<Seq<char>>) -> Seq<char>
    decreases parts.len(),
{
    if parts.len() == 0 {
        seq![]
    } else {
        spec_push(push_all(parts.drop_last()), parts.last())
    }
}

/// Length of the longest common prefix of `a` and `b` from position `i` on.
pub open spec fn common_from(a: Seq<Seq<char>>, b: Seq<Seq<char>>, i: nat) -> nat
    decreases a.len() - i,
{
    if i < a.len() && i < b.len() && a[i as int] == b[i as int] {
        common_from(a, b, i + 1)
    } else {
        i
    }
}

/// The parts of the path from `base` to `path`: one `..` per base component
/// past the common prefix, then the rest of `path`.
pub open spec fn relative_parts(pc: Seq<Seq<char>>, bc: Seq<Seq<char>>, common: nat) -> Seq<
    Seq<char>,
> {
    Seq::new((bc.len() - common) as nat, |i: int| seq!['.', '.']) + pc.skip(common as int)
}

/// `path` relative to `base`, compared component by component; none when the
/// two share no leading component.
pub open spec fn spec_pathdiff(path: Seq<char>, base: Seq<char>) -> Option<Seq<char>> {
    let pc = spec_components(path);
    let bc = spec_components(base);
    let common = common_from(pc, bc, 0);
    if common == 0 {
        None
    } else {
        Some(push_all(relative_parts(pc, bc, common)))
    }
}

/// `abs_path` made relative to `base_dir`; kept as it is when it cannot be.
pub open spec fn spec_make_relative(abs_path: Seq<char>, base_dir: Seq<char>) -> Seq<char> {
    if abs_path.len() == 0 {
        seq![]
    } else {
        match spec_pathdiff(abs_path, base_dir) {
            Some(r) => r,
            None => abs_path,
        }
    }
}

/// `rel_path` resolved against `base_dir`; kept as it is when already absolute.
pub open spec fn spec_make_absolute(rel_path: Seq<char>, base_dir: Seq<char>) -> Seq<char> {
    if rel_path.len() == 0 {
        seq![]
    } else if spec_is_absolute(rel_path) {
        rel_path
    } else {
        spec_join(base_dir, rel_path)
    }
}

/// Pushes the parts one after the other onto an empty path.
fn push_parts(parts: &Vec<Vec<char>>) -> (r: String)
    ensures
        r@ == push_all(views(parts@)),
{
    let mut buf = String::new();
    let mut i: usize = 0;
    while i < parts.len()
        invariant
            i <= parts@.len(),
            buf@ == push_all(views(parts@).take(i as int)),
        decreases parts@.len() - i,
    {
        let x = string_from_chars(parts[i].as_slice());
        proof {
            assert(views(parts@).take(i + 1).drop_last() == views(parts@).take(i as int));
            assert(views(parts@).take(i + 1).last() == parts@[i as int]@);
        }
        if parts[i].len() > 0 && parts[i][0] == '/' {
            buf = x;
        } else {
            let b = chars_of(buf.as_str());
            if b.len() > 0 && b[b.len() - 1] != '/' {
                push_char(&mut buf, '/');
            }
            buf.append(x.as_str());
        }
        i = i + 1;
    }
    assert(views(parts@).take(parts@.len() as int) == views(parts@));
    buf
}

/// `path` relative to `base`, compared component by component; `None` when
/// the two share no leading component.
pub fn pathdiff_relative(path: &str, base: &str) -> (r: Option<String>)
    ensures
        match r {
            Some(s) => spec_pathdiff(path@, base@) == Some(s@),
            None => spec_pathdiff(path@, base@) is None,
        },
{
    let pc = path_components(path);
    let bc = path_components(base);
    let mut common: usize = 0;
    while common < pc.len() && common < bc.len() && chars_eq(&pc[common], &bc[common])
        invariant
            common <= pc@.len(),
            common <= bc@.len(),
            common_from(views(pc@), views(bc@), 0) == common_from(
                views(pc@),
                views(bc@),
                common as nat,
            ),
        decreases pc@.len() - common,
    {
        common = common + 1;
    }
    if common == 0 {
        return None;
    }
    let mut parts: Vec<Vec<char>> = Vec::new();
    let ups = bc.len() - common;
    let mut k: usize = 0;
    while k < ups
        invariant
            k <= ups,
            views(parts@) == Seq::new(k as nat, |i: int| seq!['.', '.']),
        decreases ups - k,
    {
        let mut dots: Vec<char> = Vec::new();
        dots.push('.');
        dots.push('.');
        assert(dots@ == seq!['.', '.']);
        let ghost before = parts@;
        parts.push(dots);
        assert(views(parts@) == views(before).push(seq!['.', '.']));
        k = k + 1;
    }
    let ghost head = views(parts@);
    let mut j: usize = common;
    while j < pc.len()
        invariant
            common <= j <= pc@.len(),
            views(parts@) == head + views(pc@).subrange(common as int, j as int),
        decreases pc@.len() - j,
    {
        let ghost before = parts@;
        parts.push(pc[j].clone());
        assert(views(pc@).subrange(common as int, j + 1) == views(pc@).subrange(
            common as int,
            j as int,
        ).push(pc@[j as int]@));
        assert(views(parts@) == views(before).push(pc@[j as int]@));
        j = j + 1;
    }
    assert(views(pc@).subrange(common as int, pc@.len() as int) == views(pc@).skip(common as int));
    Some(push_parts(&parts))
}

/// Makes `abs_path` relative to `base_dir`; returns it unchanged when it
/// cannot be made relative, and the empty path for the empty path.
pub fn make_relative(abs_path: &str, base_dir: &str) -> (r: String)
    ensures
        r@ == spec_make_relative(abs_path@, base_dir@),
{
    if abs_path.unicode_len() == 0 {
        return String::new();
    }
    match pathdiff_relative(abs_path, base_dir) {
        Some(rel) => rel,
        None => String::from_str(abs_path),
    }
}

/// Resolves `rel_path` against `base_dir`; returns it unchanged when it is
/// already absolute, and the empty path for the empty path.
pub fn make_absolute(rel_path: &str, base_dir: &str) -> (r: String)
    ensures
        r@ == spec_make_absolute(rel_path@, base_dir@),
{
    if rel_path.unicode_len() == 0 {
        return String::new();
    }
    if is_absolute(rel_path) {
        return String::from_str(rel_path);
    }
    join_path(base_dir, rel_path)
}

/// The last component of a path when it names a file or directory (not the
/// root, `.` or `..`).
pub open spec fn spec_file_name(s: Seq<char>) -> Option<Seq<char>> {
    let c = spec_components(s);
    if c.len() > 0 && c.last() != seq!['/'] && c.last() != seq!['.'] && c.last() != seq![
        '.',
        '.',
    ] {
        Some(c.last())
    } else {
        None
    }
}

/// Position of the last `.` in `n`, or -1.
pub open spec fn last_dot(n: Seq<char>) -> int
    decreases n.len(),
{
    if n.len() == 0 {
        -1
    } else if n.last() == '.' {
        n.len() - 1
    } else {
        last_dot(n.drop_last())
    }
}

/// The extension of a path: what follows the last `.` of its file name,
/// provided that dot is not the name's first character.
pub open spec fn spec_extension(s: Seq<char>) -> Option<Seq<char>> {
    match spec_file_name(s) {
        Some(n) => if last_dot(n) > 0 {
            Some(n.subrange(last_dot(n) + 1, n.len() as int))
        } else {
            None
        },
        None => None,
    }
}

proof fn lemma_last_dot_bounds(n: Seq<char>)
    ensures
        -1 <= last_dot(n) < n.len(),
    decreases n.len(),
{
    if n.len() > 0 && n.last() != '.' {
        lemma_last_dot_bounds(n.drop_last());
    }
}

/// The file name of path `p`.
pub fn file_name(p: &str) -> (r: Option<Vec<char>>)
    ensures
        match r {
            Some(n) => spec_file_name(p@) == Some(n@),
            None => spec_file_name(p@) is None,
        },
{
    let mut c = path_components(p);
    if c.len() == 0 {
        return None;
    }
    let last = c.pop().unwrap();
    proof {
        assert(views(c@.push(last)).last() == last@);
    }
    let is_special = (last.len() == 1 && (last[0] == '/' || last[0] == '.')) || (last.len() == 2
        && last[0] == '.' && last[1] == '.');
    if is_special {
        assert(last@ == seq!['/'] || last@ == seq!['.'] || last@ == seq!['.', '.']);
        None
    } else {
        assert(last@ != seq!['/'] && last@ != seq!['.'] && last@ != seq!['.', '.']) by {
            if last@ == seq!['/'] || last@ == seq!['.'] {
                assert(last@.len() == 1 && last@[0] == last[0]);
            }
            if last@ == seq!['.', '.'] {
                assert(last@.len() == 2 && last@[0] == '.' && last@[1] == '.');
            }
        }
        Some(last)
    }
}

/// The extension of path `p`.
pub fn extension(p: &str) -> (r: Option<Vec<char>>)
    ensures
        match r {
            Some(e) => spec_extension(p@) == Some(e@),
            None => spec_extension(p@) is None,
        },
{
    let n = match file_name(p) {
        Some(n) => n,
        None => return None,
    };
    let mut i = n.len();
    assert(n@.take(i as int) == n@);
    while i > 0
        invariant
            i <= n@.len(),
            last_dot(n@) == last_dot(n@.take(i as int)),
        ensures
            i <= n@.len(),
            last_dot(n@) == i - 1,
        decreases i,
    {
        assert(n@.take(i as int).last() == n@[i - 1]);
        if n[i - 1] == '.' {
            break;
        }
        assert(n@.take(0).len() == 0);
        assert(n@.take(i as int).drop_last() == n@.take(i - 1));
        i = i - 1;
    }
    proof {
        lemma_last_dot_bounds(n@);
    }
    if i <= 1 {
        return None;
    }
    let mut e: Vec<char> = Vec::new();
    let mut j = i;
    while j < n.len()
        invariant
            i <= j <= n@.len(),
            e@ == n@.subrange(i as int, j as int),
        decreases n@.len() - j,
    {
        e.push(n[j]);
        assert(n@.subrange(i as int, j + 1) == n@.subrange(i as int, j as int).push(n@[j as int]));
        j = j + 1;
    }
    Some(e)
}

/// A name that is a path component as written: not empty, without `/`, and
/// not `.`.
pub open spec fn good_name(s: Seq<char>) -> bool {
    s.len() > 0 && !s.contains('/') && s != seq!['.']
}

/// Whether every name of `segs` is a good name.
pub open spec fn good_names(segs: Seq<Seq<char>>) -> bool {
    forall|i: int| 0 <= i < segs.len() ==> good_name(#[trigger] segs[i])
}

/// Whether every name of `segs` is non-empty and free of `/`.
pub open spec fn plain_names(segs: Seq<Seq<char>>) -> bool {
    forall|i: int| 0 <= i < segs.len() ==> #[trigger] segs[i].len() > 0 && !segs[i].contains('/')
}

/// The names joined by `/`: `n1/n2/.../nk` (empty for no names).
pub open spec fn rel_path(segs: Seq<Seq<char>>) -> Seq<char>
    decreases segs.len(),
{
    if segs.len() == 0 {
        seq![]
    } else if segs.len() == 1 {
        segs[0]
    } else {
        rel_path(segs.drop_last()) + seq!['/'] + segs.last()
    }
}

/// The absolute path of the names: `/n1/n2/.../nk` (the root `/` for none).
pub open spec fn abs_path(segs: Seq<Seq<char>>) -> Seq<char> {
    seq!['/'] + rel_path(segs)
}

proof fn lemma_split_no_slash(s: Seq<char>, t: Seq<char>)
    requires
        !t.contains('/'),
    ensures
        split_acc(s + t) == (split_acc(s).0, split_acc(s).1 + t),
    decreases t.len(),
{
    if t.len() == 0 {
        assert(s + t == s);
        assert(split_acc(s).1 + t == split_acc(s).1);
    } else {
        let t0 = t.drop_last();
        assert(!t0.contains('/')) by {
            if t0.contains('/') {
                let j = choose|j: int| 0 <= j < t0.len() && t0[j] == '/';
                assert(t[j] == '/');
            }
        }
        lemma_split_no_slash(s, t0);
        assert((s + t).drop_last() == s + t0);
        assert((s + t).last() == t.last());
        assert(t.last() != '/') by {
            assert(t[t.len() - 1] == t.last());
        }
        assert((split_acc(s).1 + t0).push(t.last()) == split_acc(s).1 + t);
    }
}

/// Splitting `/a/b/c` at its slashes gives the empty piece before the first
/// slash, the names but the last, and the last name still being read.
pub proof fn lemma_split_rel(segs: Seq<Seq<char>>)
    requires
        segs.len() > 0,
        plain_names(segs),
    ensures
        split_acc(abs_path(segs)) == (seq![seq![]] + segs.drop_last(), segs.last()),
    decreases segs.len(),
{
    let root: Seq<char> = seq!['/'];
    assert(split_acc(root.drop_last()) == (Seq::<Seq<char>>::empty(), Seq::<char>::empty()));
    assert(split_acc(root) == (seq![Seq::<char>::empty()], Seq::<char>::empty()));
    if segs.len() == 1 {
        assert(segs[0].len() > 0);
        assert(abs_path(segs) == root + segs[0]);
        lemma_split_no_slash(root, segs[0]);
        assert(segs.drop_last() == Seq::<Seq<char>>::empty());
        assert(seq![Seq::<char>::empty()] + segs.drop_last() == seq![Seq::<char>::empty()]);
        assert(Seq::<char>::empty() + segs[0] == segs[0]);
    } else {
        let init = segs.drop_last();
        assert(plain_names(init)) by {
            assert forall|i: int| 0 <= i < init.len() implies #[trigger] init[i].len() > 0 && !init[i].contains('/') by {
                assert(init[i] == segs[i]);
            }
        }
        lemma_split_rel(init);
        let a = abs_path(init);
        assert(abs_path(segs) == a.push('/') + segs.last()) by {
            assert(rel_path(segs) == rel_path(init) + seq!['/'] + segs.last());
            assert(seq!['/'] + (rel_path(init) + seq!['/'] + segs.last()) == (seq!['/'] + rel_path(
                init,
            )).push('/') + segs.last());
        }
        assert(a.push('/').drop_last() == a);
        assert(a.push('/').last() == '/');
        assert(split_acc(a.push('/')) == (split_acc(a).0.push(split_acc(a).1), Seq::<char>::empty()));
        assert(segs[segs.len() - 1].len() > 0);
        lemma_split_no_slash(a.push('/'), segs.last());
        assert(Seq::<char>::empty() + segs.last() == segs.last());
        assert((seq![Seq::<char>::empty()] + init.drop_last()).push(init.last()) == seq![
            Seq::<char>::empty(),
        ] + segs.drop_last());
    }
}

proof fn lemma_kept_good(segs: Seq<Seq<char>>)
    requires
        good_names(segs),
    ensures
        kept(seq![seq![]] + segs) == segs,
    decreases segs.len(),
{
    let e: Seq<Seq<char>> = seq![Seq::<char>::empty()];
    if segs.len() == 0 {
        assert(e + segs == e);
        assert(e.drop_last() == Seq::<Seq<char>>::empty());
        assert(kept(Seq::<Seq<char>>::empty()) == Seq::<Seq<char>>::empty());
        assert(!keep_piece(e.last(), true));
        assert(kept(e) == Seq::<Seq<char>>::empty());
    } else {
        let init = segs.drop_last();
        assert(good_names(init)) by {
            assert forall|i: int| 0 <= i < init.len() implies good_name(#[trigger] init[i]) by {
                assert(init[i] == segs[i]);
            }
        }
        lemma_kept_good(init);
        assert((e + segs).drop_last() == e + init);
        assert((e + segs).last() == segs.last());
        assert(good_name(segs[segs.len() - 1]));
        assert(keep_piece(segs.last(), false));
        assert((e + segs).len() != 1);
        assert(kept(e + segs) == kept(e + init).push(segs.last()));
        assert(init.push(segs.last()) == segs);
    }
}

/// The components of the absolute path of good names are the root and the
/// names.
proof fn lemma_components_abs(segs: Seq<Seq<char>>)
    requires
        good_names(segs),
    ensures
        spec_components(abs_path(segs)) == seq![seq!['/']] + segs,
{
    let p = abs_path(segs);
    assert(spec_is_absolute(p));
    if segs.len() == 0 {
        let root: Seq<char> = seq!['/'];
        assert(p == root);
        assert(split_acc(root.drop_last()) == (Seq::<Seq<char>>::empty(), Seq::<char>::empty()));
        assert(split_pieces(p) == seq![Seq::<char>::empty(), Seq::<char>::empty()]);
        let ps = split_pieces(p);
        assert(ps.drop_last() == seq![Seq::<char>::empty()]);
        assert(ps.drop_last().drop_last() == Seq::<Seq<char>>::empty());
        assert(kept(Seq::<Seq<char>>::empty()) == Seq::<Seq<char>>::empty());
        assert(kept(ps.drop_last()) == Seq::<Seq<char>>::empty());
        assert(kept(ps) == Seq::<Seq<char>>::empty());
        assert(seq![seq!['/']] + segs == seq![seq!['/']]);
    } else {
        assert(plain_names(segs)) by {
            assert forall|i: int| 0 <= i < segs.len() implies #[trigger] segs[i].len() > 0 && !segs[i].contains('/') by {
                assert(good_name(segs[i]));
            }
        }
        lemma_split_rel(segs);
        assert(split_pieces(p) == seq![Seq::<char>::empty()] + segs) by {
            assert((seq![Seq::<char>::empty()] + segs.drop_last()).push(segs.last()) == seq![
                Seq::<char>::empty(),
            ] + segs);
        }
        lemma_kept_good(segs);
    }
}

proof fn lemma_common_prefix(a: Seq<Seq<char>>, b: Seq<Seq<char>>, i: nat)
    requires
        b.len() < a.len(),
        a.take(b.len() as int) == b,
        i <= b.len(),
    ensures
        common_from(a, b, i) == b.len(),
    decreases b.len() - i,
{
    if i < b.len() {
        assert(a[i as int] == a.take(b.len() as int)[i as int]);
        lemma_common_prefix(a, b, i + 1);
    }
}

proof fn lemma_push_all_rel(segs: Seq<Seq<char>>)
    requires
        good_names(segs),
    ensures
        push_all(segs) == rel_path(segs),
        segs.len() > 0 ==> rel_path(segs).len() > 0 && rel_path(segs).last() != '/'
            && rel_path(segs)[0] != '/',
    decreases segs.len(),
{
    if segs.len() > 0 {
        let init = segs.drop_last();
        assert(good_names(init)) by {
            assert forall|i: int| 0 <= i < init.len() implies good_name(#[trigger] init[i]) by {
                assert(init[i] == segs[i]);
            }
        }
        lemma_push_all_rel(init);
        let x = segs.last();
        assert(good_name(segs[segs.len() - 1]));
        assert(x[0] != '/') by {
            assert(x.contains(x[0]));
        }
        assert(x.last() != '/') by {
            assert(x.contains(x[x.len() - 1]));
        }
        assert(!spec_is_absolute(x));
        if segs.len() == 1 {
            assert(segs[0] == x);
            assert(push_all(init) == Seq::<char>::empty());
        } else {
            assert(rel_path(segs) == rel_path(init) + seq!['/'] + x);
            assert(init.len() > 0);
            assert(rel_path(init)[0] == rel_path(segs)[0]);
            assert((rel_path(init) + seq!['/'] + x).last() == x.last());
        }
    }
}

proof fn lemma_rel_path_append(a: Seq<Seq<char>>, b: Seq<Seq<char>>)
    requires
        a.len() > 0,
        b.len() > 0,
    ensures
        rel_path(a + b) == rel_path(a) + seq!['/'] + rel_path(b),
    decreases b.len(),
{
    if b.len() == 1 {
        assert((a + b).drop_last() == a);
        assert((a + b).last() == b[0]);
    } else {
        lemma_rel_path_append(a, b.drop_last());
        assert((a + b).drop_last() == a + b.drop_last());
        assert((a + b).last() == b.last());
    }
}

/// A path below the project directory, made relative to it, is the rest of
/// its names joined by `/`; resolved against the directory again, it is the
/// path itself.
pub proof fn lemma_relative_round_trip(base: Seq<Seq<char>>, rest: Seq<Seq<char>>)
    requires
        good_names(base),
        good_names(rest),
        rest.len() > 0,
    ensures
        spec_make_relative(abs_path(base + rest), abs_path(base)) == rel_path(rest),
        spec_make_absolute(spec_make_relative(abs_path(base + rest), abs_path(base)), abs_path(base))
            == abs_path(base + rest),
{
    let all = base + rest;
    assert(good_names(all)) by {
        assert forall|i: int| 0 <= i < all.len() implies good_name(#[trigger] all[i]) by {
            if i < base.len() {
                assert(all[i] == base[i]);
            } else {
                assert(all[i] == rest[i - base.len()]);
            }
        }
    }
    lemma_components_abs(all);
    lemma_components_abs(base);
    let pc = seq![seq!['/']] + all;
    let bc = seq![seq!['/']] + base;
    assert(pc.take(bc.len() as int) == bc);
    lemma_common_prefix(pc, bc, 0);
    assert(relative_parts(pc, bc, bc.len()) == rest) by {
        assert(Seq::new(0, |i: int| seq!['.', '.']) == Seq::<Seq<char>>::empty());
        assert(pc.skip(bc.len() as int) == rest);
    }
    lemma_push_all_rel(rest);
    assert(abs_path(base + rest).len() > 0);
    let rel = rel_path(rest);
    assert(spec_make_relative(abs_path(all), abs_path(base)) == rel);
    assert(!spec_is_absolute(rel));
    if base.len() == 0 {
        assert(abs_path(base) == seq!['/']);
        assert(all == rest);
    } else {
        lemma_rel_path_append(base, rest);
        lemma_push_all_rel(base);
        assert(abs_path(base).last() == rel_path(base).last());
        assert(abs_path(all) == abs_path(base) + seq!['/'] + rel);
    }
}

/// The prefix of a verbatim UNC path, `\\?\UNC\`.
pub open spec fn verbatim_unc_prefix() -> Seq<char> {
    seq!['\\', '\\', '?', '\\', 'U', 'N', 'C', '\\']
}

/// The prefix of a verbatim path, `\\?\`.
pub open spec fn verbatim_prefix() -> Seq<char> {
    seq!['\\', '\\', '?', '\\']
}

/// A canonical path without its verbatim prefix: `\\?\UNC\server\share`
/// becomes `\\server\share`, `\\?\C:\dir` becomes `C:\dir`, and any
/// other path stays as it is.
pub open spec fn spec_strip_verbatim(p: Seq<char>) -> Seq<char> {
    if p.len() >= 8 && p.take(8) == verbatim_unc_prefix() {
        seq!['\\', '\\'] + p.skip(8)
    } else if p.len() >= 4 && p.take(4) == verbatim_prefix() {
        p.skip(4)
    } else {
        p
    }
}

fn starts_with_chars(v: &Vec<char>, prefix: &[char]) -> (b: bool)
    ensures
        b == (v@.len() >= prefix@.len() && v@.take(prefix@.len() as int) == prefix@),
{
    if v.len() < prefix.len() {
        return false;
    }
    let mut i: usize = 0;
    while i < prefix.len()
        invariant
            i <= prefix@.len() <= v@.len(),
            forall|j: int| 0 <= j < i ==> v@[j] == prefix@[j],
        decreases prefix@.len() - i,
    {
        if v[i] != prefix[i] {
            assert(v@.take(prefix@.len() as int)[i as int] != prefix@[i as int]);
            return false;
        }
        i = i + 1;
    }
    assert(v@.take(prefix@.len() as int) =~= prefix@);
    true
}

/// Strips the verbatim prefix that canonicalisation puts on Windows paths.
pub fn strip_verbatim_prefix(canonical: &str) -> (r: String)
    ensures
        r@ == spec_strip_verbatim(canonical@),
{
    let v = chars_of(canonical);
    let unc: [char; 8] = ['\\', '\\', '?', '\\', 'U', 'N', 'C', '\\'];
    let verb: [char; 4] = ['\\', '\\', '?', '\\'];
    assert(unc@ == verbatim_unc_prefix());
    assert(verb@ == verbatim_prefix());
    if starts_with_chars(&v, unc.as_slice()) {
        let mut out: Vec<char> = Vec::new();
        out.push('\\');
        out.push('\\');
        let mut i: usize = 8;
        while i < v.len()
            invariant
                8 <= i <= v@.len(),
                out@ == seq!['\\', '\\'] + v@.subrange(8, i as int),
            decreases v@.len() - i,
        {
            out.push(v[i]);
            assert(v@.subrange(8, i + 1) =~= v@.subrange(8, i as int).push(v@[i as int]));
            i = i + 1;
        }
        assert(v@.subrange(8, v@.len() as int) =~= v@.skip(8));
        string_from_chars(out.as_slice())
    } else if starts_with_chars(&v, verb.as_slice()) {
        let mut out: Vec<char> = Vec::new();
        let mut i: usize = 4;
        while i < v.len()
            invariant
                4 <= i <= v@.len(),
                out@ == v@.subrange(4, i as int),
            decreases v@.len() - i,
        {
            out.push(v[i]);
            assert(v@.subrange(4, i + 1) =~= v@.subrange(4, i as int).push(v@[i as int]));
            i = i + 1;
        }
        assert(v@.subrange(4, v@.len() as int) =~= v@.skip(4));
        string_from_chars(out.as_slice())
    } else {
        String::from_str(canonical)
    }
}

/// Whether `p` is an absolute path in normal form: `/` followed by names
/// joined by single `/`s, none empty or `.`, and no trailing `/`.
pub open spec fn is_normal_absolute(p: Seq<char>) -> bool {
    let names = spec_components(p).drop_first();
    spec_is_absolute(p) && good_names(names) && p == abs_path(names)
}

proof fn lemma_trailing_separator(b: Seq<char>)
    requires
        b.len() > 0,
    ensures
        spec_components(b + seq!['/']) == spec_components(b),
{
    let t = b + seq!['/'];
    assert(t.drop_last() =~= b);
    let (done, cur) = split_acc(b);
    assert(split_acc(t) == (done.push(cur), Seq::<char>::empty()));
    assert(split_pieces(t) == done.push(cur).push(Seq::<char>::empty()));
    assert(split_pieces(t).drop_last() == split_pieces(b));
    assert(!keep_piece(Seq::<char>::empty(), split_pieces(t).len() == 1));
    assert(kept(split_pieces(t)) == kept(split_pieces(b)));
    assert(t[0] == b[0]);
    assert(spec_is_absolute(t) == spec_is_absolute(b));
}

/// The project-path round trip on normal-form paths, with the
/// project directory in normal form or, unless it is the root, in normal form
/// with one trailing `/`: a path below the directory (its components start
/// with all of the directory's, and it is not the directory itself), made
/// relative to the directory and resolved against it again, is the path
/// itself. An empty path stays empty, and an absolute one is resolved as it
/// is.
pub proof fn lemma_make_relative_round_trip(p: Seq<char>, base: Seq<char>, other: Seq<char>)
    requires
        is_normal_absolute(p),
        is_normal_absolute(base) || (base.len() > 2 && base.last() == '/' && is_normal_absolute(
            base.drop_last(),
        )),
        spec_components(p).len() >= spec_components(base).len(),
        spec_components(p).take(spec_components(base).len() as int) == spec_components(base),
        spec_components(p) != spec_components(base),
    ensures
        spec_make_absolute(spec_make_relative(p, base), base) == p,
        spec_make_absolute(seq![], other) == Seq::<char>::empty(),
        spec_is_absolute(p) ==> spec_make_absolute(p, other) == p,
{
    let b0 = if is_normal_absolute(base) {
        base
    } else {
        base.drop_last()
    };
    if !is_normal_absolute(base) {
        assert(base =~= b0 + seq!['/']);
        lemma_trailing_separator(b0);
    }
    assert(spec_components(b0) == spec_components(base));
    let pn = spec_components(p).drop_first();
    let bn = spec_components(b0).drop_first();
    lemma_components_abs(pn);
    lemma_components_abs(bn);
    assert(spec_components(p) == seq![seq!['/']] + pn);
    assert(spec_components(b0) == seq![seq!['/']] + bn);
    assert(pn.len() >= bn.len());
    assert(pn.take(bn.len() as int) =~= bn) by {
        assert forall|i: int| 0 <= i < bn.len() implies pn[i] == bn[i] by {
            assert(spec_components(p)[i + 1] == spec_components(b0)[i + 1]);
        }
    }
    let rest = pn.skip(bn.len() as int);
    assert(pn =~= bn + rest);
    if rest.len() == 0 {
        assert(pn =~= bn);
        assert(false);
    }
    assert(good_names(rest)) by {
        assert forall|i: int| 0 <= i < rest.len() implies good_name(#[trigger] rest[i]) by {
            assert(rest[i] == pn[i + bn.len()]);
        }
    }
    lemma_relative_round_trip(bn, rest);
    assert(spec_pathdiff(p, base) == spec_pathdiff(p, b0));
    assert(spec_make_relative(p, base) == spec_make_relative(p, b0));
    if !is_normal_absolute(base) {
        let r = spec_make_relative(p, base);
        if r.len() > 0 && !spec_is_absolute(r) {
            assert(b0.len() > 1);
            assert(b0.last() != '/') by {
                if bn.len() == 0 {
                    assert(b0 == abs_path(bn));
                    assert(rel_path(bn) =~= Seq::<char>::empty());
                    assert(b0 =~= seq!['/']);
                } else {
                    lemma_abs_path_last(bn);
                }
            }
            assert(spec_join(base, r) =~= spec_join(b0, r));
        }
    }
}

/// A path of at least one good name does not end with `/`.
proof fn lemma_abs_path_last(segs: Seq<Seq<char>>)
    requires
        segs.len() > 0,
        good_names(segs),
    ensures
        abs_path(segs).last() != '/',
{
    let l = segs.last();
    assert(good_name(segs[segs.len() - 1]));
    assert(l.len() > 0);
    assert(l[l.len() - 1] != '/') by {
        if l[l.len() - 1] == '/' {
            assert(l.contains('/'));
        }
    }
    if segs.len() == 1 {
        assert(rel_path(segs) == segs[0]);
        assert(abs_path(segs) =~= seq!['/'] + l);
    } else {
        assert(abs_path(segs) =~= seq!['/'] + (rel_path(segs.drop_last()) + seq!['/']) + l);
    }
    assert(abs_path(segs).last() == l.last());
}

} // verus!
