//! Prim-path handling for selection: normalisation, synthetic instance paths,
//! ancestry, and the layered lookup of a prim's viewport instance.

use vstd::prelude::*;

use crate::text::{chars_of, push_char, string_from_chars};

verus! {

/// Whether `c` is white space (the Unicode `White_Space` property, as
/// `char::is_whitespace` reports it).
pub open spec fn is_ws(c: char) -> bool {
    ('\u{9}' <= c <= '\u{d}') || c == ' ' || c == '\u{85}' || c == '\u{a0}' || c == '\u{1680}'
        || ('\u{2000}' <= c <= '\u{200a}') || c == '\u{2028}' || c == '\u{2029}' || c
        == '\u{202f}' || c == '\u{205f}' || c == '\u{3000}'
}

/// Characters removed by a trim: white space (`slash == false`) or `/`.
pub open spec fn trimmed_char(c: char, slash: bool) -> bool {
    if slash {
        c == '/'
    } else {
        is_ws(c)
    }
}

/// Number of leading characters of `s` removed by the trim.
pub open spec fn lead(s: Seq<char>, slash: bool) -> nat
    decreases s.len(),
{
    if s.len() == 0 || !trimmed_char(s[0], slash) {
        0
    } else {
        1 + lead(s.drop_first(), slash)
    }
}

/// Number of trailing characters of `s` removed by the trim.
pub open spec fn trail(s: Seq<char>, slash: bool) -> nat
    decreases s.len(),
{
    if s.len() == 0 || !trimmed_char(s.last(), slash) {
        0
    } else {
        1 + trail(s.drop_last(), slash)
    }
}

/// `s` with the trimmed characters removed from both ends.
pub open spec fn strip(s: Seq<char>, slash: bool) -> Seq<char> {
    if lead(s, slash) >= s.len() {
        seq![]
    } else {
        s.subrange(lead(s, slash) as int, s.len() - trail(s, slash))
    }
}

/// A prim path with surrounding white space and slashes removed and a single
/// leading `/` put back; `/` when nothing is left.
pub open spec fn spec_normalize_prim_path(path: Seq<char>) -> Seq<char> {
    let t = strip(strip(path, false), true);
    if t.len() == 0 {
        seq!['/']
    } else {
        seq!['/'] + t
    }
}

/// Whether `c` is removed by the trim.
fn is_trimmed(c: char, slash: bool) -> (b: bool)
    ensures
        b == trimmed_char(c, slash),
{
    if slash {
        c == '/'
    } else {
        ('\u{9}' <= c && c <= '\u{d}') || c == ' ' || c == '\u{85}' || c == '\u{a0}' || c
            == '\u{1680}' || ('\u{2000}' <= c && c <= '\u{200a}') || c == '\u{2028}' || c
            == '\u{2029}' || c == '\u{202f}' || c == '\u{205f}' || c == '\u{3000}'
    }
}

/// `s` with the trimmed characters removed from both ends.
fn strip_chars(s: &Vec<char>, slash: bool) -> (r: Vec<char>)
    ensures
        r@ == strip(s@, slash),
{
    let n = s.len();
    let mut a: usize = 0;
    assert(s@.skip(0) == s@);
    while a < n && is_trimmed(s[a], slash)
        invariant
            a <= n,
            n == s@.len(),
            lead(s@, slash) == a + lead(s@.skip(a as int), slash),
        decreases n - a,
    {
        assert(s@.skip(a as int).drop_first() == s@.skip(a + 1));
        a = a + 1;
    }
    assert(a < n ==> s@.skip(a as int)[0] == s@[a as int]);
    if a == n {
        return Vec::new();
    }
    let mut b: usize = n;
    assert(s@.take(n as int) == s@);
    while b > a && is_trimmed(s[b - 1], slash)
        invariant
            a < n,
            a < b <= n,
            n == s@.len(),
            lead(s@, slash) == a,
            trail(s@, slash) == (n - b) + trail(s@.take(b as int), slash),
            !trimmed_char(s@[a as int], slash),
        decreases b,
    {
        assert(s@.take(b as int).drop_last() == s@.take(b - 1));
        assert(s@.take(b as int).last() == s@[b - 1]);
        assert(b - 1 != a);
        b = b - 1;
    }
    assert(b > a);
    assert(s@.take(b as int).last() == s@[b - 1]);
    let mut r: Vec<char> = Vec::new();
    let mut i = a;
    while i < b
        invariant
            a <= i <= b,
            b <= s@.len(),
            r@ == s@.subrange(a as int, i as int),
        decreases b - i,
    {
        r.push(s[i]);
        assert(s@.subrange(a as int, i + 1) == s@.subrange(a as int, i as int).push(s@[i as int]));
        i = i + 1;
    }
    r
}

/// Normalises a prim path: surrounding white space and slashes removed and a
/// single leading `/` put back (`/` when nothing is left).
pub fn normalize_prim_path(path: &str) -> (r: String)
    ensures
        r@ == spec_normalize_prim_path(path@),
{
    let v = chars_of(path);
    let t1 = strip_chars(&v, false);
    let t = strip_chars(&t1, true);
    let mut r = String::new();
    push_char(&mut r, '/');
    if t.len() > 0 {
        let rest = string_from_chars(t.as_slice());
        r.append(rest.as_str());
    }
    assert(r@ == spec_normalize_prim_path(path@));
    r
}

/// The prefix of synthetic instance paths.
pub open spec fn synthetic_prefix() -> Seq<char> {
    seq!['/', 'B', 'I', 'F', '/']
}

/// Value of a sequence of decimal digits.
pub open spec fn digits_value(d: Seq<char>) -> nat
    decreases d.len(),
{
    if d.len() == 0 {
        0
    } else {
        digits_value(d.drop_last()) * 10 + ((d.last() as u32) - 48) as nat
    }
}

/// Whether every character of `d` is an ASCII digit.
pub open spec fn all_digits(d: Seq<char>) -> bool {
    forall|i: int| 0 <= i < d.len() ==> '0' <= #[trigger] d[i] <= '9'
}

/// Whether `s` parses as a `usize`: an optional `+`, then at least one
/// decimal digit, with a value that fits.
pub open spec fn parses_as_usize(s: Seq<char>) -> bool {
    let d = if s.len() > 0 && s[0] == '+' {
        s.drop_first()
    } else {
        s
    };
    d.len() > 0 && all_digits(d) && digits_value(d) <= usize::MAX
}

proof fn lemma_digits_value_grows(d: Seq<char>, k: int)
    requires
        0 <= k <= d.len(),
        all_digits(d),
    ensures
        digits_value(d.take(k)) <= digits_value(d),
    decreases d.len() - k,
{
    if k < d.len() {
        lemma_digits_value_grows(d, k + 1);
        assert(d.take(k + 1).drop_last() == d.take(k));
        assert('0' <= d[k] <= '9');
    }
    assert(d.take(d.len() as int) == d);
}

/// Whether `s` parses as a `usize`.
fn parses_usize(s: &Vec<char>) -> (b: bool)
    ensures
        b == parses_as_usize(s@),
{
    let start: usize = if s.len() > 0 && s[0] == '+' {
        1
    } else {
        0
    };
    let ghost d = if s@.len() > 0 && s@[0] == '+' {
        s@.drop_first()
    } else {
        s@
    };
    assert(d == s@.skip(start as int));
    if start >= s.len() {
        return false;
    }
    let mut value: usize = 0;
    let mut i = start;
    while i < s.len()
        invariant
            start <= i <= s@.len(),
            d == s@.skip(start as int),
            parses_as_usize(s@) == (d.len() > 0 && all_digits(d) && digits_value(d) <= usize::MAX),
            all_digits(d.take(i - start)),
            value as nat == digits_value(d.take(i - start)),
        decreases s@.len() - i,
    {
        let c = s[i];
        assert(d.take(i - start + 1).drop_last() == d.take(i - start));
        assert(d.take(i - start + 1).last() == c);
        if c < '0' || c > '9' {
            assert(d[i - start] == c);
            assert(!all_digits(d));
            return false;
        }
        let digit = ((c as u32) - 48) as usize;
        if value > (usize::MAX - digit) / 10 {
            assert(value * 10 + digit > usize::MAX) by (nonlinear_arith)
                requires
                    value > (usize::MAX - digit) / 10,
                    digit <= 9,
            ;
            proof {
                assert(all_digits(d.take(i - start + 1)));
                if all_digits(d) {
                    lemma_digits_value_grows(d, i - start + 1);
                }
            }
            return false;
        }
        assert(value * 10 + digit <= usize::MAX) by (nonlinear_arith)
            requires
                value <= (usize::MAX - digit) / 10,
                digit <= 9,
        ;
        value = value * 10 + digit;
        i = i + 1;
    }
    assert(d.take(i - start) == d);
    true
}

/// A synthetic instance path `/BIF/<path>/<n>` (or `/BIF/<path>`) turned back
/// into the prim path it stands for; other paths are kept.
pub open spec fn spec_denormalize_synthetic(path: Seq<char>) -> Seq<char> {
    if path.len() >= 5 && path.take(5) == synthetic_prefix() {
        let stripped = path.skip(5);
        let slash = last_slash(stripped);
        if slash >= 0 && parses_as_usize(stripped.skip(slash + 1)) {
            stripped.take(slash)
        } else {
            stripped
        }
    } else {
        path
    }
}

/// Position of the last `/` in `s`, or -1.
pub open spec fn last_slash(s: Seq<char>) -> int
    decreases s.len(),
{
    if s.len() == 0 {
        -1
    } else if s.last() == '/' {
        s.len() - 1
    } else {
        last_slash(s.drop_last())
    }
}

pub(crate) proof fn lemma_last_slash(s: Seq<char>)
    ensures
        -1 <= last_slash(s) < s.len(),
        last_slash(s) >= 0 ==> s[last_slash(s)] == '/',
        forall|j: int| last_slash(s) < j < s.len() ==> s[j] != '/',
    decreases s.len(),
{
    if s.len() > 0 && s.last() != '/' {
        lemma_last_slash(s.drop_last());
        assert forall|j: int| last_slash(s) < j < s.len() implies s[j] != '/' by {
            if j < s.len() - 1 {
                assert(s[j] == s.drop_last()[j]);
            }
        }
    }
}

/// Position of the last `/` in `v`, if any.
pub(crate) fn find_last_slash(v: &Vec<char>) -> (r: Option<usize>)
    ensures
        match r {
            Some(i) => i as int == last_slash(v@),
            None => last_slash(v@) == -1,
        },
{
    let mut i = v.len();
    assert(v@.take(i as int) == v@);
    while i > 0
        invariant
            i <= v@.len(),
            last_slash(v@) == last_slash(v@.take(i as int)),
        decreases i,
    {
        assert(v@.take(i as int).last() == v@[i - 1]);
        if v[i - 1] == '/' {
            return Some(i - 1);
        }
        assert(v@.take(i as int).drop_last() == v@.take(i - 1));
        i = i - 1;
    }
    None
}

/// The characters of `v` from `from` up to `to`.
pub(crate) fn sub_chars(v: &Vec<char>, from: usize, to: usize) -> (r: Vec<char>)
    requires
        from <= to <= v@.len(),
    ensures
        r@ == v@.subrange(from as int, to as int),
{
    let mut r: Vec<char> = Vec::new();
    let mut i = from;
    while i < to
        invariant
            from <= i <= to,
            to <= v@.len(),
            r@ == v@.subrange(from as int, i as int),
        decreases to - i,
    {
        r.push(v[i]);
        assert(v@.subrange(from as int, i + 1) == v@.subrange(from as int, i as int).push(
            v@[i as int],
        ));
        i = i + 1;
    }
    r
}

/// Turns a synthetic instance path back into the prim path it stands for.
pub fn denormalize_synthetic_instance_path(path: &str) -> (r: String)
    ensures
        r@ == spec_denormalize_synthetic(path@),
{
    let v = chars_of(path);
    let is_synthetic = v.len() >= 5 && v[0] == '/' && v[1] == 'B' && v[2] == 'I' && v[3] == 'F'
        && v[4] == '/';
    assert(is_synthetic == (v@.len() >= 5 && v@.take(5) == synthetic_prefix())) by {
        if v@.len() >= 5 && v@.take(5) == synthetic_prefix() {
            assert(v@.take(5)[1] == v@[1]);
            assert(v@.take(5)[2] == v@[2]);
            assert(v@.take(5)[3] == v@[3]);
        }
        if is_synthetic {
            assert(v@.take(5) == synthetic_prefix());
        }
    }
    if !is_synthetic {
        return String::from_str(path);
    }
    let stripped = sub_chars(&v, 5, v.len());
    assert(stripped@ == v@.skip(5));
    let slash = find_last_slash(&stripped);
    proof {
        lemma_last_slash(stripped@);
    }
    if let Some(cut) = slash {
        let suffix = sub_chars(&stripped, cut + 1, stripped.len());
        assert(suffix@ == stripped@.skip(cut + 1));
        if parses_usize(&suffix) {
            let head = sub_chars(&stripped, 0, cut);
            assert(head@ == stripped@.take(cut as int));
            return string_from_chars(head.as_slice());
        }
    }
    string_from_chars(stripped.as_slice())
}

/// The display path of a viewport instance path: its synthetic form undone,
/// then normalised.
pub open spec fn spec_display_path(path: Seq<char>) -> Seq<char> {
    spec_normalize_prim_path(spec_denormalize_synthetic(path))
}

/// Normalised display path of a viewport instance path.
pub fn normalize_instance_display_path(path: &str) -> (r: String)
    ensures
        r@ == spec_display_path(path@),
{
    let d = denormalize_synthetic_instance_path(path);
    normalize_prim_path(d.as_str())
}

/// Whether `path` lies strictly below `ancestor` (which is not the root).
pub open spec fn spec_is_descendant(path: Seq<char>, ancestor: Seq<char>) -> bool {
    ancestor != seq!['/'] && path.len() > ancestor.len() && path.take(ancestor.len() as int)
        == ancestor && path[ancestor.len() as int] == '/'
}

/// Whether `path` lies strictly below `ancestor` (which is not the root).
pub fn path_is_descendant_of(path: &str, ancestor: &str) -> (b: bool)
    ensures
        b == spec_is_descendant(path@, ancestor@),
{
    let p = chars_of(path);
    let a = chars_of(ancestor);
    if a.len() == 1 && a[0] == '/' {
        assert(a@ == seq!['/']);
        return false;
    }
    assert(a@ != seq!['/']) by {
        if a@ == seq!['/'] {
            assert(a@.len() == 1 && a@[0] == '/');
        }
    }
    if p.len() <= a.len() {
        return false;
    }
    let mut i: usize = 0;
    while i < a.len()
        invariant
            i <= a@.len(),
            a@.len() < p@.len(),
            p@ == path@,
            a@ == ancestor@,
            forall|j: int| 0 <= j < i ==> p@[j] == a@[j],
        decreases a@.len() - i,
    {
        if p[i] != a[i] {
            assert(p@.take(a@.len() as int)[i as int] != a@[i as int]);
            return false;
        }
        i = i + 1;
    }
    assert(p@.take(a@.len() as int) == a@);
    p[a.len()] == '/'
}

/// The parent of a normalised prim path; none for the root and top-level prims.
pub open spec fn spec_immediate_parent(path: Seq<char>) -> Option<Seq<char>> {
    let p = spec_normalize_prim_path(path);
    let slash = last_slash(p);
    if slash <= 0 {
        None
    } else {
        Some(p.take(slash))
    }
}

/// The parent of a prim path, after normalisation; `None` for the root and
/// for top-level prims.
pub fn immediate_parent(path: &str) -> (r: Option<String>)
    ensures
        match r {
            Some(s) => spec_immediate_parent(path@) == Some(s@),
            None => spec_immediate_parent(path@) is None,
        },
{
    let n = normalize_prim_path(path);
    let v = chars_of(n.as_str());
    proof {
        lemma_last_slash(v@);
    }
    match find_last_slash(&v) {
        Some(slash) => {
            if slash == 0 {
                None
            } else {
                let head = sub_chars(&v, 0, slash);
                assert(head@ == v@.take(slash as int));
                Some(string_from_chars(head.as_slice()))
            }
        },
        None => None,
    }
}

/// Whether instance path `p` answers `query` at lookup layer `layer`:
/// 0 exact, 1 display path, 2 descendant of the query, 3 parent of the query.
pub open spec fn matches_layer(p: Seq<char>, layer: int, query: Seq<char>) -> bool {
    if layer == 0 {
        spec_normalize_prim_path(p) == query
    } else if layer == 1 {
        spec_display_path(p) == query
    } else if layer == 2 {
        spec_is_descendant(spec_display_path(p), query)
    } else {
        spec_immediate_parent(query) == Some(spec_display_path(p))
    }
}

/// Instance `i` has a transform and its path answers the query at `layer`.
pub open spec fn layer_hit(
    paths: Seq<String>,
    transform_count: nat,
    layer: int,
    query: Seq<char>,
    i: int,
) -> bool {
    0 <= i < paths.len() && i < transform_count && matches_layer(paths[i]@, layer, query)
}

/// Some instance answers the query at `layer`.
pub open spec fn layer_has_hit(
    paths: Seq<String>,
    transform_count: nat,
    layer: int,
    query: Seq<char>,
) -> bool {
    exists|i: int| layer_hit(paths, transform_count, layer, query, i)
}

/// The first instance answering `query` at `layer`.
fn first_hit(paths: &Vec<String>, transform_count: usize, layer: u8, query: &String) -> (r:
    Option<usize>)
    requires
        layer < 4,
    ensures
        match r {
            Some(i) => layer_hit(paths@, transform_count as nat, layer as int, query@, i as int)
                && forall|j: int|
                0 <= j < i ==> !layer_hit(paths@, transform_count as nat, layer as int, query@, j),
            None => !layer_has_hit(paths@, transform_count as nat, layer as int, query@),
        },
{
    let parent = if layer == 3 {
        immediate_parent(query.as_str())
    } else {
        None
    };
    let mut i: usize = 0;
    while i < paths.len()
        invariant
            i <= paths@.len(),
            layer < 4,
            layer == 3 ==> match parent {
                Some(s) => spec_immediate_parent(query@) == Some(s@),
                None => spec_immediate_parent(query@) is None,
            },
            forall|j: int|
                0 <= j < i ==> !layer_hit(paths@, transform_count as nat, layer as int, query@, j),
        decreases paths@.len() - i,
    {
        if i < transform_count {
            let p = paths[i].as_str();
            let hit = if layer == 0 {
                normalize_prim_path(p) == *query
            } else if layer == 1 {
                normalize_instance_display_path(p) == *query
            } else if layer == 2 {
                let d = normalize_instance_display_path(p);
                path_is_descendant_of(d.as_str(), query.as_str())
            } else {
                match &parent {
                    Some(par) => *par == normalize_instance_display_path(p),
                    None => false,
                }
            };
            if hit {
                return Some(i);
            }
        }
        i = i + 1;
    }
    None
}

/// Whether `r` is the instance that `query` resolves to: the first hit of the
/// first layer that has one, or none when no layer has a hit.
pub open spec fn resolution(paths: Seq<String>, count: nat, query: Seq<char>, r: Option<int>) -> bool {
    if r is Some {
        exists|layer: int| #[trigger] resolved_at(paths, count, query, layer, r->0)
    } else {
        forall|l: int| 0 <= l < 4 ==> !layer_has_hit(paths, count, l, query)
    }
}

/// `layer` is the first layer with a hit, and `i` its first hit.
pub open spec fn resolved_at(paths: Seq<String>, count: nat, query: Seq<char>, layer: int, i: int) -> bool {
    &&& 0 <= layer < 4
    &&& forall|l: int| 0 <= l < layer ==> !layer_has_hit(paths, count, l, query)
    &&& layer_hit(paths, count, layer, query, i)
    &&& forall|j: int| 0 <= j < i ==> !layer_hit(paths, count, layer, query, j)
}

/// When `layer` has a hit at `i`, no earlier instance hits it and no earlier
/// layer has a hit, the query resolves to `i` and nothing else.
proof fn lemma_resolution_at(paths: Seq<String>, count: nat, query: Seq<char>, layer: int, i: int)
    requires
        0 <= layer < 4,
        forall|l: int| 0 <= l < layer ==> !layer_has_hit(paths, count, l, query),
        layer_hit(paths, count, layer, query, i),
        forall|j: int| 0 <= j < i ==> !layer_hit(paths, count, layer, query, j),
    ensures
        resolution(paths, count, query, Some(i)),
        forall|r: Option<int>| resolution(paths, count, query, r) ==> r == Some(i),
{
    assert(resolved_at(paths, count, query, layer, i));
    let found: Option<int> = Some(i);
    assert(found->0 == i);
    assert(resolution(paths, count, query, found));
    assert forall|r: Option<int>| resolution(paths, count, query, r) implies r == Some(i) by {
        match r {
            Some(k) => {
                let l2 = choose|l2: int| #[trigger] resolved_at(paths, count, query, l2, k);
                if l2 < layer {
                    assert(layer_has_hit(paths, count, l2, query));
                } else if l2 > layer {
                    assert(layer_has_hit(paths, count, layer, query));
                } else if k < i {
                } else if k > i {
                }
            },
            None => {
                assert(layer_has_hit(paths, count, layer, query));
            },
        }
    }
}

/// A path lies below a prim other than the root exactly when the prim's path
/// followed by `/` starts it.
proof fn lemma_descendant_is_prefix(d: Seq<char>, query: Seq<char>)
    requires
        query != seq!['/'],
    ensures
        spec_is_descendant(d, query) <==> (query + seq!['/']).is_prefix_of(d),
{
    let q = query + seq!['/'];
    if q.is_prefix_of(d) {
        assert(d.take(query.len() as int) =~= query) by {
            assert forall|k: int| 0 <= k < query.len() implies d.take(query.len() as int)[k]
                == query[k] by {
                assert(d.subrange(0, q.len() as int)[k] == q[k]);
            }
        }
        assert(d[query.len() as int] == d.subrange(0, q.len() as int)[query.len() as int]);
    }
    if spec_is_descendant(d, query) {
        assert(q =~= d.subrange(0, q.len() as int)) by {
            assert forall|k: int| 0 <= k < q.len() implies q[k] == d.subrange(0, q.len() as int)[k] by {
                if k < query.len() {
                    assert(d.take(query.len() as int)[k] == d[k]);
                }
            }
        }
    }
}

/// Selecting a prim that an instance's own path names exactly picks the first
/// such instance with a transform.
pub proof fn lemma_exact_path_selects_instance(
    paths: Seq<String>,
    count: nat,
    query: Seq<char>,
    i: int,
)
    requires
        0 <= i < paths.len(),
        i < count,
        spec_normalize_prim_path(paths[i]@) == query,
        forall|j: int| 0 <= j < i && j < count ==> spec_normalize_prim_path(#[trigger] paths[j]@) != query,
    ensures
        forall|r: Option<int>| resolution(paths, count, query, r) <==> r == Some(i),
{
    lemma_resolution_at(paths, count, query, 0, i);
}

/// Selecting a prim that no instance's own path names picks the first
/// instance with a transform whose display path (its synthetic form undone)
/// names it.
pub proof fn lemma_display_path_selects_instance(
    paths: Seq<String>,
    count: nat,
    query: Seq<char>,
    i: int,
)
    requires
        forall|j: int| 0 <= j < paths.len() && j < count ==> spec_normalize_prim_path(#[trigger] paths[j]@) != query,
        0 <= i < paths.len(),
        i < count,
        spec_display_path(paths[i]@) == query,
        forall|j: int| 0 <= j < i && j < count ==> spec_display_path(#[trigger] paths[j]@) != query,
    ensures
        forall|r: Option<int>| resolution(paths, count, query, r) <==> r == Some(i),
{
    assert(!layer_has_hit(paths, count, 0, query));
    lemma_resolution_at(paths, count, query, 1, i);
}

/// Selecting a mesh below a prim that an instance stands for picks the first
/// instance with a transform whose display path is the selected prim's parent,
/// when no instance matches the selection exactly, by display path, or lies
/// below it.
pub proof fn lemma_child_selection_finds_parent_instance(
    paths: Seq<String>,
    count: nat,
    query: Seq<char>,
    parent: Seq<char>,
    i: int,
)
    requires
        spec_immediate_parent(query) == Some(parent),
        forall|j: int|
            0 <= j < paths.len() && j < count ==> spec_normalize_prim_path(#[trigger] paths[j]@)
                != query && spec_display_path(paths[j]@) != query && !(query != seq!['/'] && (query
                + seq!['/']).is_prefix_of(spec_display_path(paths[j]@))),
        0 <= i < paths.len(),
        i < count,
        spec_display_path(paths[i]@) == parent,
        forall|j: int| 0 <= j < i && j < count ==> spec_display_path(#[trigger] paths[j]@) != parent,
    ensures
        forall|r: Option<int>| resolution(paths, count, query, r) <==> r == Some(i),
{
    if query != seq!['/'] {
        assert forall|d: Seq<char>| spec_is_descendant(d, query) <==> (query + seq!['/']).is_prefix_of(d) by {
            lemma_descendant_is_prefix(d, query);
        }
    }
    assert(!layer_has_hit(paths, count, 0, query));
    assert(!layer_has_hit(paths, count, 1, query));
    assert(!layer_has_hit(paths, count, 2, query));
    lemma_resolution_at(paths, count, query, 3, i);
}

/// Selecting a parent prim picks the first instance with a transform whose
/// display path lies below it (the query followed by `/` starts it), when no
/// instance matches the query exactly or by display path; the root selects
/// nothing this way.
pub proof fn lemma_parent_selection_finds_descendant(
    paths: Seq<String>,
    count: nat,
    query: Seq<char>,
    i: int,
)
    requires
        query != seq!['/'],
        forall|j: int|
            0 <= j < paths.len() && j < count ==> spec_normalize_prim_path(#[trigger] paths[j]@)
                != query && spec_display_path(paths[j]@) != query,
        0 <= i < paths.len(),
        i < count,
        (query + seq!['/']).is_prefix_of(spec_display_path(paths[i]@)),
        forall|j: int|
            0 <= j < i && j < count ==> !(query + seq!['/']).is_prefix_of(
                spec_display_path(#[trigger] paths[j]@),
            ),
    ensures
        forall|r: Option<int>| resolution(paths, count, query, r) <==> r == Some(i),
{
    assert forall|d: Seq<char>| spec_is_descendant(d, query) <==> (query + seq!['/']).is_prefix_of(d) by {
        lemma_descendant_is_prefix(d, query);
    }
    assert(!layer_has_hit(paths, count, 0, query));
    assert(!layer_has_hit(paths, count, 1, query));
    assert(layer_hit(paths, count, 2, query, i));
    lemma_resolution_at(paths, count, query, 2, i);
}

/// The viewport instance that a prim selection resolves to. Instances without
/// a transform are skipped, and the first hit of the first layer that has one
/// wins: an exact path match, then a match of the instance's display path,
/// then an instance below the selected prim, then the instance of the
/// selected prim's parent.
pub fn resolve_instance_index(prim_path: &str, instance_paths: &Vec<String>, transform_count: usize) -> (r:
    Option<usize>)
    ensures
        resolution(
            instance_paths@,
            transform_count as nat,
            spec_normalize_prim_path(prim_path@),
            match r {
                Some(i) => Some(i as int),
                None => None,
            },
        ),
{
    let query = normalize_prim_path(prim_path);
    let mut layer: u8 = 0;
    while layer < 4
        invariant
            layer <= 4,
            query@ == spec_normalize_prim_path(prim_path@),
            forall|l: int|
                0 <= l < layer ==> !layer_has_hit(
                    instance_paths@,
                    transform_count as nat,
                    l,
                    query@,
                ),
        decreases 4 - layer,
    {
        match first_hit(instance_paths, transform_count, layer, &query) {
            Some(i) => {
                proof {
                    lemma_resolution_at(
                        instance_paths@,
                        transform_count as nat,
                        query@,
                        layer as int,
                        i as int,
                    );
                }
                return Some(i);
            },
            None => {},
        }
        layer = layer + 1;
    }
    None
}

proof fn lemma_lead_bounds(s: Seq<char>, slash: bool)
    ensures
        lead(s, slash) <= s.len(),
        forall|i: int| 0 <= i < lead(s, slash) ==> trimmed_char(#[trigger] s[i], slash),
        lead(s, slash) < s.len() ==> !trimmed_char(s[lead(s, slash) as int], slash),
    decreases s.len(),
{
    if s.len() > 0 && trimmed_char(s[0], slash) {
        lemma_lead_bounds(s.drop_first(), slash);
        assert forall|i: int| 0 <= i < lead(s, slash) implies trimmed_char(#[trigger] s[i], slash) by {
            if i > 0 {
                assert(s[i] == s.drop_first()[i - 1]);
            }
        }
    }
}

proof fn lemma_trail_bounds(s: Seq<char>, slash: bool)
    ensures
        trail(s, slash) <= s.len(),
        forall|i: int|
            s.len() - trail(s, slash) <= i < s.len() ==> trimmed_char(#[trigger] s[i], slash),
        trail(s, slash) < s.len() ==> !trimmed_char(s[s.len() - 1 - trail(s, slash)], slash),
    decreases s.len(),
{
    if s.len() > 0 && trimmed_char(s.last(), slash) {
        lemma_trail_bounds(s.drop_last(), slash);
        assert forall|i: int|
            s.len() - trail(s, slash) <= i < s.len() implies trimmed_char(#[trigger] s[i], slash) by {
            if i < s.len() - 1 {
                assert(s[i] == s.drop_last()[i]);
            }
        }
        if trail(s, slash) < s.len() {
            assert(s[s.len() - 1 - trail(s, slash)] == s.drop_last()[s.drop_last().len() - 1
                - trail(s.drop_last(), slash)]);
        }
    }
}

/// A non-empty trim result starts and ends with a kept character.
proof fn lemma_strip_ends(s: Seq<char>, slash: bool)
    ensures
        strip(s, slash).len() > 0 ==> !trimmed_char(strip(s, slash)[0], slash) && !trimmed_char(
            strip(s, slash).last(),
            slash,
        ),
{
    lemma_lead_bounds(s, slash);
    lemma_trail_bounds(s, slash);
    let l = lead(s, slash) as int;
    let t = trail(s, slash) as int;
    if l < s.len() {
        if l >= s.len() - t {
            assert(trimmed_char(s[l], slash));
        }
        let r = strip(s, slash);
        assert(r[0] == s[l]);
        assert(t < s.len());
        assert(r.last() == s[s.len() - 1 - t]);
    }
}

/// Normalising a normalised prim path changes nothing, unless it ends in
/// white space (which the first pass kept before a trailing `/`, as in
/// `"a /"`, and the second pass trims).
pub proof fn lemma_normalize_idempotent(path: Seq<char>)
    requires
        !is_ws(spec_normalize_prim_path(path).last()),
    ensures
        spec_normalize_prim_path(spec_normalize_prim_path(path)) == spec_normalize_prim_path(path),
{
    let t = strip(strip(path, false), true);
    let r = spec_normalize_prim_path(path);
    lemma_strip_ends(strip(path, false), true);
    if t.len() == 0 {
        assert(r =~= seq!['/']);
        assert(lead(r, false) == 0);
        assert(trail(r, false) == 0);
        assert(strip(r, false) =~= r);
        assert(lead(r.drop_first(), true) == 0);
        assert(lead(r, true) == 1);
        assert(strip(r, true) =~= Seq::<char>::empty());
    } else {
        assert(r == seq!['/'] + t);
        assert(r[0] == '/');
        assert(r.last() == t.last());
        assert(lead(r, false) == 0);
        assert(trail(r, false) == 0);
        assert(strip(r, false) =~= r);
        assert(r.drop_first() =~= t);
        assert(lead(t, true) == 0);
        assert(lead(r, true) == 1);
        assert(trail(r, true) == 0);
        assert(strip(r, true) =~= t);
    }
}

} // verus!
