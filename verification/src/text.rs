//! Character-level helpers shared by the path and name logic.

use vstd::prelude::*;
use vstd::std_specs::iter::IteratorSpec;

verus! {

/// Pushes one character onto a `String` (`String::push`).
#[verifier::external_body]
pub(crate) fn push_char(s: &mut String, c: char)
    ensures
        final(s)@ == old(s)@.push(c),
{
    s.push(c);
}

/// The characters of a string slice, in order.
pub fn chars_of(s: &str) -> (v: Vec<char>)
    ensures
        v@ == s@,
{
    broadcast use vstd::string::group_string_axioms;
    let mut v: Vec<char> = Vec::new();
    let mut it = s.chars();
    loop
        invariant
            v@ + it.remaining() == s@,
            it.decrease() is Some,
        ensures
            v@ == s@,
        decreases it.decrease()->0,
    {
        let ghost before = it.remaining();
        match it.next() {
            Some(c) => {
                v.push(c);
                assert(v@ + it.remaining() == s@) by {
                    assert(before == seq![c] + it.remaining());
                }
            },
            None => {
                assert(v@ == s@);
                break;
            },
        }
    }
    v
}

/// Builds a `String` from a slice of characters.
pub fn string_from_chars(v: &[char]) -> (s: String)
    ensures
        s@ == v@,
{
    let mut s = String::new();
    let mut i: usize = 0;
    while i < v.len()
        invariant
            i <= v@.len(),
            s@ == v@.take(i as int),
        decreases v@.len() - i,
    {
        push_char(&mut s, v[i]);
        assert(v@.take(i + 1) == v@.take(i as int).push(v@[i as int]));
        i = i + 1;
    }
    assert(v@.take(v@.len() as int) == v@);
    s
}

/// Whether two string slices hold the same characters.
pub fn same_text(a: &str, b: &str) -> (r: bool)
    ensures
        r == (a@ == b@),
{
    let x = String::from_str(a);
    let y = String::from_str(b);
    x == y
}

/// The character of a decimal digit `d < 10`.
pub open spec fn digit_char(d: nat) -> char {
    (d + 48) as char
}

/// Decimal representation of a natural number, most significant digit first,
/// as `u64::to_string` / `{}` formatting produces it.
pub open spec fn decimal(n: nat) -> Seq<char>
    decreases n,
{
    if n < 10 {
        seq![digit_char(n)]
    } else {
        decimal(n / 10).push(digit_char(n % 10))
    }
}

/// Appends the decimal representation of `n` to `s`.
pub fn push_decimal(s: &mut String, n: u64)
    ensures
        final(s)@ == old(s)@ + decimal(n as nat),
    decreases n,
{
    if n >= 10 {
        push_decimal(s, n / 10);
    }
    let d: u8 = (n % 10) as u8;
    let c: char = (48u8 + d) as char;
    assert(c == digit_char((n % 10) as nat));
    push_char(s, c);
}

/// Lowercase form of a text, as `str::to_lowercase` computes it (full Unicode
/// case mapping).
pub uninterp spec fn lowercase(s: Seq<char>) -> Seq<char>;

/// Lowercases a string slice (`str::to_lowercase`).
#[verifier::external_body]
pub(crate) fn to_lowercase(s: &str) -> (r: String)
    ensures
        r@ == lowercase(s@),
{
    s.to_lowercase()
}

/// Whether `t` occurs in `s` as a contiguous run of characters.
pub open spec fn has_substring(s: Seq<char>, t: Seq<char>) -> bool {
    exists|i: int| 0 <= i <= s.len() - t.len() && #[trigger] s.subrange(i, i + t.len()) == t
}

/// Whether `t` occurs in `s` as a contiguous run of characters.
pub fn contains_text(s: &str, t: &str) -> (b: bool)
    ensures
        b == has_substring(s@, t@),
{
    let a = chars_of(s);
    let b = chars_of(t);
    if b.len() > a.len() {
        return false;
    }
    let alen = a.len();
    let mut i: usize = 0;
    while i <= a.len() - b.len()
        invariant
            alen == a@.len(),
            a@ == s@,
            b@ == t@,
            b@.len() <= a@.len(),
            i <= a@.len() - b@.len() + 1,
            forall|k: int| 0 <= k < i ==> #[trigger] a@.subrange(k, k + b@.len()) != b@,
        decreases a@.len() - b@.len() + 1 - i,
    {
        let mut j: usize = 0;
        while j < b.len() && a[i + j] == b[j]
            invariant
                i + b@.len() <= a@.len(),
                alen == a@.len(),
                j <= b@.len(),
                forall|q: int| 0 <= q < j ==> a@[i + q] == b@[q],
            decreases b@.len() - j,
        {
            j = j + 1;
        }
        if j == b.len() {
            assert(a@.subrange(i as int, i + b@.len()) == b@);
            return true;
        }
        assert(a@.subrange(i as int, i + b@.len())[j as int] != b@[j as int]);
        i = i + 1;
    }
    false
}

/// Lexicographic order of texts by character (the order of `String`).
pub open spec fn text_lt(a: Seq<char>, b: Seq<char>) -> bool
    decreases a.len(),
{
    if a.len() == 0 {
        b.len() > 0
    } else if b.len() == 0 {
        false
    } else if a[0] != b[0] {
        a[0] < b[0]
    } else {
        text_lt(a.drop_first(), b.drop_first())
    }
}

/// The text order is irreflexive.
pub proof fn lemma_text_lt_irreflexive(a: Seq<char>)
    ensures
        !text_lt(a, a),
    decreases a.len(),
{
    if a.len() > 0 {
        lemma_text_lt_irreflexive(a.drop_first());
    }
}

/// The text order is transitive.
pub proof fn lemma_text_lt_transitive(a: Seq<char>, b: Seq<char>, c: Seq<char>)
    requires
        text_lt(a, b),
        text_lt(b, c),
    ensures
        text_lt(a, c),
    decreases a.len(),
{
    if a.len() > 0 && b.len() > 0 && c.len() > 0 && a[0] == b[0] && b[0] == c[0] {
        lemma_text_lt_transitive(a.drop_first(), b.drop_first(), c.drop_first());
    }
}

/// Two different texts are ordered one way or the other.
pub proof fn lemma_text_lt_total(a: Seq<char>, b: Seq<char>)
    requires
        a != b,
    ensures
        text_lt(a, b) || text_lt(b, a),
    decreases a.len(),
{
    if a.len() == 0 && b.len() == 0 {
        assert(a =~= b);
    }
    if a.len() > 0 && b.len() > 0 && a[0] == b[0] {
        if a.drop_first() == b.drop_first() {
            assert(a =~= seq![a[0]] + a.drop_first());
            assert(b =~= seq![b[0]] + b.drop_first());
            assert(a =~= b);
        }
        lemma_text_lt_total(a.drop_first(), b.drop_first());
    }
}

/// Whether `a` comes before `b` in the text order.
pub fn text_less(a: &str, b: &str) -> (r: bool)
    ensures
        r == text_lt(a@, b@),
{
    let x = chars_of(a);
    let y = chars_of(b);
    let mut i: usize = 0;
    assert(x@.skip(0) == x@ && y@.skip(0) == y@);
    while i < x.len() && i < y.len() && x[i] == y[i]
        invariant
            i <= x@.len(),
            i <= y@.len(),
            text_lt(x@, y@) == text_lt(x@.skip(i as int), y@.skip(i as int)),
        decreases x@.len() - i,
    {
        assert(x@.skip(i as int).drop_first() == x@.skip(i + 1));
        assert(y@.skip(i as int).drop_first() == y@.skip(i + 1));
        i = i + 1;
    }
    if i == x.len() {
        i < y.len()
    } else if i == y.len() {
        false
    } else {
        x[i] < y[i]
    }
}

/// The texts of a list of strings.
pub open spec fn texts(v: Seq<String>) -> Seq<Seq<char>> {
    v.map_values(|s: String| s@)
}

/// Whether texts are in strictly increasing order.
pub open spec fn strictly_sorted(s: Seq<Seq<char>>) -> bool {
    forall|i: int, j: int| 0 <= i < j < s.len() ==> text_lt(#[trigger] s[i], #[trigger] s[j])
}

/// Inserts `x` into a strictly sorted list unless it is already there.
pub(crate) fn insert_sorted(v: &mut Vec<String>, x: String)
    requires
        strictly_sorted(texts(old(v)@)),
    ensures
        strictly_sorted(texts(final(v)@)),
        forall|t: Seq<char>|
            #[trigger] texts(final(v)@).contains(t) <==> (texts(old(v)@).contains(t) || t == x@),
{
    let mut j: usize = 0;
    while j < v.len() && text_less(v[j].as_str(), x.as_str())
        invariant
            j <= v@.len(),
            forall|k: int| 0 <= k < j ==> text_lt(#[trigger] texts(v@)[k], x@),
        decreases v@.len() - j,
    {
        j = j + 1;
    }
    if j < v.len() && v[j] == x {
        assert(texts(v@)[j as int] == x@);
        return;
    }
    let ghost old_t = texts(v@);
    proof {
        if j < v@.len() {
            assert(texts(v@)[j as int] != x@);
            lemma_text_lt_total(texts(v@)[j as int], x@);
        }
    }
    v.insert(j, x);
    let ghost new_t = texts(v@);
    assert(new_t == old_t.insert(j as int, x@));
    proof {
        assert forall|a: int, b: int| 0 <= a < b < new_t.len() implies text_lt(
            #[trigger] new_t[a],
            #[trigger] new_t[b],
        ) by {
            if b < j {
                assert(new_t[a] == old_t[a] && new_t[b] == old_t[b]);
            } else if b == j {
                assert(new_t[a] == old_t[a]);
            } else if a < j {
                assert(new_t[a] == old_t[a] && new_t[b] == old_t[b - 1]);
            } else if a == j {
                assert(new_t[b] == old_t[b - 1]);
                if b - 1 > j {
                    assert(text_lt(old_t[j as int], old_t[b - 1]));
                    lemma_text_lt_transitive(x@, old_t[j as int], old_t[b - 1]);
                }
            } else {
                assert(new_t[a] == old_t[a - 1] && new_t[b] == old_t[b - 1]);
            }
        }
        assert forall|t: Seq<char>| #[trigger] new_t.contains(t) <==> (old_t.contains(t) || t == x@) by {
            if new_t.contains(t) {
                let k = choose|k: int| 0 <= k < new_t.len() && new_t[k] == t;
                if k < j {
                    assert(old_t[k] == t);
                } else if k > j {
                    assert(old_t[k - 1] == t);
                }
            }
            if old_t.contains(t) {
                let k = choose|k: int| 0 <= k < old_t.len() && old_t[k] == t;
                if k < j {
                    assert(new_t[k] == t);
                } else {
                    assert(new_t[k + 1] == t);
                }
            }
            if t == x@ {
                assert(new_t[j as int] == t);
            }
        }
    }
}

/// The texts of `v`, sorted, each once (`sort` then `dedup` of a `Vec<String>`).
pub fn sort_dedup(v: Vec<String>) -> (r: Vec<String>)
    ensures
        strictly_sorted(texts(r@)),
        forall|t: Seq<char>| #[trigger] texts(r@).contains(t) <==> texts(v@).contains(t),
{
    let mut r: Vec<String> = Vec::new();
    let mut i: usize = 0;
    while i < v.len()
        invariant
            i <= v@.len(),
            strictly_sorted(texts(r@)),
            forall|t: Seq<char>|
                #[trigger] texts(r@).contains(t) <==> exists|k: int| 0 <= k < i && v@[k]@ == t,
        decreases v@.len() - i,
    {
        let x = v[i].clone();
        insert_sorted(&mut r, x);
        proof {
            assert forall|t: Seq<char>|
                #[trigger] texts(r@).contains(t) <==> exists|k: int| 0 <= k < i + 1 && v@[k]@ == t by {
                if t == v@[i as int]@ {
                    assert(exists|k: int| 0 <= k < i + 1 && v@[k]@ == t);
                }
            }
        }
        i = i + 1;
    }
    assert forall|t: Seq<char>| #[trigger] texts(r@).contains(t) <==> texts(v@).contains(t) by {
        if texts(v@).contains(t) {
            let k = choose|k: int| 0 <= k < texts(v@).len() && texts(v@)[k] == t;
            assert(v@[k]@ == t);
        }
        if exists|k: int| 0 <= k < v@.len() && v@[k]@ == t {
            let k = choose|k: int| 0 <= k < v@.len() && v@[k]@ == t;
            assert(texts(v@)[k] == t);
        }
    }
    r
}

/// Whether `s` is one of the texts of `v`.
pub fn list_contains(v: &Vec<String>, s: &str) -> (b: bool)
    ensures
        b == texts(v@).contains(s@),
{
    let p = String::from_str(s);
    let mut i: usize = 0;
    while i < v.len()
        invariant
            p@ == s@,
            i <= v@.len(),
            forall|j: int| 0 <= j < i ==> v@[j]@ != s@,
        decreases v@.len() - i,
    {
        if v[i] == p {
            assert(texts(v@)[i as int] == s@);
            return true;
        }
        i = i + 1;
    }
    assert(!texts(v@).contains(s@)) by {
        if texts(v@).contains(s@) {
            let j = choose|j: int| 0 <= j < texts(v@).len() && texts(v@)[j] == s@;
            assert(v@[j]@ == s@);
        }
    }
    false
}

/// Adds `s` to the texts of `v` unless it is there; each text stays once.
pub fn list_insert(v: &mut Vec<String>, s: &str)
    requires
        texts(old(v)@).no_duplicates(),
    ensures
        texts(final(v)@).no_duplicates(),
        texts(final(v)@).to_set() == texts(old(v)@).to_set().insert(s@),
{
    if !list_contains(v, s) {
        let ghost before = texts(v@);
        v.push(String::from_str(s));
        assert(texts(v@) == before.push(s@));
        assert forall|a: int, b: int|
            0 <= a < texts(v@).len() && 0 <= b < texts(v@).len() && a != b implies texts(v@)[a] != texts(v@)[b] by {
            if a < before.len() && b < before.len() {
                assert(before[a] != before[b]);
            } else if a < before.len() {
                assert(before.contains(before[a]));
            } else {
                assert(before.contains(before[b]));
            }
        }
        assert(before.push(s@).to_set() == before.to_set().insert(s@)) by {
            assert forall|t: Seq<char>| #[trigger] before.push(s@).contains(t) <==> before.contains(t) || t == s@ by {
                if before.push(s@).contains(t) && t != s@ {
                    let j = choose|j: int| 0 <= j < before.push(s@).len() && before.push(s@)[j] == t;
                    assert(before[j] == t);
                }
                if before.contains(t) {
                    let j = choose|j: int| 0 <= j < before.len() && before[j] == t;
                    assert(before.push(s@)[j] == t);
                }
                if t == s@ {
                    assert(before.push(s@)[before.len() as int] == t);
                }
            }
        }
    } else {
        assert(texts(v@).to_set().insert(s@) == texts(v@).to_set());
    }
}

/// Appends copies of the strings of `src` to `dst`.
pub fn push_all(dst: &mut Vec<String>, src: &Vec<String>)
    ensures
        texts(final(dst)@) == texts(old(dst)@) + texts(src@),
{
    let ghost d0 = texts(dst@);
    let mut i: usize = 0;
    while i < src.len()
        invariant
            i <= src@.len(),
            texts(dst@) == d0 + texts(src@).take(i as int),
        decreases src@.len() - i,
    {
        let ghost before = texts(dst@);
        dst.push(src[i].clone());
        assert(texts(dst@) == before.push(src@[i as int]@));
        assert(texts(src@).take(i + 1) == texts(src@).take(i as int).push(src@[i as int]@));
        i = i + 1;
    }
    assert(texts(src@).take(src@.len() as int) == texts(src@));
}

/// A strictly sorted list of texts holds each text once.
pub proof fn lemma_sorted_no_dup(s: Seq<Seq<char>>)
    requires
        strictly_sorted(s),
    ensures
        s.no_duplicates(),
{
    assert forall|a: int, b: int| 0 <= a < s.len() && 0 <= b < s.len() && a != b implies s[a] != s[b] by {
        if a < b {
            assert(text_lt(s[a], s[b]));
        } else {
            assert(text_lt(s[b], s[a]));
        }
        lemma_text_lt_irreflexive(s[a]);
        lemma_text_lt_irreflexive(s[b]);
    }
}

/// The strictly sorted list of a set of texts.
pub open spec fn sorted_texts(s: Set<Seq<char>>) -> Seq<Seq<char>> {
    choose|q: Seq<Seq<char>>| strictly_sorted(q) && q.to_set() == s
}

/// Dropping the first of a list that holds each text once removes that text
/// from its set.
proof fn lemma_drop_first_set(s: Seq<Seq<char>>)
    requires
        s.len() > 0,
        s.no_duplicates(),
    ensures
        s.drop_first().to_set() == s.to_set().remove(s[0]),
{
    assert forall|t: Seq<char>| #[trigger] s.drop_first().to_set().contains(t) <==> s.to_set().remove(
        s[0],
    ).contains(t) by {
        if s.drop_first().contains(t) {
            let k = choose|k: int| 0 <= k < s.drop_first().len() && s.drop_first()[k] == t;
            assert(s[k + 1] == t);
        }
        if s.to_set().remove(s[0]).contains(t) {
            let k = choose|k: int| 0 <= k < s.len() && s[k] == t;
            assert(k != 0);
            assert(s.drop_first()[k - 1] == t);
        }
    }
    assert(s.drop_first().to_set() =~= s.to_set().remove(s[0]));
}

/// Two strictly sorted lists of the same texts are the same list.
pub proof fn lemma_sorted_unique(a: Seq<Seq<char>>, b: Seq<Seq<char>>)
    requires
        strictly_sorted(a),
        strictly_sorted(b),
        a.to_set() == b.to_set(),
    ensures
        a == b,
    decreases a.len(),
{
    if a.len() == 0 {
        if b.len() > 0 {
            assert(b.to_set().contains(b[0]));
        }
        assert(a =~= b);
    } else {
        assert(a.to_set().contains(a[0]));
        assert(b.len() > 0);
        assert(b.to_set().contains(b[0]));
        let k = choose|k: int| 0 <= k < b.len() && b[k] == a[0];
        let j = choose|j: int| 0 <= j < a.len() && a[j] == b[0];
        if a[0] != b[0] {
            assert(k != 0 && j != 0);
            assert(text_lt(b[0], b[k]));
            assert(text_lt(a[0], a[j]));
            lemma_text_lt_transitive(a[0], b[0], a[0]);
            lemma_text_lt_irreflexive(a[0]);
        }
        lemma_sorted_no_dup(a);
        lemma_sorted_no_dup(b);
        lemma_drop_first_set(a);
        lemma_drop_first_set(b);
        lemma_sorted_unique(a.drop_first(), b.drop_first());
        assert(a =~= seq![a[0]] + a.drop_first());
        assert(b =~= seq![b[0]] + b.drop_first());
    }
}

/// A strictly sorted list is the sorted list of its texts.
pub proof fn lemma_sorted_texts(q: Seq<Seq<char>>)
    requires
        strictly_sorted(q),
    ensures
        sorted_texts(q.to_set()) == q,
{
    let c = sorted_texts(q.to_set());
    assert(strictly_sorted(c) && c.to_set() == q.to_set());
    lemma_sorted_unique(c, q);
}

/// The texts of `s` that `allowed` holds, in order.
pub open spec fn kept_in(s: Seq<Seq<char>>, allowed: Set<Seq<char>>) -> Seq<Seq<char>>
    decreases s.len(),
{
    if s.len() == 0 {
        seq![]
    } else if allowed.contains(s.last()) {
        kept_in(s.drop_last(), allowed).push(s.last())
    } else {
        kept_in(s.drop_last(), allowed)
    }
}

} // verus!
