//! Character-level text operations with their specifications: equality,
//! substring search, replacement of every occurrence, joining, and ASCII
//! case-insensitive comparison.
use vstd::prelude::*;

verus! {

/// The texts of a sequence of strings.
pub open spec fn string_views(v: Seq<String>) -> Seq<Seq<char>> {
    v.map_values(|s: String| s@)
}

/// `needle` occurs in `hay` at position `i`.
pub open spec fn occurs_at(hay: Seq<char>, needle: Seq<char>, i: int) -> bool {
    &&& 0 <= i
    &&& i + needle.len() <= hay.len()
    &&& hay.subrange(i, i + needle.len()) == needle
}

/// `needle` occurs somewhere in `hay`.
pub open spec fn contains_seq(hay: Seq<char>, needle: Seq<char>) -> bool {
    exists|i: int| occurs_at(hay, needle, i)
}

/// Every occurrence of the non-empty `pat` in `s`, taken from the left and not
/// overlapping, replaced by `rep`.
pub open spec fn replace_all(s: Seq<char>, pat: Seq<char>, rep: Seq<char>) -> Seq<char>
    decreases s.len(),
{
    if s.len() == 0 {
        Seq::empty()
    } else if pat.len() > 0 && pat.len() <= s.len() && s.take(pat.len() as int) == pat {
        rep + replace_all(s.skip(pat.len() as int), pat, rep)
    } else {
        seq![s[0]] + replace_all(s.skip(1), pat, rep)
    }
}

/// The parts, in order, with `sep` between each two neighbours.
pub open spec fn join(parts: Seq<Seq<char>>, sep: Seq<char>) -> Seq<char>
    decreases parts.len(),
{
    if parts.len() == 0 {
        Seq::empty()
    } else if parts.len() == 1 {
        parts[0]
    } else {
        join(parts.drop_last(), sep) + sep + parts.last()
    }
}

/// `c` is `t` or, when `t` is a lower-case ASCII letter, its upper-case form.
pub open spec fn char_matches_lower(c: char, t: char) -> bool {
    c == t || ('a' <= t && t <= 'z' && c as u32 + 32 == t as u32)
}

/// `s` equals the lower-case ASCII word `target` when ASCII case is ignored.
pub open spec fn eq_ignore_case(s: Seq<char>, target: Seq<char>) -> bool {
    &&& s.len() == target.len()
    &&& forall|i: int| 0 <= i < s.len() ==> #[trigger] char_matches_lower(s[i], target[i])
}

/// The characters of `s`.
pub fn chars_of(s: &str) -> (v: Vec<char>)
    ensures
        v@ == s@,
{
    let mut v: Vec<char> = Vec::new();
    for ch in it: s.chars()
        invariant
            it.seq() == s@,
            v@ == it.seq().take(it.index() as int),
    {
        v.push(ch);
    }
    assert(v@ =~= s@);
    v
}

/// `a` and `b` hold the same characters.
pub fn str_eq(a: &str, b: &str) -> (eq: bool)
    ensures
        eq == (a@ == b@),
{
    let x = a.to_owned();
    let y = b.to_owned();
    x == y
}

/// `needle` occurs in `v` at position `i`.
fn matches_at(v: &Vec<char>, needle: &Vec<char>, i: usize) -> (m: bool)
    requires
        i + needle.len() <= v.len(),
    ensures
        m == occurs_at(v@, needle@, i as int),
{
    let n = needle.len();
    let mut j: usize = 0;
    while j < n
        invariant
            n == needle.len(),
            i + n <= v.len(),
            j <= n,
            forall|k: int| 0 <= k < j ==> v@[i + k] == needle@[k],
        decreases n - j,
    {
        if v[i + j] != needle[j] {
            assert(v@.subrange(i as int, i + n)[j as int] != needle@[j as int]);
            return false;
        }
        j = j + 1;
    }
    assert(v@.subrange(i as int, i + n) =~= needle@);
    true
}

/// `needle` occurs in `hay`.
pub fn contains_str(hay: &str, needle: &str) -> (found: bool)
    ensures
        found == contains_seq(hay@, needle@),
{
    let h = chars_of(hay);
    let n = chars_of(needle);
    if n.len() > h.len() {
        assert forall|i: int| !occurs_at(hay@, needle@, i) by {}
        return false;
    }
    if n.len() == 0 {
        assert(hay@.subrange(0, 0) =~= needle@);
        assert(occurs_at(hay@, needle@, 0));
        return true;
    }
    let last = h.len() - n.len();
    let mut i: usize = 0;
    while i <= last
        invariant
            h@ == hay@,
            n@ == needle@,
            last == h.len() - n.len(),
            0 < n.len() <= h.len(),
            i <= last + 1,
            forall|k: int| 0 <= k < i ==> !occurs_at(hay@, needle@, k),
        decreases last + 1 - i,
    {
        if matches_at(&h, &n, i) {
            return true;
        }
        i = i + 1;
    }
    assert forall|k: int| !occurs_at(hay@, needle@, k) by {
        if 0 <= k < i {
        }
    }
    false
}

proof fn lemma_replace_all_unfold(s: Seq<char>, pat: Seq<char>, rep: Seq<char>, i: int)
    requires
        0 <= i < s.len(),
        pat.len() > 0,
    ensures
        replace_all(s.skip(i), pat, rep) == if i + pat.len() <= s.len() && s.subrange(
            i,
            i + pat.len(),
        ) == pat {
            rep + replace_all(s.skip(i + pat.len()), pat, rep)
        } else {
            seq![s[i]] + replace_all(s.skip(i + 1), pat, rep)
        },
{
    let t = s.skip(i);
    assert(t.len() > 0);
    if i + pat.len() <= s.len() {
        assert(t.take(pat.len() as int) =~= s.subrange(i, i + pat.len()));
        assert(t.skip(pat.len() as int) =~= s.skip(i + pat.len()));
    }
    assert(t.skip(1) =~= s.skip(i + 1));
}

/// `s` with every occurrence of the non-empty `pat` replaced by `rep`, as
/// `str::replace` does it.
pub fn replace_str(s: &str, pat: &str, rep: &str) -> (out: String)
    requires
        pat@.len() > 0,
    ensures
        out@ == replace_all(s@, pat@, rep@),
{
    let v = chars_of(s);
    let p = chars_of(pat);
    let mut out = String::new();
    let mut i: usize = 0;
    assert(s@.skip(0) =~= s@);
    while i < v.len()
        invariant
            v@ == s@,
            p@ == pat@,
            p.len() > 0,
            i <= v.len(),
            out@ + replace_all(s@.skip(i as int), pat@, rep@) == replace_all(s@, pat@, rep@),
        decreases v.len() - i,
    {
        proof {
            lemma_replace_all_unfold(s@, pat@, rep@, i as int);
        }
        if p.len() <= v.len() - i && matches_at(&v, &p, i) {
            out.append(rep);
            i = i + p.len();
        } else {
            out.push(v[i]);
            i = i + 1;
        }
    }
    assert(s@.skip(i as int) =~= Seq::<char>::empty());
    assert(out@ =~= replace_all(s@, pat@, rep@));
    out
}

/// A text in which `pat` does not occur is left as it is by replacement.
pub proof fn lemma_replace_without_occurrence(s: Seq<char>, pat: Seq<char>, rep: Seq<char>)
    requires
        pat.len() > 0,
        !contains_seq(s, pat),
    ensures
        replace_all(s, pat, rep) == s,
    decreases s.len(),
{
    if s.len() > 0 {
        if pat.len() <= s.len() && s.take(pat.len() as int) == pat {
            assert(occurs_at(s, pat, 0));
        }
        let t = s.skip(1);
        assert forall|i: int| !occurs_at(t, pat, i) by {
            if occurs_at(t, pat, i) {
                assert(s.subrange(i + 1, i + 1 + pat.len()) =~= t.subrange(i, i + pat.len()));
                assert(occurs_at(s, pat, i + 1));
            }
        }
        lemma_replace_without_occurrence(t, pat, rep);
        assert(s =~= seq![s[0]] + t);
    }
}

/// A pattern that ends a text whose earlier characters never begin the
/// pattern is replaced there, and nothing else changes.
pub proof fn lemma_replace_at_end(p: Seq<char>, pat: Seq<char>, rep: Seq<char>)
    requires
        pat.len() > 0,
        forall|k: int| 0 <= k < p.len() ==> p[k] != pat[0],
    ensures
        replace_all(p + pat, pat, rep) == p + rep,
    decreases p.len(),
{
    let s = p + pat;
    if p.len() == 0 {
        assert(s =~= pat);
        assert(s.take(pat.len() as int) =~= pat);
        assert(s.skip(pat.len() as int) =~= Seq::<char>::empty());
        assert(replace_all(s.skip(pat.len() as int), pat, rep) == Seq::<char>::empty());
        assert(replace_all(s, pat, rep) == rep + replace_all(s.skip(pat.len() as int), pat, rep));
        assert(rep + Seq::<char>::empty() =~= rep);
        assert(p + rep =~= rep);
    } else {
        assert(s.take(pat.len() as int)[0] == p[0]);
        assert(s.take(pat.len() as int) != pat);
        lemma_replace_at_end(p.skip(1), pat, rep);
        assert(s.skip(1) =~= p.skip(1) + pat);
        assert(replace_all(s, pat, rep) == seq![s[0]] + replace_all(s.skip(1), pat, rep));
        assert(seq![s[0]] + (p.skip(1) + rep) =~= p + rep);
    }
}

/// Replacing by a text at least as long as the pattern never shortens a text,
/// and lengthens it when the pattern occurs and the replacement is longer.
pub proof fn lemma_replace_grows(s: Seq<char>, pat: Seq<char>, rep: Seq<char>)
    requires
        pat.len() > 0,
        rep.len() >= pat.len(),
    ensures
        replace_all(s, pat, rep).len() >= s.len(),
        contains_seq(s, pat) && rep.len() > pat.len() ==> replace_all(s, pat, rep).len() > s.len(),
    decreases s.len(),
{
    if s.len() > 0 {
        if pat.len() <= s.len() && s.take(pat.len() as int) == pat {
            lemma_replace_grows(s.skip(pat.len() as int), pat, rep);
        } else {
            let t = s.skip(1);
            lemma_replace_grows(t, pat, rep);
            if contains_seq(s, pat) {
                let i = choose|i: int| occurs_at(s, pat, i);
                if i == 0 {
                    assert(s.take(pat.len() as int) =~= s.subrange(0, pat.len() as int));
                } else {
                    assert(t.subrange(i - 1, i - 1 + pat.len()) =~= s.subrange(i, i + pat.len()));
                    assert(occurs_at(t, pat, i - 1));
                }
            }
        }
    }
}

/// The strings of `parts`, in order, with `sep` between each two neighbours.
pub fn join_strs(parts: &Vec<&str>, sep: &str) -> (out: String)
    ensures
        out@ == join(parts@.map_values(|p: &str| p@), sep@),
{
    let ghost views = parts@.map_values(|p: &str| p@);
    let mut out = String::new();
    let mut i: usize = 0;
    while i < parts.len()
        invariant
            views == parts@.map_values(|p: &str| p@),
            i <= parts.len(),
            out@ == join(views.take(i as int), sep@),
        decreases parts.len() - i,
    {
        if i > 0 {
            out.append(sep);
        }
        out.append(parts[i]);
        proof {
            let next = views.take(i + 1);
            assert(next.drop_last() =~= views.take(i as int));
            assert(next.last() == parts@[i as int]@);
            if i == 0 {
                assert(out@ =~= join(next, sep@));
            }
        }
        i = i + 1;
    }
    assert(views.take(parts.len() as int) =~= views);
    out
}

/// `s` equals the lower-case ASCII word `target` when ASCII case is ignored.
pub fn str_eq_ignore_case(s: &str, target: &str) -> (eq: bool)
    ensures
        eq == eq_ignore_case(s@, target@),
{
    let v = chars_of(s);
    let t = chars_of(target);
    if v.len() != t.len() {
        return false;
    }
    let mut i: usize = 0;
    while i < v.len()
        invariant
            v@ == s@,
            t@ == target@,
            v.len() == t.len(),
            i <= v.len(),
            forall|k: int| 0 <= k < i ==> #[trigger] char_matches_lower(s@[k], target@[k]),
        decreases v.len() - i,
    {
        let c = v[i];
        let d = t[i];
        let ok = c == d || ('a' <= d && d <= 'z' && (c as u32) == (d as u32) - 32);
        if !ok {
            assert(!char_matches_lower(s@[i as int], target@[i as int]));
            return false;
        }
        i = i + 1;
    }
    true
}

} // verus!
