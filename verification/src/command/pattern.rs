//! Glob-style pattern matching for key names and members: `*` matches any
//! run of characters, `?` any one character, every other character itself.
use vstd::prelude::*;

verus! {

/// Whether `p[pi..]` matches `t[ti..]`.
pub open spec fn glob_at(p: Seq<char>, pi: int, t: Seq<char>, ti: int) -> bool
    decreases p.len() - pi, t.len() - ti,
{
    if pi < 0 || ti < 0 || ti > t.len() {
        false
    } else if pi >= p.len() {
        ti == t.len()
    } else if p[pi] == '*' {
        glob_at(p, pi + 1, t, ti) || (ti < t.len() && glob_at(p, pi, t, ti + 1))
    } else if ti >= t.len() {
        false
    } else if p[pi] == '?' || p[pi] == t[ti] {
        glob_at(p, pi + 1, t, ti + 1)
    } else {
        false
    }
}

/// Whether pattern `p` matches text `t`.
pub open spec fn glob_spec(p: Seq<char>, t: Seq<char>) -> bool {
    glob_at(p, 0, t, 0)
}

/// A star matches the rest of the pattern at some later position.
proof fn lemma_star(p: Seq<char>, pi: int, t: Seq<char>, ti: int)
    requires
        0 <= pi < p.len(),
        p[pi] == '*',
        0 <= ti <= t.len(),
    ensures
        glob_at(p, pi, t, ti) <==> exists|k: int| ti <= k <= t.len() && #[trigger] glob_at(p, pi + 1, t, k),
    decreases t.len() - ti,
{
    if glob_at(p, pi + 1, t, ti) {
        assert(ti <= ti <= t.len() && glob_at(p, pi + 1, t, ti));
    }
    if ti < t.len() {
        lemma_star(p, pi, t, ti + 1);
        if glob_at(p, pi, t, ti + 1) {
            let k = choose|k: int| ti + 1 <= k <= t.len() && #[trigger] glob_at(p, pi + 1, t, k);
            assert(ti <= k <= t.len() && glob_at(p, pi + 1, t, k));
        }
        if exists|k: int| ti <= k <= t.len() && #[trigger] glob_at(p, pi + 1, t, k) {
            let k = choose|k: int| ti <= k <= t.len() && #[trigger] glob_at(p, pi + 1, t, k);
            if k > ti {
                assert(ti + 1 <= k <= t.len() && glob_at(p, pi + 1, t, k));
            }
        }
    } else {
        if exists|k: int| ti <= k <= t.len() && #[trigger] glob_at(p, pi + 1, t, k) {
            let k = choose|k: int| ti <= k <= t.len() && #[trigger] glob_at(p, pi + 1, t, k);
            assert(k == ti);
        }
    }
}

fn match_from(key: &Vec<char>, ki: usize, pattern: &Vec<char>, pi: usize) -> (r: bool)
    requires
        ki <= key@.len(),
        pi <= pattern@.len(),
    ensures
        r == glob_at(pattern@, pi as int, key@, ki as int),
    decreases pattern@.len() - pi,
{
    if pi == pattern.len() {
        return ki == key.len();
    }
    if pattern[pi] == '*' {
        proof {
            lemma_star(pattern@, pi as int, key@, ki as int);
        }
        let next = pi + 1;
        let mut i = ki;
        while i < key.len()
            invariant
                ki <= i <= key@.len(),
                next == pi + 1,
                pi < pattern@.len(),
                pattern@[pi as int] == '*',
                forall|k: int| ki <= k < i ==> !#[trigger] glob_at(pattern@, pi + 1, key@, k),
            decreases key@.len() - i,
        {
            if match_from(key, i, pattern, next) {
                proof {
                    lemma_star(pattern@, pi as int, key@, ki as int);
                    assert(ki <= i <= key@.len() && glob_at(pattern@, pi + 1, key@, i as int));
                }
                return true;
            }
            i = i + 1;
        }
        match_from(key, key.len(), pattern, next)
    } else if pattern[pi] == '?' {
        if ki < key.len() {
            match_from(key, ki + 1, pattern, pi + 1)
        } else {
            false
        }
    } else {
        if ki < key.len() && key[ki] == pattern[pi] {
            match_from(key, ki + 1, pattern, pi + 1)
        } else {
            false
        }
    }
}

/// The characters of a string.
pub fn chars_of(s: &str) -> (r: Vec<char>)
    ensures
        r@ == s@,
{
    let n = s.unicode_len();
    let mut r: Vec<char> = Vec::new();
    let mut i: usize = 0;
    while i < n
        invariant
            i <= n,
            n == s@.len(),
            r@ =~= s@.subrange(0, i as int),
        decreases n - i,
    {
        r.push(s.get_char(i));
        i = i + 1;
    }
    proof {
        assert(s@.subrange(0, n as int) =~= s@);
    }
    r
}

/// Whether `key` matches `pattern`.
pub fn match_pattern(key: &str, pattern: &str) -> (r: bool)
    ensures
        r == glob_spec(pattern@, key@),
{
    let p = chars_of(pattern);
    let k = chars_of(key);
    match_from(&k, 0, &p, 0)
}

/// Whether `text` matches `pattern`.
pub fn glob_match(pattern: &str, text: &str) -> (r: bool)
    ensures
        r == glob_spec(pattern@, text@),
{
    match_pattern(text, pattern)
}

/// The pattern `*` matches every text.
pub proof fn law_star_matches_all(t: Seq<char>)
    ensures
        glob_spec(seq!['*'], t),
{
    let p = seq!['*'];
    assert(glob_at(p, 1, t, t.len() as int));
    lemma_star(p, 0, t, 0);
}

/// A pattern without `*` or `?` matches exactly the text equal to it.
pub proof fn law_literal_pattern(p: Seq<char>, t: Seq<char>)
    requires
        forall|i: int| 0 <= i < p.len() ==> #[trigger] p[i] != '*' && p[i] != '?',
    ensures
        glob_spec(p, t) <==> p == t,
{
    lemma_literal_at(p, t, 0);
    if p == t {
        assert(p.subrange(0, p.len() as int) =~= t.subrange(0, t.len() as int));
    }
    if glob_spec(p, t) {
        assert(p.subrange(0, p.len() as int) =~= p);
        assert(t.subrange(0, t.len() as int) =~= t);
    }
}

proof fn lemma_literal_at(p: Seq<char>, t: Seq<char>, i: int)
    requires
        0 <= i <= p.len(),
        i <= t.len(),
        forall|j: int| 0 <= j < p.len() ==> #[trigger] p[j] != '*' && p[j] != '?',
    ensures
        glob_at(p, i, t, i) <==> p.subrange(i, p.len() as int) =~= t.subrange(i, t.len() as int),
    decreases p.len() - i,
{
    if i < p.len() && i < t.len() {
        lemma_literal_at(p, t, i + 1);
        if p.subrange(i, p.len() as int) =~= t.subrange(i, t.len() as int) {
            assert(p[i] == p.subrange(i, p.len() as int)[0]);
            assert(t[i] == t.subrange(i, t.len() as int)[0]);
            assert(p.subrange(i + 1, p.len() as int) =~= p.subrange(i, p.len() as int).drop_first());
            assert(t.subrange(i + 1, t.len() as int) =~= t.subrange(i, t.len() as int).drop_first());
        }
        if glob_at(p, i, t, i) {
            assert(p.subrange(i, p.len() as int) =~= seq![p[i]] + p.subrange(i + 1, p.len() as int));
            assert(t.subrange(i, t.len() as int) =~= seq![t[i]] + t.subrange(i + 1, t.len() as int));
        }
    } else if i < p.len() {
        assert(p.subrange(i, p.len() as int).len() > 0);
    } else if i < t.len() {
        assert(t.subrange(i, t.len() as int).len() > 0);
    }
}

} // verus!
