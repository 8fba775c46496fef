//! The inline value forms of the declaration format: brace sets and pipeline chains.
use vstd::prelude::*;

use crate::text::{same_text, trim_text, trimmed};

verus! {

/// The pieces of `s[start..]` between the separators `sep`, scanning from `i`,
/// as `str::split` gives them (leftmost, non-overlapping).
pub open spec fn split_from(s: Seq<char>, sep: Seq<char>, start: int, i: int) -> Seq<Seq<char>>
    recommends
        sep.len() > 0,
    decreases s.len() - i,
{
    if sep.len() == 0 || i < 0 || i + sep.len() > s.len() {
        seq![s.subrange(start, s.len() as int)]
    } else if s.subrange(i, i + sep.len()) == sep {
        seq![s.subrange(start, i)] + split_from(s, sep, i + sep.len(), i + sep.len())
    } else {
        split_from(s, sep, start, i + 1)
    }
}

pub open spec fn pieces(s: Seq<char>, sep: Seq<char>) -> Seq<Seq<char>> {
    split_from(s, sep, 0, 0)
}

fn split_on(s: &str, sep: &str) -> (r: Vec<String>)
    requires
        sep@.len() > 0,
    ensures
        r@.map_values(|p: String| p@) == pieces(s@, sep@),
{
    let n = s.unicode_len();
    let m = sep.unicode_len();
    let mut r: Vec<String> = Vec::new();
    let mut start: usize = 0;
    let mut i: usize = 0;
    while m <= n && i <= n - m
        invariant
            n == s@.len(),
            m == sep@.len(),
            m > 0,
            start <= i <= n,
            r@.map_values(|p: String| p@) + split_from(s@, sep@, start as int, i as int) == pieces(
                s@,
                sep@,
            ),
        decreases n - i,
    {
        let part = s.substring_char(i, i + m);
        if same_text(part, sep) {
            let ghost r0 = r@.map_values(|p: String| p@);
            let piece = s.substring_char(start, i);
            r.push(String::from_str(piece));
            proof {
                assert(r@.map_values(|p: String| p@) =~= r0.push(piece@));
                assert(r0.push(piece@) + split_from(s@, sep@, i + m, i + m) =~= r0 + (seq![piece@]
                    + split_from(s@, sep@, i + m, i + m)));
            }
            i = i + m;
            start = i;
        } else {
            i = i + 1;
        }
    }
    let ghost r0 = r@.map_values(|p: String| p@);
    let piece = s.substring_char(start, n);
    r.push(String::from_str(piece));
    proof {
        assert(r@.map_values(|p: String| p@) =~= r0.push(piece@));
        assert(r0.push(piece@) =~= r0 + seq![piece@]);
    }
    r
}

/// Number of leading `c` characters of `s`.
pub open spec fn lead_of(s: Seq<char>, c: char) -> nat
    decreases s.len(),
{
    if s.len() > 0 && s[0] == c {
        1 + lead_of(s.skip(1), c)
    } else {
        0
    }
}

/// Number of trailing `c` characters of `s`.
pub open spec fn trail_of(s: Seq<char>, c: char) -> nat
    decreases s.len(),
{
    if s.len() > 0 && s.last() == c {
        1 + trail_of(s.drop_last(), c)
    } else {
        0
    }
}

/// `s` without any `c` at either end, as `str::trim_matches` leaves it.
pub open spec fn trimmed_of(s: Seq<char>, c: char) -> Seq<char> {
    let t = s.skip(lead_of(s, c) as int);
    t.take(t.len() - trail_of(t, c))
}

proof fn lemma_trail_of_bound(s: Seq<char>, c: char)
    ensures
        trail_of(s, c) <= s.len(),
    decreases s.len(),
{
    if s.len() > 0 && s.last() == c {
        lemma_trail_of_bound(s.drop_last(), c);
    }
}

fn trim_char(s: &str, c: char) -> (r: &str)
    ensures
        r@ == trimmed_of(s@, c),
{
    let n = s.unicode_len();
    let mut a: usize = 0;
    proof {
        assert(s@.skip(0) =~= s@);
    }
    while a < n && s.get_char(a) == c
        invariant
            n == s@.len(),
            a <= n,
            lead_of(s@, c) == a + lead_of(s@.skip(a as int), c),
        decreases n - a,
    {
        proof {
            assert(s@.skip(a as int).skip(1) =~= s@.skip(a + 1));
        }
        a += 1;
    }
    proof {
        if a < n {
            assert(s@.skip(a as int)[0] == s@[a as int]);
        }
    }
    let t = s.substring_char(a, n);
    proof {
        assert(t@ =~= s@.skip(a as int));
        lemma_trail_of_bound(t@, c);
    }
    let mut b: usize = n - a;
    proof {
        assert(t@.take(b as int) =~= t@);
    }
    while b > 0 && t.get_char(b - 1) == c
        invariant
            t@.len() == n - a,
            b <= n - a,
            trail_of(t@, c) == (n - a - b) + trail_of(t@.take(b as int), c),
        decreases b,
    {
        proof {
            assert(t@.take(b as int).drop_last() =~= t@.take(b - 1));
        }
        b -= 1;
    }
    proof {
        if b > 0 {
            assert(t@.take(b as int).last() == t@[b - 1]);
        }
    }
    let r = t.substring_char(0, b);
    proof {
        assert(r@ =~= t@.take(b as int));
    }
    r
}

/// The inside of an inline value: trimmed, one `{` and one `}` taken off its ends,
/// trimmed again.
pub open spec fn unbraced(s: Seq<char>) -> Seq<char> {
    let t = trimmed(s);
    let t1 = if t.len() > 0 && t[0] == '{' {
        t.skip(1)
    } else {
        t
    };
    let t2 = if t1.len() > 0 && t1.last() == '}' {
        t1.drop_last()
    } else {
        t1
    };
    trimmed(t2)
}

fn unbrace(input: &str) -> (r: &str)
    ensures
        r@ == unbraced(input@),
{
    let mut s = trim_text(input);
    let n = s.unicode_len();
    if n > 0 && s.get_char(0) == '{' {
        let t = s.substring_char(1, n);
        proof {
            assert(t@ =~= s@.skip(1));
        }
        s = t;
    }
    let n = s.unicode_len();
    if n > 0 && s.get_char(n - 1) == '}' {
        let t = s.substring_char(0, n - 1);
        proof {
            assert(t@ =~= s@.drop_last());
        }
        s = t;
    }
    trim_text(s)
}

/// The items of the first `n` pieces of a brace set: trimmed, quotes taken off, empty ones dropped.
pub open spec fn set_items(ps: Seq<Seq<char>>, n: int) -> Seq<Seq<char>>
    decreases n,
{
    if n <= 0 {
        Seq::empty()
    } else {
        let x = trimmed_of(trimmed(ps[n - 1]), '"');
        set_items(ps, n - 1) + if x.len() > 0 {
            seq![x]
        } else {
            Seq::empty()
        }
    }
}

/// The steps of the first `n` pieces of a chain: trimmed, empty ones dropped.
pub open spec fn chain_steps(ps: Seq<Seq<char>>, n: int) -> Seq<Seq<char>>
    decreases n,
{
    if n <= 0 {
        Seq::empty()
    } else {
        let x = trimmed(ps[n - 1]);
        chain_steps(ps, n - 1) + if x.len() > 0 {
            seq![x]
        } else {
            Seq::empty()
        }
    }
}

/// The items of an inline set `{ "a", "b" }`: the comma-separated entries inside the
/// braces, trimmed and unquoted, empty ones dropped.
pub fn parse_inline_brace_set(input: &str) -> (r: Vec<String>)
    ensures
        r@.map_values(|x: String| x@) == ({
            let u = unbraced(input@);
            if u.len() == 0 {
                Seq::empty()
            } else {
                let ps = pieces(u, ","@);
                set_items(ps, ps.len() as int)
            }
        }),
{
    let s = unbrace(input);
    let mut r: Vec<String> = Vec::new();
    if s.unicode_len() == 0 {
        proof {
            assert(r@.map_values(|x: String| x@) =~= Seq::<Seq<char>>::empty());
        }
        return r;
    }
    proof {
        reveal_strlit(",");
    }
    let parts = split_on(s, ",");
    let ghost ps = parts@.map_values(|p: String| p@);
    let mut i: usize = 0;
    proof {
        assert(r@.map_values(|x: String| x@) =~= set_items(ps, 0));
    }
    while i < parts.len()
        invariant
            i <= parts@.len(),
            ps == parts@.map_values(|p: String| p@),
            r@.map_values(|x: String| x@) == set_items(ps, i as int),
        decreases parts@.len() - i,
    {
        let x = trim_char(trim_text(parts[i].as_str()), '"');
        let ghost r0 = r@.map_values(|x: String| x@);
        if x.unicode_len() > 0 {
            r.push(String::from_str(x));
        }
        proof {
            assert(ps[i as int] == parts@[i as int]@);
            assert(r@.map_values(|x: String| x@) =~= set_items(ps, i + 1));
        }
        i += 1;
    }
    r
}

/// The steps of a pipeline chain `{ func.a -> func.b }`: the `->`-separated entries
/// inside the braces, trimmed, empty ones dropped.
pub fn parse_pipeline_chain(input: &str) -> (r: Vec<String>)
    ensures
        r@.map_values(|x: String| x@) == ({
            let u = unbraced(input@);
            if u.len() == 0 {
                Seq::empty()
            } else {
                let ps = pieces(u, "->"@);
                chain_steps(ps, ps.len() as int)
            }
        }),
{
    let s = unbrace(input);
    let mut r: Vec<String> = Vec::new();
    if s.unicode_len() == 0 {
        proof {
            assert(r@.map_values(|x: String| x@) =~= Seq::<Seq<char>>::empty());
        }
        return r;
    }
    proof {
        reveal_strlit("->");
    }
    let parts = split_on(s, "->");
    let ghost ps = parts@.map_values(|p: String| p@);
    let mut i: usize = 0;
    proof {
        assert(r@.map_values(|x: String| x@) =~= chain_steps(ps, 0));
    }
    while i < parts.len()
        invariant
            i <= parts@.len(),
            ps == parts@.map_values(|p: String| p@),
            r@.map_values(|x: String| x@) == chain_steps(ps, i as int),
        decreases parts@.len() - i,
    {
        let x = trim_text(parts[i].as_str());
        if x.unicode_len() > 0 {
            r.push(String::from_str(x));
        }
        proof {
            assert(ps[i as int] == parts@[i as int]@);
            assert(r@.map_values(|x: String| x@) =~= chain_steps(ps, i + 1));
        }
        i += 1;
    }
    r
}

} // verus!
