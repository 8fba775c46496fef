//! Keyed declarations visited in key order: an index that holds, for each key, the
//! position of its last declaration, sorted by key as a map keyed by strings is.
use vstd::prelude::*;

verus! {

/// `a` comes before `b` in the order of their characters (code point by code point,
/// a proper prefix first), the order of a map keyed by strings.
pub open spec fn text_lt(a: Seq<char>, b: Seq<char>) -> bool
    decreases a.len(),
{
    if a.len() == 0 {
        b.len() > 0
    } else if b.len() == 0 {
        false
    } else if a[0] != b[0] {
        a[0] < b[0]
    } else {
        text_lt(a.skip(1), b.skip(1))
    }
}

/// Whether `a` comes before `b`.
pub fn text_less(a: &str, b: &str) -> (r: bool)
    ensures
        r == text_lt(a@, b@),
{
    let n = a.unicode_len();
    let m = b.unicode_len();
    let mut i: usize = 0;
    proof {
        assert(a@.skip(0) =~= a@);
        assert(b@.skip(0) =~= b@);
    }
    while i < n && i < m && a.get_char(i) == b.get_char(i)
        invariant
            n == a@.len(),
            m == b@.len(),
            i <= n,
            i <= m,
            text_lt(a@, b@) == text_lt(a@.skip(i as int), b@.skip(i as int)),
        decreases n - i,
    {
        proof {
            assert(a@.skip(i as int)[0] == a@[i as int]);
            assert(b@.skip(i as int)[0] == b@[i as int]);
            assert(a@.skip(i as int).skip(1) =~= a@.skip(i + 1));
            assert(b@.skip(i as int).skip(1) =~= b@.skip(i + 1));
        }
        i += 1;
    }
    if i == n {
        return i < m;
    }
    if i == m {
        return false;
    }
    proof {
        assert(a@.skip(i as int)[0] == a@[i as int]);
        assert(b@.skip(i as int)[0] == b@[i as int]);
    }
    a.get_char(i) < b.get_char(i)
}

/// The index after declaring position `p`: its key's entry replaced by `p`, or `p`
/// inserted before the first entry with a greater key.
pub open spec fn place(keys: Seq<Option<Seq<char>>>, ix: Seq<int>, p: int) -> Seq<int>
    decreases ix.len(),
{
    if ix.len() == 0 {
        seq![p]
    } else if keys[ix[0]] == keys[p] {
        seq![p] + ix.skip(1)
    } else if text_lt(keys[p]->0, keys[ix[0]]->0) {
        seq![p] + ix
    } else {
        seq![ix[0]] + place(keys, ix.skip(1), p)
    }
}

/// The key-order index of the first `n` positions: for each key, the last position
/// that declares it, sorted by key. Positions without a key are left out.
pub open spec fn key_index(keys: Seq<Option<Seq<char>>>, n: int) -> Seq<int>
    decreases n,
{
    if n <= 0 {
        Seq::empty()
    } else {
        let prev = key_index(keys, n - 1);
        if keys[n - 1] is Some {
            place(keys, prev, n - 1)
        } else {
            prev
        }
    }
}

/// Every entry is a position of `keys` below `n` that has a key.
pub open spec fn index_ok(keys: Seq<Option<Seq<char>>>, ix: Seq<int>, n: int) -> bool {
    forall|j: int| 0 <= j < ix.len() ==> 0 <= #[trigger] ix[j] < n && n <= keys.len() && keys[ix[j]] is Some
}

proof fn lemma_place_ok(keys: Seq<Option<Seq<char>>>, ix: Seq<int>, p: int, n: int)
    requires
        index_ok(keys, ix, n),
        0 <= p < n <= keys.len(),
        keys[p] is Some,
    ensures
        index_ok(keys, place(keys, ix, p), n),
    decreases ix.len(),
{
    if ix.len() > 0 && keys[ix[0]] != keys[p] && !text_lt(keys[p]->0, keys[ix[0]]->0) {
        assert(index_ok(keys, ix.skip(1), n)) by {
            assert forall|j: int| 0 <= j < ix.skip(1).len() implies 0 <= #[trigger] ix.skip(1)[j] < n
                && keys[ix.skip(1)[j]] is Some by {
                assert(ix.skip(1)[j] == ix[j + 1]);
            }
        }
        lemma_place_ok(keys, ix.skip(1), p, n);
        let r = seq![ix[0]] + place(keys, ix.skip(1), p);
        assert forall|j: int| 0 <= j < r.len() implies 0 <= #[trigger] r[j] < n && keys[r[j]] is Some by {
            if j > 0 {
                assert(r[j] == place(keys, ix.skip(1), p)[j - 1]);
            }
        }
    } else if ix.len() > 0 && keys[ix[0]] == keys[p] {
        let r = seq![p] + ix.skip(1);
        assert forall|j: int| 0 <= j < r.len() implies 0 <= #[trigger] r[j] < n && keys[r[j]] is Some by {
            if j > 0 {
                assert(r[j] == ix[j]);
            }
        }
    } else if ix.len() > 0 {
        let r = seq![p] + ix;
        assert forall|j: int| 0 <= j < r.len() implies 0 <= #[trigger] r[j] < n && keys[r[j]] is Some by {
            if j > 0 {
                assert(r[j] == ix[j - 1]);
            }
        }
    }
}

proof fn lemma_place_skip(keys: Seq<Option<Seq<char>>>, ix: Seq<int>, p: int, k: int)
    requires
        0 <= k <= ix.len(),
        forall|j: int|
            0 <= j < k ==> keys[#[trigger] ix[j]] != keys[p] && !text_lt(keys[p]->0, keys[ix[j]]->0),
    ensures
        place(keys, ix, p) == ix.take(k) + place(keys, ix.skip(k), p),
    decreases k,
{
    if k == 0 {
        assert(ix.take(0) + place(keys, ix.skip(0), p) =~= place(keys, ix, p)) by {
            assert(ix.skip(0) =~= ix);
        }
    } else {
        assert forall|j: int| 0 <= j < k - 1 implies keys[#[trigger] ix.skip(1)[j]] != keys[p]
            && !text_lt(keys[p]->0, keys[ix.skip(1)[j]]->0) by {
            assert(ix.skip(1)[j] == ix[j + 1]);
        }
        lemma_place_skip(keys, ix.skip(1), p, k - 1);
        assert(ix.skip(1).skip(k - 1) =~= ix.skip(k));
        assert(ix.take(k) =~= seq![ix[0]] + ix.skip(1).take(k - 1));
        assert(place(keys, ix, p) == seq![ix[0]] + place(keys, ix.skip(1), p));
    }
}

proof fn lemma_text_lt(a: Seq<char>, b: Seq<char>)
    ensures
        text_lt(a, b) ==> a != b && !text_lt(b, a),
        a != b ==> text_lt(a, b) || text_lt(b, a),
    decreases a.len(),
{
    if a.len() > 0 && b.len() > 0 && a[0] == b[0] {
        lemma_text_lt(a.skip(1), b.skip(1));
        if a.skip(1) == b.skip(1) {
            assert(a =~= seq![a[0]] + a.skip(1));
            assert(b =~= seq![b[0]] + b.skip(1));
        }
    }
    if a.len() == 0 && b.len() == 0 {
        assert(a =~= b);
    }
}

pub open spec fn keys_view(keys: Seq<Option<String>>) -> Seq<Option<Seq<char>>> {
    keys.map_values(|k: Option<String>| match k {
        Some(s) => Some(s@),
        None => None,
    })
}

pub open spec fn positions(ix: Seq<usize>) -> Seq<int> {
    ix.map_values(|p: usize| p as int)
}

/// Whether the key at `q` comes before `k`.
fn key_before(keys: &Vec<Option<String>>, q: usize, k: &String) -> (r: bool)
    requires
        q < keys@.len(),
    ensures
        r == (keys_view(keys@)[q as int] is Some && text_lt(keys_view(keys@)[q as int]->0, k@)),
{
    match &keys[q] {
        Some(kq) => text_less(kq.as_str(), k.as_str()),
        None => false,
    }
}

fn same_key_at(keys: &Vec<Option<String>>, q: usize, k: &String) -> (r: bool)
    requires
        q < keys@.len(),
    ensures
        r == (keys_view(keys@)[q as int] == Some(k@)),
{
    match &keys[q] {
        Some(kq) => *kq == *k,
        None => false,
    }
}

/// The key-order index of `keys`.
pub fn index_by_key(keys: &Vec<Option<String>>) -> (r: Vec<usize>)
    ensures
        positions(r@) == key_index(keys_view(keys@), keys@.len() as int),
        forall|j: int| 0 <= j < r@.len() ==> #[trigger] r@[j] < keys@.len() && keys@[r@[j] as int] is Some,
{
    let ghost kv = keys_view(keys@);
    let mut ix: Vec<usize> = Vec::new();
    let mut i: usize = 0;
    proof {
        assert(positions(ix@) =~= key_index(kv, 0));
    }
    while i < keys.len()
        invariant
            i <= keys@.len(),
            kv == keys_view(keys@),
            positions(ix@) == key_index(kv, i as int),
            index_ok(kv, positions(ix@), i as int),
        decreases keys@.len() - i,
    {
        let ghost ix0 = positions(ix@);
        let ghost kvi = kv[i as int];
        proof {
            assert(kvi == match keys@[i as int] {
                Some(s) => Some(s@),
                None => None::<Seq<char>>,
            });
        }
        proof {
            assert forall|t: int| 0 <= t < ix@.len() implies #[trigger] ix@[t] < keys@.len() by {
                assert(ix0[t] == ix@[t] as int);
            }
        }
        match &keys[i] {
            Some(k) => {
                let mut j: usize = 0;
                while j < ix.len() && key_before(keys, ix[j], k)
                    invariant
                        j <= ix@.len(),
                        i < keys@.len(),
                        kv == keys_view(keys@),
                        ix0 == positions(ix@),
                        kv[i as int] == Some(k@),
                        index_ok(kv, ix0, i as int),
                        forall|t: int| 0 <= t < j ==> text_lt(kv[#[trigger] ix0[t]]->0, k@),
                        forall|t: int| 0 <= t < ix@.len() ==> #[trigger] ix@[t] < keys@.len(),
                    decreases ix@.len() - j,
                {
                    j += 1;
                }
                proof {
                    assert forall|t: int| 0 <= t < j implies kv[#[trigger] ix0[t]] != kv[i as int]
                        && !text_lt(kv[i as int]->0, kv[ix0[t]]->0) by {
                        lemma_text_lt(kv[ix0[t]]->0, k@);
                    }
                    lemma_place_skip(kv, ix0, i as int, j as int);
                    lemma_place_ok(kv, ix0, i as int, i + 1);
                    assert(index_ok(kv, ix0, i + 1));
                    assert(key_index(kv, i + 1) == place(kv, ix0, i as int));
                }
                if j < ix.len() && same_key_at(keys, ix[j], k) {
                    proof {
                        let rest = ix0.skip(j as int);
                        assert(rest[0] == ix0[j as int]);
                        assert(place(kv, rest, i as int) == seq![i as int] + rest.skip(1));
                    }
                    ix.set(j, i);
                    proof {
                        assert(positions(ix@) =~= ix0.take(j as int) + (seq![i as int] + ix0.skip(j as int).skip(1)));
                    }
                } else {
                    proof {
                        let rest = ix0.skip(j as int);
                        if (j as int) < ix0.len() {
                            assert(rest[0] == ix0[j as int]);
                            assert(kv[ix0[j as int]] is Some);
                            lemma_text_lt(kv[ix0[j as int]]->0, k@);
                            assert(kv[ix0[j as int]]->0 != k@);
                            assert(text_lt(k@, kv[ix0[j as int]]->0));
                            assert(place(kv, rest, i as int) == seq![i as int] + rest);
                        } else {
                            assert(rest.len() == 0);
                        }
                    }
                    ix.insert(j, i);
                    proof {
                        assert(positions(ix@) =~= ix0.take(j as int) + (seq![i as int] + ix0.skip(j as int)));
                    }
                }
            },
            None => {
                proof {
                    assert(key_index(kv, i + 1) == ix0);
                    assert forall|t: int| 0 <= t < ix0.len() implies 0 <= #[trigger] ix0[t] < i + 1 && i + 1
                        <= kv.len() && kv[ix0[t]] is Some by {}
                }
            },
        }
        i += 1;
    }
    proof {
        assert forall|j: int| 0 <= j < ix@.len() implies #[trigger] ix@[j] < keys@.len() && keys@[ix@[j] as int] is Some by {
            assert(positions(ix@)[j] == ix@[j] as int);
            assert(kv[ix@[j] as int] is Some);
        }
    }
    ix
}

} // verus!
