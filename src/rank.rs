use vstd::prelude::*;

verus! {

/// A key (an author, a domain) with the number of times it occurred.
pub struct RankEntry {
    pub name: String,
    pub count: usize,
}

/// A count table: keys with their counts.
pub type Tally = Seq<(Seq<char>, nat)>;

pub open spec fn entry_view(e: RankEntry) -> (Seq<char>, nat) {
    (e.name@, e.count as nat)
}

pub open spec fn entries_view(v: Seq<RankEntry>) -> Tally {
    v.map_values(|e: RankEntry| entry_view(e))
}

pub open spec fn strings_view(v: Seq<String>) -> Seq<Seq<char>> {
    v.map_values(|s: String| s@)
}

/// First position at or after `i` where `t` holds key `k`, or -1.
pub open spec fn key_index(t: Tally, k: Seq<char>, i: int) -> int
    decreases t.len() - i,
{
    if i < 0 || i >= t.len() {
        -1
    } else if t[i].0 == k {
        i
    } else {
        key_index(t, k, i + 1)
    }
}

/// `t` after one more occurrence of `k`: its count goes up by one, or it is
/// added at the end with count 1.
pub open spec fn tally_step(t: Tally, k: Seq<char>) -> Tally {
    let p = key_index(t, k, 0);
    if p < 0 {
        t.push((k, 1))
    } else {
        t.update(p, (k, t[p].1 + 1))
    }
}

/// Each distinct key of `keys` with its number of occurrences, in the order
/// in which the keys first occur.
pub open spec fn tally(keys: Seq<Seq<char>>) -> Tally
    decreases keys.len(),
{
    if keys.len() == 0 {
        seq![]
    } else {
        tally_step(tally(keys.drop_last()), keys.last())
    }
}

/// Where `e` goes in `s` (sorted by count, highest first): after every entry
/// with a count at least its own.
pub open spec fn insert_pos(s: Tally, e: (Seq<char>, nat), i: int) -> int
    decreases s.len() - i,
{
    if i < 0 || i >= s.len() {
        s.len() as int
    } else if s[i].1 < e.1 {
        i
    } else {
        insert_pos(s, e, i + 1)
    }
}

/// `t` ordered by count, highest first; entries with equal counts keep their
/// order in `t`.
pub open spec fn rank(t: Tally) -> Tally
    decreases t.len(),
{
    if t.len() == 0 {
        seq![]
    } else {
        let r = rank(t.drop_last());
        r.insert(insert_pos(r, t.last(), 0), t.last())
    }
}

/// The first `n` entries of `s`, or all of them.
pub open spec fn top(s: Tally, n: nat) -> Tally {
    if n < s.len() {
        s.take(n as int)
    } else {
        s
    }
}

/// The `n` most frequent keys of `keys`, ties in order of first occurrence.
pub open spec fn top_keys(keys: Seq<Seq<char>>, n: nat) -> Tally {
    top(rank(tally(keys)), n)
}

pub open spec fn sorted_desc(s: Tally) -> bool {
    forall|i: int, j: int| 0 <= i < j < s.len() ==> s[i].1 >= s[j].1
}

/// No key occurs twice in `t`.
pub open spec fn distinct_keys(t: Tally) -> bool {
    forall|i: int, j: int| 0 <= i < j < t.len() ==> t[i].0 != t[j].0
}

proof fn lemma_key_index(t: Tally, k: Seq<char>, i: int)
    requires
        0 <= i,
    ensures
        key_index(t, k, i) == -1 || (i <= key_index(t, k, i) < t.len() && t[key_index(t, k, i)].0
            == k),
        key_index(t, k, i) == -1 ==> forall|j: int| i <= j < t.len() ==> t[j].0 != k,
    decreases t.len() - i,
{
    if i < t.len() && t[i].0 != k {
        lemma_key_index(t, k, i + 1);
    }
}

proof fn lemma_key_index_at(t: Tally, m: int, i: int)
    requires
        distinct_keys(t),
        0 <= i <= m < t.len(),
    ensures
        key_index(t, t[m].0, i) == m,
    decreases m - i,
{
    if i < m {
        assert(t[i].0 != t[m].0);
        lemma_key_index_at(t, m, i + 1);
    }
}

/// A tally holds each key once.
pub proof fn lemma_tally_distinct(keys: Seq<Seq<char>>)
    ensures
        distinct_keys(tally(keys)),
    decreases keys.len(),
{
    if keys.len() > 0 {
        lemma_tally_distinct(keys.drop_last());
        lemma_key_index(tally(keys.drop_last()), keys.last(), 0);
    }
}

proof fn lemma_insert_members(r: Tally, p: int, e: (Seq<char>, nat))
    requires
        0 <= p <= r.len(),
    ensures
        forall|x: (Seq<char>, nat)| #[trigger] r.insert(p, e).contains(x) <==> (r.contains(x) || x == e),
{
    let r2 = r.insert(p, e);
    assert forall|x: (Seq<char>, nat)| r2.contains(x) implies r.contains(x) || x == e by {
        let k = choose|k: int| 0 <= k < r2.len() && r2[k] == x;
        if k < p {
            assert(r[k] == x);
        } else if k > p {
            assert(r[k - 1] == x);
        }
    }
    assert forall|x: (Seq<char>, nat)| r.contains(x) implies r2.contains(x) by {
        let k = choose|k: int| 0 <= k < r.len() && r[k] == x;
        if k < p {
            assert(r2[k] == x);
        } else {
            assert(r2[k + 1] == x);
        }
    }
    assert(r2[p] == e);
}

proof fn lemma_drop_last_members(t: Tally)
    requires
        t.len() > 0,
    ensures
        forall|x: (Seq<char>, nat)| #[trigger] t.contains(x) <==> (t.drop_last().contains(x) || x
            == t.last()),
{
    let tp = t.drop_last();
    assert forall|x: (Seq<char>, nat)| t.contains(x) implies tp.contains(x) || x == t.last() by {
        let k = choose|k: int| 0 <= k < t.len() && t[k] == x;
        if k < tp.len() {
            assert(tp[k] == x);
        }
    }
    assert forall|x: (Seq<char>, nat)| tp.contains(x) implies t.contains(x) by {
        let k = choose|k: int| 0 <= k < tp.len() && tp[k] == x;
        assert(t[k] == x);
    }
    assert(t[t.len() - 1] == t.last());
}

/// A ranking holds exactly the entries of the tally.
pub proof fn lemma_rank_members(t: Tally)
    ensures
        forall|x: (Seq<char>, nat)| #[trigger] rank(t).contains(x) <==> t.contains(x),
    decreases t.len(),
{
    if t.len() > 0 {
        let r = rank(t.drop_last());
        lemma_rank_members(t.drop_last());
        lemma_rank_sorted(t.drop_last());
        lemma_insert_pos(r, t.last(), 0);
        lemma_insert_members(r, insert_pos(r, t.last(), 0), t.last());
        lemma_drop_last_members(t);
    }
}

/// A ranking holds the entries of the tally, and entries with equal counts
/// keep their order in the tally.
#[verifier::rlimit(50)]
pub proof fn lemma_rank_stable(t: Tally)
    requires
        distinct_keys(t),
    ensures
        forall|x: (Seq<char>, nat)| #[trigger] rank(t).contains(x) <==> t.contains(x),
        forall|i: int, j: int|
            0 <= i < j < rank(t).len() && rank(t)[i].1 == rank(t)[j].1 ==> key_index(
                t,
                rank(t)[i].0,
                0,
            ) < key_index(t, rank(t)[j].0, 0),
    decreases t.len(),
{
    if t.len() > 0 {
        let tp = t.drop_last();
        let e = t.last();
        let r = rank(tp);
        assert(distinct_keys(tp));
        lemma_rank_stable(tp);
        lemma_rank_members(t);
        lemma_rank_sorted(tp);
        lemma_insert_pos(r, e, 0);
        let p = insert_pos(r, e, 0);
        let r2 = rank(t);
        assert(r2 == r.insert(p, e));
        // Each entry of `r` stands in `tp` at the same index as in `t`.
        assert forall|k: int| 0 <= k < r.len() implies key_index(t, #[trigger] r[k].0, 0)
            == key_index(tp, r[k].0, 0) && key_index(t, r[k].0, 0) < t.len() - 1 by {
            assert(r.contains(r[k]));
            let m = choose|m: int| 0 <= m < tp.len() && tp[m] == r[k];
            assert(t[m] == tp[m]);
            lemma_key_index_at(t, m, 0);
            lemma_key_index_at(tp, m, 0);
        }
        lemma_key_index_at(t, t.len() - 1, 0);
        assert forall|i: int, j: int|
            0 <= i < j < r2.len() && r2[i].1 == r2[j].1 implies key_index(t, r2[i].0, 0)
            < key_index(t, r2[j].0, 0) by {
            if j < p {
                assert(r2[i] == r[i] && r2[j] == r[j]);
            } else if j == p {
                assert(r2[i] == r[i]);
            } else if i < p {
                assert(r2[i] == r[i] && r2[j] == r[j - 1]);
            } else if i == p {
                assert(r2[j] == r[j - 1]);
                assert(r[p].1 < e.1);
                assert(r[p].1 >= r[j - 1].1);
            } else {
                assert(r2[i] == r[i - 1] && r2[j] == r[j - 1]);
            }
        }
    }
}

/// The first position at or after `i` where `keys` holds `k`, or -1.
pub open spec fn first_at(keys: Seq<Seq<char>>, k: Seq<char>, i: int) -> int
    decreases keys.len() - i,
{
    if i < 0 || i >= keys.len() {
        -1
    } else if keys[i] == k {
        i
    } else {
        first_at(keys, k, i + 1)
    }
}

proof fn lemma_first_at_found(keys: Seq<Seq<char>>, k: Seq<char>, i: int, j: int)
    requires
        0 <= i <= j < keys.len(),
        keys[j] == k,
    ensures
        i <= first_at(keys, k, i) <= j,
        forall|x: Seq<char>| first_at(keys.push(x), k, i) == first_at(keys, k, i),
    decreases j - i,
{
    assert forall|x: Seq<char>| #[trigger] keys.push(x)[i] == keys[i] by {}
    if keys[i] != k {
        lemma_first_at_found(keys, k, i + 1, j);
    }
}

proof fn lemma_first_at_new(keys: Seq<Seq<char>>, k: Seq<char>, i: int)
    requires
        0 <= i <= keys.len(),
        !keys.contains(k),
    ensures
        first_at(keys.push(k), k, i) == keys.len(),
    decreases keys.len() - i,
{
    if i < keys.len() {
        assert(keys.push(k)[i] == keys[i]);
        assert(keys[i] != k);
        lemma_first_at_new(keys, k, i + 1);
    } else {
        assert(keys.push(k)[i] == k);
    }
}

/// A tally holds exactly the keys of the sequence, each in order of its
/// first occurrence.
pub proof fn lemma_tally_first_occurrence(keys: Seq<Seq<char>>)
    ensures
        forall|k: Seq<char>|
            (exists|j: int| 0 <= j < tally(keys).len() && #[trigger] tally(keys)[j].0 == k)
                <==> keys.contains(k),
        forall|a: int| 0 <= a < tally(keys).len() ==> 0 <= #[trigger] first_at(keys, tally(keys)[a].0, 0) < keys.len(),
        forall|a: int, b: int|
            0 <= a < b < tally(keys).len() ==> first_at(keys, tally(keys)[a].0, 0) < first_at(
                keys,
                tally(keys)[b].0,
                0,
            ),
    decreases keys.len(),
{
    if keys.len() > 0 {
        let kp = keys.drop_last();
        let k = keys.last();
        let tp = tally(kp);
        let t = tally(keys);
        assert(keys == kp.push(k));
        lemma_tally_first_occurrence(kp);
        lemma_key_index(tp, k, 0);
        // Entries carried over from the prefix keep their first occurrence.
        assert forall|a: int| 0 <= a < tp.len() implies first_at(keys, #[trigger] tp[a].0, 0)
            == first_at(kp, tp[a].0, 0) && 0 <= first_at(kp, tp[a].0, 0) < kp.len() by {
            assert(kp.contains(tp[a].0));
            let j = choose|j: int| 0 <= j < kp.len() && kp[j] == tp[a].0;
            lemma_first_at_found(kp, tp[a].0, 0, j);
        }
        if key_index(tp, k, 0) < 0 {
            assert(!kp.contains(k)) by {
                if kp.contains(k) {
                    let j = choose|j: int| 0 <= j < tp.len() && #[trigger] tp[j].0 == k;
                }
            }
            lemma_first_at_new(kp, k, 0);
            assert(t == tp.push((k, 1)));
            assert forall|a: int| 0 <= a < t.len() implies 0 <= #[trigger] first_at(keys, t[a].0, 0)
                < keys.len() by {
                if a < tp.len() {
                    assert(t[a] == tp[a]);
                }
            }
            assert forall|a: int, b: int| 0 <= a < b < t.len() implies first_at(keys, t[a].0, 0)
                < first_at(keys, t[b].0, 0) by {
                assert(t[a] == tp[a]);
                if b < tp.len() {
                    assert(t[b] == tp[b]);
                }
            }
        } else {
            let p = key_index(tp, k, 0);
            assert(t == tp.update(p, (k, tp[p].1 + 1)));
            assert forall|a: int| 0 <= a < t.len() implies t[a].0 == tp[a].0 by {}
        }
        assert forall|x: Seq<char>|
            (exists|j: int| 0 <= j < t.len() && #[trigger] t[j].0 == x) <==> keys.contains(x) by {
            if keys.contains(x) {
                let m = choose|m: int| 0 <= m < keys.len() && keys[m] == x;
                if m < kp.len() {
                    assert(kp[m] == x);
                    assert(kp.contains(x));
                    let j = choose|j: int| 0 <= j < tp.len() && #[trigger] tp[j].0 == x;
                    assert(t[j].0 == x);
                } else if key_index(tp, k, 0) < 0 {
                    assert(t[tp.len() as int].0 == x);
                } else {
                    assert(t[key_index(tp, k, 0)].0 == x);
                }
            }
            if exists|j: int| 0 <= j < t.len() && #[trigger] t[j].0 == x {
                let j = choose|j: int| 0 <= j < t.len() && #[trigger] t[j].0 == x;
                if j < tp.len() {
                    assert(t[j].0 == tp[j].0);
                    assert(kp.contains(x));
                    let m = choose|m: int| 0 <= m < kp.len() && kp[m] == x;
                    assert(keys[m] == x);
                } else {
                    assert(keys[keys.len() - 1] == x);
                }
            }
        }
    }
}

/// In the ranking of a key sequence, keys with equal counts stand in the
/// order of their first occurrence in the sequence.
pub proof fn lemma_top_keys_ties(keys: Seq<Seq<char>>, n: nat)
    ensures
        forall|i: int, j: int|
            0 <= i < j < top_keys(keys, n).len() && top_keys(keys, n)[i].1 == top_keys(keys, n)[j].1
                ==> first_at(keys, top_keys(keys, n)[i].0, 0) < first_at(
                keys,
                top_keys(keys, n)[j].0,
                0,
            ),
{
    let t = tally(keys);
    let r = rank(t);
    let s = top_keys(keys, n);
    lemma_tally_distinct(keys);
    lemma_rank_stable(t);
    lemma_tally_first_occurrence(keys);
    assert forall|i: int| 0 <= i < s.len() implies 0 <= #[trigger] key_index(t, s[i].0, 0) < t.len()
        && t[key_index(t, s[i].0, 0)].0 == s[i].0 by {
        assert(s[i] == r[i]);
        assert(r.contains(r[i]));
        let m = choose|m: int| 0 <= m < t.len() && t[m] == r[i];
        lemma_key_index(t, s[i].0, 0);
    }
    assert forall|i: int, j: int|
        0 <= i < j < s.len() && s[i].1 == s[j].1 implies first_at(keys, s[i].0, 0) < first_at(
        keys,
        s[j].0,
        0,
    ) by {
        assert(s[i] == r[i] && s[j] == r[j]);
        let a = key_index(t, s[i].0, 0);
        let b = key_index(t, s[j].0, 0);
        assert(a < b);
    }
}

/// A tally has no more entries than keys, and each count lies between one and
/// the number of keys.
pub proof fn lemma_tally_bounds(keys: Seq<Seq<char>>)
    ensures
        tally(keys).len() <= keys.len(),
        forall|j: int| 0 <= j < tally(keys).len() ==> 1 <= #[trigger] tally(keys)[j].1 <= keys.len(),
    decreases keys.len(),
{
    if keys.len() > 0 {
        lemma_tally_bounds(keys.drop_last());
        lemma_key_index(tally(keys.drop_last()), keys.last(), 0);
    }
}

proof fn lemma_insert_pos(s: Tally, e: (Seq<char>, nat), i: int)
    requires
        0 <= i <= s.len(),
    ensures
        i <= insert_pos(s, e, i) <= s.len(),
        forall|j: int| i <= j < insert_pos(s, e, i) ==> s[j].1 >= e.1,
        insert_pos(s, e, i) < s.len() ==> s[insert_pos(s, e, i)].1 < e.1,
    decreases s.len() - i,
{
    if i < s.len() && s[i].1 >= e.1 {
        lemma_insert_pos(s, e, i + 1);
    }
}

/// A ranking is ordered by count, highest first, and keeps every entry.
pub proof fn lemma_rank_sorted(t: Tally)
    ensures
        sorted_desc(rank(t)),
        rank(t).len() == t.len(),
    decreases t.len(),
{
    if t.len() > 0 {
        let r = rank(t.drop_last());
        lemma_rank_sorted(t.drop_last());
        lemma_insert_pos(r, t.last(), 0);
        let p = insert_pos(r, t.last(), 0);
        let r2 = r.insert(p, t.last());
        assert forall|i: int, j: int| 0 <= i < j < r2.len() implies r2[i].1 >= r2[j].1 by {
            if j < p {
            } else if j == p {
            } else if i < p {
                assert(r[i].1 >= t.last().1);
            } else if i == p {
                assert(r[p].1 < t.last().1);
                assert(r[p].1 >= r[j - 1].1);
            } else {
            }
        }
    }
}

/// A copy of `entries`.
pub fn copy_entries(entries: &Vec<RankEntry>) -> (r: Vec<RankEntry>)
    ensures
        entries_view(r@) == entries_view(entries@),
{
    let mut r: Vec<RankEntry> = Vec::new();
    let mut i: usize = 0;
    while i < entries.len()
        invariant
            i <= entries@.len(),
            r@.len() == i,
            forall|j: int| 0 <= j < i ==> entry_view(#[trigger] r@[j]) == entry_view(entries@[j]),
        decreases entries@.len() - i,
    {
        r.push(RankEntry { name: entries[i].name.clone(), count: entries[i].count });
        i = i + 1;
    }
    assert(entries_view(r@) =~= entries_view(entries@));
    r
}

/// Adds one occurrence of `key` to `entries`.
pub fn count_key(entries: &mut Vec<RankEntry>, key: &String)
    requires
        forall|j: int| 0 <= j < old(entries)@.len() ==> #[trigger] old(entries)@[j].count < usize::MAX,
    ensures
        entries_view(final(entries)@) == tally_step(entries_view(old(entries)@), key@),
        final(entries)@.len() >= old(entries)@.len(),
        forall|j: int|
            0 <= j < final(entries)@.len() ==> #[trigger] final(entries)@[j].count <= 1 + (if j
                < old(entries)@.len() {
                old(entries)@[j].count as int
            } else {
                0
            }),
{
    let ghost t = entries_view(entries@);
    let mut i: usize = 0;
    while i < entries.len() && entries[i].name != *key
        invariant
            t == entries_view(entries@),
            i <= entries@.len(),
            key_index(t, key@, 0) == key_index(t, key@, i as int),
        decreases entries@.len() - i,
    {
        i = i + 1;
    }
    if i == entries.len() {
        entries.push(RankEntry { name: key.clone(), count: 1 });
        assert(entries_view(entries@) =~= t.push((key@, 1)));
    } else {
        let c = entries[i].count + 1;
        entries.set(i, RankEntry { name: key.clone(), count: c });
        assert(entries_view(entries@) =~= t.update(i as int, (key@, t[i as int].1 + 1)));
    }
}

/// Counts each distinct key, in order of first occurrence.
pub fn tally_keys(keys: &Vec<String>) -> (r: Vec<RankEntry>)
    ensures
        entries_view(r@) == tally(strings_view(keys@)),
{
    let ghost ks = strings_view(keys@);
    let mut r: Vec<RankEntry> = Vec::new();
    let mut i: usize = 0;
    while i < keys.len()
        invariant
            ks == strings_view(keys@),
            i <= keys@.len(),
            entries_view(r@) == tally(ks.take(i as int)),
        decreases keys@.len() - i,
    {
        proof {
            lemma_tally_bounds(ks.take(i as int));
            assert forall|j: int| 0 <= j < r@.len() implies #[trigger] r@[j].count < usize::MAX by {
                assert(entries_view(r@)[j].1 == r@[j].count);
            }
        }
        count_key(&mut r, &keys[i]);
        assert(ks.take(i + 1).drop_last() =~= ks.take(i as int));
        i = i + 1;
    }
    assert(ks.take(keys@.len() as int) =~= ks);
    r
}

/// Orders `entries` by count, highest first, keeping the order of equal counts.
pub fn rank_entries(entries: &Vec<RankEntry>) -> (r: Vec<RankEntry>)
    ensures
        entries_view(r@) == rank(entries_view(entries@)),
{
    let ghost t = entries_view(entries@);
    let mut r: Vec<RankEntry> = Vec::new();
    let mut i: usize = 0;
    while i < entries.len()
        invariant
            t == entries_view(entries@),
            i <= entries@.len(),
            entries_view(r@) == rank(t.take(i as int)),
        decreases entries@.len() - i,
    {
        let e = RankEntry { name: entries[i].name.clone(), count: entries[i].count };
        let ghost rv = entries_view(r@);
        proof {
            lemma_rank_sorted(t.take(i as int));
        }
        let mut p: usize = 0;
        while p < r.len() && r[p].count >= e.count
            invariant
                rv == entries_view(r@),
                p <= r@.len(),
                insert_pos(rv, entry_view(e), 0) == insert_pos(rv, entry_view(e), p as int),
            decreases r@.len() - p,
        {
            p = p + 1;
        }
        r.insert(p, e);
        assert(t.take(i + 1).drop_last() =~= t.take(i as int));
        assert(t.take(i + 1).last() == entry_view(e));
        assert(entries_view(r@) =~= rv.insert(p as int, entry_view(e)));
        i = i + 1;
    }
    assert(t.take(entries@.len() as int) =~= t);
    r
}

/// The `limit` most frequent of `keys`, ties in order of first occurrence.
pub fn top_keys_of(keys: &Vec<String>, limit: usize) -> (r: Vec<RankEntry>)
    ensures
        entries_view(r@) == top_keys(strings_view(keys@), limit as nat),
        sorted_desc(entries_view(r@)),
{
    let t = tally_keys(keys);
    let mut r = rank_entries(&t);
    proof {
        lemma_rank_sorted(entries_view(t@));
    }
    let ghost before = r@;
    r.truncate(limit);
    assert(entries_view(r@) =~= top(entries_view(before), limit as nat));
    r
}

} // verus!
