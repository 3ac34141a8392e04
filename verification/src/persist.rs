use vstd::prelude::*;
use crate::table::Table;

verus! {

/// Keys are pairwise distinct.
pub open spec fn distinct_keys(s: Seq<(u64, u64)>) -> bool {
    forall|i: int, j: int| 0 <= i < j < s.len() ==> s[i].0 != s[j].0
}

/// Two entry lists carry exactly the same pairs.
pub open spec fn same_pairs(a: Seq<(u64, u64)>, b: Seq<(u64, u64)>) -> bool {
    forall|p: (u64, u64)| #[trigger] a.contains(p) <==> b.contains(p)
}

/// The JSON document serde_json writes for these entries as an
/// integer-keyed object.
pub uninterp spec fn policy_json(entries: Seq<(u64, u64)>) -> Seq<char>;

/// Relies on `serde_json::to_string` over a `BTreeMap<u64, u64>`: a
/// plain JSON object with decimal keys; on such a map it cannot fail.
#[verifier::external_body]
fn policy_to_json_raw(entries: &Vec<(u64, u64)>) -> (r: String)
    requires
        distinct_keys(entries@),
    ensures
        r@ == policy_json(entries@),
{
    let map: std::collections::BTreeMap<u64, u64> = entries.iter().copied().collect();
    serde_json::to_string(&map).unwrap()
}

/// Parsing gave back exactly the binding set any matching document was
/// written from, with pairwise distinct keys.
pub open spec fn parses_policy_back(s: Seq<char>, r: Option<Vec<(u64, u64)>>) -> bool {
    forall|e: Seq<(u64, u64)>|
        distinct_keys(e) && s == policy_json(e) ==> (r matches Some(v) && distinct_keys(v@)
            && same_pairs(v@, e))
}

/// Relies on `serde_json::from_str` into a `BTreeMap<u64, u64>`:
/// parsing the serialization of a `u64`-keyed map gives back exactly
/// its bindings, any successful parse is a genuine map (each key held
/// once), and text that is no such object is refused.
#[verifier::external_body]
fn policy_from_json_raw(s: &str) -> (r: Option<Vec<(u64, u64)>>)
    ensures
        parses_policy_back(s@, r),
        r matches Some(v) ==> distinct_keys(v@),
{
    match serde_json::from_str::<std::collections::BTreeMap<u64, u64>>(s) {
        Ok(map) => Some(map.into_iter().collect()),
        Err(_) => None,
    }
}

fn copy_pairs(t: &Table<u64>) -> (r: Vec<(u64, u64)>)
    ensures
        r@ =~= t.entries@,
{
    let n = t.entries.len();
    let mut out: Vec<(u64, u64)> = Vec::new();
    let mut i: usize = 0;
    while i < n
        invariant
            n == t.entries@.len(),
            i <= n,
            out@ =~= t.entries@.take(i as int),
        decreases n - i,
    {
        out.push(t.entries[i]);
        proof {
            assert(out@ =~= t.entries@.take(i + 1));
        }
        i += 1;
    }
    proof {
        assert(t.entries@.take(n as int) =~= t.entries@);
    }
    out
}

/// The policy as its JSON document.
pub fn save_policy_doc(policy: &Table<u64>) -> (r: String)
    requires
        policy.wf(),
    ensures
        r@ == policy_json(policy.entries@),
{
    let entries = copy_pairs(policy);
    policy_to_json_raw(&entries)
}

/// The policy encoded in a JSON document, or nothing when the text is
/// no integer-keyed object. A document written by `save_policy_doc`
/// parses back to exactly the binding set it was written from.
pub fn load_policy_doc(doc: &str) -> (r: Option<Table<u64>>)
    ensures
        forall|e: Seq<(u64, u64)>|
            distinct_keys(e) && doc@ == policy_json(e) ==> (r matches Some(t) && t.wf()
                && same_pairs(t.entries@, e)),
        r matches Some(t) ==> t.wf(),
{
    let parsed = policy_from_json_raw(doc);
    match parsed {
        Some(pairs) => {
            let mut t: Table<u64> = Table::new();
            let n = pairs.len();
            let mut i: usize = 0;
            while i < n
                invariant
                    n == pairs@.len(),
                    i <= n,
                    t.wf(),
                    distinct_keys(pairs@) ==> t.entries@ =~= pairs@.take(i as int),
                decreases n - i,
            {
                let (k, v) = pairs[i];
                let ghost pre_t = t;
                t.insert(k, v);
                proof {
                    if distinct_keys(pairs@) {
                        if pre_t.contains_sp(k) {
                            let w = pre_t.idx_of(k);
                            assert(pre_t.entries@[w] == pairs@.take(i as int)[w]);
                            assert(pairs@[w].0 == pairs@[i as int].0);
                        }
                        assert(t.entries@ =~= pairs@.take(i + 1));
                    }
                }
                i += 1;
            }
            proof {
                if distinct_keys(pairs@) {
                    assert(pairs@.take(n as int) =~= pairs@);
                }
            }
            Some(t)
        },
        None => None,
    }
}

/// A policy map survives the save/load round trip: loading the saved
/// document reproduces exactly the original bindings.
pub fn policy_round_trip(policy: &Table<u64>) -> (r: Table<u64>)
    requires
        policy.wf(),
    ensures
        r.wf(),
        forall|k: u64| #[trigger] r.contains_sp(k) == policy.contains_sp(k),
        forall|k: u64| #[trigger] policy.contains_sp(k) ==> r.val_of(k) == policy.val_of(k),
{
    let doc = save_policy_doc(policy);
    let loaded = load_policy_doc(doc.as_str());
    match loaded {
        Some(t) => {
            proof {
                assert(distinct_keys(policy.entries@));
                assert(same_pairs(t.entries@, policy.entries@));
                assert forall|k: u64| #[trigger] t.contains_sp(k) == policy.contains_sp(k) by {
                    if t.contains_sp(k) {
                        let w = t.idx_of(k);
                        assert(t.entries@.contains(t.entries@[w]));
                        assert(policy.entries@.contains(t.entries@[w]));
                        let x = choose|x: int|
                            0 <= x < policy.entries@.len() && #[trigger] policy.entries@[x]
                                == t.entries@[w];
                        policy.lemma_idx(k, x);
                    }
                    if policy.contains_sp(k) {
                        let w = policy.idx_of(k);
                        assert(policy.entries@.contains(policy.entries@[w]));
                        assert(t.entries@.contains(policy.entries@[w]));
                        let x = choose|x: int|
                            0 <= x < t.entries@.len() && #[trigger] t.entries@[x]
                                == policy.entries@[w];
                        t.lemma_idx(k, x);
                    }
                }
                assert forall|k: u64| #[trigger] policy.contains_sp(k) implies t.val_of(k)
                    == policy.val_of(k) by {
                    let w = policy.idx_of(k);
                    assert(policy.entries@.contains(policy.entries@[w]));
                    assert(t.entries@.contains(policy.entries@[w]));
                    let x = choose|x: int|
                        0 <= x < t.entries@.len() && #[trigger] t.entries@[x]
                            == policy.entries@[w];
                    t.lemma_idx(k, x);
                }
            }
            t
        },
        None => {
            proof {
                assert(false);
            }
            Table::new()
        },
    }
}

/// Every key fits the dense index range and every value the action
/// range.
pub open spec fn dense_range(e: Seq<(u64, u64)>) -> bool {
    forall|x: int| 0 <= x < e.len() ==> (#[trigger] e[x]).0 < 0xFFFF_FFFF && e[x].1 < 0x1_0000_0000
}

/// What a dense array rebuilt from the bindings `e` holds: one slot
/// per index up to the largest key, every binding at its key, action 0
/// in every hole.
pub open spec fn dense_matches(e: Seq<(u64, u64)>, v: Seq<usize>) -> bool {
    &&& (e.len() == 0 ==> v.len() == 1)
    &&& (e.len() > 0 ==> exists|x: int|
        0 <= x < e.len() && (#[trigger] e[x]).0 + 1 == v.len())
    &&& forall|x: int|
        0 <= x < e.len() ==> ((#[trigger] e[x]).0 as int) < v.len() && v[e[x].0 as int]
            == e[x].1 as usize
    &&& forall|d: int|
        0 <= d < v.len() && (forall|x: int| 0 <= x < e.len() ==> (#[trigger] e[x]).0 != d)
            ==> v[d] == 0
}

/// A dense policy rebuilt from its map document: an array sized one
/// past the largest key, unnamed indices defaulting to action 0.
pub fn dense_from_pairs(pairs: &Vec<(u64, u64)>) -> (r: Vec<usize>)
    requires
        dense_range(pairs@),
        distinct_keys(pairs@),
    ensures
        dense_matches(pairs@, r@),
{
    let n = pairs.len();
    let mut max_key: u64 = 0;
    let ghost mut max_at: int = 0;
    let mut i: usize = 0;
    while i < n
        invariant
            n == pairs@.len(),
            i <= n,
            max_key < 0xFFFF_FFFF,
            dense_range(pairs@),
            forall|x: int| 0 <= x < i ==> (#[trigger] pairs@[x]).0 <= max_key,
            i > 0 ==> 0 <= max_at < i && pairs@[max_at].0 == max_key,
            i == 0 ==> max_key == 0,
        decreases n - i,
    {
        if i == 0 || pairs[i].0 > max_key {
            max_key = pairs[i].0;
            proof {
                max_at = i as int;
            }
        }
        i += 1;
    }
    let len = (max_key + 1) as usize;
    let mut out: Vec<usize> = Vec::new();
    let mut j: usize = 0;
    while j < len
        invariant
            j <= len,
            out@.len() == j,
            forall|d: int| 0 <= d < j ==> (#[trigger] out@[d]) == 0,
        decreases len - j,
    {
        out.push(0);
        j += 1;
    }
    let mut i2: usize = 0;
    while i2 < n
        invariant
            n == pairs@.len(),
            i2 <= n,
            out@.len() == len,
            len == max_key + 1,
            dense_range(pairs@),
            distinct_keys(pairs@),
            forall|x: int| 0 <= x < n ==> (#[trigger] pairs@[x]).0 <= max_key,
            forall|x: int|
                0 <= x < i2 ==> (#[trigger] out@[pairs@[x].0 as int]) == pairs@[x].1 as usize,
            forall|d: int|
                0 <= d < len && (forall|x: int| 0 <= x < n ==> (#[trigger] pairs@[x]).0 != d)
                    ==> out@[d] == 0,
        decreases n - i2,
    {
        let (k, v) = pairs[i2];
        let ghost pre = out@;
        out[k as usize] = v as usize;
        proof {
            assert forall|x: int|
                0 <= x < i2 + 1 implies (#[trigger] out@[pairs@[x].0 as int]) == pairs@[x].1 as usize by {
                if x < i2 {
                    assert(pairs@[x].0 != pairs@[i2 as int].0);
                    assert(out@[pairs@[x].0 as int] == pre[pairs@[x].0 as int]);
                }
            }
        }
        i2 += 1;
    }
    proof {
        if n > 0 {
            assert(pairs@[max_at].0 + 1 == out@.len());
        }
    }
    out
}

/// Parses a dense policy's map document into the array form, or
/// nothing when the text is no such object or a key or value is out
/// of the dense range. A document written from in-range bindings
/// parses back to exactly their dense array.
pub fn load_dense_policy(doc: &str) -> (r: Option<Vec<usize>>)
    ensures
        forall|e: Seq<(u64, u64)>|
            distinct_keys(e) && dense_range(e) && doc@ == policy_json(e) ==> (r matches Some(v)
                && dense_matches(e, v@)),
{
    let parsed = policy_from_json_raw(doc);
    match parsed {
        Some(pairs) => {
            let n = pairs.len();
            let mut i: usize = 0;
            let mut ok = true;
            while i < n
                invariant
                    n == pairs@.len(),
                    i <= n,
                    ok ==> forall|x: int|
                        0 <= x < i ==> (#[trigger] pairs@[x]).0 < 0xFFFF_FFFF && pairs@[x].1
                            < 0x1_0000_0000,
                    !ok ==> exists|x: int|
                        0 <= x < n && ((#[trigger] pairs@[x]).0 >= 0xFFFF_FFFF || pairs@[x].1
                            >= 0x1_0000_0000),
                decreases n - i,
            {
                if pairs[i].0 >= 0xFFFF_FFFF || pairs[i].1 >= 0x1_0000_0000 {
                    ok = false;
                }
                i += 1;
            }
            if ok {
                let dense = dense_from_pairs(&pairs);
                proof {
                    assert forall|e: Seq<(u64, u64)>|
                        distinct_keys(e) && dense_range(e) && doc@ == policy_json(e) implies (
                    Some(dense) matches Some(v) && dense_matches(e, v@)) by {
                        assert(same_pairs(pairs@, e));
                        // every binding of e lands at its slot
                        assert forall|x: int|
                            0 <= x < e.len() implies ((#[trigger] e[x]).0 as int) < dense@.len()
                            && dense@[e[x].0 as int] == e[x].1 as usize by {
                            assert(e.contains(e[x]));
                            assert(pairs@.contains(e[x]));
                            let w = choose|w: int|
                                0 <= w < pairs@.len() && #[trigger] pairs@[w] == e[x];
                            assert(dense@[pairs@[w].0 as int] == pairs@[w].1 as usize);
                        }
                        // every hole of the dense array is a hole of e
                        assert forall|d: int|
                            0 <= d < dense@.len() && (forall|x: int|
                                0 <= x < e.len() ==> (#[trigger] e[x]).0 != d) implies dense@[d]
                            == 0 by {
                            assert forall|x: int|
                                0 <= x < pairs@.len() implies (#[trigger] pairs@[x]).0 != d by {
                                assert(pairs@.contains(pairs@[x]));
                                assert(e.contains(pairs@[x]));
                                let w = choose|w: int|
                                    0 <= w < e.len() && #[trigger] e[w] == pairs@[x];
                            }
                        }
                        // the array ends one past some key of e
                        if e.len() > 0 {
                            assert(pairs@.len() > 0) by {
                                assert(e.contains(e[0]));
                                assert(pairs@.contains(e[0]));
                            }
                            let x0 = choose|x0: int|
                                0 <= x0 < pairs@.len() && (#[trigger] pairs@[x0]).0 + 1
                                    == dense@.len();
                            assert(pairs@.contains(pairs@[x0]));
                            assert(e.contains(pairs@[x0]));
                            let w = choose|w: int| 0 <= w < e.len() && #[trigger] e[w] == pairs@[x0];
                            assert(e[w].0 + 1 == dense@.len());
                        } else {
                            assert(pairs@.len() == 0) by {
                                if pairs@.len() > 0 {
                                    assert(pairs@.contains(pairs@[0]));
                                    assert(e.contains(pairs@[0]));
                                }
                            }
                        }
                    }
                }
                Some(dense)
            } else {
                proof {
                    assert forall|e: Seq<(u64, u64)>|
                        distinct_keys(e) && dense_range(e) && doc@ == policy_json(e) implies (
                    None::<Vec<usize>> matches Some(v) && dense_matches(e, v@)) by {
                        assert(same_pairs(pairs@, e));
                        let x = choose|x: int|
                            0 <= x < pairs@.len() && ((#[trigger] pairs@[x]).0 >= 0xFFFF_FFFF
                                || pairs@[x].1 >= 0x1_0000_0000);
                        assert(pairs@.contains(pairs@[x]));
                        assert(e.contains(pairs@[x]));
                        let w = choose|w: int| 0 <= w < e.len() && #[trigger] e[w] == pairs@[x];
                        assert(e[w].0 < 0xFFFF_FFFF && e[w].1 < 0x1_0000_0000);
                    }
                }
                None
            }
        },
        None => None,
    }
}

} // verus!
