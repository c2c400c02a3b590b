//! Lexicographic order on character sequences and a stable sort of paths by
//! a key, as `sort_by_key` on `String` keys orders them.

use vstd::prelude::*;

verus! {

/// `a` comes strictly before `b` in lexicographic order of code points, which
/// is the byte order of their UTF-8 encodings and so the order of `String`.
pub open spec fn key_lt(a: Seq<char>, b: Seq<char>) -> bool
    decreases a.len(),
{
    if a.len() == 0 {
        b.len() > 0
    } else if b.len() == 0 {
        false
    } else if a[0] != b[0] {
        (a[0] as u32) < (b[0] as u32)
    } else {
        key_lt(a.drop_first(), b.drop_first())
    }
}

pub proof fn lemma_key_lt_transitive(a: Seq<char>, b: Seq<char>, c: Seq<char>)
    requires
        key_lt(a, b),
        key_lt(b, c),
    ensures
        key_lt(a, c),
    decreases a.len(),
{
    if a.len() > 0 && b.len() > 0 && c.len() > 0 {
        if a[0] == b[0] && b[0] == c[0] {
            lemma_key_lt_transitive(a.drop_first(), b.drop_first(), c.drop_first());
        } else {
            assert((a[0] as u32) != (c[0] as u32) ==> a[0] != c[0]);
        }
    }
}

pub proof fn lemma_key_lt_total(a: Seq<char>, b: Seq<char>)
    ensures
        key_lt(a, b) || key_lt(b, a) || a == b,
    decreases a.len(),
{
    if a.len() > 0 && b.len() > 0 {
        if a[0] == b[0] {
            lemma_key_lt_total(a.drop_first(), b.drop_first());
            if a.drop_first() == b.drop_first() {
                assert(a =~= seq![a[0]] + a.drop_first());
                assert(b =~= seq![b[0]] + b.drop_first());
            }
        } else {
            vstd::utf8::char_u32_cast(a[0], a[0] as u32);
            vstd::utf8::char_u32_cast(b[0], b[0] as u32);
        }
    } else if a.len() == 0 && b.len() == 0 {
        assert(a =~= b);
    }
}

/// Whether `a` comes strictly before `b`.
pub fn chars_lt(a: &[char], b: &[char]) -> (r: bool)
    ensures
        r == key_lt(a@, b@),
{
    let mut i: usize = 0;
    proof {
        assert(a@.skip(0) =~= a@);
        assert(b@.skip(0) =~= b@);
    }
    loop
        invariant
            i <= a@.len(),
            i <= b@.len(),
            key_lt(a@, b@) == key_lt(a@.skip(i as int), b@.skip(i as int)),
        decreases a@.len() - i,
    {
        if i == a.len() {
            return i < b.len();
        }
        if i == b.len() {
            return false;
        }
        if a[i] != b[i] {
            return (a[i] as u32) < (b[i] as u32);
        }
        proof {
            assert(a@.skip(i as int).drop_first() =~= a@.skip(i + 1));
            assert(b@.skip(i as int).drop_first() =~= b@.skip(i + 1));
        }
        i += 1;
    }
}

/// `perm` shows that `output` is `input` sorted stably by `keys` (the key of
/// `input[i]` is `keys[i]`): `output[i]` is `input[perm[i]]`, every index is
/// used once, and the pairs (key, original index) increase strictly.
pub open spec fn stable_sort_witness(
    input: Seq<Seq<char>>,
    keys: Seq<Seq<char>>,
    output: Seq<Seq<char>>,
    perm: Seq<int>,
) -> bool {
    &&& keys.len() == input.len()
    &&& perm.len() == input.len()
    &&& output.len() == input.len()
    &&& forall|i: int| 0 <= i < perm.len() ==> 0 <= #[trigger] perm[i] < input.len()
    &&& forall|i: int| 0 <= i < perm.len() ==> #[trigger] output[i] == input[perm[i]]
    &&& forall|i: int, j: int|
        0 <= i < j < perm.len() ==> {
            ||| key_lt(keys[perm[i]], keys[perm[j]])
            ||| (keys[perm[i]] == keys[perm[j]] && perm[i] < perm[j])
        }
}

/// `output` is `input` sorted stably by `keys`. Since the order on
/// (key, index) pairs is strict and total, `output` is unique.
pub open spec fn stably_sorted(input: Seq<Seq<char>>, keys: Seq<Seq<char>>, output: Seq<Seq<char>>) -> bool {
    exists|perm: Seq<int>| stable_sort_witness(input, keys, output, perm)
}

/// The views of a vector of strings.
pub open spec fn strings_view(v: Seq<String>) -> Seq<Seq<char>> {
    v.map_values(|s: String| s@)
}

/// Sorts `items` stably by `keys` (insertion sort).
pub fn stable_sort_by_keys(items: Vec<String>, keys: Vec<Vec<char>>) -> (sorted: Vec<String>)
    requires
        keys@.len() == items@.len(),
    ensures
        stably_sorted(
            strings_view(items@),
            keys@.map_values(|k: Vec<char>| k@),
            strings_view(sorted@),
        ),
{
    let ghost input = strings_view(items@);
    let ghost ks = keys@.map_values(|k: Vec<char>| k@);
    let n = items.len();
    let mut items = items;
    // Sorted prefix, as indices into the input.
    let mut order: Vec<usize> = Vec::new();
    let ghost mut perm: Seq<int> = Seq::empty();
    let mut m: usize = 0;
    while m < n
        invariant
            n == items@.len(),
            n == keys@.len(),
            input == strings_view(items@),
            ks == keys@.map_values(|k: Vec<char>| k@),
            m <= n,
            order@.len() == m,
            perm.len() == m,
            forall|i: int| 0 <= i < m ==> #[trigger] perm[i] == order@[i] as int,
            forall|i: int| 0 <= i < m ==> 0 <= #[trigger] perm[i] < m,
            forall|i: int| 0 <= i < m ==> #[trigger] order@[i] < m,
            forall|i: int, j: int| 0 <= i < j < m ==> perm[i] != perm[j],
            forall|i: int, j: int|
                0 <= i < j < m ==> {
                    ||| key_lt(ks[perm[i]], ks[perm[j]])
                    ||| (ks[perm[i]] == ks[perm[j]] && perm[i] < perm[j])
                },
        decreases n - m,
    {
        // First position whose key is strictly greater than the key of `m`.
        let mut p: usize = 0;
        while p < m && !chars_lt(keys[m].as_slice(), keys[order[p]].as_slice())
            invariant
                n == items@.len(),
                n == keys@.len(),
                ks == keys@.map_values(|k: Vec<char>| k@),
                m < n,
                p <= m,
                order@.len() == m,
                perm.len() == m,
                forall|i: int| 0 <= i < m ==> #[trigger] perm[i] == order@[i] as int,
                forall|i: int| 0 <= i < m ==> 0 <= #[trigger] perm[i] < m,
                forall|i: int| 0 <= i < m ==> #[trigger] order@[i] < m,
                forall|i: int| 0 <= i < p ==> !key_lt(ks[m as int], ks[#[trigger] perm[i]]),
            decreases m - p,
        {
            p += 1;
        }
        let ghost old_perm = perm;
        proof {
            assert forall|i: int| 0 <= i < p implies !key_lt(ks[m as int], ks[#[trigger] old_perm[i]]) by {}
            if p < m {
                assert(key_lt(ks[m as int], ks[old_perm[p as int]]));
            }
            // Everything from `p` on has a key strictly greater than that of `m`.
            assert forall|i: int| p <= i < m implies key_lt(ks[m as int], ks[#[trigger] old_perm[i]]) by {
                if i > p {
                    let a = ks[old_perm[p as int]];
                    let b = ks[old_perm[i]];
                    if key_lt(a, b) {
                        lemma_key_lt_transitive(ks[m as int], a, b);
                    }
                }
            }
            perm = old_perm.insert(p as int, m as int);
            assert forall|i: int, j: int| 0 <= i < j < m + 1 implies {
                ||| key_lt(ks[perm[i]], ks[perm[j]])
                ||| (ks[perm[i]] == ks[perm[j]] && perm[i] < perm[j])
            } by {
                if i < p && j == p {
                    let a = ks[old_perm[i]];
                    lemma_key_lt_total(a, ks[m as int]);
                } else if i == p {
                    assert(perm[j] == old_perm[j - 1]);
                } else if i < p {
                    assert(perm[i] == old_perm[i]);
                    if j < p {
                        assert(perm[j] == old_perm[j]);
                    } else {
                        assert(perm[j] == old_perm[j - 1]);
                    }
                } else {
                    assert(perm[i] == old_perm[i - 1]);
                    assert(perm[j] == old_perm[j - 1]);
                }
            }
        }
        order.insert(p, m);
        m += 1;
    }
    let mut sorted: Vec<String> = Vec::new();
    let mut i: usize = 0;
    while i < n
        invariant
            n == items@.len(),
            n == order@.len(),
            input == strings_view(items@),
            i <= n,
            sorted@.len() == i,
            forall|k: int| 0 <= k < n ==> 0 <= #[trigger] order@[k] < n,
            forall|k: int| 0 <= k < i ==> #[trigger] sorted@[k]@ == input[order@[k] as int],
        decreases n - i,
    {
        let s = items[order[i]].clone();
        sorted.push(s);
        i += 1;
    }
    proof {
        let out = strings_view(sorted@);
        assert(stable_sort_witness(input, ks, out, perm));
    }
    sorted
}

} // verus!
