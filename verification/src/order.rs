//! The order of Rust strings (byte-wise lexicographic on their UTF-8 encoding)
//! and a sort that keeps one entry per key, the first one met.

use vstd::prelude::*;
use vstd::utf8::encode_utf8;

verus! {

/// Strict lexicographic order on byte sequences; a proper prefix comes first.
pub open spec fn lex_lt(a: Seq<u8>, b: Seq<u8>) -> bool
    decreases a.len(),
{
    if a.len() == 0 {
        b.len() > 0
    } else if b.len() == 0 {
        false
    } else if a[0] < b[0] {
        true
    } else if a[0] == b[0] {
        lex_lt(a.drop_first(), b.drop_first())
    } else {
        false
    }
}

/// The bytes by which Rust orders a string.
pub open spec fn key_bytes(s: Seq<char>) -> Seq<u8> {
    encode_utf8(s)
}

/// `a < b` for two strings, as `String::cmp` orders them.
pub open spec fn str_lt(a: Seq<char>, b: Seq<char>) -> bool {
    lex_lt(key_bytes(a), key_bytes(b))
}

pub proof fn lemma_lex_irreflexive(a: Seq<u8>)
    ensures
        !lex_lt(a, a),
    decreases a.len(),
{
    if a.len() > 0 {
        lemma_lex_irreflexive(a.drop_first());
    }
}

pub proof fn lemma_lex_transitive(a: Seq<u8>, b: Seq<u8>, c: Seq<u8>)
    requires
        lex_lt(a, b),
        lex_lt(b, c),
    ensures
        lex_lt(a, c),
    decreases a.len(),
{
    if a.len() > 0 && b.len() > 0 && c.len() > 0 {
        if a[0] == b[0] && b[0] == c[0] {
            lemma_lex_transitive(a.drop_first(), b.drop_first(), c.drop_first());
        }
    }
}

pub proof fn lemma_lex_total(a: Seq<u8>, b: Seq<u8>)
    ensures
        a == b || lex_lt(a, b) || lex_lt(b, a),
    decreases a.len(),
{
    if a.len() > 0 && b.len() > 0 && a[0] == b[0] {
        lemma_lex_total(a.drop_first(), b.drop_first());
        if a.drop_first() == b.drop_first() {
            assert(a =~= seq![a[0]] + a.drop_first());
            assert(b =~= seq![b[0]] + b.drop_first());
        }
    } else if a.len() == 0 && b.len() == 0 {
        assert(a =~= b);
    }
}

/// Two strings are equal exactly when their UTF-8 encodings are.
pub proof fn lemma_key_bytes_injective(a: Seq<char>, b: Seq<char>)
    requires
        key_bytes(a) == key_bytes(b),
    ensures
        a == b,
{
    vstd::utf8::encode_utf8_decode_utf8(a);
    vstd::utf8::encode_utf8_decode_utf8(b);
}

/// `a < b` on bytes.
pub fn bytes_lt(a: &[u8], b: &[u8]) -> (r: bool)
    ensures
        r == lex_lt(a@, b@),
{
    let n = a.len();
    let m = b.len();
    let mut i: usize = 0;
    assert(a@.skip(0) =~= a@ && b@.skip(0) =~= b@);
    while i < n && i < m
        invariant
            n == a@.len(),
            m == b@.len(),
            i <= n,
            i <= m,
            lex_lt(a@, b@) == lex_lt(a@.skip(i as int), b@.skip(i as int)),
        decreases n - i,
    {
        if a[i] < b[i] {
            return true;
        }
        if a[i] > b[i] {
            return false;
        }
        proof {
            assert(a@.skip(i as int).drop_first() =~= a@.skip(i + 1));
            assert(b@.skip(i as int).drop_first() =~= b@.skip(i + 1));
        }
        i = i + 1;
    }
    i == n && i < m
}

/// `a < b` for two strings.
pub fn string_lt(a: &str, b: &str) -> (r: bool)
    ensures
        r == str_lt(a@, b@),
{
    bytes_lt(a.as_bytes(), b.as_bytes())
}

/// Whether two strings are equal.
pub fn string_eq(a: &str, b: &str) -> (r: bool)
    ensures
        r == (a@ == b@),
{
    let x = a.as_bytes();
    let y = b.as_bytes();
    let r = !bytes_lt(x, y) && !bytes_lt(y, x);
    proof {
        lemma_lex_total(x@, y@);
        if x@ == y@ {
            lemma_lex_irreflexive(x@);
            lemma_key_bytes_injective(a@, b@);
        }
        if a@ == b@ {
            lemma_lex_irreflexive(x@);
        }
    }
    r
}

/// Positions in `order` are below `bound`.
pub open spec fn positions_below(order: Seq<usize>, bound: int) -> bool {
    forall|i: int| 0 <= i < order.len() ==> #[trigger] order[i] < bound
}

/// The keys at the positions of `order` increase strictly.
pub open spec fn strictly_increasing(keys: Seq<Seq<char>>, order: Seq<usize>) -> bool {
    forall|i: int, j: int|
        0 <= i < j < order.len() ==> str_lt(keys[order[i] as int], keys[order[j] as int])
}

/// Every key among the first `bound` ones is represented in `order`.
pub open spec fn covers(keys: Seq<Seq<char>>, order: Seq<usize>, bound: int) -> bool {
    forall|k: int|
        0 <= k < bound ==> exists|i: int|
            0 <= i < order.len() && keys[#[trigger] order[i] as int] == #[trigger] keys[k]
}

/// Each position of `order` is the first occurrence of its key.
pub open spec fn first_occurrences(keys: Seq<Seq<char>>, order: Seq<usize>) -> bool {
    forall|i: int, k: int|
        #![trigger keys[k], order[i]]
        0 <= i < order.len() && 0 <= k < order[i] ==> keys[k] != keys[order[i] as int]
}

/// `order` lists positions of `keys` so that their keys increase strictly,
/// each key of `keys` is represented, and by its first occurrence.
pub open spec fn is_sorted_unique_order(keys: Seq<Seq<char>>, order: Seq<usize>) -> bool {
    &&& positions_below(order, keys.len() as int)
    &&& strictly_increasing(keys, order)
    &&& covers(keys, order, keys.len() as int)
    &&& first_occurrences(keys, order)
}

proof fn lemma_insert_positions(order: Seq<usize>, p: int, k: usize)
    requires
        0 <= p <= order.len(),
        positions_below(order, k as int),
    ensures
        positions_below(order.insert(p, k), k + 1),
{
    let new_order = order.insert(p, k);
    order.insert_ensures(p, k);
    assert forall|i: int| 0 <= i < new_order.len() implies #[trigger] new_order[i] < k + 1 by {
        if i < p {
            assert(new_order[i] == order[i]);
        } else if i > p {
            assert(new_order[i] == order[i - 1]);
        }
    };
}

proof fn lemma_insert_increasing(ks: Seq<Seq<char>>, order: Seq<usize>, p: int, k: usize)
    requires
        0 <= k < ks.len(),
        0 <= p <= order.len(),
        strictly_increasing(ks, order),
        forall|i: int| 0 <= i < p ==> str_lt(ks[#[trigger] order[i] as int], ks[k as int]),
        forall|i: int| p <= i < order.len() ==> str_lt(ks[k as int], ks[#[trigger] order[i] as int]),
    ensures
        strictly_increasing(ks, order.insert(p, k)),
{
    let new_order = order.insert(p, k);
    order.insert_ensures(p, k);
    assert forall|i: int, j: int| 0 <= i < j < new_order.len() implies str_lt(
        ks[new_order[i] as int],
        ks[new_order[j] as int],
    ) by {
        if j < p {
            assert(new_order[i] == order[i] && new_order[j] == order[j]);
        } else if j == p {
            assert(new_order[i] == order[i]);
        } else if i < p {
            assert(new_order[i] == order[i] && new_order[j] == order[j - 1]);
            assert(str_lt(ks[order[i] as int], ks[k as int]));
            assert(str_lt(ks[k as int], ks[order[j - 1] as int]));
            lemma_lex_transitive(
                key_bytes(ks[order[i] as int]),
                key_bytes(ks[k as int]),
                key_bytes(ks[order[j - 1] as int]),
            );
        } else if i == p {
            assert(new_order[j] == order[j - 1]);
        } else {
            assert(new_order[i] == order[i - 1] && new_order[j] == order[j - 1]);
            assert(str_lt(ks[order[i - 1] as int], ks[order[j - 1] as int]));
        }
    };
}

proof fn lemma_insert_covers(ks: Seq<Seq<char>>, order: Seq<usize>, p: int, k: usize)
    requires
        0 <= k < ks.len(),
        0 <= p <= order.len(),
        covers(ks, order, k as int),
    ensures
        covers(ks, order.insert(p, k), k + 1),
{
    let new_order = order.insert(p, k);
    order.insert_ensures(p, k);
    assert forall|q: int| 0 <= q < k + 1 implies exists|i: int|
        0 <= i < new_order.len() && ks[#[trigger] new_order[i] as int] == #[trigger] ks[q] by {
        if q == k {
            assert(new_order[p] == k);
        } else {
            let i = choose|i: int| 0 <= i < order.len() && ks[order[i] as int] == ks[q];
            if i < p {
                assert(new_order[i] == order[i]);
            } else {
                assert(new_order[i + 1] == order[i]);
            }
        }
    };
}

proof fn lemma_insert_first(ks: Seq<Seq<char>>, order: Seq<usize>, p: int, k: usize)
    requires
        0 <= k < ks.len(),
        0 <= p <= order.len(),
        covers(ks, order, k as int),
        first_occurrences(ks, order),
        forall|i: int| 0 <= i < p ==> str_lt(ks[#[trigger] order[i] as int], ks[k as int]),
        forall|i: int| p <= i < order.len() ==> str_lt(ks[k as int], ks[#[trigger] order[i] as int]),
    ensures
        first_occurrences(ks, order.insert(p, k)),
{
    let new_order = order.insert(p, k);
    order.insert_ensures(p, k);
    // the new key differs from every earlier key
    assert forall|q: int| 0 <= q < k implies ks[q] != ks[k as int] by {
        let i = choose|i: int| 0 <= i < order.len() && ks[order[i] as int] == ks[q];
        if ks[q] == ks[k as int] {
            if i < p {
                assert(str_lt(ks[order[i] as int], ks[k as int]));
            } else {
                assert(str_lt(ks[k as int], ks[order[i] as int]));
            }
            lemma_lex_irreflexive(key_bytes(ks[k as int]));
        }
    };
    assert forall|i: int, q: int|
        #![trigger ks[q], new_order[i]]
        0 <= i < new_order.len() && 0 <= q < new_order[i] implies ks[q] != ks[
        new_order[i] as int] by {
        if i < p {
            assert(new_order[i] == order[i]);
        } else if i > p {
            assert(new_order[i] == order[i - 1]);
        }
    };
}

/// Finds where the key at position `k` belongs in `order`: the first slot
/// whose key is not smaller, and whether that slot holds the same key.
fn find_slot(keys: &Vec<String>, order: &Vec<usize>, k: usize) -> (res: (usize, bool))
    requires
        k < keys.len(),
        positions_below(order@, k as int),
        strictly_increasing(keys@.map_values(|s: String| s@), order@),
    ensures
        ({
            let ks = keys@.map_values(|s: String| s@);
            let (p, present) = res;
            &&& p <= order.len()
            &&& forall|i: int| 0 <= i < p ==> str_lt(ks[#[trigger] order@[i] as int], ks[k as int])
            &&& present ==> p < order.len() && ks[order@[p as int] as int] == ks[k as int]
            &&& !present ==> forall|i: int|
                p <= i < order.len() ==> str_lt(ks[k as int], ks[#[trigger] order@[i] as int])
        }),
{
    let ghost ks = keys@.map_values(|s: String| s@);
    let key = keys[k].as_str();
    let mut p: usize = 0;
    while p < order.len() && string_lt(keys[order[p]].as_str(), key)
        invariant
            p <= order.len(),
            k < keys.len(),
            key@ == ks[k as int],
            ks == keys@.map_values(|s: String| s@),
            positions_below(order@, k as int),
            forall|i: int| 0 <= i < p ==> str_lt(ks[#[trigger] order@[i] as int], ks[k as int]),
        decreases order.len() - p,
    {
        p = p + 1;
    }
    let present = p < order.len() && string_eq(keys[order[p]].as_str(), key);
    proof {
        if !present {
            assert forall|i: int| p <= i < order.len() implies str_lt(
                ks[k as int],
                ks[#[trigger] order@[i] as int],
            ) by {
                let a = key_bytes(ks[order@[p as int] as int]);
                let b = key_bytes(ks[k as int]);
                lemma_lex_total(a, b);
                if a == b {
                    lemma_key_bytes_injective(ks[order@[p as int] as int], ks[k as int]);
                }
                assert(lex_lt(b, a));
                if i > p {
                    assert(str_lt(ks[order@[p as int] as int], ks[order@[i] as int]));
                    lemma_lex_transitive(b, a, key_bytes(ks[order@[i] as int]));
                }
            };
        }
    }
    (p, present)
}

/// The positions of `keys` in increasing key order, one per distinct key (its
/// first occurrence): the effect of a stable `sort_by` on the key followed by
/// `dedup_by` on the key.
pub fn sorted_unique_order(keys: &Vec<String>) -> (order: Vec<usize>)
    ensures
        is_sorted_unique_order(keys@.map_values(|s: String| s@), order@),
{
    let ghost ks = keys@.map_values(|s: String| s@);
    let mut order: Vec<usize> = Vec::new();
    let mut k: usize = 0;
    while k < keys.len()
        invariant
            k <= keys.len(),
            ks == keys@.map_values(|s: String| s@),
            positions_below(order@, k as int),
            strictly_increasing(ks, order@),
            covers(ks, order@, k as int),
            first_occurrences(ks, order@),
        decreases keys.len() - k,
    {
        let (p, present) = find_slot(keys, &order, k);
        if !present {
            proof {
                lemma_insert_positions(order@, p as int, k);
                lemma_insert_increasing(ks, order@, p as int, k);
                lemma_insert_covers(ks, order@, p as int, k);
                lemma_insert_first(ks, order@, p as int, k);
            }
            order.insert(p, k);
        } else {
            proof {
                assert forall|q: int| 0 <= q < k + 1 implies exists|i: int|
                    0 <= i < order.len() && ks[#[trigger] order@[i] as int] == #[trigger] ks[q] by {
                    if q == k {
                        assert(ks[order@[p as int] as int] == ks[q]);
                    }
                };
            }
        }
        k = k + 1;
    }
    order
}

} // verus!
