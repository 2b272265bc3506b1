//! Lists in order: by a number, then by a name, then by the place in the table.

use vstd::prelude::*;

use crate::text;

verus! {

/// What an entry of a list is sorted by, and its place in the table.
#[derive(Debug)]
pub struct SortKey {
    pub rank: i128,
    pub name: String,
    pub at: usize,
}

#[verifier::ext_equal]
pub struct KeyView {
    pub rank: int,
    pub name: Seq<char>,
    pub at: int,
}

impl View for SortKey {
    type V = KeyView;

    open spec fn view(&self) -> KeyView {
        KeyView { rank: self.rank as int, name: self.name@, at: self.at as int }
    }
}

pub open spec fn keys_view(s: Seq<SortKey>) -> Seq<KeyView> {
    Seq::new(s.len(), |i: int| s[i]@)
}

pub open spec fn key_before(a: KeyView, b: KeyView) -> bool {
    a.rank < b.rank || (a.rank == b.rank && (text::before(a.name, b.name) || (a.name == b.name
        && a.at < b.at)))
}

pub open spec fn keys_sorted(s: Seq<KeyView>) -> bool {
    forall|i: int, j: int|
        0 <= i < j < s.len() ==> key_before(#[trigger] s[i], #[trigger] s[j])
}

/// `places` are the entries of a table of `n` that are kept, each once, sorted by their keys.
pub open spec fn lists(
    places: Seq<int>,
    n: int,
    keep: spec_fn(int) -> bool,
    key: spec_fn(int) -> KeyView,
) -> bool {
    &&& forall|i: int| 0 <= i < places.len() ==> 0 <= #[trigger] places[i] < n && keep(places[i])
    &&& forall|j: int| 0 <= j < n && keep(j) ==> #[trigger] places.contains(j)
    &&& forall|i: int, j: int|
        0 <= i < j < places.len() ==> key_before(
            key(#[trigger] places[i]),
            key(#[trigger] places[j]),
        )
}

/// The keys of the kept entries among the first `n`.
pub open spec fn keys_of(
    keys: Seq<KeyView>,
    n: int,
    keep: spec_fn(int) -> bool,
    key: spec_fn(int) -> KeyView,
) -> bool {
    &&& forall|k: int|
        0 <= k < keys.len() ==> 0 <= (#[trigger] keys[k]).at < n && keep(keys[k].at) && keys[k]
            == key(keys[k].at)
    &&& forall|j: int|
        0 <= j < n ==> (#[trigger] key(j)).at == j && (keep(j) ==> keys.contains(key(j)))
    &&& forall|a: int, b: int|
        0 <= a < b < keys.len() ==> (#[trigger] keys[a]).at < (#[trigger] keys[b]).at
}

proof fn lemma_key_order(a: KeyView, b: KeyView)
    requires
        a.at != b.at,
    ensures
        key_before(a, b) || key_before(b, a),
        !(key_before(a, b) && key_before(b, a)),
{
    text::lemma_before_is_total(a.name, b.name);
}

proof fn lemma_key_order_transitive(a: KeyView, b: KeyView, c: KeyView)
    requires
        key_before(a, b),
        key_before(b, c),
    ensures
        key_before(a, c),
{
    if a.rank == b.rank && b.rank == c.rank {
        if text::before(a.name, b.name) && text::before(b.name, c.name) {
            text::lemma_before_is_transitive(a.name, b.name, c.name);
        }
    }
}

fn comes_first(a: &SortKey, b: &SortKey) -> (r: bool)
    ensures
        r == key_before(a@, b@),
{
    a.rank < b.rank || (a.rank == b.rank && (text::comes_before(a.name.as_str(), b.name.as_str())
        || (a.name == b.name && a.at < b.at)))
}

/// Puts a key into its place among sorted ones.
fn place_key(sorted: &mut Vec<SortKey>, key: SortKey)
    requires
        keys_sorted(keys_view(old(sorted)@)),
        forall|i: int| 0 <= i < old(sorted)@.len() ==> (#[trigger] old(sorted)@[i]).at != key.at,
    ensures
        keys_sorted(keys_view(final(sorted)@)),
        final(sorted)@.len() == old(sorted)@.len() + 1,
        forall|k: KeyView|
            keys_view(final(sorted)@).contains(k) <==> keys_view(old(sorted)@).contains(k) || k
                == key@,
{
    let ghost before = keys_view(sorted@);
    let ghost new = key@;
    let mut at: usize = 0;
    while at < sorted.len() && comes_first(&sorted[at], &key)
        invariant
            at <= sorted@.len(),
            before == keys_view(sorted@),
            sorted@ == old(sorted)@,
            new == key@,
            forall|k: int| 0 <= k < at ==> key_before(#[trigger] before[k], new),
        decreases sorted@.len() - at,
    {
        assert(before[at as int] == sorted@[at as int]@);
        at += 1;
    }
    sorted.insert(at, key);
    proof {
        let after = keys_view(sorted@);
        assert(after =~= before.insert(at as int, new));
        if at < before.len() {
            assert(before[at as int] == old(sorted)@[at as int]@);
            lemma_key_order(before[at as int], new);
        }
        assert forall|i: int, j: int| 0 <= i < j < after.len() implies key_before(
            #[trigger] after[i],
            #[trigger] after[j],
        ) by {
            if i != at && j != at {
                let x = if i < at {
                    i
                } else {
                    i - 1
                };
                let y = if j < at {
                    j
                } else {
                    j - 1
                };
                assert(key_before(before[x], before[y]));
            } else if i == at {
                assert(after[j] == before[j - 1]);
                if j - 1 > at {
                    assert(key_before(before[at as int], before[j - 1]));
                    lemma_key_order_transitive(new, before[at as int], before[j - 1]);
                }
            } else {
                assert(after[i] == before[i]);
            }
        }
        assert forall|k: KeyView| after.contains(k) <==> before.contains(k) || k == new by {
            if before.contains(k) {
                let m = choose|m: int| 0 <= m < before.len() && before[m] == k;
                if m < at {
                    assert(after[m] == k);
                } else {
                    assert(after[m + 1] == k);
                }
            }
            if k == new {
                assert(after[at as int] == k);
            }
            if after.contains(k) && k != new {
                let m = choose|m: int| 0 <= m < after.len() && after[m] == k;
                if m < at {
                    assert(before[m] == k);
                } else {
                    assert(before[m - 1] == k);
                }
            }
        }
    }
}

/// The places of the kept entries of a table, in the order of their keys.
pub(crate) fn sorted_places(
    keys: Vec<SortKey>,
    Ghost(n): Ghost<int>,
    Ghost(keep): Ghost<spec_fn(int) -> bool>,
    Ghost(key): Ghost<spec_fn(int) -> KeyView>,
) -> (r: Vec<usize>)
    requires
        keys_of(keys_view(keys@), n, keep, key),
    ensures
        lists(r@.map_values(|p: usize| p as int), n, keep, key),
{
    let ghost view = keys_view(keys@);
    let mut rest = keys;
    let mut sorted: Vec<SortKey> = Vec::new();
    proof {
        assert(view.subrange(view.len() as int, view.len() as int) =~= Seq::empty());
    }
    while rest.len() > 0
        invariant
            rest@.len() <= view.len(),
            keys_of(view, n, keep, key),
            keys_view(rest@) == view.subrange(0, rest@.len() as int),
            keys_sorted(keys_view(sorted@)),
            forall|k: KeyView|
                keys_view(sorted@).contains(k) <==> view.subrange(
                    rest@.len() as int,
                    view.len() as int,
                ).contains(k),
        decreases rest@.len(),
    {
        let ghost left = rest@.len();
        let ghost tail = view.subrange(left as int, view.len() as int);
        let ghost was = keys_view(sorted@);
        let item = rest.pop().unwrap();
        proof {
            assert(item@ == view[left - 1]) by {
                assert(view.subrange(0, left as int)[left - 1] == view[left - 1]);
            }
            assert(keys_view(rest@) =~= view.subrange(0, left - 1));
            assert forall|i: int| 0 <= i < sorted@.len() implies (#[trigger] sorted@[i]).at
                != item.at by {
                assert(was[i] == sorted@[i]@);
                assert(was.contains(was[i]));
                assert(tail.contains(was[i]));
                let m = choose|m: int| 0 <= m < tail.len() && tail[m] == was[i];
                assert(view[left + m] == was[i]);
                assert(view[left - 1].at < view[left + m].at);
            }
        }
        let ghost new = item@;
        place_key(&mut sorted, item);
        proof {
            let longer = view.subrange(left - 1, view.len() as int);
            assert forall|k: KeyView| keys_view(sorted@).contains(k) <==> longer.contains(k) by {
                if longer.contains(k) {
                    let m = choose|m: int| 0 <= m < longer.len() && longer[m] == k;
                    if m > 0 {
                        assert(tail[m - 1] == k);
                    }
                }
                if tail.contains(k) {
                    let m = choose|m: int| 0 <= m < tail.len() && tail[m] == k;
                    assert(longer[m + 1] == k);
                }
                assert(longer[0] == new);
            }
        }
    }
    proof {
        assert(view.subrange(0, view.len() as int) =~= view);
    }
    let ghost done = keys_view(sorted@);
    let mut out: Vec<usize> = Vec::new();
    let mut i: usize = 0;
    while i < sorted.len()
        invariant
            i <= sorted@.len(),
            out@.len() == i,
            forall|k: int| 0 <= k < i ==> #[trigger] out@[k] == sorted@[k].at,
        decreases sorted@.len() - i,
    {
        out.push(sorted[i].at);
        i += 1;
    }
    proof {
        let places = out@.map_values(|p: usize| p as int);
        assert forall|k: int| 0 <= k < places.len() implies 0 <= #[trigger] places[k] < n && keep(
            places[k],
        ) && key(places[k]) == done[k] by {
            assert(done[k] == sorted@[k]@);
            assert(done.contains(done[k]));
            assert(view.contains(done[k]));
            let m = choose|m: int| 0 <= m < view.len() && view[m] == done[k];
            assert(view[m].at == out@[k]);
        }
        assert forall|j: int| 0 <= j < n && keep(j) implies #[trigger] places.contains(j) by {
            assert(view.contains(key(j)));
            assert(done.contains(key(j)));
            let m = choose|m: int| 0 <= m < done.len() && done[m] == key(j);
            assert(done[m] == sorted@[m]@);
            assert(places[m] == j);
        }
        assert forall|a: int, b: int| 0 <= a < b < places.len() implies key_before(
            key(#[trigger] places[a]),
            key(#[trigger] places[b]),
        ) by {
            assert(key_before(done[a], done[b]));
        }
    }
    out
}

/// One more entry of the table: its key joins the others if it is kept.
pub proof fn lemma_keys_grow(
    keys: Seq<KeyView>,
    n: int,
    keep: spec_fn(int) -> bool,
    key: spec_fn(int) -> KeyView,
)
    requires
        n >= 0,
        keys_of(keys, n, keep, key),
        key(n).at == n,
    ensures
        keys_of(
            if keep(n) {
                keys.push(key(n))
            } else {
                keys
            },
            n + 1,
            keep,
            key,
        ),
{
    let after = if keep(n) {
        keys.push(key(n))
    } else {
        keys
    };
    assert forall|j: int| 0 <= j < n + 1 implies (#[trigger] key(j)).at == j && (keep(j)
        ==> after.contains(key(j))) by {
        if j < n {
            if keep(j) {
                let m = choose|m: int| 0 <= m < keys.len() && keys[m] == key(j);
                assert(after[m] == key(j));
            }
        } else if keep(n) {
            assert(after[keys.len() as int] == key(n));
        }
    }
    assert forall|k: int| 0 <= k < after.len() implies 0 <= (#[trigger] after[k]).at < n + 1
        && keep(after[k].at) && after[k] == key(after[k].at) by {
        if k < keys.len() {
            assert(after[k] == keys[k]);
        }
    }
    assert forall|a: int, b: int| 0 <= a < b < after.len() implies (#[trigger] after[a]).at < (
    #[trigger] after[b]).at by {
        assert(after[a] == keys[a]);
        if b < keys.len() {
            assert(after[b] == keys[b]);
        }
    }
}

proof fn lemma_sorted_places_agree(
    a: Seq<int>,
    b: Seq<int>,
    n: int,
    keep: spec_fn(int) -> bool,
    key: spec_fn(int) -> KeyView,
    i: int,
)
    requires
        lists(a, n, keep, key),
        lists(b, n, keep, key),
        forall|j: int| 0 <= j < n ==> (#[trigger] key(j)).at == j,
        0 <= i < a.len(),
        i <= b.len(),
        forall|k: int| 0 <= k < i ==> a[k] == b[k],
    ensures
        i < b.len(),
        !key_before(key(b[i]), key(a[i])),
{
    assert(b.contains(a[i]));
    let m = choose|m: int| 0 <= m < b.len() && b[m] == a[i];
    if m < i {
        assert(a[m] == b[m]);
        assert(key_before(key(a[m]), key(a[i])));
        assert(false) by {
            assert(a[m] == a[i]);
            text::lemma_before_is_total(key(a[i]).name, key(a[i]).name);
        }
    }
    // b[m] == a[i] stands at or behind b[i]
    if m > i {
        assert(a.contains(b[i]));
        let w = choose|w: int| 0 <= w < a.len() && a[w] == b[i];
        if w < i {
            assert(b[w] == a[w]);
            assert(key_before(key(b[w]), key(b[i])));
            assert(false) by {
                text::lemma_before_is_total(key(b[i]).name, key(b[i]).name);
            }
        }
        if w > i {
            assert(key_before(key(a[i]), key(a[w])));
            assert(key_before(key(b[i]), key(b[m])));
            text::lemma_before_is_total(key(a[i]).name, key(b[i]).name);
            assert(false);
        }
        assert(a[i] == b[i]);
        text::lemma_before_is_total(key(a[i]).name, key(a[i]).name);
    } else {
        text::lemma_before_is_total(key(a[i]).name, key(a[i]).name);
    }
}

proof fn lemma_lists_agree_up_to(
    a: Seq<int>,
    b: Seq<int>,
    n: int,
    keep: spec_fn(int) -> bool,
    key: spec_fn(int) -> KeyView,
    i: int,
)
    requires
        lists(a, n, keep, key),
        lists(b, n, keep, key),
        forall|j: int| 0 <= j < n ==> (#[trigger] key(j)).at == j,
        0 <= i <= a.len(),
    ensures
        i <= b.len(),
        forall|k: int| 0 <= k < i ==> a[k] == b[k],
    decreases i,
{
    if i > 0 {
        lemma_lists_agree_up_to(a, b, n, keep, key, i - 1);
        lemma_sorted_places_agree(a, b, n, keep, key, i - 1);
        lemma_sorted_places_agree(b, a, n, keep, key, i - 1);
        if a[i - 1] != b[i - 1] {
            lemma_key_order(key(a[i - 1]), key(b[i - 1]));
        }
    }
}

/// There is one list of the kept entries in the order of their keys.
pub proof fn law_list_is_unique(
    a: Seq<int>,
    b: Seq<int>,
    n: int,
    keep: spec_fn(int) -> bool,
    key: spec_fn(int) -> KeyView,
)
    requires
        lists(a, n, keep, key),
        lists(b, n, keep, key),
        forall|j: int| 0 <= j < n ==> (#[trigger] key(j)).at == j,
    ensures
        a == b,
{
    lemma_lists_agree_up_to(a, b, n, keep, key, a.len() as int);
    lemma_lists_agree_up_to(b, a, n, keep, key, b.len() as int);
    assert(a =~= b);
}

proof fn lemma_place_once(
    a: Seq<int>,
    n: int,
    keep: spec_fn(int) -> bool,
    key: spec_fn(int) -> KeyView,
    i: int,
    j: int,
)
    requires
        lists(a, n, keep, key),
        0 <= i < a.len(),
        0 <= j < a.len(),
        a[i] == a[j],
    ensures
        i == j,
{
    text::lemma_before_is_total(key(a[i]).name, key(a[i]).name);
    if i < j {
        assert(key_before(key(a[i]), key(a[j])));
    } else if j < i {
        assert(key_before(key(a[j]), key(a[i])));
    }
}

proof fn lemma_same_place(
    a: Seq<int>,
    b: Seq<int>,
    n: int,
    keep: spec_fn(int) -> bool,
    key: spec_fn(int) -> KeyView,
    i: int,
)
    requires
        lists(a, n, keep, key),
        lists(b, n, keep, key),
        forall|k: int| 0 <= k < n ==> (#[trigger] key(k)).at == k,
        0 <= i < a.len(),
    ensures
        i < b.len(),
        a[i] == b[i],
    decreases i,
{
    assert forall|k: int| 0 <= k < i implies k < b.len() && #[trigger] a[k] == b[k] by {
        lemma_same_place(a, b, n, keep, key, k);
    }
    let x = a[i];
    assert(keep(x) && b.contains(x));
    let p = choose|p: int| 0 <= p < b.len() && b[p] == x;
    if p < i {
        assert(a[p] == b[p]);
        lemma_place_once(a, n, keep, key, p, i);
    }
    let y = b[i];
    assert(keep(y) && a.contains(y));
    let q = choose|q: int| 0 <= q < a.len() && a[q] == y;
    if q < i {
        assert(a[q] == b[q]);
        lemma_place_once(b, n, keep, key, q, i);
    }
    if x != y {
        assert(p > i && q > i);
        assert(key_before(key(b[i]), key(b[p])));
        assert(key_before(key(a[i]), key(a[q])));
        assert(key(x).at == x && key(y).at == y);
        lemma_key_order(key(x), key(y));
    }
}

/// A table has one list only: which entries are kept and by what they are sorted decides the places.
pub proof fn law_sorted_list_is_unique(
    a: Seq<int>,
    b: Seq<int>,
    n: int,
    keep: spec_fn(int) -> bool,
    key: spec_fn(int) -> KeyView,
)
    requires
        lists(a, n, keep, key),
        lists(b, n, keep, key),
        forall|k: int| 0 <= k < n ==> (#[trigger] key(k)).at == k,
    ensures
        a == b,
{
    assert forall|i: int| 0 <= i < a.len() implies i < b.len() && #[trigger] a[i] == b[i] by {
        lemma_same_place(a, b, n, keep, key, i);
    }
    if a.len() < b.len() {
        lemma_same_place(b, a, n, keep, key, b.len() - 1);
    }
    if a.len() > b.len() {
        lemma_same_place(a, b, n, keep, key, a.len() - 1);
    }
    assert(a =~= b);
}

} // verus!
