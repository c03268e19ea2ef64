use vstd::prelude::*;

use crate::error::ParseError;
use crate::types::SortOption;

verus! {

/// The scale of the lightness and opacity parts of a sort key: a fraction in `0..=1`
/// becomes an integer in `0..=PRECISION_I32`.
pub const PRECISION_I32: i32 = 1000;

/// The key a color sorts by, from its hue order and its scaled lightness and opacity.
pub open spec fn spec_sortable_value(
    sort_option: SortOption,
    hue_order: i32,
    luminance_key: i32,
    opacity_key: i32,
) -> (int, int, int) {
    match sort_option {
        SortOption::Spectrum => (
            hue_order as int,
            PRECISION_I32 - luminance_key,
            PRECISION_I32 - opacity_key,
        ),
        SortOption::Luminance => (PRECISION_I32 - luminance_key, 0, 0),
        SortOption::Opacity => (PRECISION_I32 - opacity_key, 0, 0),
    }
}

/// The subtraction `PRECISION_I32 - key` fits in an `i32`.
pub open spec fn key_complement_fits(key: i32) -> bool {
    i32::MIN <= PRECISION_I32 - key <= i32::MAX
}

/// Builds the sort key of a color: by spectrum, hue first, then lighter before darker,
/// then more opaque before less; by luminance, lighter first; by opacity, more opaque first.
pub fn sortable_value_by_option(
    sort_option: SortOption,
    hue_order: i32,
    luminance_key: i32,
    opacity_key: i32,
) -> (key: SortKey)
    requires
        sort_option != SortOption::Opacity ==> key_complement_fits(luminance_key),
        sort_option != SortOption::Luminance ==> key_complement_fits(opacity_key),
    ensures
        (key.0 as int, key.1 as int, key.2 as int) == spec_sortable_value(
            sort_option,
            hue_order,
            luminance_key,
            opacity_key,
        ),
{
    match sort_option {
        SortOption::Spectrum => (hue_order, PRECISION_I32 - luminance_key, PRECISION_I32 - opacity_key),
        SortOption::Luminance => (PRECISION_I32 - luminance_key, 0, 0),
        SortOption::Opacity => (PRECISION_I32 - opacity_key, 0, 0),
    }
}

/// A sort key: three integers compared lexicographically.
pub type SortKey = (i32, i32, i32);

/// Strict lexicographic order on sort keys (the order of `Ord` on tuples).
pub open spec fn key_lt(a: SortKey, b: SortKey) -> bool {
    ||| a.0 < b.0
    ||| (a.0 == b.0 && a.1 < b.1)
    ||| (a.0 == b.0 && a.1 == b.1 && a.2 < b.2)
}

/// In a stable sort by `keys`, position `i` ends up before position `j`.
pub open spec fn stable_before(keys: Seq<SortKey>, i: int, j: int) -> bool {
    key_lt(keys[i], keys[j]) || (keys[i] == keys[j] && i < j)
}

/// `p` is a rearrangement of the positions `0..n`.
pub open spec fn is_permutation(p: Seq<usize>, n: int) -> bool {
    &&& p.len() == n
    &&& forall|k: int| 0 <= k < n ==> #[trigger] p[k] < n
    &&& forall|k: int, l: int| 0 <= k < n && 0 <= l < n && k != l ==> p[k] != p[l]
}

/// `p` lists every position of `keys` once, in the order a stable sort by key puts them.
pub open spec fn is_stable_order(keys: Seq<SortKey>, p: Seq<usize>) -> bool {
    &&& is_permutation(p, keys.len() as int)
    &&& forall|k: int, l: int|
        0 <= k < l < keys.len() ==> stable_before(keys, #[trigger] p[k] as int, #[trigger] p[l] as int)
}

/// `after` is `before` rearranged by a stable sort on `keys` (the key of `before[i]` is `keys[i]`).
pub open spec fn stably_sorted_by<T>(before: Seq<T>, keys: Seq<SortKey>, after: Seq<T>) -> bool {
    &&& before.len() == keys.len()
    &&& after.len() == before.len()
    &&& exists|p: Seq<usize>|
        #![trigger is_stable_order(keys, p)]
        is_stable_order(keys, p) && forall|k: int| 0 <= k < after.len() ==> after[k] == before[p[k] as int]
}

/// The key of a successfully read entry; the failures carry no key.
pub open spec fn key_of(entry: Result<SortKey, ParseError>) -> SortKey {
    match entry {
        Ok(k) => k,
        Err(_) => (0, 0, 0),
    }
}

/// The keys of all entries.
pub open spec fn keys_of(entries: Seq<Result<SortKey, ParseError>>) -> Seq<SortKey> {
    entries.map_values(|e: Result<SortKey, ParseError>| key_of(e))
}

/// `e` is the error of the first entry that failed.
pub open spec fn is_first_error(entries: Seq<Result<SortKey, ParseError>>, e: ParseError) -> bool {
    exists|i: int|
        0 <= i < entries.len() && entries[i] == Err::<SortKey, ParseError>(e) && forall|j: int|
            0 <= j < i ==> (#[trigger] entries[j]) is Ok
}

fn key_less(a: SortKey, b: SortKey) -> (r: bool)
    ensures
        r == key_lt(a, b),
{
    a.0 < b.0 || (a.0 == b.0 && a.1 < b.1) || (a.0 == b.0 && a.1 == b.1 && a.2 < b.2)
}

fn comes_before(keys: &Vec<SortKey>, i: usize, j: usize) -> (r: bool)
    requires
        i < keys.len(),
        j < keys.len(),
    ensures
        r == stable_before(keys@, i as int, j as int),
{
    let a = keys[i];
    let b = keys[j];
    key_less(a, b) || (a.0 == b.0 && a.1 == b.1 && a.2 == b.2 && i < j)
}

/// The positions of `keys` in the order a stable sort by key puts them (insertion sort).
pub fn stable_order(keys: &Vec<SortKey>) -> (order: Vec<usize>)
    ensures
        is_stable_order(keys@, order@),
{
    let n = keys.len();
    let mut order: Vec<usize> = Vec::new();
    for i in 0..n
        invariant
            n == keys.len(),
            order.len() == i,
            forall|k: int| 0 <= k < i ==> order@[k] == k,
    {
        order.push(i);
    }
    let mut i: usize = 1;
    while i < n
        invariant
            n == keys.len(),
            1 <= i || n == 0,
            i <= n || n == 0,
            is_permutation(order@, n as int),
            forall|k: int, l: int|
                0 <= k < l < i ==> stable_before(keys@, #[trigger] order@[k] as int, #[trigger] order@[l] as int),
        decreases n - i,
    {
        let mut j: usize = i;
        while j > 0 && comes_before(keys, order[j], order[j - 1])
            invariant
                n == keys.len(),
                0 <= j <= i < n,
                is_permutation(order@, n as int),
                forall|k: int, l: int|
                    0 <= k < l <= i && k != j && l != j ==> stable_before(
                        keys@,
                        #[trigger] order@[k] as int,
                        #[trigger] order@[l] as int,
                    ),
                forall|l: int|
                    j < l <= i ==> stable_before(keys@, order@[j as int] as int, #[trigger] order@[l] as int),
            decreases j,
        {
            let a = order[j - 1];
            let b = order[j];
            order.set(j - 1, b);
            order.set(j, a);
            j = j - 1;
        }
        assert forall|k: int, l: int| 0 <= k < l <= i implies stable_before(
            keys@,
            #[trigger] order@[k] as int,
            #[trigger] order@[l] as int,
        ) by {
            if l == j && k != j {
                if k < j - 1 {
                    assert(stable_before(keys@, order@[k] as int, order@[j - 1] as int));
                }
                assert(order@[j - 1] != order@[j as int]);
                assert(stable_before(keys@, order@[j - 1] as int, order@[j as int] as int));
            }
        }
        i = i + 1;
    }
    order
}

/// Reorders `color_strings` by a stable sort on the keys read from them.
///
/// `keys[i]` is what reading `color_strings[i]` gave: its sort key, or the error that
/// stopped it. When any entry failed, the strings stay as they are and the error of the
/// first failed entry is returned. Otherwise the strings are rearranged so that their keys
/// are in ascending order, strings with equal keys keeping their relative order.
pub fn sort_color_strings(
    color_strings: &mut [String],
    keys: &[Result<SortKey, ParseError>],
) -> (r: Result<(), ParseError>)
    requires
        old(color_strings)@.len() == keys@.len(),
    ensures
        r is Ok <==> forall|i: int| 0 <= i < keys@.len() ==> (#[trigger] keys@[i]) is Ok,
        r is Ok ==> stably_sorted_by(old(color_strings)@, keys_of(keys@), final(color_strings)@),
        r matches Err(e) ==> is_first_error(keys@, e) && final(color_strings)@ == old(color_strings)@,
{
    let n = keys.len();
    let mut plain: Vec<SortKey> = Vec::new();
    for i in 0..n
        invariant
            n == keys@.len(),
            color_strings@ == old(color_strings)@,
            plain.len() == i,
            forall|j: int| 0 <= j < i ==> (#[trigger] keys@[j]) is Ok,
            forall|j: int| 0 <= j < i ==> plain@[j] == key_of(#[trigger] keys@[j]),
    {
        match &keys[i] {
            Ok(k) => plain.push(*k),
            Err(e) => {
                assert(is_first_error(keys@, *e));
                return Err(*e);
            },
        }
    }
    assert(plain@ =~= keys_of(keys@));
    let order = stable_order(&plain);
    let mut sorted: Vec<String> = Vec::new();
    for k in 0..n
        invariant
            n == keys@.len(),
            n == color_strings@.len(),
            color_strings@ == old(color_strings)@,
            plain.len() == n,
            is_stable_order(plain@, order@),
            sorted.len() == k,
            forall|m: int| 0 <= m < k ==> sorted@[m] == color_strings@[#[trigger] order@[m] as int],
    {
        let s = color_strings[order[k]].clone();
        sorted.push(s);
    }
    for k in 0..n
        invariant
            n == keys@.len(),
            n == color_strings@.len(),
            sorted.len() == n,
            old(color_strings)@.len() == n,
            forall|m: int| 0 <= m < k ==> color_strings@[m] == #[trigger] sorted@[m],
            forall|m: int| k <= m < n ==> color_strings@[m] == old(color_strings)@[m],
    {
        color_strings[k] = sorted[k].clone();
    }
    assert(is_stable_order(keys_of(keys@), order@));
    assert forall|m: int| 0 <= m < n implies color_strings@[m] == old(color_strings)@[order@[m] as int] by {
        assert(color_strings@[m] == sorted@[m]);
    }
    Ok(())
}

/// A rearrangement of `0..n` reaches every position.
pub proof fn lemma_permutation_covers(p: Seq<usize>, n: int, j: int)
    requires
        is_permutation(p, n),
        0 <= j < n,
    ensures
        exists|k: int| 0 <= k < n && p[k] == j,
{
    let pi = p.map_values(|x: usize| x as int);
    assert(pi.no_duplicates());
    pi.unique_seq_to_set();
    let range = vstd::set_lib::set_int_range(0, n);
    vstd::set_lib::lemma_int_range(0, n);
    assert(pi.to_set().subset_of(range));
    vstd::set_lib::lemma_len_subset(pi.to_set(), range);
    vstd::set_lib::lemma_subset_equality(pi.to_set(), range);
    assert(range.contains(j));
    assert(pi.to_set().contains(j));
    let k = choose|k: int| 0 <= k < pi.len() && pi[k] == j;
    assert(p[k] == j);
}

proof fn lemma_stable_orders_agree_at(keys: Seq<SortKey>, p: Seq<usize>, q: Seq<usize>, k: int)
    requires
        is_stable_order(keys, p),
        is_stable_order(keys, q),
        0 <= k < keys.len(),
        forall|j: int| 0 <= j < k ==> p[j] == q[j],
    ensures
        p[k] == q[k],
{
    let n = keys.len() as int;
    if p[k] != q[k] {
        lemma_permutation_covers(q, n, p[k] as int);
        let l = choose|l: int| 0 <= l < n && q[l] == p[k];
        lemma_permutation_covers(p, n, q[k] as int);
        let m = choose|m: int| 0 <= m < n && p[m] == q[k];
        if l < k {
            assert(p[l] == q[l]);
        }
        if m < k {
            assert(p[m] == q[m]);
        }
        assert(stable_before(keys, q[k] as int, q[l] as int));
        assert(stable_before(keys, p[k] as int, p[m] as int));
    }
}

proof fn lemma_stable_orders_agree_below(keys: Seq<SortKey>, p: Seq<usize>, q: Seq<usize>, k: int)
    requires
        is_stable_order(keys, p),
        is_stable_order(keys, q),
        0 <= k <= keys.len(),
    ensures
        forall|j: int| 0 <= j < k ==> p[j] == q[j],
    decreases k,
{
    if k > 0 {
        lemma_stable_orders_agree_below(keys, p, q, k - 1);
        lemma_stable_orders_agree_at(keys, p, q, k - 1);
    }
}

/// There is only one stable order of a list of keys.
pub proof fn lemma_stable_order_unique(keys: Seq<SortKey>, p: Seq<usize>, q: Seq<usize>)
    requires
        is_stable_order(keys, p),
        is_stable_order(keys, q),
    ensures
        p == q,
{
    lemma_stable_orders_agree_below(keys, p, q, keys.len() as int);
    assert(p =~= q);
}

/// A stable sort has exactly one outcome: two results of sorting the same list by the same
/// keys are equal.
pub proof fn lemma_stable_sort_deterministic<T>(
    before: Seq<T>,
    keys: Seq<SortKey>,
    after1: Seq<T>,
    after2: Seq<T>,
)
    requires
        stably_sorted_by(before, keys, after1),
        stably_sorted_by(before, keys, after2),
    ensures
        after1 == after2,
{
    let p = choose|p: Seq<usize>|
        is_stable_order(keys, p) && forall|k: int| 0 <= k < after1.len() ==> after1[k] == before[p[k] as int];
    let q = choose|q: Seq<usize>|
        is_stable_order(keys, q) && forall|k: int| 0 <= k < after2.len() ==> after2[k] == before[q[k] as int];
    lemma_stable_order_unique(keys, p, q);
    assert(after1 =~= after2);
}

/// Keys already in ascending order: the stable sort leaves the list as it is.
pub proof fn lemma_stable_sort_keeps_sorted<T>(before: Seq<T>, keys: Seq<SortKey>, after: Seq<T>)
    requires
        stably_sorted_by(before, keys, after),
        forall|i: int, j: int| 0 <= i < j < keys.len() ==> !key_lt(#[trigger] keys[j], #[trigger] keys[i]),
        keys.len() <= usize::MAX,
    ensures
        after == before,
{
    let n = keys.len();
    let id = Seq::new(n, |i: int| i as usize);
    assert(forall|k: int| 0 <= k < n ==> #[trigger] id[k] as int == k);
    assert(is_stable_order(keys, id)) by {
        assert forall|k: int, l: int| 0 <= k < l < n implies stable_before(
            keys,
            #[trigger] id[k] as int,
            #[trigger] id[l] as int,
        ) by {
            assert(!key_lt(keys[l], keys[k]));
        }
    }
    assert(stably_sorted_by(before, keys, before)) by {
        assert(forall|k: int| 0 <= k < before.len() ==> before[k] == before[id[k] as int]);
    }
    lemma_stable_sort_deterministic(before, keys, after, before);
}

/// Sorting is idempotent: once sorted, sorting the result again by the keys its entries
/// carry leaves it unchanged.
pub proof fn lemma_stable_sort_idempotent<T>(
    before: Seq<T>,
    keys: Seq<SortKey>,
    p: Seq<usize>,
    again: Seq<T>,
)
    requires
        before.len() == keys.len(),
        keys.len() <= usize::MAX,
        is_stable_order(keys, p),
        stably_sorted_by(
            Seq::new(keys.len(), |k: int| before[p[k] as int]),
            Seq::new(keys.len(), |k: int| keys[p[k] as int]),
            again,
        ),
    ensures
        again == Seq::new(keys.len(), |k: int| before[p[k] as int]),
{
    let moved = Seq::new(keys.len(), |k: int| keys[p[k] as int]);
    assert forall|i: int, j: int| 0 <= i < j < moved.len() implies !key_lt(
        #[trigger] moved[j],
        #[trigger] moved[i],
    ) by {
        assert(stable_before(keys, p[i] as int, p[j] as int));
    }
    lemma_stable_sort_keeps_sorted(
        Seq::new(keys.len(), |k: int| before[p[k] as int]),
        moved,
        again,
    );
}


/// Spectrum order: the hue order is the first part of the key and decides first; within a
/// hue, a lighter color (larger luminance key) gets a strictly smaller second part and so
/// sorts first; within the same hue and lightness, a more opaque color sorts first.
pub proof fn lemma_spectrum_key_order(h1: i32, l1: i32, o1: i32, h2: i32, l2: i32, o2: i32)
    ensures
        ({
            let a = spec_sortable_value(SortOption::Spectrum, h1, l1, o1);
            let b = spec_sortable_value(SortOption::Spectrum, h2, l2, o2);
            &&& a.0 == h1
            &&& (h1 < h2 ==> a.0 < b.0)
            &&& (l1 > l2 ==> a.1 < b.1)
            &&& (l1 == l2 ==> a.1 == b.1)
            &&& (o1 > o2 ==> a.2 < b.2)
            &&& (o1 == o2 ==> a.2 == b.2)
            &&& a.1 + l1 == b.1 + l2
            &&& a.2 + o1 == b.2 + o2
        }),
{
}

/// Luminance order: only the luminance key counts, and a lighter color gets a strictly
/// smaller key, so it sorts first.
pub proof fn lemma_luminance_key_order(h1: i32, l1: i32, o1: i32, h2: i32, l2: i32, o2: i32)
    ensures
        ({
            let a = spec_sortable_value(SortOption::Luminance, h1, l1, o1);
            let b = spec_sortable_value(SortOption::Luminance, h2, l2, o2);
            &&& a.1 == 0 && a.2 == 0
            &&& (l1 > l2 ==> a.0 < b.0)
            &&& (l1 == l2 ==> a == b)
            &&& a.0 + l1 == b.0 + l2
        }),
{
}

/// Opacity order: only the opacity key counts, and a more opaque color gets a strictly
/// smaller key, so it sorts first.
pub proof fn lemma_opacity_key_order(h1: i32, l1: i32, o1: i32, h2: i32, l2: i32, o2: i32)
    ensures
        ({
            let a = spec_sortable_value(SortOption::Opacity, h1, l1, o1);
            let b = spec_sortable_value(SortOption::Opacity, h2, l2, o2);
            &&& a.1 == 0 && a.2 == 0
            &&& (o1 > o2 ==> a.0 < b.0)
            &&& (o1 == o2 ==> a == b)
            &&& a.0 + o1 == b.0 + o2
        }),
{
}

/// A fully opaque color at full lightness has the smallest key parts: `0` for lightness and
/// opacity, whatever the ordering.
pub proof fn lemma_full_light_and_opacity_key(h: i32)
    ensures
        spec_sortable_value(SortOption::Spectrum, h, PRECISION_I32, PRECISION_I32) == (h as int, 0int, 0int),
        spec_sortable_value(SortOption::Luminance, h, PRECISION_I32, PRECISION_I32) == (0int, 0int, 0int),
        spec_sortable_value(SortOption::Opacity, h, PRECISION_I32, PRECISION_I32) == (0int, 0int, 0int),
{
}

} // verus!
