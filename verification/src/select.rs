//! Ranking of candidate maps by hazard density: counting hazard tiles and
//! selecting the safest maps, with a stable tie-break by original index.
use vstd::prelude::*;

verus! {

use vstd::relations::injective_on;
use vstd::set_lib::lemma_int_range;
use vstd::set_lib::lemma_len_subset;
use vstd::set_lib::lemma_map_size;
use vstd::set_lib::lemma_subset_equality;
use vstd::set_lib::set_int_range;
use vstd::string::StrSliceExecFns;

/// How many hazard symbols (`x`) a row of map text holds.
pub open spec fn count_x(s: Seq<char>) -> int
    decreases s.len(),
{
    if s.len() == 0 {
        0
    } else {
        count_x(s.drop_last()) + if s.last() == 'x' {
            1int
        } else {
            0int
        }
    }
}

/// How many hazard symbols a whole map text holds.
pub open spec fn total_traps(rows: Seq<Seq<char>>) -> int
    decreases rows.len(),
{
    if rows.len() == 0 {
        0
    } else {
        total_traps(rows.drop_last()) + count_x(rows.last())
    }
}

pub proof fn lemma_count_x_take_succ(s: Seq<char>, j: int)
    requires
        0 <= j < s.len(),
    ensures
        count_x(s.take(j + 1)) == count_x(s.take(j)) + if s[j] == 'x' {
            1int
        } else {
            0int
        },
{
    assert(s.take(j + 1).drop_last() =~= s.take(j));
    assert(s.take(j + 1).last() == s[j]);
}

/// A prefix holds at most as many hazard symbols as the whole row, and none
/// fewer than zero.
pub proof fn lemma_count_x_take_le(s: Seq<char>, j: int)
    requires
        0 <= j <= s.len(),
    ensures
        0 <= count_x(s.take(j)) <= count_x(s),
    decreases s.len() - j,
{
    if j == s.len() {
        assert(s.take(j) =~= s);
        lemma_count_x_nonneg(s);
    } else {
        lemma_count_x_take_succ(s, j);
        lemma_count_x_take_le(s, j + 1);
        lemma_count_x_nonneg(s.take(j));
    }
}

pub proof fn lemma_count_x_nonneg(s: Seq<char>)
    ensures
        0 <= count_x(s),
    decreases s.len(),
{
    if s.len() > 0 {
        lemma_count_x_nonneg(s.drop_last());
    }
}

pub proof fn lemma_total_take_succ(rows: Seq<Seq<char>>, i: int)
    requires
        0 <= i < rows.len(),
    ensures
        total_traps(rows.take(i + 1)) == total_traps(rows.take(i)) + count_x(rows[i]),
{
    assert(rows.take(i + 1).drop_last() =~= rows.take(i));
    assert(rows.take(i + 1).last() == rows[i]);
}

/// A prefix of the rows holds at most as many hazard symbols as all of them.
pub proof fn lemma_total_take_le(rows: Seq<Seq<char>>, i: int)
    requires
        0 <= i <= rows.len(),
    ensures
        0 <= total_traps(rows.take(i)) <= total_traps(rows),
    decreases rows.len() - i,
{
    if i == rows.len() {
        assert(rows.take(i) =~= rows);
        lemma_total_nonneg(rows);
    } else {
        lemma_total_take_succ(rows, i);
        lemma_total_take_le(rows, i + 1);
        lemma_count_x_nonneg(rows[i]);
        lemma_total_nonneg(rows.take(i));
    }
}

pub proof fn lemma_total_nonneg(rows: Seq<Seq<char>>)
    ensures
        0 <= total_traps(rows),
    decreases rows.len(),
{
    if rows.len() > 0 {
        lemma_total_nonneg(rows.drop_last());
        lemma_count_x_nonneg(rows.last());
    }
}

/// Counts the hazard tiles (`x` symbols) of one map text.
pub fn count_trap(vec_s: &Vec<String>) -> (r: usize)
    requires
        total_traps(vec_s.deep_view()) <= usize::MAX,
    ensures
        r as int == total_traps(vec_s.deep_view()),
{
    let ghost rv = vec_s.deep_view();
    let mut cnt: usize = 0;
    let n = vec_s.len();
    let mut i: usize = 0;
    while i < n
        invariant
            rv == vec_s.deep_view(),
            n == vec_s@.len(),
            total_traps(rv) <= usize::MAX,
            i <= n,
            cnt as int == total_traps(rv.take(i as int)),
        decreases n - i,
    {
        let s: &String = &vec_s[i];
        assert(s@ == rv[i as int]);
        let m = s.as_str().unicode_len();
        let mut j: usize = 0;
        while j < m
            invariant
                rv == vec_s.deep_view(),
                n == vec_s@.len(),
                total_traps(rv) <= usize::MAX,
                i < n,
                s@ == rv[i as int],
                m == rv[i as int].len(),
                j <= m,
                cnt as int == total_traps(rv.take(i as int)) + count_x(rv[i as int].take(j as int)),
            decreases m - j,
        {
            proof {
                lemma_count_x_take_succ(rv[i as int], j as int);
                lemma_count_x_take_le(rv[i as int], j as int + 1);
                lemma_total_take_succ(rv, i as int);
                lemma_total_take_le(rv, i as int + 1);
                lemma_total_take_le(rv, i as int);
            }
            if s.as_str().get_char(j) == 'x' {
                cnt += 1;
            }
            j += 1;
        }
        proof {
            assert(rv[i as int].take(m as int) =~= rv[i as int]);
            lemma_total_take_succ(rv, i as int);
        }
        i += 1;
    }
    proof {
        assert(rv.take(n as int) =~= rv);
    }
    cnt
}

/// Map `a` ranks strictly safer than map `b`: fewer hazards, or equally many
/// and an earlier original index.
pub open spec fn lex_before(counts: Seq<int>, a: int, b: int) -> bool {
    counts[a] < counts[b] || (counts[a] == counts[b] && a < b)
}

/// How many of the first `m` maps rank strictly safer than map `i`.
pub open spec fn rank_upto(counts: Seq<int>, i: int, m: int) -> int
    decreases m,
{
    if m <= 0 {
        0
    } else {
        rank_upto(counts, i, m - 1) + if lex_before(counts, m - 1, i) {
            1int
        } else {
            0int
        }
    }
}

/// The safety rank of map `i`: how many maps rank strictly safer than it.
/// A map is selected iff its rank is below `k`.
pub open spec fn sel_rank(counts: Seq<int>, i: int) -> int {
    rank_upto(counts, i, counts.len() as int)
}

/// The hazard count of every candidate map.
pub open spec fn trap_counts(mm: Seq<Seq<Seq<char>>>) -> Seq<int> {
    Seq::new(mm.len(), |i: int| total_traps(mm[i]))
}

pub proof fn lemma_rank_upto_bounds(cs: Seq<int>, i: int, m: int)
    requires
        0 <= m,
    ensures
        0 <= rank_upto(cs, i, m) <= m,
        0 <= i < m ==> rank_upto(cs, i, m) <= m - 1,
    decreases m,
{
    if m > 0 {
        lemma_rank_upto_bounds(cs, i, m - 1);
    }
}

pub proof fn lemma_rank_upto_lex_mono(cs: Seq<int>, i: int, j: int, m: int)
    requires
        lex_before(cs, i, j),
        0 <= m,
    ensures
        rank_upto(cs, j, m) >= rank_upto(cs, i, m) + if 0 <= i < m {
            1int
        } else {
            0int
        },
    decreases m,
{
    if m > 0 {
        lemma_rank_upto_lex_mono(cs, i, j, m - 1);
    }
}

/// No two maps share a safety rank: the safer of the two (by hazard count,
/// then index) has the strictly smaller rank.
pub proof fn lemma_rank_distinct(cs: Seq<int>, i: int, j: int)
    requires
        0 <= i < cs.len(),
        0 <= j < cs.len(),
        i != j,
    ensures
        sel_rank(cs, i) != sel_rank(cs, j),
{
    if lex_before(cs, i, j) {
        lemma_rank_upto_lex_mono(cs, i, j, cs.len() as int);
    } else {
        assert(lex_before(cs, j, i));
        lemma_rank_upto_lex_mono(cs, j, i, cs.len() as int);
    }
}

/// How many of the first `m` maps are selected (rank below `k`).
pub open spec fn num_sel(cs: Seq<int>, k: int, m: int) -> int
    decreases m,
{
    if m <= 0 {
        0
    } else {
        num_sel(cs, k, m - 1) + if sel_rank(cs, m - 1) < k {
            1int
        } else {
            0int
        }
    }
}

pub proof fn lemma_num_sel_card(cs: Seq<int>, k: int, m: int)
    requires
        0 <= m,
    ensures
        Set::new(|i: int| 0 <= i < m && sel_rank(cs, i) < k).finite(),
        num_sel(cs, k, m) == Set::new(|i: int| 0 <= i < m && sel_rank(cs, i) < k).len(),
    decreases m,
{
    broadcast use vstd::set_lib::group_set_properties;

    let sm = Set::new(|i: int| 0 <= i < m && sel_rank(cs, i) < k);
    if m == 0 {
        assert(sm =~= Set::<int>::empty());
    } else {
        lemma_num_sel_card(cs, k, m - 1);
        let sp = Set::new(|i: int| 0 <= i < m - 1 && sel_rank(cs, i) < k);
        if sel_rank(cs, m - 1) < k {
            assert(sm =~= sp.insert(m - 1));
        } else {
            assert(sm =~= sp);
        }
    }
}

/// The safety ranks of `n` maps are a permutation of `0 .. n`, so exactly `k`
/// maps rank below `k`.
pub proof fn lemma_num_sel_full(cs: Seq<int>, k: int)
    requires
        0 <= k <= cs.len(),
    ensures
        num_sel(cs, k, cs.len() as int) == k,
{
    broadcast use vstd::set_lib::group_set_properties;

    let n = cs.len() as int;
    let rankf = |i: int| sel_rank(cs, i);
    let dom = set_int_range(0, n);
    lemma_int_range(0, n);
    lemma_int_range(0, k);
    assert(injective_on(rankf, dom)) by {
        assert forall|a: int, b: int|
            dom.contains(a) && dom.contains(b) && #[trigger] rankf(a) == #[trigger] rankf(
                b,
            ) implies a == b by {
            if a != b {
                lemma_rank_distinct(cs, a, b);
            }
        }
    }
    let img = dom.map(rankf);
    lemma_map_size(dom, img, rankf);
    assert(img.subset_of(set_int_range(0, n))) by {
        assert forall|y: int| img.contains(y) implies 0 <= y < n by {
            let a = choose|a: int| dom.contains(a) && rankf(a) == y;
            lemma_rank_upto_bounds(cs, a, n);
        }
    }
    lemma_len_subset(img, set_int_range(0, n));
    lemma_subset_equality(img, set_int_range(0, n));
    let selset = Set::new(|i: int| 0 <= i < n && sel_rank(cs, i) < k);
    lemma_num_sel_card(cs, k, n);
    let selimg = selset.map(rankf);
    assert(selimg =~= set_int_range(0, k)) by {
        assert forall|y: int| selimg.contains(y) implies 0 <= y < k by {
            let a = choose|a: int| selset.contains(a) && rankf(a) == y;
            lemma_rank_upto_bounds(cs, a, n);
        }
        assert forall|y: int| 0 <= y < k implies selimg.contains(y) by {
            assert(img.contains(y));
            let a = choose|a: int| dom.contains(a) && rankf(a) == y;
            assert(selset.contains(a) && rankf(a) == y);
        }
    }
    assert(injective_on(rankf, selset)) by {
        assert forall|a: int, b: int|
            selset.contains(a) && selset.contains(b) && #[trigger] rankf(a) == #[trigger] rankf(
                b,
            ) implies a == b by {
            if a != b {
                lemma_rank_distinct(cs, a, b);
            }
        }
    }
    lemma_map_size(selset, selimg, rankf);
}

/// Selects the `k` safest of the candidate maps - fewest hazard tiles first,
/// ties broken by the lower original index - and returns their indices in
/// original index order.
pub fn select_safest(maps: &Vec<Vec<String>>, k: usize) -> (r: Vec<usize>)
    requires
        k <= maps@.len(),
        forall|i: int| 0 <= i < maps@.len() ==> total_traps(#[trigger] maps.deep_view()[i])
            <= usize::MAX,
    ensures
        r@.len() == k,
        forall|idx: usize|
            r@.contains(idx) <==> (idx < maps@.len() && sel_rank(
                trap_counts(maps.deep_view()),
                idx as int,
            ) < k),
        forall|p: int, q: int| 0 <= p < q < r@.len() ==> r@[p] < r@[q],
{
    let ghost mv = maps.deep_view();
    let ghost cs = trap_counts(mv);
    let n = maps.len();
    let mut counts: Vec<usize> = Vec::new();
    let mut i: usize = 0;
    while i < n
        invariant
            mv == maps.deep_view(),
            cs == trap_counts(mv),
            n == maps@.len(),
            forall|j: int| 0 <= j < n ==> total_traps(#[trigger] mv[j]) <= usize::MAX,
            i <= n,
            counts@.len() == i,
            forall|j: int| 0 <= j < i ==> (#[trigger] counts@[j]) as int == cs[j],
        decreases n - i,
    {
        let rows: &Vec<String> = &maps[i];
        proof {
            assert(rows.deep_view() =~= mv[i as int]);
        }
        counts.push(count_trap(rows));
        i += 1;
    }
    let mut sel: Vec<usize> = Vec::new();
    let mut i: usize = 0;
    while i < n
        invariant
            cs == trap_counts(mv),
            mv == maps.deep_view(),
            n == maps@.len(),
            cs.len() == n,
            counts@.len() == n,
            forall|j: int| 0 <= j < n ==> (#[trigger] counts@[j]) as int == cs[j],
            i <= n,
            forall|p: int| 0 <= p < sel@.len() ==> (#[trigger] sel@[p]) < i,
            forall|p: int|
                0 <= p < sel@.len() ==> sel_rank(cs, (#[trigger] sel@[p]) as int) < k,
            forall|idx: int|
                0 <= idx < i && sel_rank(cs, idx) < k ==> sel@.contains(idx as usize),
            forall|p: int, q: int| 0 <= p < q < sel@.len() ==> sel@[p] < sel@[q],
            sel@.len() == num_sel(cs, k as int, i as int),
        decreases n - i,
    {
        let mut rk: usize = 0;
        let mut j: usize = 0;
        while j < n
            invariant
                cs.len() == n,
                counts@.len() == n,
                forall|jj: int| 0 <= jj < n ==> (#[trigger] counts@[jj]) as int == cs[jj],
                i < n,
                j <= n,
                rk <= j,
                rk as int == rank_upto(cs, i as int, j as int),
            decreases n - j,
        {
            if counts[j] < counts[i] || (counts[j] == counts[i] && j < i) {
                rk += 1;
            }
            j += 1;
        }
        proof {
            assert(sel_rank(cs, i as int) == rk as int);
        }
        if rk < k {
            let ghost old_sel = sel@;
            sel.push(i);
            proof {
                assert(sel@[old_sel.len() as int] == i);
                assert forall|idx: int|
                    0 <= idx < i + 1 && sel_rank(cs, idx) < k implies sel@.contains(
                    idx as usize,
                ) by {
                    if idx < i {
                        let w = choose|w: int|
                            0 <= w < old_sel.len() && old_sel[w] == idx as usize;
                        assert(sel@[w] == idx as usize);
                    } else {
                        assert(sel@[old_sel.len() as int] == idx as usize);
                    }
                }
            }
        }
        i += 1;
    }
    proof {
        assert forall|idx: usize|
            sel@.contains(idx) implies (idx < n && sel_rank(cs, idx as int) < k) by {
            let w = choose|w: int| 0 <= w < sel@.len() && sel@[w] == idx;
            assert(sel@[w] == idx);
        }
        lemma_num_sel_full(cs, k as int);
    }
    sel
}

} // verus!
