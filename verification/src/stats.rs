//! Summary statistics over the VarDCT blocks of a frame or an image.

use vstd::prelude::*;
use crate::model::{HfMetadataAnnotation, VarBlockAnnotation};

verus! {

/// How often one DCT transform type occurs.
#[derive(Debug)]
pub struct DctTypeCount {
    pub dct_type: String,
    pub count: u32,
}

/// Block statistics of a set of HF metadata annotations.
///
/// `hf_mul_min` is `i32::MAX` and `hf_mul_max` is `i32::MIN` when there is no
/// block at all; `dct_types` is ordered by decreasing count.
#[derive(Debug)]
pub struct VarDctStats {
    pub total_blocks: u32,
    pub dct_types: Vec<DctTypeCount>,
    pub hf_mul_sum: i64,
    pub hf_mul_min: i32,
    pub hf_mul_max: i32,
}

/// All varblocks of the annotations, in order.
pub open spec fn blocks_of(anns: Seq<HfMetadataAnnotation>) -> Seq<VarBlockAnnotation>
    decreases anns.len(),
{
    if anns.len() == 0 {
        Seq::empty()
    } else {
        blocks_of(anns.drop_last()) + anns.last().varblocks@
    }
}

/// The sum of the block counts that the annotations declare.
pub open spec fn declared_blocks(anns: Seq<HfMetadataAnnotation>) -> int
    decreases anns.len(),
{
    if anns.len() == 0 {
        0
    } else {
        declared_blocks(anns.drop_last()) + anns.last().num_varblocks
    }
}

/// How many blocks use the DCT type named `t`.
pub open spec fn count_of(blocks: Seq<VarBlockAnnotation>, t: Seq<char>) -> nat
    decreases blocks.len(),
{
    if blocks.len() == 0 {
        0
    } else {
        count_of(blocks.drop_last(), t) + (if blocks.last().dct_select@ == t { 1nat } else { 0nat })
    }
}

/// The sum of the HF multipliers of the blocks.
pub open spec fn hf_sum(blocks: Seq<VarBlockAnnotation>) -> int
    decreases blocks.len(),
{
    if blocks.len() == 0 {
        0
    } else {
        hf_sum(blocks.drop_last()) + blocks.last().hf_mul
    }
}

/// The least HF multiplier, `i32::MAX` for no block.
pub open spec fn hf_min(blocks: Seq<VarBlockAnnotation>) -> int
    decreases blocks.len(),
{
    if blocks.len() == 0 {
        i32::MAX as int
    } else {
        let m = hf_min(blocks.drop_last());
        let v = blocks.last().hf_mul as int;
        if v < m { v } else { m }
    }
}

/// The greatest HF multiplier, `i32::MIN` for no block.
pub open spec fn hf_max(blocks: Seq<VarBlockAnnotation>) -> int
    decreases blocks.len(),
{
    if blocks.len() == 0 {
        i32::MIN as int
    } else {
        let m = hf_max(blocks.drop_last());
        let v = blocks.last().hf_mul as int;
        if v > m { v } else { m }
    }
}

/// No two entries share a DCT type.
pub open spec fn distinct_types(entries: Seq<DctTypeCount>) -> bool {
    forall|i: int, j: int| 0 <= i < j < entries.len() ==>
        (#[trigger] entries[i]).dct_type@ != (#[trigger] entries[j]).dct_type@
}

/// `entries` lists each DCT type of `blocks` exactly once, with its count.
pub open spec fn is_distribution(entries: Seq<DctTypeCount>, blocks: Seq<VarBlockAnnotation>) -> bool {
    &&& forall|i: int| 0 <= i < entries.len() ==>
        (#[trigger] entries[i]).count == count_of(blocks, entries[i].dct_type@) && entries[i].count > 0
    &&& distinct_types(entries)
    &&& forall|k: int| 0 <= k < blocks.len() ==>
        exists|i: int| 0 <= i < entries.len() && (#[trigger] entries[i]).dct_type@ == (#[trigger] blocks[k]).dct_select@
}

/// The counts never grow along `entries`.
pub open spec fn by_decreasing_count(entries: Seq<DctTypeCount>) -> bool {
    forall|i: int, j: int| 0 <= i <= j < entries.len() ==> (#[trigger] entries[i]).count >= (#[trigger] entries[j]).count
}

/// The computation does not overflow: no type occurs more than `u32::MAX`
/// times and every running sum of HF multipliers fits in an `i64`.
pub open spec fn stats_fit(anns: Seq<HfMetadataAnnotation>) -> bool {
    &&& declared_blocks(anns) <= u32::MAX
    &&& forall|t: Seq<char>| #[trigger] count_of(blocks_of(anns), t) <= u32::MAX
    &&& forall|k: int| 0 <= k <= blocks_of(anns).len() ==>
        i64::MIN <= #[trigger] hf_sum(blocks_of(anns).take(k)) <= i64::MAX
}

/// `x` is the beginning of `y`.
pub open spec fn is_prefix(x: Seq<VarBlockAnnotation>, y: Seq<VarBlockAnnotation>) -> bool {
    x.len() <= y.len() && y.take(x.len() as int) == x
}

proof fn lemma_declared_step(anns: Seq<HfMetadataAnnotation>, a: int)
    requires
        0 <= a < anns.len(),
    ensures
        declared_blocks(anns.take(a + 1)) == declared_blocks(anns.take(a)) + anns[a].num_varblocks,
        blocks_of(anns.take(a + 1)) == blocks_of(anns.take(a)) + anns[a].varblocks@,
{
    assert(anns.take(a + 1).drop_last() =~= anns.take(a));
}

proof fn lemma_declared_nonneg(anns: Seq<HfMetadataAnnotation>)
    ensures
        declared_blocks(anns) >= 0,
    decreases anns.len(),
{
    if anns.len() > 0 {
        lemma_declared_nonneg(anns.drop_last());
    }
}

/// A prefix of the annotations declares no more blocks than all of them.
proof fn lemma_declared_prefix(anns: Seq<HfMetadataAnnotation>, a: int)
    requires
        0 <= a <= anns.len(),
    ensures
        declared_blocks(anns.take(a)) <= declared_blocks(anns),
    decreases anns.len() - a,
{
    if a < anns.len() {
        lemma_declared_step(anns, a);
        lemma_declared_prefix(anns, a + 1);
    } else {
        assert(anns.take(a) =~= anns);
    }
}

/// The blocks of a prefix of the annotations are a prefix of all blocks.
proof fn lemma_blocks_prefix(anns: Seq<HfMetadataAnnotation>, a: int)
    requires
        0 <= a <= anns.len(),
    ensures
        is_prefix(blocks_of(anns.take(a)), blocks_of(anns)),
    decreases anns.len() - a,
{
    if a < anns.len() {
        lemma_declared_step(anns, a);
        lemma_blocks_prefix(anns, a + 1);
        let x = blocks_of(anns.take(a));
        let y = blocks_of(anns.take(a + 1));
        let z = blocks_of(anns);
        assert(y.take(x.len() as int) =~= x);
        assert(z.take(x.len() as int) =~= y.take(x.len() as int));
    } else {
        assert(anns.take(a) =~= anns);
        assert(blocks_of(anns).take(blocks_of(anns).len() as int) =~= blocks_of(anns));
    }
}

proof fn lemma_count_push(s: Seq<VarBlockAnnotation>, b: VarBlockAnnotation, t: Seq<char>)
    ensures
        count_of(s.push(b), t) == count_of(s, t) + (if b.dct_select@ == t { 1int } else { 0int }),
        hf_sum(s.push(b)) == hf_sum(s) + b.hf_mul,
        hf_min(s.push(b)) == (if (b.hf_mul as int) < hf_min(s) { b.hf_mul as int } else { hf_min(s) }),
        hf_max(s.push(b)) == (if (b.hf_mul as int) > hf_max(s) { b.hf_mul as int } else { hf_max(s) }),
{
    assert(s.push(b).drop_last() =~= s);
}

/// A type that no block uses has count zero.
proof fn lemma_count_absent(s: Seq<VarBlockAnnotation>, t: Seq<char>)
    requires
        forall|k: int| 0 <= k < s.len() ==> (#[trigger] s[k]).dct_select@ != t,
    ensures
        count_of(s, t) == 0,
    decreases s.len(),
{
    if s.len() > 0 {
        assert forall|k: int| 0 <= k < s.drop_last().len() implies (#[trigger] s.drop_last()[k]).dct_select@ != t by {
            assert(s.drop_last()[k] == s[k]);
        }
        lemma_count_absent(s.drop_last(), t);
        assert(s.last() == s[s.len() - 1]);
    }
}

/// Counting over a prefix gives no more than counting over the whole.
proof fn lemma_count_prefix(x: Seq<VarBlockAnnotation>, y: Seq<VarBlockAnnotation>, t: Seq<char>)
    requires
        is_prefix(x, y),
    ensures
        count_of(x, t) <= count_of(y, t),
    decreases y.len(),
{
    if x.len() == y.len() {
        assert(x =~= y);
    } else {
        let z = y.drop_last();
        assert(z.take(x.len() as int) =~= y.take(x.len() as int));
        lemma_count_prefix(x, z, t);
    }
}

/// The first index whose type is `t`, or the length when there is none.
fn find_type(entries: &Vec<DctTypeCount>, t: &String) -> (k: usize)
    ensures
        k <= entries@.len(),
        k < entries@.len() ==> entries@[k as int].dct_type@ == t@,
        forall|j: int| 0 <= j < k ==> (#[trigger] entries@[j]).dct_type@ != t@,
{
    let n = entries.len();
    let mut k: usize = 0;
    while k < n
        invariant
            n == entries@.len(),
            k <= n,
            forall|j: int| 0 <= j < k ==> (#[trigger] entries@[j]).dct_type@ != t@,
        decreases n - k,
    {
        if entries[k].dct_type == *t {
            return k;
        }
        k = k + 1;
    }
    k
}

/// Count `block` into the distribution of `seen`.
fn add_block(entries: &mut Vec<DctTypeCount>, block: &VarBlockAnnotation, Ghost(seen): Ghost<Seq<VarBlockAnnotation>>)
    requires
        is_distribution(old(entries)@, seen),
        count_of(seen.push(*block), block.dct_select@) <= u32::MAX,
    ensures
        is_distribution(final(entries)@, seen.push(*block)),
{
    let ghost t = block.dct_select@;
    let ghost s2 = seen.push(*block);
    let n = entries.len();
    let k = find_type(entries, &block.dct_select);
    proof {
        assert forall|u: Seq<char>| #![trigger count_of(s2, u)] u != t implies count_of(s2, u) == count_of(seen, u) by {
            lemma_count_push(seen, *block, u);
        }
        lemma_count_push(seen, *block, t);
    }
    let ghost old_entries = entries@;
    if k < n {
        let c = entries[k].count;
        proof {
            assert(old_entries[k as int].dct_type@ == t);
        }
        let entry = DctTypeCount { dct_type: block.dct_select.clone(), count: c + 1 };
        entries.set(k, entry);
        proof {
            let e = entries@;
            assert forall|i: int| 0 <= i < e.len() implies
                (#[trigger] e[i]).count == count_of(s2, e[i].dct_type@) && e[i].count > 0 by {
                if i != k {
                    assert(e[i] == old_entries[i]);
                    assert(old_entries[i].dct_type@ != old_entries[k as int].dct_type@ || i == k);
                }
            }
            assert forall|i: int, j: int| 0 <= i < j < e.len() implies
                (#[trigger] e[i]).dct_type@ != (#[trigger] e[j]).dct_type@ by {
                assert(old_entries[i].dct_type@ != old_entries[j].dct_type@);
            }
            assert forall|q: int| 0 <= q < s2.len() implies
                exists|i: int| 0 <= i < e.len() && (#[trigger] e[i]).dct_type@ == (#[trigger] s2[q]).dct_select@ by {
                if q < seen.len() {
                    assert(s2[q] == seen[q]);
                    let i = choose|i: int| 0 <= i < old_entries.len() && (#[trigger] old_entries[i]).dct_type@ == (#[trigger] seen[q]).dct_select@;
                    assert(e[i].dct_type@ == old_entries[i].dct_type@);
                } else {
                    assert(e[k as int].dct_type@ == s2[q].dct_select@);
                }
            }
        }
    } else {
        proof {
            assert forall|q: int| 0 <= q < seen.len() implies (#[trigger] seen[q]).dct_select@ != t by {
                let i = choose|i: int| 0 <= i < old_entries.len() && (#[trigger] old_entries[i]).dct_type@ == (#[trigger] seen[q]).dct_select@;
            }
            lemma_count_absent(seen, t);
        }
        let entry = DctTypeCount { dct_type: block.dct_select.clone(), count: 1 };
        entries.push(entry);
        proof {
            let e = entries@;
            assert forall|i: int| 0 <= i < e.len() implies
                (#[trigger] e[i]).count == count_of(s2, e[i].dct_type@) && e[i].count > 0 by {
                if i < n {
                    assert(e[i] == old_entries[i]);
                }
            }
            assert forall|q: int| 0 <= q < s2.len() implies
                exists|i: int| 0 <= i < e.len() && (#[trigger] e[i]).dct_type@ == (#[trigger] s2[q]).dct_select@ by {
                if q < seen.len() {
                    assert(s2[q] == seen[q]);
                    let i = choose|i: int| 0 <= i < old_entries.len() && (#[trigger] old_entries[i]).dct_type@ == (#[trigger] seen[q]).dct_select@;
                    assert(e[i] == old_entries[i]);
                } else {
                    assert(e[n as int].dct_type@ == s2[q].dct_select@);
                }
            }
        }
    }
}

/// Insert `e` after every entry whose count is at least its own.
fn insert_by_count(sorted: &mut Vec<DctTypeCount>, e: DctTypeCount)
    requires
        by_decreasing_count(old(sorted)@),
    ensures
        by_decreasing_count(final(sorted)@),
        exists|p: int| 0 <= p <= old(sorted)@.len() && final(sorted)@ == #[trigger] old(sorted)@.insert(p, e),
{
    let n = sorted.len();
    let mut p: usize = 0;
    while p < n && sorted[p].count >= e.count
        invariant
            n == sorted@.len(),
            p <= n,
            forall|j: int| 0 <= j < p ==> (#[trigger] sorted@[j]).count >= e.count,
        decreases n - p,
    {
        p = p + 1;
    }
    let ghost before = sorted@;
    let ghost c = e.count;
    proof {
        before.insert_ensures(p as int, e);
    }
    sorted.insert(p, e);
    proof {
        let s = sorted@;
        assert forall|i: int, j: int| 0 <= i <= j < s.len() implies (#[trigger] s[i]).count >= (#[trigger] s[j]).count by {
            if j < p {
            } else if j == p {
                if i < p {
                    assert(s[i] == before[i]);
                }
            } else {
                assert(s[j] == before[j - 1]);
                assert(p < n);
                assert(before[p as int].count < c);
                if i < p {
                    assert(s[i] == before[i]);
                } else if i > p {
                    assert(s[i] == before[i - 1]);
                }
            }
        }
    }
}

/// Inserting the next entry keeps `s` a duplicate-free arrangement of the
/// entries seen so far.
proof fn lemma_insert_step(before: Seq<DctTypeCount>, e: DctTypeCount, p: int, entries: Seq<DctTypeCount>, i: int)
    requires
        0 <= p <= before.len(),
        0 <= i < entries.len(),
        e == entries[i],
        distinct_types(entries),
        distinct_types(before),
        forall|j: int| 0 <= j < before.len() ==> #[trigger] entries.take(i).contains(before[j]),
        forall|m: int| 0 <= m < i ==> #[trigger] before.contains(entries[m]),
    ensures
        distinct_types(before.insert(p, e)),
        forall|j: int| 0 <= j < before.len() + 1 ==> #[trigger] entries.take(i + 1).contains(before.insert(p, e)[j]),
        forall|m: int| 0 <= m < i + 1 ==> #[trigger] before.insert(p, e).contains(entries[m]),
{
    before.insert_ensures(p, e);
    let s = before.insert(p, e);
    assert forall|x: int| 0 <= x < before.len() implies (#[trigger] before[x]).dct_type@ != e.dct_type@ by {
        assert(entries.take(i).contains(before[x]));
        let m = choose|m: int| 0 <= m < i && entries.take(i)[m] == before[x];
        assert(entries[m].dct_type@ != entries[i].dct_type@);
    }
    assert forall|j: int| 0 <= j < before.len() + 1 implies #[trigger] entries.take(i + 1).contains(s[j]) by {
        if j == p {
            assert(entries.take(i + 1)[i] == e);
        } else {
            let q = if j < p { j } else { j - 1 };
            assert(s[j] == before[q]);
            assert(entries.take(i).contains(before[q]));
            let m = choose|m: int| 0 <= m < i && entries.take(i)[m] == before[q];
            assert(entries.take(i + 1)[m] == before[q]);
        }
    }
    assert forall|m: int| 0 <= m < i + 1 implies #[trigger] s.contains(entries[m]) by {
        if m == i {
            assert(s[p] == entries[m]);
        } else {
            assert(before.contains(entries[m]));
            let j = choose|j: int| 0 <= j < before.len() && before[j] == entries[m];
            if j < p {
                assert(s[j] == entries[m]);
            } else {
                assert(s[j + 1] == entries[m]);
            }
        }
    }
    assert forall|a: int, b: int| 0 <= a < b < s.len() implies (#[trigger] s[a]).dct_type@ != (#[trigger] s[b]).dct_type@ by {
        if a != p && b != p {
            let qa = if a < p { a } else { a - 1 };
            let qb = if b < p { b } else { b - 1 };
            assert(s[a] == before[qa] && s[b] == before[qb]);
        } else if a == p {
            assert(s[b] == before[b - 1]);
        } else {
            assert(s[a] == before[a]);
        }
    }
}

/// `entries` reordered by decreasing count.
fn sort_by_count(entries: &Vec<DctTypeCount>) -> (r: Vec<DctTypeCount>)
    requires
        distinct_types(entries@),
    ensures
        by_decreasing_count(r@),
        distinct_types(r@),
        forall|j: int| 0 <= j < r@.len() ==> #[trigger] entries@.contains(r@[j]),
        forall|m: int| 0 <= m < entries@.len() ==> #[trigger] r@.contains(entries@[m]),
{
    let n = entries.len();
    let mut sorted: Vec<DctTypeCount> = Vec::new();
    let mut i: usize = 0;
    while i < n
        invariant
            n == entries@.len(),
            i <= n,
            distinct_types(entries@),
            by_decreasing_count(sorted@),
            distinct_types(sorted@),
            forall|j: int| 0 <= j < sorted@.len() ==> #[trigger] entries@.take(i as int).contains(sorted@[j]),
            forall|m: int| 0 <= m < i ==> #[trigger] sorted@.contains(entries@[m]),
        decreases n - i,
    {
        let e = DctTypeCount { dct_type: entries[i].dct_type.clone(), count: entries[i].count };
        assert(e == entries@[i as int]);
        let ghost before = sorted@;
        insert_by_count(&mut sorted, e);
        proof {
            let p = choose|p: int| 0 <= p <= before.len() && sorted@ == #[trigger] before.insert(p, e);
            before.insert_ensures(p, e);
            lemma_insert_step(before, e, p, entries@, i as int);
        }
        i = i + 1;
    }
    proof {
        assert(entries@.take(n as int) =~= entries@);
    }
    sorted
}

/// The least and greatest HF multipliers as the reports show them: both 0
/// when no block was counted.
pub fn reported_hf_range(stats: &VarDctStats) -> (r: (i32, i32))
    ensures
        r == (if stats.total_blocks > 0 { (stats.hf_mul_min, stats.hf_mul_max) } else { (0i32, 0i32) }),
{
    if stats.total_blocks > 0 {
        (stats.hf_mul_min, stats.hf_mul_max)
    } else {
        (0, 0)
    }
}

/// A type that no entry of a distribution names is used by no block.
proof fn lemma_count_unlisted(entries: Seq<DctTypeCount>, blocks: Seq<VarBlockAnnotation>, t: Seq<char>)
    requires
        is_distribution(entries, blocks),
        forall|i: int| 0 <= i < entries.len() ==> (#[trigger] entries[i]).dct_type@ != t,
    ensures
        count_of(blocks, t) == 0,
{
    assert forall|q: int| 0 <= q < blocks.len() implies (#[trigger] blocks[q]).dct_select@ != t by {
        let i = choose|i: int| 0 <= i < entries.len() && (#[trigger] entries[i]).dct_type@ == (#[trigger] blocks[q]).dct_select@;
    }
    lemma_count_absent(blocks, t);
}

/// Whether the block statistics of `annotations` can be computed: no
/// counter of `compute_vardct_stats` overflows on them.
pub fn stats_fit_check(annotations: &[HfMetadataAnnotation]) -> (r: bool)
    ensures
        r == stats_fit(annotations@),
{
    let ghost anns = annotations@;
    let ghost all = blocks_of(anns);
    let n = annotations.len();
    let mut total_blocks: u32 = 0;
    let mut entries: Vec<DctTypeCount> = Vec::new();
    let mut hf_mul_sum: i64 = 0;
    let ghost mut seen: Seq<VarBlockAnnotation> = Seq::empty();
    proof {
        assert(anns.take(0) =~= Seq::<HfMetadataAnnotation>::empty());
        assert(all.take(0) =~= Seq::<VarBlockAnnotation>::empty());
    }
    let mut a: usize = 0;
    while a < n
        invariant
            n == anns.len(),
            anns == annotations@,
            all == blocks_of(anns),
            a <= n,
            total_blocks == declared_blocks(anns.take(a as int)),
            seen == blocks_of(anns.take(a as int)),
            is_prefix(seen, all),
            is_distribution(entries@, seen),
            hf_mul_sum == hf_sum(seen),
            forall|k: int| 0 <= k <= seen.len() ==> i64::MIN <= #[trigger] hf_sum(all.take(k)) <= i64::MAX,
        decreases n - a,
    {
        let ann = &annotations[a];
        proof {
            lemma_declared_step(anns, a as int);
            lemma_declared_prefix(anns, a + 1);
            lemma_declared_nonneg(anns.take(a as int));
            lemma_blocks_prefix(anns, a + 1);
        }
        match total_blocks.checked_add(ann.num_varblocks) {
            None => {
                return false;
            },
            Some(t) => {
                total_blocks = t;
            },
        }
        let ghost base = seen;
        let ghost next = blocks_of(anns.take(a + 1));
        let m = ann.varblocks.len();
        let mut b: usize = 0;
        while b < m
            invariant
                m == ann.varblocks@.len(),
                ann == anns[a as int],
                anns == annotations@,
                next == base + ann.varblocks@,
                is_prefix(next, all),
                all == blocks_of(anns),
                b <= m,
                seen == base + ann.varblocks@.take(b as int),
                is_prefix(seen, all),
                is_distribution(entries@, seen),
                hf_mul_sum == hf_sum(seen),
                forall|k: int| 0 <= k <= seen.len() ==> i64::MIN <= #[trigger] hf_sum(all.take(k)) <= i64::MAX,
            decreases m - b,
        {
            let block = &ann.varblocks[b];
            let ghost t = block.dct_select@;
            let ghost after = seen.push(*block);
            proof {
                assert(after =~= base + ann.varblocks@.take(b + 1));
                assert(next.take(after.len() as int) =~= after);
                assert(all.take(after.len() as int) =~= next.take(after.len() as int));
                lemma_count_prefix(after, all, t);
                lemma_count_push(seen, *block, t);
            }
            let k = find_type(&entries, &block.dct_select);
            if k < entries.len() && entries[k].count == u32::MAX {
                return false;
            }
            proof {
                if k >= entries@.len() {
                    lemma_count_unlisted(entries@, seen, t);
                }
            }
            match hf_mul_sum.checked_add(block.hf_mul as i64) {
                None => {
                    assert(hf_sum(all.take(after.len() as int)) == hf_sum(after));
                    return false;
                },
                Some(s2) => {
                    hf_mul_sum = s2;
                },
            }
            add_block(&mut entries, block, Ghost(seen));
            proof {
                assert(hf_sum(all.take(after.len() as int)) == hf_sum(after));
                assert forall|k2: int| 0 <= k2 <= after.len() implies i64::MIN <= #[trigger] hf_sum(all.take(k2)) <= i64::MAX by {
                    if k2 < after.len() {
                        assert(k2 <= seen.len());
                    }
                }
                seen = after;
            }
            b = b + 1;
        }
        proof {
            assert(ann.varblocks@.take(m as int) =~= ann.varblocks@);
        }
        a = a + 1;
    }
    proof {
        assert(anns.take(n as int) =~= anns);
        assert(all.take(all.len() as int) =~= all);
        assert forall|t: Seq<char>| #[trigger] count_of(blocks_of(anns), t) <= u32::MAX by {
            if exists|i: int| 0 <= i < entries@.len() && (#[trigger] entries@[i]).dct_type@ == t {
                let i = choose|i: int| 0 <= i < entries@.len() && (#[trigger] entries@[i]).dct_type@ == t;
                assert(entries@[i].count == count_of(all, t));
            } else {
                lemma_count_unlisted(entries@, all, t);
            }
        }
    }
    true
}

/// Block statistics of `annotations`: the sum of the declared block counts,
/// how often each DCT type occurs (most frequent first) and the sum, least and
/// greatest of the HF multipliers.
pub fn compute_vardct_stats(annotations: &[HfMetadataAnnotation]) -> (r: VarDctStats)
    requires
        stats_fit(annotations@),
    ensures
        r.total_blocks == declared_blocks(annotations@),
        r.hf_mul_sum == hf_sum(blocks_of(annotations@)),
        r.hf_mul_min == hf_min(blocks_of(annotations@)),
        r.hf_mul_max == hf_max(blocks_of(annotations@)),
        is_distribution(r.dct_types@, blocks_of(annotations@)),
        by_decreasing_count(r.dct_types@),
{
    let ghost anns = annotations@;
    let ghost all = blocks_of(anns);
    let n = annotations.len();
    let mut total_blocks: u32 = 0;
    let mut entries: Vec<DctTypeCount> = Vec::new();
    let mut hf_mul_sum: i64 = 0;
    let mut hf_mul_min: i32 = i32::MAX;
    let mut hf_mul_max: i32 = i32::MIN;
    let ghost mut seen: Seq<VarBlockAnnotation> = Seq::empty();
    proof {
        assert(anns.take(0) =~= Seq::<HfMetadataAnnotation>::empty());
    }
    let mut a: usize = 0;
    while a < n
        invariant
            n == anns.len(),
            anns == annotations@,
            all == blocks_of(anns),
            stats_fit(anns),
            a <= n,
            total_blocks == declared_blocks(anns.take(a as int)),
            seen == blocks_of(anns.take(a as int)),
            is_distribution(entries@, seen),
            hf_mul_sum == hf_sum(seen),
            hf_mul_min == hf_min(seen),
            hf_mul_max == hf_max(seen),
        decreases n - a,
    {
        let ann = &annotations[a];
        proof {
            lemma_declared_step(anns, a as int);
            lemma_declared_prefix(anns, a + 1);
            lemma_declared_nonneg(anns.take(a as int));
            lemma_blocks_prefix(anns, a + 1);
        }
        total_blocks = total_blocks + ann.num_varblocks;
        let ghost base = seen;
        let ghost next = blocks_of(anns.take(a + 1));
        let m = ann.varblocks.len();
        let mut b: usize = 0;
        while b < m
            invariant
                m == ann.varblocks@.len(),
                ann == anns[a as int],
                next == base + ann.varblocks@,
                is_prefix(next, all),
                all == blocks_of(anns),
                stats_fit(anns),
                b <= m,
                seen == base + ann.varblocks@.take(b as int),
                is_distribution(entries@, seen),
                hf_mul_sum == hf_sum(seen),
                hf_mul_min == hf_min(seen),
                hf_mul_max == hf_max(seen),
            decreases m - b,
        {
            let block = &ann.varblocks[b];
            let ghost after = seen.push(*block);
            proof {
                assert(after =~= base + ann.varblocks@.take(b + 1));
                assert(next.take(after.len() as int) =~= after);
                assert(all.take(after.len() as int) =~= next.take(after.len() as int));
                lemma_count_prefix(after, all, block.dct_select@);
                lemma_count_push(seen, *block, block.dct_select@);
                assert(hf_sum(all.take(after.len() as int)) == hf_sum(after));
            }
            add_block(&mut entries, block, Ghost(seen));
            hf_mul_sum = hf_mul_sum + block.hf_mul as i64;
            if block.hf_mul < hf_mul_min {
                hf_mul_min = block.hf_mul;
            }
            if block.hf_mul > hf_mul_max {
                hf_mul_max = block.hf_mul;
            }
            proof {
                seen = after;
            }
            b = b + 1;
        }
        proof {
            assert(ann.varblocks@.take(m as int) =~= ann.varblocks@);
        }
        a = a + 1;
    }
    proof {
        assert(anns.take(n as int) =~= anns);
    }
    let dct_types = sort_by_count(&entries);
    proof {
        let e = entries@;
        let d = dct_types@;
        assert forall|k: int| 0 <= k < all.len() implies
            exists|i: int| 0 <= i < d.len() && (#[trigger] d[i]).dct_type@ == (#[trigger] all[k]).dct_select@ by {
            let m = choose|m: int| 0 <= m < e.len() && (#[trigger] e[m]).dct_type@ == (#[trigger] all[k]).dct_select@;
            assert(d.contains(e[m]));
            let j = choose|j: int| 0 <= j < d.len() && d[j] == e[m];
            assert(d[j].dct_type@ == all[k].dct_select@);
        }
        assert forall|i: int| 0 <= i < d.len() implies
            (#[trigger] d[i]).count == count_of(all, d[i].dct_type@) && d[i].count > 0 by {
            assert(e.contains(d[i]));
            let m = choose|m: int| 0 <= m < e.len() && e[m] == d[i];
        }
    }
    VarDctStats { total_blocks, dct_types, hf_mul_sum, hf_mul_min, hf_mul_max }
}

/// The sum of the counts of `entries`.
pub open spec fn total_count(entries: Seq<DctTypeCount>) -> int
    decreases entries.len(),
{
    if entries.len() == 0 {
        0
    } else {
        total_count(entries.drop_last()) + entries.last().count
    }
}

/// How often `t` occurs in `ts`.
spec fn occurrences(ts: Seq<Seq<char>>, t: Seq<char>) -> int
    decreases ts.len(),
{
    if ts.len() == 0 {
        0
    } else {
        occurrences(ts.drop_last(), t) + if ts.last() == t { 1int } else { 0int }
    }
}

/// The sum, over the names in `ts`, of how many blocks use each.
spec fn count_over(ts: Seq<Seq<char>>, blocks: Seq<VarBlockAnnotation>) -> int
    decreases ts.len(),
{
    if ts.len() == 0 {
        0
    } else {
        count_over(ts.drop_last(), blocks) + count_of(blocks, ts.last())
    }
}

proof fn lemma_occurs_once(ts: Seq<Seq<char>>, t: Seq<char>)
    requires
        forall|i: int, j: int| 0 <= i < j < ts.len() ==> ts[i] != ts[j],
        ts.contains(t),
    ensures
        occurrences(ts, t) == 1,
    decreases ts.len(),
{
    let init = ts.drop_last();
    assert forall|i: int, j: int| 0 <= i < j < init.len() implies init[i] != init[j] by {
        assert(init[i] == ts[i] && init[j] == ts[j]);
    }
    if ts.last() == t {
        assert forall|i: int| 0 <= i < init.len() implies init[i] != t by {
            assert(init[i] == ts[i]);
            assert(ts[i] != ts[ts.len() - 1]);
        }
        lemma_occurs_never(init, t);
    } else {
        let k = choose|k: int| 0 <= k < ts.len() && ts[k] == t;
        assert(k < ts.len() - 1);
        assert(init[k] == t);
        lemma_occurs_once(init, t);
    }
}

proof fn lemma_occurs_never(ts: Seq<Seq<char>>, t: Seq<char>)
    requires
        forall|i: int| 0 <= i < ts.len() ==> ts[i] != t,
    ensures
        occurrences(ts, t) == 0,
    decreases ts.len(),
{
    if ts.len() > 0 {
        let init = ts.drop_last();
        assert forall|i: int| 0 <= i < init.len() implies init[i] != t by {
            assert(init[i] == ts[i]);
        }
        lemma_occurs_never(init, t);
        assert(ts.last() == ts[ts.len() - 1]);
    }
}

proof fn lemma_count_over_push(ts: Seq<Seq<char>>, blocks: Seq<VarBlockAnnotation>, b: VarBlockAnnotation)
    ensures
        count_over(ts, blocks.push(b)) == count_over(ts, blocks) + occurrences(ts, b.dct_select@),
    decreases ts.len(),
{
    if ts.len() > 0 {
        lemma_count_over_push(ts.drop_last(), blocks, b);
        lemma_count_push(blocks, b, ts.last());
    }
}

/// Over a duplicate-free list of names that holds the type of every block,
/// the counts add up to the number of blocks.
proof fn lemma_count_over_all(ts: Seq<Seq<char>>, blocks: Seq<VarBlockAnnotation>)
    requires
        forall|i: int, j: int| 0 <= i < j < ts.len() ==> ts[i] != ts[j],
        forall|k: int| 0 <= k < blocks.len() ==> ts.contains(#[trigger] blocks[k].dct_select@),
    ensures
        count_over(ts, blocks) == blocks.len(),
    decreases blocks.len(),
{
    if blocks.len() == 0 {
        lemma_count_over_empty(ts, blocks);
    } else {
        let init = blocks.drop_last();
        let b = blocks.last();
        assert forall|k: int| 0 <= k < init.len() implies ts.contains(#[trigger] init[k].dct_select@) by {
            assert(init[k] == blocks[k]);
        }
        lemma_count_over_all(ts, init);
        assert(ts.contains(blocks[blocks.len() - 1].dct_select@));
        lemma_occurs_once(ts, b.dct_select@);
        lemma_count_over_push(ts, init, b);
        assert(init.push(b) =~= blocks);
    }
}

proof fn lemma_count_over_empty(ts: Seq<Seq<char>>, blocks: Seq<VarBlockAnnotation>)
    requires
        blocks.len() == 0,
    ensures
        count_over(ts, blocks) == 0,
    decreases ts.len(),
{
    if ts.len() > 0 {
        lemma_count_over_empty(ts.drop_last(), blocks);
    }
}

proof fn lemma_total_is_count_over(entries: Seq<DctTypeCount>, blocks: Seq<VarBlockAnnotation>)
    requires
        forall|i: int| 0 <= i < entries.len() ==> (#[trigger] entries[i]).count == count_of(blocks, entries[i].dct_type@),
    ensures
        total_count(entries) == count_over(entries.map_values(|e: DctTypeCount| e.dct_type@), blocks),
    decreases entries.len(),
{
    if entries.len() > 0 {
        let init = entries.drop_last();
        assert forall|i: int| 0 <= i < init.len() implies (#[trigger] init[i]).count == count_of(blocks, init[i].dct_type@) by {
            assert(init[i] == entries[i]);
        }
        lemma_total_is_count_over(init, blocks);
        let ts = entries.map_values(|e: DctTypeCount| e.dct_type@);
        assert(ts.drop_last() =~= init.map_values(|e: DctTypeCount| e.dct_type@));
        assert(entries.last() == entries[entries.len() - 1]);
    }
}

/// The counts of a distribution add up to the number of blocks, so the
/// shares of the DCT types add up to the whole.
pub proof fn lemma_counts_add_up(entries: Seq<DctTypeCount>, blocks: Seq<VarBlockAnnotation>)
    requires
        is_distribution(entries, blocks),
    ensures
        total_count(entries) == blocks.len(),
{
    let ts = entries.map_values(|e: DctTypeCount| e.dct_type@);
    assert forall|i: int, j: int| 0 <= i < j < ts.len() implies ts[i] != ts[j] by {
        assert(entries[i].dct_type@ != entries[j].dct_type@);
    }
    assert forall|k: int| 0 <= k < blocks.len() implies ts.contains(#[trigger] blocks[k].dct_select@) by {
        let i = choose|i: int| 0 <= i < entries.len() && (#[trigger] entries[i]).dct_type@ == (#[trigger] blocks[k]).dct_select@;
        assert(ts[i] == blocks[k].dct_select@);
    }
    lemma_count_over_all(ts, blocks);
    lemma_total_is_count_over(entries, blocks);
}

/// With at least one block, the least multiplier is at most the greatest,
/// and the average lies between them.
pub proof fn lemma_hf_bounds(blocks: Seq<VarBlockAnnotation>)
    requires
        blocks.len() > 0,
    ensures
        hf_min(blocks) <= hf_max(blocks),
        hf_min(blocks) * blocks.len() <= hf_sum(blocks) <= hf_max(blocks) * blocks.len(),
    decreases blocks.len(),
{
    let init = blocks.drop_last();
    let v = blocks.last().hf_mul as int;
    let n = blocks.len() as int;
    if init.len() == 0 {
        assert(hf_sum(init) == 0);
        assert(hf_min(blocks) == v);
        assert(hf_max(blocks) == v);
    } else {
        lemma_hf_bounds(init);
        let lo = hf_min(init);
        let hi = hf_max(init);
        let s = hf_sum(init);
        let m = n - 1;
        let lo2 = hf_min(blocks);
        let hi2 = hf_max(blocks);
        assert(lo2 <= lo && lo2 <= v);
        assert(hi2 >= hi && hi2 >= v);
        assert(lo2 * m <= lo * m) by (nonlinear_arith)
            requires lo2 <= lo, m >= 0;
        assert(hi * m <= hi2 * m) by (nonlinear_arith)
            requires hi <= hi2, m >= 0;
        assert(lo2 * n == lo2 * m + lo2) by (nonlinear_arith)
            requires n == m + 1;
        assert(hi2 * n == hi2 * m + hi2) by (nonlinear_arith)
            requires n == m + 1;
    }
}

} // verus!
