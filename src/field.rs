//! The energy field as a sequence of per-site quanta counts, and its total.
use vstd::prelude::*;

verus! {

/// Total number of quanta held by a field.
pub open spec fn field_sum(s: Seq<u32>) -> int
    decreases s.len(),
{
    if s.len() == 0 {
        0
    } else {
        field_sum(s.drop_last()) + s.last()
    }
}

/// Every site of the field is empty.
pub open spec fn is_vacuum(s: Seq<u32>) -> bool {
    forall|j: int| 0 <= j < s.len() ==> #[trigger] s[j] == 0
}

/// Every site of the field holds the same value.
pub open spec fn is_uniform(s: Seq<u32>) -> bool {
    forall|i: int, j: int| 0 <= i < s.len() && 0 <= j < s.len() ==> #[trigger] s[i] == #[trigger] s[j]
}

/// No site holds more than three quanta.
pub open spec fn within_cap(s: Seq<u32>) -> bool {
    forall|j: int| 0 <= j < s.len() ==> #[trigger] s[j] <= 3
}

/// Changing one site changes the total by the difference.
pub proof fn lemma_sum_update(s: Seq<u32>, j: int, v: u32)
    requires
        0 <= j < s.len(),
    ensures
        field_sum(s.update(j, v)) == field_sum(s) - s[j] + v,
    decreases s.len(),
{
    let t = s.update(j, v);
    if j == s.len() - 1 {
        assert(t.drop_last() =~= s.drop_last());
    } else {
        lemma_sum_update(s.drop_last(), j, v);
        assert(t.drop_last() =~= s.drop_last().update(j, v));
    }
}

/// The total is at least the value of any one site.
pub proof fn lemma_elem_le_sum(s: Seq<u32>, j: int)
    requires
        0 <= j < s.len(),
    ensures
        s[j] <= field_sum(s),
        0 <= field_sum(s),
    decreases s.len(),
{
    assert(field_sum(s) == field_sum(s.drop_last()) + s[s.len() - 1]);
    if j < s.len() - 1 {
        lemma_elem_le_sum(s.drop_last(), j);
        assert(s.drop_last()[j] == s[j]);
    } else if s.len() > 1 {
        lemma_elem_le_sum(s.drop_last(), 0);
    } else {
        assert(field_sum(s.drop_last()) == 0);
    }
}

/// The total is at least the values of any two distinct sites together.
pub proof fn lemma_two_le_sum(s: Seq<u32>, i: int, j: int)
    requires
        0 <= i < s.len(),
        0 <= j < s.len(),
        i != j,
    ensures
        s[i] + s[j] <= field_sum(s),
    decreases s.len(),
{
    let n = s.len() - 1;
    assert(field_sum(s) == field_sum(s.drop_last()) + s[n]);
    if i == n {
        lemma_elem_le_sum(s.drop_last(), j);
        assert(s.drop_last()[j] == s[j]);
    } else if j == n {
        lemma_elem_le_sum(s.drop_last(), i);
        assert(s.drop_last()[i] == s[i]);
    } else {
        lemma_two_le_sum(s.drop_last(), i, j);
        assert(s.drop_last()[i] == s[i] && s.drop_last()[j] == s[j]);
        lemma_elem_le_sum(s, n);
        lemma_elem_le_sum(s.drop_last(), i);
    }
}

/// The totals of the prefixes grow one site at a time and stay below the total.
pub proof fn lemma_prefix_sum(s: Seq<u32>, k: int)
    requires
        0 <= k < s.len(),
    ensures
        field_sum(s.take(k + 1)) == field_sum(s.take(k)) + s[k],
        field_sum(s.take(k + 1)) <= field_sum(s),
    decreases s.len(),
{
    assert(s.take(k + 1).drop_last() =~= s.take(k));
    if k + 1 < s.len() {
        lemma_prefix_sum(s.drop_last(), k);
        assert(s.drop_last().take(k + 1) =~= s.take(k + 1));
        assert(s.drop_last().take(k) =~= s.take(k));
    } else {
        assert(s.take(k + 1) =~= s);
    }
}

/// The total of a field.
pub fn sum_of(v: &Vec<u32>) -> (r: u32)
    requires
        field_sum(v@) <= u32::MAX,
    ensures
        r == field_sum(v@),
{
    let mut acc: u32 = 0;
    let mut k: usize = 0;
    assert(v@.take(0) =~= Seq::<u32>::empty());
    while k < v.len()
        invariant
            k <= v.len(),
            acc == field_sum(v@.take(k as int)),
            field_sum(v@) <= u32::MAX,
        decreases v.len() - k,
    {
        proof {
            lemma_prefix_sum(v@, k as int);
        }
        acc = acc + v[k];
        k = k + 1;
    }
    assert(v@.take(k as int) =~= v@);
    acc
}

} // verus!
