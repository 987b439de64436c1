//! The screening of candidates by the probes that fare worst.

use vstd::prelude::*;

use crate::probe::{MeasurementModel, ProbeMeasurement};

verus! {

/// Whether the measurement `i` comes before `j` in the order of screening: the
/// smaller gap first, among equal gaps by name, among equal names as listed.
pub open spec fn screens_before(baseline: Seq<MeasurementModel>, i: int, j: int) -> bool {
    let a = baseline[i];
    let b = baseline[j];
    if a.gap.rank() != b.gap.rank() {
        a.gap.rank() < b.gap.rank()
    } else if a.name != b.name {
        crate::text::text_before(a.name, b.name)
    } else {
        i < j
    }
}

/// The chosen measurements are the first `count` in the order of screening, or all
/// where there are fewer, in that order.
pub open spec fn is_screen(
    baseline: Seq<MeasurementModel>,
    count: nat,
    chosen: Seq<usize>,
) -> bool {
    &&& chosen.len() == if count < baseline.len() {
        count
    } else {
        baseline.len()
    }
    &&& forall|k: int| 0 <= k < chosen.len() ==> (#[trigger] chosen[k]) < baseline.len()
    &&& forall|k: int, l: int|
        0 <= k < l < chosen.len() ==> screens_before(
            baseline,
            #[trigger] chosen[k] as int,
            #[trigger] chosen[l] as int,
        )
    &&& forall|k: int, j: usize|
        0 <= k < chosen.len() && j < baseline.len() && !(#[trigger] chosen.contains(j))
            ==> screens_before(baseline, #[trigger] chosen[k] as int, j as int)
}

proof fn lemma_screens_total(baseline: Seq<MeasurementModel>, i: int, j: int)
    ensures
        screens_before(baseline, i, j) || screens_before(baseline, j, i) || i == j,
        !(screens_before(baseline, i, j) && screens_before(baseline, j, i)),
{
    crate::text::law_text_order_is_total(baseline[i].name, baseline[j].name);
}

proof fn lemma_screens_transitive(baseline: Seq<MeasurementModel>, i: int, j: int, k: int)
    requires
        screens_before(baseline, i, j),
        screens_before(baseline, j, k),
    ensures
        screens_before(baseline, i, k),
{
    let a = baseline[i].name;
    let b = baseline[j].name;
    let c = baseline[k].name;
    if a != b && b != c && crate::text::text_before(a, b) && crate::text::text_before(b, c) {
        crate::text::law_text_order_is_transitive(a, b, c);
        crate::text::law_text_order_is_total(a, c);
    }
    crate::text::law_text_order_is_total(a, b);
}

/// The baseline and the count leave one choice only.
pub proof fn law_screen_is_determined(
    baseline: Seq<MeasurementModel>,
    count: nat,
    first: Seq<usize>,
    second: Seq<usize>,
)
    requires
        is_screen(baseline, count, first),
        is_screen(baseline, count, second),
    ensures
        first == second,
{
    assert forall|k: int| 0 <= k < first.len() implies first[k] == second[k] by {
        lemma_screens_agree(baseline, count, first, second, k);
    }
    assert(first =~= second);
}

proof fn lemma_screens_agree(
    baseline: Seq<MeasurementModel>,
    count: nat,
    first: Seq<usize>,
    second: Seq<usize>,
    k: int,
)
    requires
        is_screen(baseline, count, first),
        is_screen(baseline, count, second),
        0 <= k < first.len(),
    ensures
        first[k] == second[k],
    decreases k,
{
    assert forall|m: int| 0 <= m < k implies first[m] == second[m] by {
        lemma_screens_agree(baseline, count, first, second, m);
    }
    lemma_screens_total(baseline, first[k] as int, second[k] as int);
    lemma_screen_not_skipped(baseline, count, first, second, k);
    lemma_screen_not_skipped(baseline, count, second, first, k);
}

proof fn lemma_screen_not_skipped(
    baseline: Seq<MeasurementModel>,
    count: nat,
    first: Seq<usize>,
    second: Seq<usize>,
    k: int,
)
    requires
        is_screen(baseline, count, first),
        is_screen(baseline, count, second),
        0 <= k < first.len(),
        forall|m: int| 0 <= m < k ==> first[m] == second[m],
    ensures
        !screens_before(baseline, first[k] as int, second[k] as int),
{
    lemma_screens_total(baseline, first[k] as int, second[k] as int);
    lemma_screens_total(baseline, first[k] as int, first[k] as int);
    if second.contains(first[k]) {
        let m = choose|m: int| 0 <= m < second.len() && second[m] == first[k];
        if m < k {
            assert(screens_before(baseline, first[m] as int, first[k] as int));
        } else if m > k {
            assert(screens_before(baseline, second[k] as int, second[m] as int));
        }
    } else {
        assert(screens_before(baseline, second[k] as int, first[k] as int));
    }
}

/// A screen names measurements of the baseline, each once.
pub proof fn lemma_screen_in_range(
    baseline: Seq<MeasurementModel>,
    count: nat,
    chosen: Seq<usize>,
)
    requires
        is_screen(baseline, count, chosen),
    ensures
        chosen.no_duplicates(),
        forall|k: int| 0 <= k < chosen.len() ==> (#[trigger] chosen[k]) < baseline.len(),
{
    assert forall|k: int, l: int|
        0 <= k < chosen.len() && 0 <= l < chosen.len() && k != l implies chosen[k] != chosen[l] by {
        let (a, b) = if k < l {
            (k, l)
        } else {
            (l, k)
        };
        assert(screens_before(baseline, chosen[a] as int, chosen[b] as int));
        lemma_screens_total(baseline, chosen[a] as int, chosen[b] as int);
        lemma_screens_total(baseline, chosen[a] as int, chosen[a] as int);
    }
}

fn is_screened_before(baseline: &[ProbeMeasurement], i: usize, j: usize) -> (r: bool)
    requires
        i < baseline@.len(),
        j < baseline@.len(),
    ensures
        r == screens_before(
            crate::probe::measurement_models(baseline@),
            i as int,
            j as int,
        ),
{
    let a: &ProbeMeasurement = &baseline[i];
    let b: &ProbeMeasurement = &baseline[j];
    proof {
        crate::float::law_rank_refines_order(a.gap, b.gap);
    }
    if a.gap != b.gap {
        a.gap.ranks_before(b.gap)
    } else if a.name != b.name {
        crate::text::is_text_before(a.name.as_str(), b.name.as_str())
    } else {
        i < j
    }
}

/// The order that holds the measurements before `shown`.
spec fn orders(baseline: Seq<MeasurementModel>, order: Seq<usize>, shown: nat) -> bool {
    &&& order.len() == shown
    &&& forall|k: int| 0 <= k < order.len() ==> (#[trigger] order[k]) < shown
    &&& forall|j: usize| j < shown ==> #[trigger] order.contains(j)
    &&& forall|k: int, l: int|
        0 <= k < l < order.len() ==> screens_before(
            baseline,
            #[trigger] order[k] as int,
            #[trigger] order[l] as int,
        )
}

proof fn lemma_order_inserted(
    baseline: Seq<MeasurementModel>,
    order: Seq<usize>,
    shown: usize,
    at: int,
)
    requires
        orders(baseline, order, shown as nat),
        shown < usize::MAX,
        0 <= at <= order.len(),
        at < order.len() ==> screens_before(baseline, shown as int, order[at] as int),
        at > 0 ==> !screens_before(baseline, shown as int, order[at - 1] as int),
    ensures
        orders(baseline, order.insert(at, shown), (shown + 1) as nat),
{
    let after = order.insert(at, shown);
    assert forall|k: int, l: int| 0 <= k < l < after.len() implies screens_before(
        baseline,
        #[trigger] after[k] as int,
        #[trigger] after[l] as int,
    ) by {
        let a = if k < at {
            k
        } else {
            k - 1
        };
        let b = if l < at {
            l
        } else {
            l - 1
        };
        if k != at && l != at {
            assert(after[k] == order[a] && after[l] == order[b]);
            assert(screens_before(baseline, order[a] as int, order[b] as int));
        } else if k == at {
            assert(after[l] == order[b]);
            if b > at {
                assert(screens_before(baseline, order[at] as int, order[b] as int));
                lemma_screens_transitive(
                    baseline,
                    shown as int,
                    order[at] as int,
                    order[b] as int,
                );
            }
        } else {
            assert(after[k] == order[a]);
            assert(order[at - 1] < shown);
            lemma_screens_total(baseline, shown as int, order[at - 1] as int);
            if a < at - 1 {
                assert(screens_before(baseline, order[a] as int, order[at - 1] as int));
                lemma_screens_transitive(
                    baseline,
                    order[a] as int,
                    order[at - 1] as int,
                    shown as int,
                );
            }
        }
    }
    assert forall|j: usize| j < shown + 1 implies #[trigger] after.contains(j) by {
        if j == shown {
            assert(after[at] == j);
        } else {
            assert(order.contains(j));
            let k = choose|k: int| 0 <= k < order.len() && order[k] == j;
            if k < at {
                assert(after[k] == j);
            } else {
                assert(after[k + 1] == j);
            }
        }
    }
    assert forall|k: int| 0 <= k < after.len() implies (#[trigger] after[k]) < shown + 1 by {
        if k < at {
            assert(after[k] == order[k]);
        } else if k > at {
            assert(after[k] == order[k - 1]);
        }
    }
}

/// Chooses the measurements to screen with.
pub fn screen_indices(baseline: &[ProbeMeasurement], count: usize) -> (r: Vec<usize>)
    ensures
        is_screen(crate::probe::measurement_models(baseline@), count as nat, r@),
{
    let ghost models = crate::probe::measurement_models(baseline@);
    let total: usize = baseline.len();
    let mut order: Vec<usize> = Vec::new();
    let mut next: usize = 0;
    while next < total
        invariant
            next <= total,
            total == baseline@.len(),
            models == crate::probe::measurement_models(baseline@),
            orders(models, order@, next as nat),
        decreases total - next,
    {
        let mut at: usize = order.len();
        while at > 0 && is_screened_before(baseline, next, order[at - 1])
            invariant
                at <= order@.len(),
                next < total,
                total == baseline@.len(),
                models == crate::probe::measurement_models(baseline@),
                orders(models, order@, next as nat),
                at < order@.len() ==> screens_before(models, next as int, order@[at as int] as int),
            decreases at,
        {
            at = at - 1;
        }
        proof {
            lemma_order_inserted(models, order@, next, at as int);
        }
        order.insert(at, next);
        next = next + 1;
    }
    let ghost all = order@;
    order.truncate(count);
    proof {
        assert forall|k: int, j: usize|
            0 <= k < order@.len() && j < models.len() && !(#[trigger] order@.contains(
                j,
            )) implies screens_before(models, #[trigger] order@[k] as int, j as int) by {
            assert(all.contains(j));
            let l = choose|l: int| 0 <= l < all.len() && all[l] == j;
            if l < order@.len() {
                assert(order@[l] == j);
            }
            assert(order@[k] == all[k]);
            assert(screens_before(models, all[k] as int, all[l] as int));
        }
        assert forall|k: int, l: int| 0 <= k < l < order@.len() implies screens_before(
            models,
            #[trigger] order@[k] as int,
            #[trigger] order@[l] as int,
        ) by {
            assert(order@[k] == all[k] && order@[l] == all[l]);
        }
    }
    order
}

} // verus!
