//! Measure reports and their reduction to stratifiers.
use vstd::prelude::*;
use crate::criteria::{
    Criteria, CriteriaGroup, Stratifiers, CountsMap, StratifiersMap, count_of, counts_at,
    combine_stratifiers, stratifiers_fit, counts_fit, combine_criteria_groups,
};
use crate::errors::PrismError;

verus! {

/// A coded concept.
pub struct Coding {
    pub code: String,
    pub system: String,
}

/// The code of a population.
pub struct PopulationCode {
    pub coding: Vec<Coding>,
}

/// A population with its patient count.
pub struct Population {
    pub code: PopulationCode,
    pub count: u64,
}

/// The time span a report covers.
pub struct Period {
    pub end: String,
    pub start: String,
}

/// A text label.
pub struct Code {
    pub text: String,
}

/// The value that names a stratum.
pub struct StratumValue {
    pub text: String,
}

/// One stratum: its value and its populations.
pub struct Stratum {
    pub population: Vec<Population>,
    pub value: StratumValue,
}

/// A stratifier: its codes and, possibly, its strata.
pub struct Stratifier {
    pub code: Vec<Code>,
    pub stratum: Option<Vec<Stratum>>,
}

/// A group of a report.
pub struct Group {
    pub code: Code,
    pub population: Vec<Population>,
    pub stratifier: Vec<Stratifier>,
}

/// A measure report, with the parts that the reduction and its callers read.
pub struct MeasureReport {
    pub date: String,
    pub group: Vec<Group>,
    pub id: Option<String>,
    pub measure: String,
    pub period: Period,
    pub resource_type: String,
    pub status: String,
    pub type_: String,
}

/// The counts of a list of strata: each value with the count of its first
/// population; a later stratum with the same value replaces an earlier one.
pub open spec fn strata_counts(strata: Seq<Stratum>) -> CountsMap
    decreases strata.len(),
{
    if strata.len() == 0 {
        Map::empty()
    } else {
        let last = strata.last();
        strata_counts(strata.drop_last()).insert(
            last.value.text@,
            last.population@[0].count as nat,
        )
    }
}

/// Every stratum has a population.
pub open spec fn strata_valid(strata: Seq<Stratum>) -> bool {
    forall|i: int| 0 <= i < strata.len() ==> (#[trigger] strata[i]).population@.len() > 0
}

/// A stratifier has a code, and each of its strata a population.
pub open spec fn stratifier_valid(s: Stratifier) -> bool {
    &&& s.code@.len() > 0
    &&& match s.stratum {
        Some(v) => strata_valid(v@),
        None => true,
    }
}

/// The counts of a stratifier; absent strata give no counts.
pub open spec fn stratifier_counts(s: Stratifier) -> CountsMap {
    match s.stratum {
        Some(v) => strata_counts(v@),
        None => Map::empty(),
    }
}

/// A stratifier as stratifiers of one key: its first code's text.
pub open spec fn stratifier_entry(s: Stratifier) -> StratifiersMap {
    Map::empty().insert(s.code@[0].text@, stratifier_counts(s))
}

/// The stratifiers of all groups, in order.
pub open spec fn all_stratifiers(gs: Seq<Group>) -> Seq<Stratifier>
    decreases gs.len(),
{
    if gs.len() == 0 {
        Seq::empty()
    } else {
        all_stratifiers(gs.drop_last()) + gs.last().stratifier@
    }
}

/// Stratifiers combined in order, a recurring key summing its counts.
pub open spec fn fold_stratifiers(ss: Seq<Stratifier>) -> StratifiersMap
    decreases ss.len(),
{
    if ss.len() == 0 {
        Map::empty()
    } else {
        combine_stratifiers(fold_stratifiers(ss.drop_last()), stratifier_entry(ss.last()))
    }
}

/// Every stratifier of the report is valid.
pub open spec fn report_valid(r: MeasureReport) -> bool {
    forall|i: int|
        0 <= i < all_stratifiers(r.group@).len() ==> stratifier_valid(
            #[trigger] all_stratifiers(r.group@)[i],
        )
}

/// Every count fits in a `u64`.
pub open spec fn stratifiers_bounded(m: StratifiersMap) -> bool {
    forall|k1: Seq<char>, k2: Seq<char>| #[trigger] count_of(counts_at(m, k1), k2) <= u64::MAX
}

/// What a valid report reduces to.
pub open spec fn reduce_report(r: MeasureReport) -> StratifiersMap {
    fold_stratifiers(all_stratifiers(r.group@))
}

/// A report can be reduced: it is valid and its summed counts fit.
pub open spec fn reducible(r: MeasureReport) -> bool {
    report_valid(r) && stratifiers_bounded(reduce_report(r))
}

/// The counts under a key of a combination are the sums of both sides' counts.
proof fn lemma_combine_stratifiers_count(
    a: StratifiersMap,
    b: StratifiersMap,
    k1: Seq<char>,
    k2: Seq<char>,
)
    ensures
        count_of(counts_at(combine_stratifiers(a, b), k1), k2) == count_of(counts_at(a, k1), k2)
            + count_of(counts_at(b, k1), k2),
{
}

/// Counts never shrink as more stratifiers are folded in.
proof fn lemma_fold_prefix_mono(ss: Seq<Stratifier>, n: int, k1: Seq<char>, k2: Seq<char>)
    requires
        0 <= n <= ss.len(),
    ensures
        count_of(counts_at(fold_stratifiers(ss.subrange(0, n)), k1), k2) <= count_of(
            counts_at(fold_stratifiers(ss), k1),
            k2,
        ),
    decreases ss.len(),
{
    if n == ss.len() {
        assert(ss.subrange(0, n) =~= ss);
    } else {
        let d = ss.drop_last();
        assert(d.subrange(0, n) =~= ss.subrange(0, n));
        lemma_fold_prefix_mono(d, n, k1, k2);
        lemma_combine_stratifiers_count(fold_stratifiers(d), stratifier_entry(ss.last()), k1, k2);
    }
}

/// The stratifiers of a prefix of the groups start the stratifiers of all groups.
proof fn lemma_all_stratifiers_prefix(gs: Seq<Group>, n: int)
    requires
        0 <= n <= gs.len(),
    ensures
        all_stratifiers(gs.subrange(0, n)).len() <= all_stratifiers(gs).len(),
        all_stratifiers(gs).subrange(0, all_stratifiers(gs.subrange(0, n)).len() as int)
            == all_stratifiers(gs.subrange(0, n)),
    decreases gs.len(),
{
    if n == gs.len() {
        assert(gs.subrange(0, n) =~= gs);
        assert(all_stratifiers(gs).subrange(0, all_stratifiers(gs).len() as int) =~= all_stratifiers(gs));
    } else {
        let d = gs.drop_last();
        assert(d.subrange(0, n) =~= gs.subrange(0, n));
        lemma_all_stratifiers_prefix(d, n);
        let p = all_stratifiers(gs.subrange(0, n));
        assert(all_stratifiers(gs).subrange(0, p.len() as int) =~= all_stratifiers(d).subrange(0, p.len() as int));
    }
}

/// One more group adds its stratifiers at the end.
proof fn lemma_all_stratifiers_step(gs: Seq<Group>, n: int)
    requires
        0 <= n < gs.len(),
    ensures
        all_stratifiers(gs.subrange(0, n + 1)) == all_stratifiers(gs.subrange(0, n)) + gs[n].stratifier@,
{
    assert(gs.subrange(0, n + 1).drop_last() =~= gs.subrange(0, n));
}

/// The counts of one stratifier's strata.
fn strata_criteria(strata: &Vec<Stratum>) -> (r: Result<Criteria, PrismError>)
    ensures
        match r {
            Ok(c) => c.wf() && strata_valid(strata@) && c@ == strata_counts(strata@),
            Err(e) => !strata_valid(strata@) && e is ParsingError,
        },
{
    let mut criteria = Criteria::new();
    let mut i: usize = 0;
    while i < strata.len()
        invariant
            i <= strata@.len(),
            criteria.wf(),
            criteria@ == strata_counts(strata@.subrange(0, i as int)),
            strata_valid(strata@.subrange(0, i as int)),
        decreases strata@.len() - i,
    {
        let stratum = &strata[i];
        if stratum.population.len() == 0 {
            proof {
                assert(strata@[i as int].population@.len() == 0);
            }
            return Err(PrismError::ParsingError(String::from_str("Missing criterion count")));
        }
        let stratum_key = stratum.value.text.clone();
        let value = stratum.population[0].count;
        criteria.insert(stratum_key, value);
        proof {
            let p = strata@.subrange(0, i + 1);
            assert(p.drop_last() =~= strata@.subrange(0, i as int));
            assert(strata_valid(p)) by {
                assert forall|j: int| 0 <= j < p.len() implies (#[trigger] p[j]).population@.len() > 0 by {
                    if j < i {
                        assert(strata@.subrange(0, i as int)[j] == p[j]);
                    }
                }
            }
        }
        i = i + 1;
    }
    proof {
        assert(strata@.subrange(0, strata@.len() as int) =~= strata@);
    }
    Ok(criteria)
}

/// Reduces a measure report to stratifiers: for each stratifier of each
/// group, the text of its first code keys the counts of its strata; a key
/// that recurs sums its counts per stratum.
pub fn extract_criteria(measure_report: MeasureReport) -> (r: Result<Stratifiers, PrismError>)
    ensures
        match r {
            Ok(s) => s.wf() && reducible(measure_report) && s@ == reduce_report(measure_report),
            Err(e) => !reducible(measure_report) && e is ParsingError,
        },
{
    let ghost gs = measure_report.group@;
    let ghost all = all_stratifiers(gs);
    let mut stratifiers = CriteriaGroup::new();
    let mut g: usize = 0;
    proof {
        assert(gs.subrange(0, 0) =~= Seq::<Group>::empty());
        assert(all_stratifiers(gs.subrange(0, 0)) =~= Seq::<Stratifier>::empty());
    }
    while g < measure_report.group.len()
        invariant
            gs == measure_report.group@,
            all == all_stratifiers(gs),
            g <= gs.len(),
            stratifiers.wf(),
            stratifiers@ == fold_stratifiers(all_stratifiers(gs.subrange(0, g as int))),
            forall|i: int|
                0 <= i < all_stratifiers(gs.subrange(0, g as int)).len() ==> stratifier_valid(
                    #[trigger] all_stratifiers(gs.subrange(0, g as int))[i],
                ),
        decreases gs.len() - g,
    {
        let group = &measure_report.group[g];
        let ghost done = all_stratifiers(gs.subrange(0, g as int));
        let ghost ss = group.stratifier@;
        proof {
            lemma_all_stratifiers_step(gs, g as int);
            lemma_all_stratifiers_prefix(gs, g + 1);
            assert(ss.subrange(0, 0) =~= Seq::<Stratifier>::empty());
            assert(done + ss.subrange(0, 0) =~= done);
        }
        let mut j: usize = 0;
        while j < group.stratifier.len()
            invariant
                gs == measure_report.group@,
                all == all_stratifiers(gs),
                g < gs.len(),
                *group == gs[g as int],
                ss == group.stratifier@,
                done == all_stratifiers(gs.subrange(0, g as int)),
                all_stratifiers(gs.subrange(0, g + 1)) == done + ss,
                (done + ss).len() <= all.len(),
                all.subrange(0, (done + ss).len() as int) == done + ss,
                j <= ss.len(),
                stratifiers.wf(),
                stratifiers@ == fold_stratifiers(done + ss.subrange(0, j as int)),
                forall|i: int|
                    0 <= i < (done + ss.subrange(0, j as int)).len() ==> stratifier_valid(
                        #[trigger] (done + ss.subrange(0, j as int))[i],
                    ),
            decreases ss.len() - j,
        {
            let s = &group.stratifier[j];
            let ghost pos = done.len() + j;
            proof {
                assert(all[pos] == (done + ss)[pos]);
                assert((done + ss)[pos] == ss[j as int]);
            }
            if s.code.len() == 0 {
                proof {
                    assert(!stratifier_valid(all[pos]));
                }
                return Err(PrismError::ParsingError(String::from_str("Missing criterion key")));
            }
            let criteria_key = s.code[0].text.clone();
            let criteria = match &s.stratum {
                Some(strata) => strata_criteria(strata),
                None => Ok(Criteria::new()),
            };
            let criteria = match criteria {
                Ok(c) => c,
                Err(e) => {
                    proof {
                        assert(!stratifier_valid(all[pos]));
                    }
                    return Err(e);
                },
            };
            let ghost prefix = done + ss.subrange(0, j as int);
            let ghost next = done + ss.subrange(0, j + 1);
            proof {
                assert(next.drop_last() =~= prefix);
                assert(next.last() == ss[j as int]);
                assert(stratifier_entry(ss[j as int]) == Map::<Seq<char>, CountsMap>::empty().insert(
                    criteria_key@,
                    criteria@,
                ));
                assert(next =~= all.subrange(0, next.len() as int));
            }
            let fits = match stratifiers.get(&criteria_key) {
                Some(existing) => existing.fits_with(&criteria),
                None => {
                    proof {
                        criteria.lemma_counts_bounded();
                        assert(counts_fit(Map::empty(), criteria@));
                    }
                    true
                },
            };
            if !fits {
                proof {
                    let k2 = choose|k2: Seq<char>|
                        #![trigger count_of(criteria@, k2)]
                        count_of(counts_at(stratifiers@, criteria_key@), k2) + count_of(criteria@, k2)
                            > u64::MAX;
                    lemma_combine_stratifiers_count(
                        stratifiers@,
                        stratifier_entry(ss[j as int]),
                        criteria_key@,
                        k2,
                    );
                    lemma_fold_prefix_mono(all, next.len() as int, criteria_key@, k2);
                }
                return Err(PrismError::ParsingError(String::from_str("Criterion count too large")));
            }
            let mut single = CriteriaGroup::new();
            single.insert(criteria_key, criteria);
            proof {
                stratifiers.lemma_counts_bounded();
                assert forall|k: Seq<char>| #[trigger] counts_fit(
                    counts_at(stratifiers@, k),
                    counts_at(single@, k),
                ) by {
                    if k != criteria_key@ {
                        assert(counts_at(single@, k) == Map::<Seq<char>, nat>::empty());
                    }
                }
                assert(stratifiers_fit(stratifiers@, single@));
                assert(single@ == stratifier_entry(ss[j as int]));
            }
            stratifiers = combine_criteria_groups(stratifiers, single);
            proof {
                assert forall|i: int| 0 <= i < next.len() implies stratifier_valid(#[trigger] next[i]) by {
                    if i < prefix.len() {
                        assert(next[i] == prefix[i]);
                    } else {
                        assert(next[i] == ss[j as int]);
                    }
                }
            }
            j = j + 1;
        }
        proof {
            assert(ss.subrange(0, ss.len() as int) =~= ss);
        }
        g = g + 1;
    }
    proof {
        assert(gs.subrange(0, gs.len() as int) =~= gs);
        stratifiers.lemma_counts_bounded();
    }
    Ok(stratifiers)
}


/// The reduction is a function of the report: equal reports reduce alike,
/// and fail alike.
pub proof fn law_extract_criteria_deterministic(a: MeasureReport, b: MeasureReport)
    requires
        a == b,
    ensures
        reducible(a) == reducible(b),
        reduce_report(a) == reduce_report(b),
{
}

} // verus!
