//! The decision half of the scrape loop: given every source's fetch
//! outcome for one cycle, in configured order, decide what to publish.
//! The loop around it performs the fetches, hands the parsed and
//! label-injected families here, and swaps the published snapshot when a
//! new one comes back.

use vstd::prelude::*;

use crate::parser::{
    fams_view, lemma_merge_total, merge_families, spec_merge_all, total_samples, FamilyView,
    MergeStats, ParsedFamily,
};
use crate::state::{build_shards, count_written, spec_build_all, ShardData, SourceStatus};

verus! {

/// What one source's fetch produced: the parsed (and label-injected)
/// families and the elapsed milliseconds on success, an error message and
/// the elapsed milliseconds on failure.
pub struct FetchResult {
    pub url: String,
    pub outcome: Result<(Vec<ParsedFamily>, u64), (String, u64)>,
}

/// The families of the successful fetches, concatenated in configured
/// order.
pub open spec fn successful_families(results: Seq<FetchResult>) -> Seq<FamilyView>
    decreases results.len(),
{
    if results.len() == 0 {
        Seq::empty()
    } else {
        successful_families(results.drop_last()) + (match results.last().outcome {
            Ok(p) => fams_view(p.0),
            Err(_) => Seq::empty(),
        })
    }
}

/// Whether any source succeeded this cycle.
pub open spec fn any_success(results: Seq<FetchResult>) -> bool {
    exists|i: int| 0 <= i < results.len() && (#[trigger] results[i].outcome) is Ok
}

/// The status a fetch outcome turns into.
pub open spec fn status_matches(res: FetchResult, st: SourceStatus) -> bool {
    &&& st.url@ == res.url@
    &&& st.success == res.outcome is Ok
    &&& st.duration_ms == (match res.outcome {
        Ok(p) => p.1,
        Err(e) => e.1,
    })
    &&& st.metric_families == (match res.outcome {
        Ok(p) => p.0@.len(),
        Err(_) => 0nat,
    })
}

/// One scrape cycle's outcome: a status per source, in order, and — exactly
/// when at least one source succeeded — the new shard set built from the
/// successful sources' families, merged first-wins in configured order,
/// together with the merge statistics. When every source failed nothing is
/// published and the previous snapshot stays.
pub fn process_cycle(results: Vec<FetchResult>, num_shards: u32) -> (r: (
    Vec<SourceStatus>,
    Option<(Vec<ShardData>, MergeStats)>,
))
    requires
        num_shards >= 1,
        total_samples(successful_families(results@)) <= usize::MAX,
    ensures
        r.0@.len() == results@.len(),
        forall|i: int|
            0 <= i < results@.len() ==> status_matches(results@[i], #[trigger] r.0@[i]),
        r.1 is Some <==> any_success(results@),
        match r.1 {
            Some(p) => ({
                let m = spec_merge_all(successful_families(results@));
                let st = spec_build_all(m.0, num_shards);
                &&& p.0@.len() == num_shards
                &&& forall|s: int|
                    0 <= s < num_shards ==> (#[trigger] p.0@[s]).text@ == st.texts[s]
                        && p.0@[s].series_count as int == st.counts[s]
                        && p.0@[s].families_count as int == count_written(st.written, s)
                &&& p.1.duplicate_count as int == m.1
                &&& p.1.examples@.map_values(|e: String| e@) == m.2
            }),
            None => true,
        },
{
    let ghost origv = results@;
    let mut input = results;
    let mut statuses: Vec<SourceStatus> = Vec::new();
    let mut all: Vec<ParsedFamily> = Vec::new();
    let mut got_one = false;
    let ghost mut k: int = 0;
    proof {
        assert(input@ =~= origv.subrange(0, origv.len() as int));
        assert(origv.subrange(0, 0) =~= Seq::<FetchResult>::empty());
        assert(fams_view(all) =~= successful_families(origv.subrange(0, 0)));
    }
    while input.len() > 0
        invariant
            0 <= k <= origv.len(),
            input@ =~= origv.subrange(k, origv.len() as int),
            statuses@.len() == k,
            forall|i: int| 0 <= i < k ==> status_matches(origv[i], #[trigger] statuses@[i]),
            fams_view(all) == successful_families(origv.subrange(0, k)),
            got_one == any_success(origv.subrange(0, k)),
        decreases input.len(),
    {
        proof {
            assert(k < origv.len());
            assert(origv.subrange(k, origv.len() as int)[0] == origv[k]);
            assert(origv.subrange(0, k + 1).drop_last() =~= origv.subrange(0, k));
            assert(origv.subrange(0, k + 1)[k] == origv[k]);
        }
        let ghost inp0 = input@;
        let res = input.remove(0);
        proof {
            assert(input@ =~= origv.subrange(k + 1, origv.len() as int));
            assert(res == origv[k]);
        }
        let url = res.url;
        match res.outcome {
            Ok(p) => {
                let (mut fams, dur) = p;
                statuses.push(
                    SourceStatus {
                        url,
                        success: true,
                        duration_ms: dur,
                        metric_families: fams.len(),
                    },
                );
                let ghost allv0 = fams_view(all);
                let ghost newv = fams_view(fams);
                all.append(&mut fams);
                proof {
                    assert(fams_view(all) =~= allv0 + newv);
                    assert(any_success(origv.subrange(0, k + 1))) by {
                        assert(origv.subrange(0, k + 1)[k].outcome is Ok);
                    }
                }
                got_one = true;
            },
            Err(e) => {
                statuses.push(
                    SourceStatus {
                        url,
                        success: false,
                        duration_ms: e.1,
                        metric_families: 0,
                    },
                );
                proof {
                    assert(fams_view(all) + Seq::<FamilyView>::empty() =~= fams_view(all));
                    if any_success(origv.subrange(0, k + 1)) {
                        let wit = choose|i: int|
                            0 <= i < k + 1 && (#[trigger] origv.subrange(0, k + 1)[i].outcome)
                                is Ok;
                        if wit < k {
                            assert(origv.subrange(0, k)[wit].outcome is Ok);
                        }
                        assert(any_success(origv.subrange(0, k)));
                    }
                }
            },
        }
        proof {
            k = k + 1;
        }
    }
    proof {
        assert(origv.subrange(0, k) =~= origv);
    }
    if got_one {
        proof {
            lemma_merge_total(fams_view(all));
        }
        let (merged, stats) = merge_families(all);
        let shards = build_shards(merged, num_shards);
        (statuses, Some((shards, stats)))
    } else {
        (statuses, None)
    }
}

} // verus!
