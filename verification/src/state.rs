//! Pre-rendered shards and the published snapshot's data.

use vstd::prelude::*;
use vstd::string::StringExecFns;

use crate::hasher::{assign_shard_from_parts, spec_assign_shard};
use crate::parser::{
    extract_metric_name, extract_sorted_label_key, fams_view, total_samples, FamilyView,
    ParsedFamily, Sample, spec_label_key, spec_metric_name,
};
use crate::text::str_eq;

verus! {

/// One shard's pre-rendered exposition text and its counters.
pub struct ShardData {
    /// The shard's rendered text.
    pub text: String,
    /// Number of distinct metric families in this shard.
    pub families_count: usize,
    /// Number of individual time series (samples) in this shard.
    pub series_count: usize,
}

/// Per-source outcome of the most recent scrape cycle.
pub struct SourceStatus {
    pub url: String,
    pub success: bool,
    /// Elapsed time of the fetch, in milliseconds.
    pub duration_ms: u64,
    pub metric_families: usize,
}

/// The immutable state one scrape cycle publishes: the shards and the
/// per-source statuses. Before the first successful cycle both are empty.
pub struct ShardedState {
    pub shards: Vec<ShardData>,
    pub source_status: Vec<SourceStatus>,
}

/// The state served before any scrape has succeeded.
pub fn empty_state() -> (r: ShardedState)
    ensures
        r.shards@.len() == 0,
        r.source_status@.len() == 0,
{
    ShardedState { shards: Vec::new(), source_status: Vec::new() }
}

/// The shard a sample line is assigned to, by its metric name and canonical
/// label key.
pub open spec fn spec_shard_of_line(line: Seq<char>, n: u32) -> int {
    spec_assign_shard(spec_metric_name(line), spec_label_key(line), n) as int
}

/// The builder's state: per-shard texts and series counts, and the ordered
/// list of (shard, family name) pairs whose header lines were emitted.
#[verifier::ext_equal]
pub ghost struct BuildState {
    pub texts: Seq<Seq<char>>,
    pub counts: Seq<int>,
    pub written: Seq<(int, Seq<char>)>,
}

pub open spec fn init_build_state(n: u32) -> BuildState {
    BuildState {
        texts: Seq::new(n as nat, |i: int| Seq::empty()),
        counts: Seq::new(n as nat, |i: int| 0),
        written: Seq::empty(),
    }
}

pub open spec fn header_lines(fam: FamilyView) -> Seq<char> {
    (match fam.help_line {
        Some(h) => h,
        None => Seq::<char>::empty(),
    }) + (match fam.type_line {
        Some(t) => t,
        None => Seq::<char>::empty(),
    })
}

/// One sample folded in: the family's HELP and TYPE go to the sample's shard
/// the first time that family reaches that shard, then the sample line is
/// appended and the shard's series count grows by one.
pub open spec fn spec_build_sample(
    st: BuildState,
    fam: FamilyView,
    line: Seq<char>,
    n: u32,
) -> BuildState {
    let sid = spec_shard_of_line(line, n);
    let st1 = if !st.written.contains((sid, fam.name)) {
        BuildState {
            texts: st.texts.update(sid, st.texts[sid] + header_lines(fam)),
            counts: st.counts,
            written: st.written.push((sid, fam.name)),
        }
    } else {
        st
    };
    BuildState {
        texts: st1.texts.update(sid, st1.texts[sid] + line),
        counts: st1.counts.update(sid, st1.counts[sid] + 1),
        written: st1.written,
    }
}

pub open spec fn spec_build_samples(
    st: BuildState,
    fam: FamilyView,
    samples: Seq<Seq<char>>,
    n: u32,
) -> BuildState
    decreases samples.len(),
{
    if samples.len() == 0 {
        st
    } else {
        spec_build_samples(
            spec_build_sample(st, fam, samples[0], n),
            fam,
            samples.subrange(1, samples.len() as int),
            n,
        )
    }
}

/// The builder's state after all families, in order.
pub open spec fn spec_build_all(fams: Seq<FamilyView>, n: u32) -> BuildState
    decreases fams.len(),
{
    if fams.len() == 0 {
        init_build_state(n)
    } else {
        spec_build_samples(
            spec_build_all(fams.drop_last(), n),
            fams[fams.len() - 1],
            fams[fams.len() - 1].samples,
            n,
        )
    }
}

/// How many header entries a shard received: the number of distinct families
/// that sourced a sample into it.
pub open spec fn count_written(written: Seq<(int, Seq<char>)>, s: int) -> int
    decreases written.len(),
{
    if written.len() == 0 {
        0
    } else {
        (if written[0].0 == s {
            1int
        } else {
            0int
        }) + count_written(written.subrange(1, written.len() as int), s)
    }
}

/// The sum of the per-shard series counts.
pub open spec fn sum_counts(counts: Seq<int>) -> int
    decreases counts.len(),
{
    if counts.len() == 0 {
        0
    } else {
        sum_counts(counts.drop_last()) + counts.last()
    }
}

/// A well-formed build state for `n` shards.
pub open spec fn build_state_wf(st: BuildState, n: u32) -> bool {
    &&& st.texts.len() == n
    &&& st.counts.len() == n
    &&& forall|s: int| 0 <= s < n ==> #[trigger] st.counts[s] >= 0
}

proof fn lemma_sum_update(counts: Seq<int>, i: int, v: int)
    requires
        0 <= i < counts.len(),
    ensures
        sum_counts(counts.update(i, v)) == sum_counts(counts) - counts[i] + v,
    decreases counts.len(),
{
    if counts.len() > 0 {
        if i == counts.len() - 1 {
            assert(counts.update(i, v).drop_last() =~= counts.drop_last());
        } else {
            lemma_sum_update(counts.drop_last(), i, v);
            assert(counts.update(i, v).drop_last() =~= counts.drop_last().update(i, v));
        }
    }
}

proof fn lemma_counts_bound(counts: Seq<int>, s: int)
    requires
        0 <= s < counts.len(),
        forall|t: int| 0 <= t < counts.len() ==> #[trigger] counts[t] >= 0,
    ensures
        0 <= counts[s] <= sum_counts(counts),
    decreases counts.len(),
{
    if counts.len() > 0 {
        if s == counts.len() - 1 {
            lemma_sum_nonneg(counts.drop_last());
        } else {
            lemma_counts_bound(counts.drop_last(), s);
        }
    }
}

proof fn lemma_sum_nonneg(counts: Seq<int>)
    requires
        forall|t: int| 0 <= t < counts.len() ==> #[trigger] counts[t] >= 0,
    ensures
        sum_counts(counts) >= 0,
    decreases counts.len(),
{
    if counts.len() > 0 {
        lemma_sum_nonneg(counts.drop_last());
    }
}

/// One sample keeps the state well formed and raises the total series count
/// by exactly one.
proof fn lemma_build_sample_wf(st: BuildState, fam: FamilyView, line: Seq<char>, n: u32)
    requires
        n >= 1,
        build_state_wf(st, n),
    ensures
        build_state_wf(spec_build_sample(st, fam, line, n), n),
        sum_counts(spec_build_sample(st, fam, line, n).counts) == sum_counts(st.counts) + 1,
        0 <= spec_shard_of_line(line, n) < n,
{
    crate::hasher::lemma_jump_from_range(
        crate::hasher::xxh3_of(
            crate::hasher::fingerprint_bytes(spec_metric_name(line), spec_label_key(line)),
        ),
        0,
        n,
    );
    let sid = spec_shard_of_line(line, n);
    lemma_sum_update(st.counts, sid, st.counts[sid] + 1);
}

proof fn lemma_build_samples_wf(st: BuildState, fam: FamilyView, samples: Seq<Seq<char>>, n: u32)
    requires
        n >= 1,
        build_state_wf(st, n),
    ensures
        build_state_wf(spec_build_samples(st, fam, samples, n), n),
        sum_counts(spec_build_samples(st, fam, samples, n).counts) == sum_counts(st.counts)
            + samples.len(),
    decreases samples.len(),
{
    if samples.len() > 0 {
        lemma_build_sample_wf(st, fam, samples[0], n);
        lemma_build_samples_wf(
            spec_build_sample(st, fam, samples[0], n),
            fam,
            samples.subrange(1, samples.len() as int),
            n,
        );
    }
}

/// No series is lost or duplicated: over all shards, the series counts of
/// the built shards add up to exactly the number of samples that went in,
/// and every sample line lands in exactly the one shard its hash selects.
pub proof fn lemma_no_series_lost(fams: Seq<FamilyView>, n: u32)
    requires
        n >= 1,
    ensures
        build_state_wf(spec_build_all(fams, n), n),
        sum_counts(spec_build_all(fams, n).counts) == total_samples(fams),
    decreases fams.len(),
{
    if fams.len() == 0 {
        assert forall|s: int| 0 <= s < n implies #[trigger] init_build_state(n).counts[s]
            >= 0 by {}
        lemma_sum_zero(init_build_state(n).counts);
    } else {
        lemma_no_series_lost(fams.drop_last(), n);
        lemma_build_samples_wf(
            spec_build_all(fams.drop_last(), n),
            fams[fams.len() - 1],
            fams[fams.len() - 1].samples,
            n,
        );
    }
}

proof fn lemma_sum_zero(counts: Seq<int>)
    requires
        forall|t: int| 0 <= t < counts.len() ==> #[trigger] counts[t] == 0,
    ensures
        sum_counts(counts) == 0,
    decreases counts.len(),
{
    if counts.len() > 0 {
        lemma_sum_zero(counts.drop_last());
    }
}

proof fn lemma_build_sample_nodup(st: BuildState, fam: FamilyView, line: Seq<char>, n: u32)
    requires
        st.written.no_duplicates(),
    ensures
        spec_build_sample(st, fam, line, n).written.no_duplicates(),
{
    let sid = spec_shard_of_line(line, n);
    if !st.written.contains((sid, fam.name)) {
        let w2 = st.written.push((sid, fam.name));
        assert forall|p: int, q: int| 0 <= p < q < w2.len() implies w2[p] != w2[q] by {
            if q == w2.len() - 1 {
                assert(!st.written.contains(w2[q]));
                assert(st.written[p] == w2[p]);
            }
        }
    }
}

proof fn lemma_build_samples_nodup(
    st: BuildState,
    fam: FamilyView,
    samples: Seq<Seq<char>>,
    n: u32,
)
    requires
        st.written.no_duplicates(),
    ensures
        spec_build_samples(st, fam, samples, n).written.no_duplicates(),
    decreases samples.len(),
{
    if samples.len() > 0 {
        lemma_build_sample_nodup(st, fam, samples[0], n);
        lemma_build_samples_nodup(
            spec_build_sample(st, fam, samples[0], n),
            fam,
            samples.subrange(1, samples.len() as int),
            n,
        );
    }
}

/// A family's header lines reach a shard at most once: a header block is
/// emitted exactly when its (shard, family name) pair is first recorded,
/// and the recorded pairs are pairwise distinct.
pub proof fn lemma_headers_once(fams: Seq<FamilyView>, n: u32)
    ensures
        spec_build_all(fams, n).written.no_duplicates(),
    decreases fams.len(),
{
    if fams.len() > 0 {
        lemma_headers_once(fams.drop_last(), n);
        lemma_build_samples_nodup(
            spec_build_all(fams.drop_last(), n),
            fams[fams.len() - 1],
            fams[fams.len() - 1].samples,
            n,
        );
    }
}

fn append_text(texts: &mut Vec<String>, idx: usize, piece: &str)
    requires
        idx < old(texts).len(),
    ensures
        final(texts)@.map_values(|t: String| t@) == old(texts)@.map_values(|t: String| t@)
            .update(idx as int, old(texts)@[idx as int]@ + piece@),
        final(texts).len() == old(texts).len(),
{
    let ghost tv = texts@.map_values(|t: String| t@);
    let mut t = texts.remove(idx);
    t.append(piece);
    texts.insert(idx, t);
    proof {
        assert(texts@.map_values(|t2: String| t2@) =~~= tv.update(
            idx as int,
            tv[idx as int] + piece@,
        ));
    }
}

fn inc_count(counts: &mut Vec<usize>, idx: usize)
    requires
        idx < old(counts).len(),
        old(counts)@[idx as int] < usize::MAX,
    ensures
        final(counts)@.map_values(|c: usize| c as int) == old(counts)@.map_values(
            |c: usize| c as int,
        ).update(idx as int, old(counts)@[idx as int] + 1),
        final(counts).len() == old(counts).len(),
{
    let ghost cv = counts@.map_values(|c: usize| c as int);
    let c = counts.remove(idx);
    counts.insert(idx, c + 1);
    proof {
        assert(counts@.map_values(|c2: usize| c2 as int) =~~= cv.update(
            idx as int,
            cv[idx as int] + 1,
        ));
    }
}

/// Whether the (shard, family name) pair already had its header emitted.
fn written_contains(written: &Vec<(usize, String)>, sid: usize, name: &str) -> (r: bool)
    ensures
        r == written@.map_values(|e: (usize, String)| (e.0 as int, e.1@)).contains(
            (sid as int, name@),
        ),
{
    let ghost wv = written@.map_values(|e: (usize, String)| (e.0 as int, e.1@));
    let n = written.len();
    let mut i: usize = 0;
    while i < n
        invariant
            0 <= i <= n,
            n == written.len(),
            wv == written@.map_values(|e: (usize, String)| (e.0 as int, e.1@)),
            forall|t: int| 0 <= t < i ==> wv[t] != (sid as int, name@),
        decreases n - i,
    {
        if written[i].0 == sid && str_eq(written[i].1.as_str(), name) {
            proof {
                assert(wv[i as int] == (sid as int, name@));
                assert(wv.contains((sid as int, name@)));
            }
            return true;
        }
        i = i + 1;
    }
    proof {
        assert(!wv.contains((sid as int, name@)));
    }
    false
}

/// How many header entries name the shard `sid`.
fn count_families(written: &Vec<(usize, String)>, sid: usize) -> (r: usize)
    ensures
        r as int == count_written(
            written@.map_values(|e: (usize, String)| (e.0 as int, e.1@)),
            sid as int,
        ),
{
    let ghost wv = written@.map_values(|e: (usize, String)| (e.0 as int, e.1@));
    let n = written.len();
    let mut i: usize = 0;
    let mut c: usize = 0;
    proof {
        assert(wv.subrange(0, wv.len() as int) =~= wv);
    }
    while i < n
        invariant
            0 <= i <= n,
            c <= i,
            n == written.len(),
            wv == written@.map_values(|e: (usize, String)| (e.0 as int, e.1@)),
            count_written(wv, sid as int) == c + count_written(
                wv.subrange(i as int, n as int),
                sid as int,
            ),
        decreases n - i,
    {
        proof {
            let t = wv.subrange(i as int, n as int);
            assert(t[0] == wv[i as int]);
            assert(t.subrange(1, t.len() as int) =~= wv.subrange(i + 1, n as int));
        }
        if written[i].0 == sid {
            c = c + 1;
        }
        i = i + 1;
    }
    c
}

/// Builds pre-rendered shards from parsed metric families.
///
/// Each sample is hashed by metric name and canonical label key for
/// consistent per-series distribution. HELP and TYPE headers are emitted
/// into a shard the first time any series of that family appears there. The
/// result is exactly the fold `spec_build_all` describes: shard `s` holds
/// text `texts[s]`, `counts[s]` series, and one family per header entry.
pub fn build_shards(families: Vec<ParsedFamily>, num_shards: u32) -> (r: Vec<ShardData>)
    requires
        num_shards >= 1,
        total_samples(fams_view(families)) <= usize::MAX,
    ensures
        ({
            let st = spec_build_all(fams_view(families), num_shards);
            &&& r@.len() == num_shards
            &&& forall|s: int|
                0 <= s < num_shards ==> (#[trigger] r@[s]).text@ == st.texts[s]
                    && r@[s].series_count as int == st.counts[s] && r@[s].families_count as int
                    == count_written(st.written, s)
        }),
{
    let ghost origv = fams_view(families);
    let mut texts: Vec<String> = Vec::new();
    let mut counts: Vec<usize> = Vec::new();
    let mut written: Vec<(usize, String)> = Vec::new();
    let mut s0: u32 = 0;
    while s0 < num_shards
        invariant
            0 <= s0 <= num_shards,
            texts@.len() == s0,
            counts@.len() == s0,
            forall|t: int| 0 <= t < s0 ==> (#[trigger] texts@[t])@.len() == 0,
            forall|t: int| 0 <= t < s0 ==> (#[trigger] counts@[t]) == 0,
        decreases num_shards - s0,
    {
        texts.push(String::new());
        counts.push(0);
        s0 = s0 + 1;
    }
    let ghost mut k: int = 0;
    let mut input = families;
    proof {
        assert(fams_view(input) =~= origv.subrange(0, origv.len() as int));
        assert(origv.subrange(0, 0) =~= Seq::<FamilyView>::empty());
        assert(texts@.map_values(|t: String| t@) =~~= init_build_state(num_shards).texts);
        assert(counts@.map_values(|c: usize| c as int) =~= init_build_state(num_shards).counts);
        assert(written@.map_values(|e: (usize, String)| (e.0 as int, e.1@)) =~= init_build_state(
            num_shards,
        ).written);
        assert forall|t: int| 0 <= t < num_shards implies #[trigger] init_build_state(
            num_shards,
        ).counts[t] == 0 by {}
        lemma_sum_zero(init_build_state(num_shards).counts);
    }
    while input.len() > 0
        invariant
            num_shards >= 1,
            0 <= k <= origv.len(),
            total_samples(origv) <= usize::MAX,
            fams_view(input) =~= origv.subrange(k, origv.len() as int),
            ({
                let st = spec_build_all(origv.subrange(0, k), num_shards);
                &&& texts@.map_values(|t: String| t@) == st.texts
                &&& counts@.map_values(|c: usize| c as int) == st.counts
                &&& written@.map_values(|e: (usize, String)| (e.0 as int, e.1@)) == st.written
                &&& build_state_wf(st, num_shards)
                &&& sum_counts(st.counts) == total_samples(origv.subrange(0, k))
            }),
        decreases input.len(),
    {
        proof {
            assert(fams_view(input).len() == input@.len());
            assert(k < origv.len());
            assert(origv.subrange(k, origv.len() as int)[0] == origv[k]);
            assert(origv.subrange(0, k + 1).drop_last() =~= origv.subrange(0, k));
            assert(origv.subrange(0, k + 1)[k] == origv[k]);
            crate::parser::lemma_total_samples_prefix(origv, k + 1);
            assert(total_samples(origv.subrange(0, k + 1)) == total_samples(
                origv.subrange(0, k),
            ) + origv[k].samples.len());
        }
        let ghost st_before = spec_build_all(origv.subrange(0, k), num_shards);
        let ghost famv = origv[k];
        let ghost inp0 = input@;
        let ghost inpview0 = fams_view(input);
        let fam = input.remove(0);
        proof {
            assert forall|t: int| 0 <= t < input@.len() implies fams_view(input)[t]
                == origv.subrange(k + 1, origv.len() as int)[t] by {
                assert(input@[t] == inp0[t + 1]);
                assert(fams_view(input)[t] == input@[t]@);
                assert(inpview0[t + 1] == inp0[t + 1]@);
                assert(inpview0[t + 1] == origv.subrange(k, origv.len() as int)[t + 1]);
            }
            assert(fams_view(input).len() == input@.len());
            assert(fams_view(input) =~= origv.subrange(k + 1, origv.len() as int));
            assert(inpview0[0] == fam@);
            assert(fam@ == famv);
        }
        // Render the header block once per family.
        let mut header = match &fam.help_line {
            Some(h) => h.clone(),
            None => String::new(),
        };
        match &fam.type_line {
            Some(t) => header.append(t.as_str()),
            None => (),
        }
        proof {
            assert(header@ =~= header_lines(famv));
        }
        let ghost svs = famv.samples;
        let mut samples = fam.samples;
        let fname = fam.name;
        proof {
            assert(samples@.map_values(|s: Sample| s@) == svs) by {
                assert(fam@.samples == svs);
            }
        }
        while samples.len() > 0
            invariant
                num_shards >= 1,
                fname@ == famv.name,
                header@ == header_lines(famv),
                samples@.len() <= svs.len(),
                sum_counts(st_before.counts) + svs.len() == total_samples(
                    origv.subrange(0, k + 1),
                ),
                total_samples(origv.subrange(0, k + 1)) <= usize::MAX,
                spec_build_samples(st_before, famv, svs, num_shards) == spec_build_samples(
                    ({
                        let cur = BuildState {
                            texts: texts@.map_values(|t: String| t@),
                            counts: counts@.map_values(|c: usize| c as int),
                            written: written@.map_values(
                                |e: (usize, String)| (e.0 as int, e.1@),
                            ),
                        };
                        cur
                    }),
                    famv,
                    samples@.map_values(|s: Sample| s@),
                    num_shards,
                ),
                ({
                    let cur = BuildState {
                        texts: texts@.map_values(|t: String| t@),
                        counts: counts@.map_values(|c: usize| c as int),
                        written: written@.map_values(|e: (usize, String)| (e.0 as int, e.1@)),
                    };
                    &&& build_state_wf(cur, num_shards)
                    &&& sum_counts(cur.counts) == sum_counts(st_before.counts) + svs.len()
                        - samples@.len()
                }),
            decreases samples.len(),
        {
            let ghost cur0 = BuildState {
                texts: texts@.map_values(|t: String| t@),
                counts: counts@.map_values(|c: usize| c as int),
                written: written@.map_values(|e: (usize, String)| (e.0 as int, e.1@)),
            };
            let ghost cur_samples = samples@.map_values(|s: Sample| s@);
            let s = samples.remove(0);
            proof {
                assert(samples@.map_values(|s2: Sample| s2@) =~= cur_samples.subrange(
                    1,
                    cur_samples.len() as int,
                ));
                assert(s@ == cur_samples[0]);
                lemma_build_sample_wf(cur0, famv, s@, num_shards);
            }
            let sample_name = extract_metric_name(s.raw_line.as_str());
            let label_key = extract_sorted_label_key(s.raw_line.as_str());
            let sid = assign_shard_from_parts(sample_name, label_key.as_str(), num_shards)
                as usize;
            proof {
                assert(sid as int == spec_shard_of_line(s@, num_shards));
            }
            if !written_contains(&written, sid, fname.as_str()) {
                append_text(&mut texts, sid, header.as_str());
                let ghost w0 = written@;
                written.push((sid, fname.clone()));
                proof {
                    assert(written@.map_values(|e: (usize, String)| (e.0 as int, e.1@)) =~= w0
                        .map_values(|e: (usize, String)| (e.0 as int, e.1@)).push(
                        (sid as int, famv.name),
                    ));
                }
            }
            append_text(&mut texts, sid, s.raw_line.as_str());
            proof {
                lemma_counts_bound(
                    counts@.map_values(|c: usize| c as int),
                    sid as int,
                );
            }
            inc_count(&mut counts, sid);
            proof {
                let cur1 = BuildState {
                    texts: texts@.map_values(|t: String| t@),
                    counts: counts@.map_values(|c: usize| c as int),
                    written: written@.map_values(|e: (usize, String)| (e.0 as int, e.1@)),
                };
                assert(cur1 =~~= spec_build_sample(cur0, famv, s@, num_shards));
            }
        }
        proof {
            assert(samples@.map_values(|s2: Sample| s2@).len() == 0);
            assert(spec_build_all(origv.subrange(0, k + 1), num_shards) == spec_build_samples(
                st_before,
                famv,
                svs,
                num_shards,
            ));
            crate::parser::lemma_total_samples_prefix(origv, k + 1);
            k = k + 1;
        }
    }
    proof {
        assert(origv.subrange(0, k) =~= origv);
    }
    let ghost stf = spec_build_all(origv, num_shards);
    let mut out: Vec<ShardData> = Vec::new();
    let mut s2: usize = 0;
    let n2 = texts.len();
    proof {
        assert(texts@.map_values(|t: String| t@).len() == n2);
        assert(n2 == num_shards);
    }
    while s2 < n2
        invariant
            0 <= s2 <= n2,
            n2 == texts.len(),
            n2 == counts.len(),
            n2 == num_shards,
            texts@.map_values(|t: String| t@) == stf.texts,
            counts@.map_values(|c: usize| c as int) == stf.counts,
            written@.map_values(|e: (usize, String)| (e.0 as int, e.1@)) == stf.written,
            out@.len() == s2,
            forall|s: int|
                0 <= s < s2 ==> (#[trigger] out@[s]).text@ == stf.texts[s]
                    && out@[s].series_count as int == stf.counts[s]
                    && out@[s].families_count as int == count_written(stf.written, s),
        decreases n2 - s2,
    {
        let fc = count_families(&written, s2);
        out.push(
            ShardData {
                text: texts[s2].clone(),
                families_count: fc,
                series_count: counts[s2],
            },
        );
        s2 = s2 + 1;
    }
    out
}

} // verus!
