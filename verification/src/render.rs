//! The decision and rendering half of the HTTP surface: which status and
//! body each route answers, computed from the current snapshot. The network
//! listener around it only performs I/O and, when a client asks for it,
//! compresses the body bytes produced here.

use vstd::prelude::*;
use vstd::string::StrSliceExecFns;
use vstd::string::StringExecFns;
use vstd::string::StringSliceAdditionalSpecFns;
use vstd::utf8::encode_utf8;

use crate::state::{ShardData, ShardedState, SourceStatus};
use crate::text::{
    dec_str, digit_char, digit_char_exec, push_char, str_to_string, u64_to_string,
    usize_to_string,
};

verus! {

/// What a route answers: an HTTP status, a content type (empty when the
/// plain default is fine), and the body text.
pub struct Reply {
    pub status: u16,
    pub content_type: String,
    pub body: String,
}

/// The diagnostic body for an out-of-range shard id.
pub open spec fn spec_shard_not_found_body(id: u32, n: u32) -> Seq<char> {
    "shard "@ + dec_str(id as nat) + " not found, valid range is 0.."@ + dec_str(n as nat)
}

/// The shard route: 404 with a diagnostic body above the configured range,
/// 503 before the first successful scrape, otherwise the shard's
/// pre-rendered text under the exposition content type.
pub fn shard_reply(state: &ShardedState, id: u32, num_shards: u32) -> (r: Reply)
    requires
        state.shards@.len() == 0 || state.shards@.len() == num_shards,
    ensures
        id >= num_shards ==> r.status == 404 && r.body@ == spec_shard_not_found_body(
            id,
            num_shards,
        ),
        id < num_shards && state.shards@.len() == 0 ==> r.status == 503 && r.body@
            == "metrics not yet available"@,
        id < num_shards && state.shards@.len() > 0 ==> r.status == 200 && r.body@
            == state.shards@[id as int].text@ && r.content_type@
            == "text/plain; version=0.0.4; charset=utf-8"@,
{
    if id >= num_shards {
        let mut body = str_to_string("shard ");
        body.append(u64_to_string(id as u64).as_str());
        body.append(" not found, valid range is 0..");
        body.append(u64_to_string(num_shards as u64).as_str());
        Reply { status: 404, content_type: str_to_string(""), body }
    } else if state.shards.len() == 0 {
        Reply {
            status: 503,
            content_type: str_to_string(""),
            body: str_to_string("metrics not yet available"),
        }
    } else {
        Reply {
            status: 200,
            content_type: str_to_string("text/plain; version=0.0.4; charset=utf-8"),
            body: state.shards[id as usize].text.clone(),
        }
    }
}

/// The health route: 503 `not ready` before the first successful scrape,
/// 200 `ok` after.
pub fn health_reply(state: &ShardedState) -> (r: Reply)
    ensures
        state.shards@.len() == 0 ==> r.status == 503 && r.body@ == "not ready"@,
        state.shards@.len() > 0 ==> r.status == 200 && r.body@ == "ok"@,
{
    if state.shards.len() == 0 {
        Reply { status: 503, content_type: str_to_string(""), body: str_to_string("not ready") }
    } else {
        Reply { status: 200, content_type: str_to_string(""), body: str_to_string("ok") }
    }
}

/// The lowercase hexadecimal digit for `d < 16`.
pub open spec fn hex_char(d: nat) -> char {
    if d < 10 {
        digit_char(d)
    } else if d == 10 {
        'a'
    } else if d == 11 {
        'b'
    } else if d == 12 {
        'c'
    } else if d == 13 {
        'd'
    } else if d == 14 {
        'e'
    } else {
        'f'
    }
}

/// One character as JSON escapes it: quote and backslash get a backslash,
/// the short control escapes are used where JSON has them, any other
/// control character becomes `\u00XX`.
pub open spec fn spec_json_escape_char(c: char) -> Seq<char> {
    if c == '"' {
        seq!['\\', '"']
    } else if c == '\\' {
        seq!['\\', '\\']
    } else if c == '\u{0008}' {
        seq!['\\', 'b']
    } else if c == '\u{0009}' {
        seq!['\\', 't']
    } else if c == '\u{000A}' {
        seq!['\\', 'n']
    } else if c == '\u{000C}' {
        seq!['\\', 'f']
    } else if c == '\u{000D}' {
        seq!['\\', 'r']
    } else if (c as int) < 0x20 {
        seq!['\\', 'u', '0', '0', hex_char(((c as int) / 16) as nat), hex_char(
            ((c as int) % 16) as nat,
        )]
    } else {
        seq![c]
    }
}

/// A string body escaped for inclusion in a JSON string literal.
pub open spec fn spec_json_escape(s: Seq<char>) -> Seq<char>
    decreases s.len(),
{
    if s.len() == 0 {
        Seq::empty()
    } else {
        spec_json_escape(s.drop_last()) + spec_json_escape_char(s.last())
    }
}

fn hex_char_exec(d: u32) -> (r: char)
    requires
        d < 16,
    ensures
        r == hex_char(d as nat),
{
    if d == 0 {
        '0'
    } else if d == 1 {
        '1'
    } else if d == 2 {
        '2'
    } else if d == 3 {
        '3'
    } else if d == 4 {
        '4'
    } else if d == 5 {
        '5'
    } else if d == 6 {
        '6'
    } else if d == 7 {
        '7'
    } else if d == 8 {
        '8'
    } else if d == 9 {
        '9'
    } else if d == 10 {
        'a'
    } else if d == 11 {
        'b'
    } else if d == 12 {
        'c'
    } else if d == 13 {
        'd'
    } else if d == 14 {
        'e'
    } else {
        'f'
    }
}

/// Escapes a string for a JSON string literal.
fn json_escape(s: &str) -> (r: String)
    ensures
        r@ == spec_json_escape(s@),
{
    let n = s.unicode_len();
    let mut acc = String::new();
    let mut i: usize = 0;
    proof {
        assert(s@.subrange(0, 0) =~= Seq::<char>::empty());
    }
    while i < n
        invariant
            0 <= i <= n,
            n == s@.len(),
            acc@ == spec_json_escape(s@.subrange(0, i as int)),
        decreases n - i,
    {
        let c = s.get_char(i);
        if c == '"' {
            push_char(&mut acc, '\\');
            push_char(&mut acc, '"');
        } else if c == '\\' {
            push_char(&mut acc, '\\');
            push_char(&mut acc, '\\');
        } else if c == '\u{0008}' {
            push_char(&mut acc, '\\');
            push_char(&mut acc, 'b');
        } else if c == '\u{0009}' {
            push_char(&mut acc, '\\');
            push_char(&mut acc, 't');
        } else if c == '\u{000A}' {
            push_char(&mut acc, '\\');
            push_char(&mut acc, 'n');
        } else if c == '\u{000C}' {
            push_char(&mut acc, '\\');
            push_char(&mut acc, 'f');
        } else if c == '\u{000D}' {
            push_char(&mut acc, '\\');
            push_char(&mut acc, 'r');
        } else if (c as u32) < 0x20 {
            push_char(&mut acc, '\\');
            push_char(&mut acc, 'u');
            push_char(&mut acc, '0');
            push_char(&mut acc, '0');
            push_char(&mut acc, hex_char_exec((c as u32) / 16));
            push_char(&mut acc, hex_char_exec((c as u32) % 16));
        } else {
            push_char(&mut acc, c);
        }
        proof {
            let pre = s@.subrange(0, i + 1);
            assert(pre.drop_last() =~= s@.subrange(0, i as int));
            assert(pre.last() == s@[i as int]);
            assert(acc@ =~= spec_json_escape(pre));
        }
        i = i + 1;
    }
    proof {
        assert(s@.subrange(0, n as int) =~= s@);
    }
    acc
}

/// Milliseconds rendered as seconds with three decimals.
pub open spec fn spec_secs3(ms: nat) -> Seq<char> {
    dec_str(ms / 1000) + seq!['.'] + seq![
        digit_char((ms % 1000) / 100),
        digit_char((ms % 1000) / 10 % 10),
        digit_char(ms % 10),
    ]
}

/// Renders milliseconds as seconds with three decimals.
pub fn millis_to_secs(ms: u64) -> (r: String)
    ensures
        r@ == spec_secs3(ms as nat),
{
    let mut acc = u64_to_string(ms / 1000);
    push_char(&mut acc, '.');
    let frac = ms % 1000;
    push_char(&mut acc, digit_char_exec(frac / 100));
    push_char(&mut acc, digit_char_exec((frac / 10) % 10));
    push_char(&mut acc, digit_char_exec(frac % 10));
    proof {
        assert(acc@ =~= spec_secs3(ms as nat));
    }
    acc
}

/// The JSON object describing one shard.
pub open spec fn spec_shard_json(i: int, s: ShardData) -> Seq<char> {
    "{\"families\":"@ + dec_str(s.families_count as nat) + ",\"id\":"@ + dec_str(i as nat)
        + ",\"series\":"@ + dec_str(s.series_count as nat) + ",\"size_bytes\":"@ + dec_str(
        (encode_utf8(s.text@).len() as usize) as nat,
    ) + "}"@
}

/// The JSON array elements for the shards, in order.
pub open spec fn spec_shards_json(shards: Seq<ShardData>) -> Seq<char>
    decreases shards.len(),
{
    if shards.len() == 0 {
        Seq::empty()
    } else if shards.len() == 1 {
        spec_shard_json(0, shards[0])
    } else {
        spec_shards_json(shards.drop_last()) + seq![','] + spec_shard_json(
            shards.len() - 1,
            shards.last(),
        )
    }
}

/// The JSON object describing one source.
pub open spec fn spec_source_json(s: SourceStatus) -> Seq<char> {
    "{\"duration_ms\":"@ + dec_str(s.duration_ms as nat) + ",\"metric_families\":"@ + dec_str(
        s.metric_families as nat,
    ) + ",\"success\":"@ + (if s.success {
        "true"@
    } else {
        "false"@
    }) + ",\"url\":\""@ + spec_json_escape(s.url@) + "\"}"@
}

/// The JSON array elements for the sources, in order.
pub open spec fn spec_sources_json(sources: Seq<SourceStatus>) -> Seq<char>
    decreases sources.len(),
{
    if sources.len() == 0 {
        Seq::empty()
    } else if sources.len() == 1 {
        spec_source_json(sources[0])
    } else {
        spec_sources_json(sources.drop_last()) + seq![','] + spec_source_json(sources.last())
    }
}

/// The whole status document.
pub open spec fn spec_status_body(state: ShardedState, num_shards: u32, age_ms: u64) -> Seq<char> {
    "{\"last_scrape_ago_secs\":"@ + spec_secs3(age_ms as nat) + ",\"num_shards\":"@ + dec_str(
        num_shards as nat,
    ) + ",\"shards\":["@ + spec_shards_json(state.shards@) + "],\"sources\":["@
        + spec_sources_json(state.source_status@) + "]}"@
}

/// Renders one shard's JSON object.
#[verifier::rlimit(60)]
fn shard_json(i: usize, sh: &ShardData) -> (r: String)
    ensures
        r@ == spec_shard_json(i as int, *sh),
{
    let mut r = str_to_string("{\"families\":");
    r.append(usize_to_string(sh.families_count).as_str());
    r.append(",\"id\":");
    r.append(usize_to_string(i).as_str());
    r.append(",\"series\":");
    r.append(usize_to_string(sh.series_count).as_str());
    r.append(",\"size_bytes\":");
    let ts = sh.text.as_str();
    let bl = ts.len();
    proof {
        assert(ts.spec_bytes() == encode_utf8(sh.text@));
    }
    r.append(usize_to_string(bl).as_str());
    r.append("}");
    proof {
        assert(r@ =~= spec_shard_json(i as int, *sh));
    }
    r
}

/// Renders one source's JSON object.
#[verifier::rlimit(60)]
fn source_json(src: &SourceStatus) -> (r: String)
    ensures
        r@ == spec_source_json(*src),
{
    let mut r = str_to_string("{\"duration_ms\":");
    r.append(u64_to_string(src.duration_ms).as_str());
    r.append(",\"metric_families\":");
    r.append(usize_to_string(src.metric_families).as_str());
    r.append(",\"success\":");
    if src.success {
        r.append("true");
    } else {
        r.append("false");
    }
    r.append(",\"url\":\"");
    r.append(json_escape(src.url.as_str()).as_str());
    r.append("\"}");
    proof {
        assert(r@ =~= spec_source_json(*src));
    }
    r
}

/// The status route: 503 `no data yet` before the first successful scrape,
/// otherwise the JSON document with the shard and source summaries,
/// `age_ms` being the time since the last successful scrape.
pub fn status_reply(state: &ShardedState, num_shards: u32, age_ms: u64) -> (r: Reply)
    ensures
        state.shards@.len() == 0 ==> r.status == 503 && r.body@ == "no data yet"@,
        state.shards@.len() > 0 ==> r.status == 200 && r.content_type@ == "application/json"@
            && r.body@ == spec_status_body(*state, num_shards, age_ms),
{
    if state.shards.len() == 0 {
        return Reply {
            status: 503,
            content_type: str_to_string(""),
            body: str_to_string("no data yet"),
        };
    }
    let mut body = str_to_string("{\"last_scrape_ago_secs\":");
    body.append(millis_to_secs(age_ms).as_str());
    body.append(",\"num_shards\":");
    body.append(u64_to_string(num_shards as u64).as_str());
    body.append(",\"shards\":[");
    let ns = state.shards.len();
    let mut i: usize = 0;
    let ghost base = body@;
    proof {
        assert(base + spec_shards_json(state.shards@.subrange(0, 0)) =~= base);
    }
    while i < ns
        invariant
            0 <= i <= ns,
            ns == state.shards@.len(),
            body@ == base + spec_shards_json(state.shards@.subrange(0, i as int)),
        decreases ns - i,
    {
        let piece = shard_json(i, &state.shards[i]);
        if i > 0 {
            push_char(&mut body, ',');
        }
        body.append(piece.as_str());
        proof {
            let pre = state.shards@.subrange(0, i + 1);
            assert(pre.drop_last() =~= state.shards@.subrange(0, i as int));
            assert(pre.last() == state.shards@[i as int]);
            assert(body@ =~= base + spec_shards_json(pre));
        }
        i = i + 1;
    }
    proof {
        assert(state.shards@.subrange(0, ns as int) =~= state.shards@);
    }
    body.append("],\"sources\":[");
    let nsrc = state.source_status.len();
    let mut j: usize = 0;
    let ghost base2 = body@;
    proof {
        assert(base2 + spec_sources_json(state.source_status@.subrange(0, 0)) =~= base2);
    }
    while j < nsrc
        invariant
            0 <= j <= nsrc,
            nsrc == state.source_status@.len(),
            body@ == base2 + spec_sources_json(state.source_status@.subrange(0, j as int)),
        decreases nsrc - j,
    {
        let piece = source_json(&state.source_status[j]);
        if j > 0 {
            push_char(&mut body, ',');
        }
        body.append(piece.as_str());
        proof {
            let pre = state.source_status@.subrange(0, j + 1);
            assert(pre.drop_last() =~= state.source_status@.subrange(0, j as int));
            assert(pre.last() == state.source_status@[j as int]);
            assert(body@ =~= base2 + spec_sources_json(pre));
        }
        j = j + 1;
    }
    proof {
        assert(state.source_status@.subrange(0, nsrc as int) =~= state.source_status@);
    }
    body.append("]}");
    proof {
        assert(body@ =~= spec_status_body(*state, num_shards, age_ms));
    }
    Reply { status: 200, content_type: str_to_string("application/json"), body }
}

/// One `prom_reaper_shard_series` line.
pub open spec fn spec_series_line(i: int, s: ShardData) -> Seq<char> {
    "prom_reaper_shard_series{shard=\""@ + dec_str(i as nat) + "\"} "@ + dec_str(
        s.series_count as nat,
    ) + "\n"@
}

pub open spec fn spec_series_lines(shards: Seq<ShardData>) -> Seq<char>
    decreases shards.len(),
{
    if shards.len() == 0 {
        Seq::empty()
    } else {
        spec_series_lines(shards.drop_last()) + spec_series_line(
            shards.len() - 1,
            shards.last(),
        )
    }
}

/// One `prom_reaper_shard_families` line.
pub open spec fn spec_families_line(i: int, s: ShardData) -> Seq<char> {
    "prom_reaper_shard_families{shard=\""@ + dec_str(i as nat) + "\"} "@ + dec_str(
        s.families_count as nat,
    ) + "\n"@
}

pub open spec fn spec_families_lines(shards: Seq<ShardData>) -> Seq<char>
    decreases shards.len(),
{
    if shards.len() == 0 {
        Seq::empty()
    } else {
        spec_families_lines(shards.drop_last()) + spec_families_line(
            shards.len() - 1,
            shards.last(),
        )
    }
}

/// One `prom_reaper_shard_size_bytes` line.
pub open spec fn spec_size_line(i: int, s: ShardData) -> Seq<char> {
    "prom_reaper_shard_size_bytes{shard=\""@ + dec_str(i as nat) + "\"} "@ + dec_str(
        (encode_utf8(s.text@).len() as usize) as nat,
    ) + "\n"@
}

pub open spec fn spec_size_lines(shards: Seq<ShardData>) -> Seq<char>
    decreases shards.len(),
{
    if shards.len() == 0 {
        Seq::empty()
    } else {
        spec_size_lines(shards.drop_last()) + spec_size_line(shards.len() - 1, shards.last())
    }
}

/// One `prom_reaper_source_up` line.
pub open spec fn spec_up_line(s: SourceStatus) -> Seq<char> {
    "prom_reaper_source_up{url=\""@ + s.url@ + "\"} "@ + (if s.success {
        "1"@
    } else {
        "0"@
    }) + "\n"@
}

pub open spec fn spec_up_lines(sources: Seq<SourceStatus>) -> Seq<char>
    decreases sources.len(),
{
    if sources.len() == 0 {
        Seq::empty()
    } else {
        spec_up_lines(sources.drop_last()) + spec_up_line(sources.last())
    }
}

/// One `prom_reaper_source_scrape_duration_seconds` line.
pub open spec fn spec_duration_line(s: SourceStatus) -> Seq<char> {
    "prom_reaper_source_scrape_duration_seconds{url=\""@ + s.url@ + "\"} "@ + spec_secs3(
        s.duration_ms as nat,
    ) + "\n"@
}

pub open spec fn spec_duration_lines(sources: Seq<SourceStatus>) -> Seq<char>
    decreases sources.len(),
{
    if sources.len() == 0 {
        Seq::empty()
    } else {
        spec_duration_lines(sources.drop_last()) + spec_duration_line(sources.last())
    }
}

/// The whole self-metrics document: the scrape age (`NaN` before the first
/// successful cycle), the per-shard gauges, the per-source gauges, and the
/// configured shard count, all in exposition format.
pub open spec fn spec_self_metrics_body(
    state: ShardedState,
    num_shards: u32,
    age_ms: u64,
) -> Seq<char> {
    "# HELP prom_reaper_last_scrape_age_seconds Seconds since the last successful scrape cycle.\n# TYPE prom_reaper_last_scrape_age_seconds gauge\n"@
        + (if state.shards@.len() == 0 {
        "prom_reaper_last_scrape_age_seconds NaN\n"@
    } else {
        "prom_reaper_last_scrape_age_seconds "@ + spec_secs3(age_ms as nat) + "\n"@
    })
        + "# HELP prom_reaper_shard_series Number of time series in a shard.\n# TYPE prom_reaper_shard_series gauge\n"@
        + spec_series_lines(state.shards@)
        + "# HELP prom_reaper_shard_families Number of metric families in a shard.\n# TYPE prom_reaper_shard_families gauge\n"@
        + spec_families_lines(state.shards@)
        + "# HELP prom_reaper_shard_size_bytes Size of a shard's uncompressed text in bytes.\n# TYPE prom_reaper_shard_size_bytes gauge\n"@
        + spec_size_lines(state.shards@)
        + "# HELP prom_reaper_source_up Whether the last scrape of a source succeeded (1 = success, 0 = failure).\n# TYPE prom_reaper_source_up gauge\n"@
        + spec_up_lines(state.source_status@)
        + "# HELP prom_reaper_source_scrape_duration_seconds Duration of the last scrape for a source.\n# TYPE prom_reaper_source_scrape_duration_seconds gauge\n"@
        + spec_duration_lines(state.source_status@)
        + "# HELP prom_reaper_num_shards Configured number of shards.\n# TYPE prom_reaper_num_shards gauge\nprom_reaper_num_shards "@
        + dec_str(num_shards as nat) + "\n"@
}

#[verifier::rlimit(60)]
fn series_line(i: usize, sh: &ShardData) -> (r: String)
    ensures
        r@ == spec_series_line(i as int, *sh),
{
    let mut r = str_to_string("prom_reaper_shard_series{shard=\"");
    r.append(usize_to_string(i).as_str());
    r.append("\"} ");
    r.append(usize_to_string(sh.series_count).as_str());
    r.append("\n");
    proof {
        assert(r@ =~= spec_series_line(i as int, *sh));
    }
    r
}

#[verifier::rlimit(60)]
fn families_line(i: usize, sh: &ShardData) -> (r: String)
    ensures
        r@ == spec_families_line(i as int, *sh),
{
    let mut r = str_to_string("prom_reaper_shard_families{shard=\"");
    r.append(usize_to_string(i).as_str());
    r.append("\"} ");
    r.append(usize_to_string(sh.families_count).as_str());
    r.append("\n");
    proof {
        assert(r@ =~= spec_families_line(i as int, *sh));
    }
    r
}

#[verifier::rlimit(60)]
fn size_line(i: usize, sh: &ShardData) -> (r: String)
    ensures
        r@ == spec_size_line(i as int, *sh),
{
    let mut r = str_to_string("prom_reaper_shard_size_bytes{shard=\"");
    r.append(usize_to_string(i).as_str());
    r.append("\"} ");
    let ts = sh.text.as_str();
    let bl = ts.len();
    proof {
        assert(ts.spec_bytes() == encode_utf8(sh.text@));
    }
    r.append(usize_to_string(bl).as_str());
    r.append("\n");
    proof {
        assert(r@ =~= spec_size_line(i as int, *sh));
    }
    r
}

#[verifier::rlimit(60)]
fn up_line(src: &SourceStatus) -> (r: String)
    ensures
        r@ == spec_up_line(*src),
{
    let mut r = str_to_string("prom_reaper_source_up{url=\"");
    r.append(src.url.as_str());
    r.append("\"} ");
    if src.success {
        r.append("1");
    } else {
        r.append("0");
    }
    r.append("\n");
    proof {
        assert(r@ =~= spec_up_line(*src));
    }
    r
}

#[verifier::rlimit(60)]
fn duration_line(src: &SourceStatus) -> (r: String)
    ensures
        r@ == spec_duration_line(*src),
{
    let mut r = str_to_string("prom_reaper_source_scrape_duration_seconds{url=\"");
    r.append(src.url.as_str());
    r.append("\"} ");
    r.append(millis_to_secs(src.duration_ms).as_str());
    r.append("\n");
    proof {
        assert(r@ =~= spec_duration_line(*src));
    }
    r
}

/// The self-metrics route: always 200, exposition format, the gauges that
/// describe the proxy itself. `age_ms` is the time since the last
/// successful scrape; it is ignored (and `NaN` served) before the first
/// one.
pub fn self_metrics_reply(state: &ShardedState, num_shards: u32, age_ms: u64) -> (r: Reply)
    ensures
        r.status == 200,
        r.content_type@ == "text/plain; version=0.0.4; charset=utf-8"@,
        r.body@ == spec_self_metrics_body(*state, num_shards, age_ms),
{
    let mut body = str_to_string(
        "# HELP prom_reaper_last_scrape_age_seconds Seconds since the last successful scrape cycle.\n# TYPE prom_reaper_last_scrape_age_seconds gauge\n",
    );
    if state.shards.len() == 0 {
        body.append("prom_reaper_last_scrape_age_seconds NaN\n");
    } else {
        body.append("prom_reaper_last_scrape_age_seconds ");
        body.append(millis_to_secs(age_ms).as_str());
        body.append("\n");
    }
    body.append(
        "# HELP prom_reaper_shard_series Number of time series in a shard.\n# TYPE prom_reaper_shard_series gauge\n",
    );
    let ns = state.shards.len();
    let mut i: usize = 0;
    let ghost b1 = body@;
    proof {
        assert(b1 + spec_series_lines(state.shards@.subrange(0, 0)) =~= b1);
    }
    while i < ns
        invariant
            0 <= i <= ns,
            ns == state.shards@.len(),
            body@ == b1 + spec_series_lines(state.shards@.subrange(0, i as int)),
        decreases ns - i,
    {
        let piece = series_line(i, &state.shards[i]);
        body.append(piece.as_str());
        proof {
            let pre = state.shards@.subrange(0, i + 1);
            assert(pre.drop_last() =~= state.shards@.subrange(0, i as int));
            assert(pre.last() == state.shards@[i as int]);
            assert(body@ =~= b1 + spec_series_lines(pre));
        }
        i = i + 1;
    }
    proof {
        assert(state.shards@.subrange(0, ns as int) =~= state.shards@);
    }
    body.append(
        "# HELP prom_reaper_shard_families Number of metric families in a shard.\n# TYPE prom_reaper_shard_families gauge\n",
    );
    let mut i2: usize = 0;
    let ghost b2 = body@;
    proof {
        assert(b2 + spec_families_lines(state.shards@.subrange(0, 0)) =~= b2);
    }
    while i2 < ns
        invariant
            0 <= i2 <= ns,
            ns == state.shards@.len(),
            body@ == b2 + spec_families_lines(state.shards@.subrange(0, i2 as int)),
        decreases ns - i2,
    {
        let piece = families_line(i2, &state.shards[i2]);
        body.append(piece.as_str());
        proof {
            let pre = state.shards@.subrange(0, i2 + 1);
            assert(pre.drop_last() =~= state.shards@.subrange(0, i2 as int));
            assert(pre.last() == state.shards@[i2 as int]);
            assert(body@ =~= b2 + spec_families_lines(pre));
        }
        i2 = i2 + 1;
    }
    proof {
        assert(state.shards@.subrange(0, ns as int) =~= state.shards@);
    }
    body.append(
        "# HELP prom_reaper_shard_size_bytes Size of a shard's uncompressed text in bytes.\n# TYPE prom_reaper_shard_size_bytes gauge\n",
    );
    let mut i3: usize = 0;
    let ghost b3 = body@;
    proof {
        assert(b3 + spec_size_lines(state.shards@.subrange(0, 0)) =~= b3);
    }
    while i3 < ns
        invariant
            0 <= i3 <= ns,
            ns == state.shards@.len(),
            body@ == b3 + spec_size_lines(state.shards@.subrange(0, i3 as int)),
        decreases ns - i3,
    {
        let piece = size_line(i3, &state.shards[i3]);
        body.append(piece.as_str());
        proof {
            let pre = state.shards@.subrange(0, i3 + 1);
            assert(pre.drop_last() =~= state.shards@.subrange(0, i3 as int));
            assert(pre.last() == state.shards@[i3 as int]);
            assert(body@ =~= b3 + spec_size_lines(pre));
        }
        i3 = i3 + 1;
    }
    proof {
        assert(state.shards@.subrange(0, ns as int) =~= state.shards@);
    }
    body.append(
        "# HELP prom_reaper_source_up Whether the last scrape of a source succeeded (1 = success, 0 = failure).\n# TYPE prom_reaper_source_up gauge\n",
    );
    let nsrc = state.source_status.len();
    let mut j: usize = 0;
    let ghost b4 = body@;
    proof {
        assert(b4 + spec_up_lines(state.source_status@.subrange(0, 0)) =~= b4);
    }
    while j < nsrc
        invariant
            0 <= j <= nsrc,
            nsrc == state.source_status@.len(),
            body@ == b4 + spec_up_lines(state.source_status@.subrange(0, j as int)),
        decreases nsrc - j,
    {
        let piece = up_line(&state.source_status[j]);
        body.append(piece.as_str());
        proof {
            let pre = state.source_status@.subrange(0, j + 1);
            assert(pre.drop_last() =~= state.source_status@.subrange(0, j as int));
            assert(pre.last() == state.source_status@[j as int]);
            assert(body@ =~= b4 + spec_up_lines(pre));
        }
        j = j + 1;
    }
    proof {
        assert(state.source_status@.subrange(0, nsrc as int) =~= state.source_status@);
    }
    body.append(
        "# HELP prom_reaper_source_scrape_duration_seconds Duration of the last scrape for a source.\n# TYPE prom_reaper_source_scrape_duration_seconds gauge\n",
    );
    let mut j2: usize = 0;
    let ghost b5 = body@;
    proof {
        assert(b5 + spec_duration_lines(state.source_status@.subrange(0, 0)) =~= b5);
    }
    while j2 < nsrc
        invariant
            0 <= j2 <= nsrc,
            nsrc == state.source_status@.len(),
            body@ == b5 + spec_duration_lines(state.source_status@.subrange(0, j2 as int)),
        decreases nsrc - j2,
    {
        let piece = duration_line(&state.source_status[j2]);
        body.append(piece.as_str());
        proof {
            let pre = state.source_status@.subrange(0, j2 + 1);
            assert(pre.drop_last() =~= state.source_status@.subrange(0, j2 as int));
            assert(pre.last() == state.source_status@[j2 as int]);
            assert(body@ =~= b5 + spec_duration_lines(pre));
        }
        j2 = j2 + 1;
    }
    proof {
        assert(state.source_status@.subrange(0, nsrc as int) =~= state.source_status@);
    }
    body.append(
        "# HELP prom_reaper_num_shards Configured number of shards.\n# TYPE prom_reaper_num_shards gauge\nprom_reaper_num_shards ",
    );
    body.append(u64_to_string(num_shards as u64).as_str());
    body.append("\n");
    proof {
        assert(body@ =~= spec_self_metrics_body(*state, num_shards, age_ms));
    }
    Reply {
        status: 200,
        content_type: str_to_string("text/plain; version=0.0.4; charset=utf-8"),
        body,
    }
}

} // verus!
