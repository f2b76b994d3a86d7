//! The exposition-format parser: text to metric families, the canonical
//! label key of a sample line, label injection, and the first-wins merge of
//! families scraped from several sources.

use vstd::prelude::*;
use vstd::seq_lib::lemma_sorted_unique;
use vstd::string::StrSliceExecFns;
use vstd::string::StringExecFns;

use crate::text::{
    ends_with, find_char, is_prefix_of, is_suffix_of, is_whitespace_char, is_wspace,
    lemma_lex_le_total_ordering, lex_le, lex_leq_fn, push_char, rfind_char, spec_find, spec_rfind,
    spec_trim, starts_with, str_eq, str_le, str_to_string, trim, trim_front,
};

verus! {

/// A single parsed sample line, preserving the original text.
pub struct Sample {
    /// The original verbatim line (including trailing newline).
    pub raw_line: String,
}

impl View for Sample {
    type V = Seq<char>;

    open spec fn view(&self) -> Seq<char> {
        self.raw_line@
    }
}

/// The mathematical image of a parsed family.
#[verifier::ext_equal]
pub ghost struct FamilyView {
    pub name: Seq<char>,
    pub help_line: Option<Seq<char>>,
    pub type_line: Option<Seq<char>>,
    pub samples: Seq<Seq<char>>,
}

/// A parsed metric family: a base name, optional verbatim HELP and TYPE
/// lines, and the verbatim sample lines that belong to it.
pub struct ParsedFamily {
    /// Base metric name (for example `http_requests`).
    pub name: String,
    /// Verbatim `# HELP ...` line with trailing newline, if present.
    pub help_line: Option<String>,
    /// Verbatim `# TYPE ...` line with trailing newline, if present.
    pub type_line: Option<String>,
    /// Individual sample lines.
    pub samples: Vec<Sample>,
}

impl View for ParsedFamily {
    type V = FamilyView;

    open spec fn view(&self) -> FamilyView {
        FamilyView {
            name: self.name@,
            help_line: match self.help_line {
                Some(h) => Some(h@),
                None => None,
            },
            type_line: match self.type_line {
                Some(t) => Some(t@),
                None => None,
            },
            samples: self.samples@.map_values(|s: Sample| s@),
        }
    }
}

/// The views of a vector of families.
pub open spec fn fams_view(v: Vec<ParsedFamily>) -> Seq<FamilyView> {
    v@.map_values(|f: ParsedFamily| f@)
}

/// One line of `s` with a line ending stripped: `\r\n` loses both
/// characters, `\n` one.
pub open spec fn strip_cr(l: Seq<char>) -> Seq<char> {
    if l.len() > 0 && l[l.len() - 1] == '\r' {
        l.drop_last()
    } else {
        l
    }
}

/// The lines of `s`, as `str::lines` yields them: split at `\n`, a `\r`
/// before the split point dropped, and no empty line after a final `\n`.
pub open spec fn spec_lines(s: Seq<char>) -> Seq<Seq<char>>
    decreases s.len(),
        via spec_lines_dec
{
    if s.len() == 0 {
        Seq::empty()
    } else {
        match spec_find(s, '\n') {
            None => seq![s],
            Some(i) => seq![strip_cr(s.subrange(0, i))] + spec_lines(
                s.subrange(i + 1, s.len() as int),
            ),
        }
    }
}

#[via_fn]
proof fn spec_lines_dec(s: Seq<char>) {
    if s.len() > 0 {
        crate::text::lemma_find_from_correct(s, '\n', 0);
    }
}

/// Splits `input` into lines as `str::lines` does.
fn split_lines(input: &str) -> (r: Vec<String>)
    ensures
        r@.map_values(|l: String| l@) == spec_lines(input@),
{
    let n = input.unicode_len();
    let mut out: Vec<String> = Vec::new();
    let mut pos: usize = 0;
    proof {
        assert(input@.subrange(0, n as int) =~= input@);
    }
    while pos < n
        invariant
            0 <= pos <= n,
            n == input@.len(),
            spec_lines(input@) =~= out@.map_values(|l: String| l@) + spec_lines(
                input@.subrange(pos as int, n as int),
            ),
        decreases n - pos,
    {
        let ghost rest = input@.subrange(pos as int, n as int);
        let rest_str = input.substring_char(pos, n);
        match find_char(rest_str, '\n') {
            Some(k) => {
                proof {
                    crate::text::lemma_find_from_correct(rest, '\n', 0);
                }
                let mut line = input.substring_char(pos, pos + k);
                proof {
                    assert(line@ =~= rest.subrange(0, k as int));
                }
                if k > 0 && line.get_char(k - 1) == '\r' {
                    line = input.substring_char(pos, pos + k - 1);
                    proof {
                        assert(line@ =~= rest.subrange(0, k as int).drop_last());
                    }
                }
                proof {
                    assert(line@ == strip_cr(rest.subrange(0, k as int)));
                }
                let ghost out0 = out@;
                out.push(str_to_string(line));
                proof {
                    assert(rest.subrange(k + 1, rest.len() as int) =~= input@.subrange(
                        pos + k + 1,
                        n as int,
                    ));
                    assert(out@.map_values(|l: String| l@) =~= out0.map_values(
                        |l: String| l@,
                    ) + seq![strip_cr(rest.subrange(0, k as int))]);
                }
                pos = pos + k + 1;
            },
            None => {
                proof {
                    crate::text::lemma_find_from_correct(rest, '\n', 0);
                }
                let line = input.substring_char(pos, n);
                let ghost out0 = out@;
                out.push(str_to_string(line));
                proof {
                    assert(out@.map_values(|l: String| l@) =~= out0.map_values(|l: String| l@)
                        + seq![rest]);
                    assert(input@.subrange(n as int, n as int).len() == 0);
                }
                pos = n;
            },
        }
    }
    proof {
        assert(spec_lines(input@.subrange(pos as int, n as int)).len() == 0);
        assert(out@.map_values(|l: String| l@) =~= spec_lines(input@));
    }
    out
}

/// The longest prefix of `t` free of whitespace.
pub open spec fn take_until_ws(t: Seq<char>) -> Seq<char>
    decreases t.len(),
{
    if t.len() == 0 || is_wspace(t[0]) {
        Seq::empty()
    } else {
        seq![t[0]] + take_until_ws(t.subrange(1, t.len() as int))
    }
}

/// The first whitespace-delimited token of `s`, or the empty sequence.
pub open spec fn spec_first_token(s: Seq<char>) -> Seq<char> {
    take_until_ws(trim_front(s))
}

/// Extracts the first whitespace-delimited token from a string.
pub fn first_token<'a>(s: &'a str) -> (r: &'a str)
    ensures
        r@ == spec_first_token(s@),
{
    let n = s.unicode_len();
    proof {
        assert(s@.subrange(0, n as int) =~= s@);
    }
    let mut i: usize = 0;
    while i < n && is_whitespace_char(s.get_char(i))
        invariant
            0 <= i <= n,
            n == s@.len(),
            trim_front(s@) == trim_front(s@.subrange(i as int, n as int)),
        decreases n - i,
    {
        proof {
            assert(s@.subrange(i as int, n as int).subrange(1, (n - i) as int) =~= s@.subrange(
                i + 1,
                n as int,
            ));
        }
        i = i + 1;
    }
    proof {
        assert(trim_front(s@) == s@.subrange(i as int, n as int));
    }
    let mut j: usize = i;
    while j < n && !is_whitespace_char(s.get_char(j))
        invariant
            i <= j <= n,
            n == s@.len(),
            trim_front(s@) == s@.subrange(i as int, n as int),
            take_until_ws(s@.subrange(i as int, n as int)) == s@.subrange(i as int, j as int)
                + take_until_ws(s@.subrange(j as int, n as int)),
        decreases n - j,
    {
        proof {
            let t = s@.subrange(j as int, n as int);
            assert(t[0] == s@[j as int]);
            assert(t.subrange(1, t.len() as int) =~= s@.subrange(j + 1, n as int));
            assert(s@.subrange(i as int, j as int) + seq![s@[j as int]] =~= s@.subrange(
                i as int,
                j + 1,
            ));
        }
        j = j + 1;
    }
    proof {
        let t = s@.subrange(j as int, n as int);
        if j < n {
            assert(t[0] == s@[j as int]);
        }
        assert(take_until_ws(t) =~= Seq::<char>::empty());
        assert(take_until_ws(s@.subrange(i as int, n as int)) =~= s@.subrange(i as int, j as int));
    }
    s.substring_char(i, j)
}

/// The metric name of a sample line: everything before the first `{` or
/// space.
pub open spec fn spec_metric_name(s: Seq<char>) -> Seq<char>
    decreases s.len(),
{
    if s.len() == 0 || s[0] == '{' || s[0] == ' ' {
        Seq::empty()
    } else {
        seq![s[0]] + spec_metric_name(s.subrange(1, s.len() as int))
    }
}

/// Extracts the metric name from a sample line.
pub fn extract_metric_name<'a>(line: &'a str) -> (r: &'a str)
    ensures
        r@ == spec_metric_name(line@),
{
    let n = line.unicode_len();
    proof {
        assert(line@.subrange(0, n as int) =~= line@);
    }
    let mut j: usize = 0;
    while j < n && line.get_char(j) != '{' && line.get_char(j) != ' '
        invariant
            0 <= j <= n,
            n == line@.len(),
            spec_metric_name(line@) == line@.subrange(0, j as int) + spec_metric_name(
                line@.subrange(j as int, n as int),
            ),
        decreases n - j,
    {
        proof {
            let t = line@.subrange(j as int, n as int);
            assert(t[0] == line@[j as int]);
            assert(t.subrange(1, t.len() as int) =~= line@.subrange(j + 1, n as int));
            assert(line@.subrange(0, j as int) + seq![line@[j as int]] =~= line@.subrange(
                0,
                j + 1,
            ));
        }
        j = j + 1;
    }
    proof {
        let t = line@.subrange(j as int, n as int);
        if j < n {
            assert(t[0] == line@[j as int]);
        }
        assert(spec_metric_name(t) =~= Seq::<char>::empty());
        assert(spec_metric_name(line@) =~= line@.subrange(0, j as int));
    }
    line.substring_char(0, j)
}

/// `s` without its suffix of length `suf.len()`.
pub open spec fn spec_strip_suffix(s: Seq<char>, suf: Seq<char>) -> Seq<char>
    recommends
        is_suffix_of(suf, s),
{
    s.subrange(0, s.len() - suf.len())
}

/// The base name of a sample metric: a known histogram or counter suffix is
/// stripped, the first of `_bucket`, `_count`, `_sum`, `_total`, `_created`,
/// `_info` that matches.
pub open spec fn spec_base_name(s: Seq<char>) -> Seq<char> {
    if is_suffix_of("_bucket"@, s) {
        spec_strip_suffix(s, "_bucket"@)
    } else if is_suffix_of("_count"@, s) {
        spec_strip_suffix(s, "_count"@)
    } else if is_suffix_of("_sum"@, s) {
        spec_strip_suffix(s, "_sum"@)
    } else if is_suffix_of("_total"@, s) {
        spec_strip_suffix(s, "_total"@)
    } else if is_suffix_of("_created"@, s) {
        spec_strip_suffix(s, "_created"@)
    } else if is_suffix_of("_info"@, s) {
        spec_strip_suffix(s, "_info"@)
    } else {
        s
    }
}

/// For metrics without a TYPE declaration, strips known suffixes to find the
/// base name.
pub fn base_name<'a>(sample_name: &'a str) -> (r: &'a str)
    ensures
        r@ == spec_base_name(sample_name@),
{
    let n = sample_name.unicode_len();
    if ends_with(sample_name, "_bucket") {
        sample_name.substring_char(0, n - "_bucket".unicode_len())
    } else if ends_with(sample_name, "_count") {
        sample_name.substring_char(0, n - "_count".unicode_len())
    } else if ends_with(sample_name, "_sum") {
        sample_name.substring_char(0, n - "_sum".unicode_len())
    } else if ends_with(sample_name, "_total") {
        sample_name.substring_char(0, n - "_total".unicode_len())
    } else if ends_with(sample_name, "_created") {
        sample_name.substring_char(0, n - "_created".unicode_len())
    } else if ends_with(sample_name, "_info") {
        sample_name.substring_char(0, n - "_info".unicode_len())
    } else {
        sample_name
    }
}

/// Whether a sample named `sample` belongs to the family with base name
/// `base`: the names are equal, or `sample` is `base` followed by one of the
/// six recognised suffixes.
pub open spec fn spec_belongs(sample: Seq<char>, base: Seq<char>) -> bool {
    ||| sample == base
    ||| (is_prefix_of(base, sample) && {
        let suf = sample.subrange(base.len() as int, sample.len() as int);
        ||| suf == "_bucket"@
        ||| suf == "_count"@
        ||| suf == "_sum"@
        ||| suf == "_total"@
        ||| suf == "_created"@
        ||| suf == "_info"@
    })
}

/// Checks if a sample metric name belongs to a base metric family.
pub fn sample_belongs_to(sample_name: &str, base_name: &str) -> (r: bool)
    ensures
        r == spec_belongs(sample_name@, base_name@),
{
    if str_eq(sample_name, base_name) {
        return true;
    }
    if !starts_with(sample_name, base_name) {
        return false;
    }
    let n = sample_name.unicode_len();
    let m = base_name.unicode_len();
    let suf = sample_name.substring_char(m, n);
    str_eq(suf, "_bucket") || str_eq(suf, "_count") || str_eq(suf, "_sum") || str_eq(
        suf,
        "_total",
    ) || str_eq(suf, "_created") || str_eq(suf, "_info")
}

/// The label pairs of a labels block: split on commas outside double quotes
/// (a parity toggle on `"`), each piece trimmed. `i` scans, `start` marks the
/// current piece, `depth` is the quote parity.
pub open spec fn spec_split_pairs(s: Seq<char>, i: int, start: int, depth: int) -> Seq<Seq<char>>
    recommends
        0 <= start <= i <= s.len(),
    decreases s.len() - i,
{
    if i >= s.len() || i < 0 {
        seq![spec_trim(s.subrange(start, s.len() as int))]
    } else if s[i] == '"' {
        spec_split_pairs(s, i + 1, start, 1 - depth)
    } else if s[i] == ',' && depth == 0 {
        seq![spec_trim(s.subrange(start, i))] + spec_split_pairs(s, i + 1, i + 1, depth)
    } else {
        spec_split_pairs(s, i + 1, start, depth)
    }
}

/// Splits a labels block on commas that lie outside double-quoted values.
fn split_unquoted(s: &str) -> (r: Vec<String>)
    ensures
        r@.map_values(|p: String| p@) == spec_split_pairs(s@, 0, 0, 0),
{
    let n = s.unicode_len();
    let mut out: Vec<String> = Vec::new();
    let mut i: usize = 0;
    let mut start: usize = 0;
    let mut depth: u32 = 0;
    while i < n
        invariant
            0 <= start <= i <= n,
            n == s@.len(),
            depth == 0 || depth == 1,
            spec_split_pairs(s@, 0, 0, 0) =~= out@.map_values(|p: String| p@)
                + spec_split_pairs(s@, i as int, start as int, depth as int),
        decreases n - i,
    {
        let c = s.get_char(i);
        if c == '"' {
            depth = 1 - depth;
        } else if c == ',' && depth == 0 {
            let piece = trim(s.substring_char(start, i));
            let ghost out0 = out@;
            out.push(str_to_string(piece));
            proof {
                assert(out@.map_values(|p: String| p@) =~= out0.map_values(|p: String| p@)
                    + seq![spec_trim(s@.subrange(start as int, i as int))]);
            }
            start = i + 1;
        }
        i = i + 1;
    }
    let piece = trim(s.substring_char(start, n));
    let ghost out0 = out@;
    out.push(str_to_string(piece));
    proof {
        assert(out@.map_values(|p: String| p@) =~= out0.map_values(|p: String| p@)
            + seq![spec_trim(s@.subrange(start as int, n as int))]);
    }
    out
}

/// Sorts strings lexicographically; the result is exactly `sort_by` of the
/// input's views under the shared lexicographic order.
fn sort_strings(v: &Vec<String>) -> (r: Vec<String>)
    ensures
        r@.map_values(|p: String| p@) == v@.map_values(|p: String| p@).sort_by(lex_leq_fn()),
{
    broadcast use vstd::seq_lib::group_to_multiset_ensures;

    let ghost vs = v@.map_values(|p: String| p@);
    let ghost leq = lex_leq_fn();
    proof {
        lemma_lex_le_total_ordering();
    }
    let mut out: Vec<String> = Vec::new();
    let mut k: usize = 0;
    proof {
        assert(vs.subrange(0, 0) =~= Seq::<Seq<char>>::empty());
        assert(vs.subrange(0, 0).to_multiset() =~= out@.map_values(
            |p: String| p@,
        ).to_multiset());
    }
    while k < v.len()
        invariant
            0 <= k <= v.len(),
            vs == v@.map_values(|p: String| p@),
            leq == lex_leq_fn(),
            vstd::relations::sorted_by(out@.map_values(|p: String| p@), leq),
            out@.map_values(|p: String| p@).to_multiset() == vs.subrange(0, k as int)
                .to_multiset(),
        decreases v.len() - k,
    {
        broadcast use vstd::seq_lib::group_to_multiset_ensures;

        let x = v[k].clone();
        let mut j: usize = 0;
        while j < out.len() && str_le(&out[j], &x)
            invariant
                0 <= j <= out.len(),
                forall|t: int| 0 <= t < j ==> lex_le((#[trigger] out@[t])@, x@),
            decreases out.len() - j,
        {
            j = j + 1;
        }
        let ghost outv = out@.map_values(|p: String| p@);
        proof {
            lemma_lex_le_total_ordering();
            if j < out.len() {
                assert(!lex_le(outv[j as int], x@));
                assert(leq(outv[j as int], x@) || leq(x@, outv[j as int]));
            }
        }
        out.insert(j, x);
        proof {
            let newv = out@.map_values(|p: String| p@);
            assert(newv =~= outv.insert(j as int, x@));
            assert forall|p: int, q: int| 0 <= p < q < newv.len() implies leq(
                newv[p],
                newv[q],
            ) by {
                if p < j && q < j {
                    assert(leq(outv[p], outv[q]));
                } else if p < j && q == j {
                    assert(lex_le(outv[p], x@));
                } else if p < j && q > j {
                    assert(leq(outv[p], outv[q - 1]));
                } else if p == j && q > j {
                    // x <= out[j] <= out[q-1]
                    if j < outv.len() {
                        assert(leq(x@, outv[j as int]));
                        if q - 1 > j {
                            assert(leq(outv[j as int], outv[q - 1]));
                        }
                    }
                } else if p > j {
                    assert(leq(outv[p - 1], outv[q - 1]));
                }
            }
            assert(vstd::relations::sorted_by(newv, leq));
            assert(outv.insert(j as int, x@).to_multiset() =~= outv.to_multiset().insert(x@));
            assert(vs.subrange(0, k + 1).drop_last() =~= vs.subrange(0, k as int));
            assert(vs.subrange(0, k + 1) =~= vs.subrange(0, k as int).push(vs[k as int]));
        }
        k = k + 1;
    }
    proof {
        assert(vs.subrange(0, v.len() as int) =~= vs);
        vs.lemma_sort_by_ensures(leq);
        lemma_sorted_unique(out@.map_values(|p: String| p@), vs.sort_by(leq), leq);
    }
    out
}

/// The pieces joined with commas.
pub open spec fn spec_join_comma(parts: Seq<Seq<char>>) -> Seq<char>
    decreases parts.len(),
{
    if parts.len() == 0 {
        Seq::empty()
    } else if parts.len() == 1 {
        parts[0]
    } else {
        spec_join_comma(parts.drop_last()) + seq![','] + parts[parts.len() - 1]
    }
}

/// Joins strings with commas.
fn join_comma(parts: &Vec<String>) -> (r: String)
    ensures
        r@ == spec_join_comma(parts@.map_values(|p: String| p@)),
{
    let ghost ps = parts@.map_values(|p: String| p@);
    let mut acc = String::new();
    let mut k: usize = 0;
    proof {
        assert(ps.subrange(0, 0) =~= Seq::<Seq<char>>::empty());
    }
    while k < parts.len()
        invariant
            0 <= k <= parts.len(),
            ps == parts@.map_values(|p: String| p@),
            acc@ == spec_join_comma(ps.subrange(0, k as int)),
        decreases parts.len() - k,
    {
        if k > 0 {
            push_char(&mut acc, ',');
        }
        acc.append(parts[k].as_str());
        proof {
            assert(ps.subrange(0, k + 1).drop_last() =~= ps.subrange(0, k as int));
            if k == 0 {
                assert(spec_join_comma(ps.subrange(0, 1)) == ps[0]);
            }
        }
        k = k + 1;
    }
    proof {
        assert(ps.subrange(0, parts.len() as int) =~= ps);
    }
    acc
}

/// The canonical label key of a sample line: the pairs between the first `{`
/// and the last `}`, split on unquoted commas, trimmed, sorted
/// lexicographically and joined with commas; empty when the line has no
/// labels block.
pub open spec fn spec_label_key(line: Seq<char>) -> Seq<char> {
    match spec_find(line, '{') {
        None => Seq::empty(),
        Some(open) => match spec_rfind(line, '}') {
            None => Seq::empty(),
            Some(close) => {
                if close <= open {
                    Seq::empty()
                } else {
                    let ls = line.subrange(open + 1, close);
                    if ls.len() == 0 {
                        Seq::empty()
                    } else {
                        spec_join_comma(spec_split_pairs(ls, 0, 0, 0).sort_by(lex_leq_fn()))
                    }
                }
            },
        },
    }
}

/// Extracts label pairs from a sample line, sorts them, and returns the
/// canonical key; `""` for a line without labels.
pub fn extract_sorted_label_key(line: &str) -> (r: String)
    ensures
        r@ == spec_label_key(line@),
{
    let open = match find_char(line, '{') {
        Some(i) => i,
        None => {
            return String::new();
        },
    };
    let close = match rfind_char(line, '}') {
        Some(i) => i,
        None => {
            return String::new();
        },
    };
    if close <= open {
        return String::new();
    }
    proof {
        crate::text::lemma_find_from_correct(line@, '{', 0);
        lemma_rfind_in_range(line@, '}');
    }
    let labels = line.substring_char(open + 1, close);
    if labels.unicode_len() == 0 {
        return String::new();
    }
    let pairs = split_unquoted(labels);
    let sorted = sort_strings(&pairs);
    join_comma(&sorted)
}

/// A `Some` result of `spec_rfind` is a valid index.
pub proof fn lemma_rfind_in_range(s: Seq<char>, c: char)
    ensures
        match spec_rfind(s, c) {
            Some(i) => 0 <= i < s.len() && s[i] == c,
            None => true,
        },
    decreases s.len(),
{
    if s.len() > 0 && s[s.len() - 1] != c {
        lemma_rfind_in_range(s.drop_last(), c);
    }
}

/// A family entry with no lines yet.
pub open spec fn empty_family(name: Seq<char>) -> FamilyView {
    FamilyView { name, help_line: None, type_line: None, samples: Seq::empty() }
}

/// The first index whose family is named `name`, searching from `i`.
pub open spec fn spec_family_index(fams: Seq<FamilyView>, name: Seq<char>, i: int) -> Option<int>
    decreases fams.len() - i,
{
    if i < 0 || i >= fams.len() {
        None
    } else if fams[i].name == name {
        Some(i)
    } else {
        spec_family_index(fams, name, i + 1)
    }
}

/// The families with an entry named `name` present: either found, or
/// appended empty; paired with that entry's index.
pub open spec fn spec_get_or_insert(fams: Seq<FamilyView>, name: Seq<char>) -> (
    Seq<FamilyView>,
    int,
) {
    match spec_family_index(fams, name, 0) {
        Some(i) => (fams, i),
        None => (fams.push(empty_family(name)), fams.len() as int),
    }
}

/// The parser's running state: the families built so far, and which family
/// the most recent directive or sample selected.
pub ghost struct ParseState {
    pub fams: Seq<FamilyView>,
    pub cur_idx: Option<int>,
    pub cur_base: Option<Seq<char>>,
}

/// The state before any line is read.
pub open spec fn initial_parse_state() -> ParseState {
    ParseState { fams: Seq::empty(), cur_idx: None, cur_base: None }
}

pub open spec fn set_help(f: FamilyView, line: Seq<char>) -> FamilyView {
    FamilyView { name: f.name, help_line: Some(line), type_line: f.type_line, samples: f.samples }
}

pub open spec fn set_type(f: FamilyView, line: Seq<char>) -> FamilyView {
    FamilyView { name: f.name, help_line: f.help_line, type_line: Some(line), samples: f.samples }
}

pub open spec fn add_sample(f: FamilyView, line: Seq<char>) -> FamilyView {
    FamilyView {
        name: f.name,
        help_line: f.help_line,
        type_line: f.type_line,
        samples: f.samples.push(line),
    }
}

/// What one input line does to the parser state. Empty lines and ordinary
/// comments change nothing; HELP and TYPE directives record their verbatim
/// line (with a restored newline) under the named family and select it; a
/// sample line joins the selected family when its name fits, and otherwise
/// selects (creating if needed) the family of its base name.
pub open spec fn spec_parse_step(st: ParseState, line: Seq<char>) -> ParseState {
    if line.len() == 0 {
        st
    } else if is_prefix_of("# HELP "@, line) {
        let name = spec_first_token(line.subrange("# HELP "@.len() as int, line.len() as int));
        let fi = spec_get_or_insert(st.fams, name);
        ParseState {
            fams: fi.0.update(fi.1, set_help(fi.0[fi.1], line.push('\n'))),
            cur_idx: Some(fi.1),
            cur_base: Some(name),
        }
    } else if is_prefix_of("# TYPE "@, line) {
        let name = spec_first_token(line.subrange("# TYPE "@.len() as int, line.len() as int));
        let fi = spec_get_or_insert(st.fams, name);
        ParseState {
            fams: fi.0.update(fi.1, set_type(fi.0[fi.1], line.push('\n'))),
            cur_idx: Some(fi.1),
            cur_base: Some(name),
        }
    } else if line[0] == '#' {
        st
    } else {
        let sname = spec_metric_name(line);
        let belongs = match st.cur_base {
            Some(b) => spec_belongs(sname, b),
            None => false,
        };
        let next = if belongs {
            match st.cur_idx {
                Some(i) => (st.fams, i, st.cur_idx, st.cur_base),
                None => {
                    let fi = spec_get_or_insert(
                        st.fams,
                        match st.cur_base {
                            Some(b) => b,
                            None => Seq::empty(),
                        },
                    );
                    (fi.0, fi.1, st.cur_idx, st.cur_base)
                },
            }
        } else {
            let b = spec_base_name(sname);
            let fi = spec_get_or_insert(st.fams, b);
            (fi.0, fi.1, Some(fi.1), Some(b))
        };
        ParseState {
            fams: next.0.update(next.1, add_sample(next.0[next.1], line.push('\n'))),
            cur_idx: next.2,
            cur_base: next.3,
        }
    }
}

/// The parser state after all lines, in order.
pub open spec fn spec_parse_all(lines: Seq<Seq<char>>) -> ParseState
    decreases lines.len(),
{
    if lines.len() == 0 {
        initial_parse_state()
    } else {
        spec_parse_step(spec_parse_all(lines.drop_last()), lines[lines.len() - 1])
    }
}

/// The families that kept at least one sample, in order.
pub open spec fn keep_nonempty(fams: Seq<FamilyView>) -> Seq<FamilyView>
    decreases fams.len(),
{
    if fams.len() == 0 {
        Seq::empty()
    } else {
        (if fams[0].samples.len() > 0 {
            seq![fams[0]]
        } else {
            Seq::empty()
        }) + keep_nonempty(fams.subrange(1, fams.len() as int))
    }
}

/// What `parse_families` returns: the line-by-line fold over the input's
/// lines, with families that got no sample dropped.
pub open spec fn spec_parse(input: Seq<char>) -> Seq<FamilyView> {
    keep_nonempty(spec_parse_all(spec_lines(input)).fams)
}

/// Returns the index of the family with the given name, inserting a new one
/// if needed.
fn get_or_insert(families: &mut Vec<ParsedFamily>, name: &str) -> (idx: usize)
    ensures
        fams_view(*final(families)) == spec_get_or_insert(fams_view(*old(families)), name@).0,
        idx as int == spec_get_or_insert(fams_view(*old(families)), name@).1,
        idx < final(families).len(),
{
    let n = families.len();
    let ghost fv = fams_view(*families);
    let mut i: usize = 0;
    while i < n
        invariant
            0 <= i <= n,
            n == families.len(),
            fv == fams_view(*families),
            spec_family_index(fv, name@, 0) == spec_family_index(fv, name@, i as int),
        decreases n - i,
    {
        if str_eq(families[i].name.as_str(), name) {
            return i;
        }
        i = i + 1;
    }
    let ghost fv0 = fams_view(*families);
    families.push(
        ParsedFamily {
            name: str_to_string(name),
            help_line: None,
            type_line: None,
            samples: Vec::new(),
        },
    );
    proof {
        assert(fams_view(*families) =~~= fv.push(empty_family(name@)));
    }
    n
}

fn set_family_help(families: &mut Vec<ParsedFamily>, idx: usize, line: String)
    requires
        idx < old(families).len(),
    ensures
        fams_view(*final(families)) == fams_view(*old(families)).update(
            idx as int,
            set_help(fams_view(*old(families))[idx as int], line@),
        ),
{
    let ghost fv = fams_view(*families);
    let mut f = families.remove(idx);
    f.help_line = Some(line);
    families.insert(idx, f);
    proof {
        assert(fams_view(*families) =~~= fv.update(idx as int, set_help(fv[idx as int], line@)));
    }
}

fn set_family_type(families: &mut Vec<ParsedFamily>, idx: usize, line: String)
    requires
        idx < old(families).len(),
    ensures
        fams_view(*final(families)) == fams_view(*old(families)).update(
            idx as int,
            set_type(fams_view(*old(families))[idx as int], line@),
        ),
{
    let ghost fv = fams_view(*families);
    let mut f = families.remove(idx);
    f.type_line = Some(line);
    families.insert(idx, f);
    proof {
        assert(fams_view(*families) =~~= fv.update(idx as int, set_type(fv[idx as int], line@)));
    }
}

fn push_family_sample(families: &mut Vec<ParsedFamily>, idx: usize, line: String)
    requires
        idx < old(families).len(),
    ensures
        fams_view(*final(families)) == fams_view(*old(families)).update(
            idx as int,
            add_sample(fams_view(*old(families))[idx as int], line@),
        ),
        final(families).len() == old(families).len(),
{
    let ghost fv = fams_view(*families);
    let mut f = families.remove(idx);
    f.samples.push(Sample { raw_line: line });
    families.insert(idx, f);
    proof {
        assert(fams_view(*families) =~~= fv.update(
            idx as int,
            add_sample(fv[idx as int], line@),
        ));
    }
}

/// Parses Prometheus exposition format text into metric families.
///
/// Groups HELP, TYPE, and sample lines by metric base name. Histogram and
/// summary suffixes (`_bucket`, `_count`, `_sum`, `_total`, `_created`,
/// `_info`) are grouped with their base metric via the TYPE declaration.
/// The result is exactly the line-by-line fold `spec_parse` describes, with
/// sample-less families dropped.
pub fn parse_families(input: &str) -> (r: Vec<ParsedFamily>)
    ensures
        fams_view(r) == spec_parse(input@),
{
    let lines = split_lines(input);
    let ghost lvs = lines@.map_values(|l: String| l@);
    let mut families: Vec<ParsedFamily> = Vec::new();
    let mut current_idx: Option<usize> = None;
    let mut current_base: Option<String> = None;
    let mut k: usize = 0;
    proof {
        assert(lvs.subrange(0, 0) =~= Seq::<Seq<char>>::empty());
    }
    while k < lines.len()
        invariant
            0 <= k <= lines.len(),
            lvs == lines@.map_values(|l: String| l@),
            ({
                let st = spec_parse_all(lvs.subrange(0, k as int));
                &&& fams_view(families) == st.fams
                &&& (match current_idx {
                    Some(i) => st.cur_idx == Some(i as int) && (i as int) < st.fams.len(),
                    None => st.cur_idx is None,
                })
                &&& (match current_base {
                    Some(b) => st.cur_base == Some(b@),
                    None => st.cur_base is None,
                })
                &&& (current_idx is Some <==> current_base is Some)
            }),
        decreases lines.len() - k,
    {
        let ghost st = spec_parse_all(lvs.subrange(0, k as int));
        let ghost linev = lvs[k as int];
        let ghost st2 = spec_parse_step(st, linev);
        proof {
            assert(lvs.subrange(0, k + 1).drop_last() =~= lvs.subrange(0, k as int));
            assert(lvs.subrange(0, k + 1)[k as int] == linev);
            assert(spec_parse_all(lvs.subrange(0, k + 1)) == st2);
        }
        let line = &lines[k];
        let n = line.as_str().unicode_len();
        if n == 0 {
        } else if starts_with(line.as_str(), "# HELP ") {
            proof {
                reveal_strlit("# HELP ");
                assert("# HELP "@.len() == 7);
            }
            let rest = line.as_str().substring_char(7, n);
            let name = first_token(rest);
            let idx = get_or_insert(&mut families, name);
            let mut stored = line.clone();
            push_char(&mut stored, '\n');
            set_family_help(&mut families, idx, stored);
            current_base = Some(str_to_string(name));
            current_idx = Some(idx);
            proof {
                assert(name@ == spec_first_token(linev.subrange(7, n as int)));
                assert(fams_view(families) =~~= st2.fams);
            }
        } else if starts_with(line.as_str(), "# TYPE ") {
            proof {
                reveal_strlit("# TYPE ");
                assert("# TYPE "@.len() == 7);
            }
            let rest = line.as_str().substring_char(7, n);
            let name = first_token(rest);
            let idx = get_or_insert(&mut families, name);
            let mut stored = line.clone();
            push_char(&mut stored, '\n');
            set_family_type(&mut families, idx, stored);
            current_base = Some(str_to_string(name));
            current_idx = Some(idx);
            proof {
                assert(name@ == spec_first_token(linev.subrange(7, n as int)));
                assert(fams_view(families) =~~= st2.fams);
            }
        } else if line.as_str().get_char(0) == '#' {
        } else {
            let sample_name = extract_metric_name(line.as_str());
            let belongs = match &current_base {
                Some(b) => sample_belongs_to(sample_name, b.as_str()),
                None => false,
            };
            let idx: usize;
            if belongs {
                match current_idx {
                    Some(i) => {
                        idx = i;
                    },
                    None => {
                        proof {
                            assert(false);
                        }
                        idx = 0;
                    },
                }
            } else {
                let base = base_name(sample_name);
                let idx2 = get_or_insert(&mut families, base);
                current_base = Some(str_to_string(base));
                current_idx = Some(idx2);
                idx = idx2;
            }
            let mut stored = line.clone();
            push_char(&mut stored, '\n');
            push_family_sample(&mut families, idx, stored);
            proof {
                assert(fams_view(families) =~~= st2.fams);
            }
        }
        k = k + 1;
    }
    proof {
        assert(lvs.subrange(0, lines.len() as int) =~= lvs);
    }
    let ghost allfams = spec_parse_all(lvs).fams;
    let mut out: Vec<ParsedFamily> = Vec::new();
    proof {
        assert(fams_view(out) =~= Seq::<FamilyView>::empty());
    }
    while families.len() > 0
        invariant
            keep_nonempty(allfams) == fams_view(out) + keep_nonempty(fams_view(families)),
        decreases families.len(),
    {
        let ghost fv0 = fams_view(families);
        let f = families.remove(0);
        proof {
            assert(fams_view(families) =~= fv0.subrange(1, fv0.len() as int));
            assert(f@ == fv0[0]);
        }
        let ghost outv0 = fams_view(out);
        if f.samples.len() > 0 {
            out.push(f);
            proof {
                assert(fams_view(out) =~= outv0.push(fv0[0]));
                assert(outv0 + keep_nonempty(fv0) =~= fams_view(out) + keep_nonempty(
                    fams_view(families),
                ));
            }
        } else {
            proof {
                assert(outv0 + keep_nonempty(fv0) =~= fams_view(out) + keep_nonempty(
                    fams_view(families),
                ));
            }
        }
    }
    proof {
        assert(keep_nonempty(fams_view(families)) =~= Seq::<FamilyView>::empty());
        assert(fams_view(out) =~= keep_nonempty(allfams));
    }
    out
}

/// A label value with `\` and `"` escaped for the exposition format.
pub open spec fn spec_escape(s: Seq<char>) -> Seq<char>
    decreases s.len(),
{
    if s.len() == 0 {
        Seq::empty()
    } else {
        spec_escape(s.drop_last()) + (if s.last() == '\\' {
            seq!['\\', '\\']
        } else if s.last() == '"' {
            seq!['\\', '"']
        } else {
            seq![s.last()]
        })
    }
}

/// Escapes a Prometheus label value: `\` becomes `\\` and `"` becomes `\"`.
pub fn escape_label_value(s: &str) -> (r: String)
    ensures
        r@ == spec_escape(s@),
{
    let n = s.unicode_len();
    let mut acc = String::new();
    let mut i: usize = 0;
    proof {
        assert(s@.subrange(0, 0) =~= Seq::<char>::empty());
    }
    while i < n
        invariant
            0 <= i <= n,
            n == s@.len(),
            acc@ == spec_escape(s@.subrange(0, i as int)),
        decreases n - i,
    {
        let c = s.get_char(i);
        if c == '\\' {
            push_char(&mut acc, '\\');
            push_char(&mut acc, '\\');
        } else if c == '"' {
            push_char(&mut acc, '\\');
            push_char(&mut acc, '"');
        } else {
            push_char(&mut acc, c);
        }
        proof {
            let pre = s@.subrange(0, i + 1);
            assert(pre.drop_last() =~= s@.subrange(0, i as int));
            assert(pre.last() == s@[i as int]);
            assert(acc@ =~= spec_escape(pre));
        }
        i = i + 1;
    }
    proof {
        assert(s@.subrange(0, n as int) =~= s@);
    }
    acc
}

/// The pairs' views.
pub open spec fn pairs_view(v: Vec<(String, String)>) -> Seq<(Seq<char>, Seq<char>)> {
    v@.map_values(|p: (String, String)| (p.0@, p.1@))
}

/// The value of the first pair named `key`, or empty.
pub open spec fn spec_lookup(pairs: Seq<(Seq<char>, Seq<char>)>, key: Seq<char>) -> Seq<char>
    decreases pairs.len(),
{
    if pairs.len() == 0 {
        Seq::empty()
    } else if pairs[0].0 == key {
        pairs[0].1
    } else {
        spec_lookup(pairs.subrange(1, pairs.len() as int), key)
    }
}

/// One rendered label pair, `key="escaped value"`.
pub open spec fn spec_pair_frag(key: Seq<char>, value: Seq<char>) -> Seq<char> {
    key + seq!['='] + seq!['"'] + spec_escape(value) + seq!['"']
}

/// The pre-rendered fragment `k1="v1",k2="v2",...`, keys in lexicographic
/// order, values escaped.
pub open spec fn spec_fragment(pairs: Seq<(Seq<char>, Seq<char>)>) -> Seq<char> {
    let keys = pairs.map_values(|p: (Seq<char>, Seq<char>)| p.0).sort_by(lex_leq_fn());
    spec_join_comma(
        keys.map_values(|k: Seq<char>| spec_pair_frag(k, spec_lookup(pairs, k))),
    )
}

/// Looks a key up among the pairs, first match wins.
fn lookup_value<'a>(extra: &'a Vec<(String, String)>, key: &str) -> (r: &'a str)
    ensures
        r@ == spec_lookup(pairs_view(*extra), key@),
{
    let ghost pvs = pairs_view(*extra);
    let n = extra.len();
    let mut i: usize = 0;
    proof {
        assert(pvs.subrange(0, pvs.len() as int) =~= pvs);
    }
    while i < n
        invariant
            0 <= i <= n,
            n == extra.len(),
            pvs == pairs_view(*extra),
            spec_lookup(pvs, key@) == spec_lookup(pvs.subrange(i as int, n as int), key@),
        decreases n - i,
    {
        proof {
            let t = pvs.subrange(i as int, n as int);
            assert(t[0] == pvs[i as int]);
            assert(t.subrange(1, t.len() as int) =~= pvs.subrange(i + 1, n as int));
        }
        if str_eq(extra[i].0.as_str(), key) {
            return extra[i].1.as_str();
        }
        i = i + 1;
    }
    proof {
        reveal_strlit("");
        assert(""@ =~= Seq::<char>::empty());
    }
    ""
}

/// Renders the injected fragment for the given extra labels.
fn build_fragment(extra: &Vec<(String, String)>) -> (r: String)
    ensures
        r@ == spec_fragment(pairs_view(*extra)),
{
    let ghost pvs = pairs_view(*extra);
    let mut keys: Vec<String> = Vec::new();
    let mut i: usize = 0;
    while i < extra.len()
        invariant
            0 <= i <= extra.len(),
            pvs == pairs_view(*extra),
            keys@.map_values(|p: String| p@) =~= pvs.subrange(0, i as int).map_values(
                |p: (Seq<char>, Seq<char>)| p.0,
            ),
        decreases extra.len() - i,
    {
        let ghost k0 = keys@;
        keys.push(extra[i].0.clone());
        proof {
            assert(keys@.map_values(|p: String| p@) =~= k0.map_values(|p: String| p@).push(
                pvs[i as int].0,
            ));
            assert(pvs.subrange(0, i + 1).drop_last() =~= pvs.subrange(0, i as int));
            assert(pvs.subrange(0, i + 1).map_values(|p: (Seq<char>, Seq<char>)| p.0) =~= pvs
                .subrange(0, i as int).map_values(|p: (Seq<char>, Seq<char>)| p.0).push(
                pvs[i as int].0,
            ));
        }
        i = i + 1;
    }
    proof {
        assert(pvs.subrange(0, extra.len() as int) =~= pvs);
    }
    let sorted = sort_strings(&keys);
    let ghost skeys = pvs.map_values(|p: (Seq<char>, Seq<char>)| p.0).sort_by(lex_leq_fn());
    let mut frags: Vec<String> = Vec::new();
    let mut j: usize = 0;
    while j < sorted.len()
        invariant
            0 <= j <= sorted.len(),
            pvs == pairs_view(*extra),
            skeys == sorted@.map_values(|p: String| p@),
            frags@.map_values(|p: String| p@) =~= skeys.subrange(0, j as int).map_values(
                |k: Seq<char>| spec_pair_frag(k, spec_lookup(pvs, k)),
            ),
        decreases sorted.len() - j,
    {
        let key = sorted[j].as_str();
        let value = lookup_value(extra, key);
        let mut f = sorted[j].clone();
        push_char(&mut f, '=');
        push_char(&mut f, '"');
        let esc = escape_label_value(value);
        f.append(esc.as_str());
        push_char(&mut f, '"');
        proof {
            assert(f@ =~= spec_pair_frag(skeys[j as int], spec_lookup(pvs, skeys[j as int])));
        }
        let ghost f0 = frags@;
        frags.push(f);
        proof {
            assert(frags@.map_values(|p: String| p@) =~= f0.map_values(|p: String| p@).push(
                spec_pair_frag(skeys[j as int], spec_lookup(pvs, skeys[j as int])),
            ));
            assert(skeys.subrange(0, j + 1).drop_last() =~= skeys.subrange(0, j as int));
            assert(skeys.subrange(0, j + 1).map_values(
                |k: Seq<char>| spec_pair_frag(k, spec_lookup(pvs, k)),
            ) =~= skeys.subrange(0, j as int).map_values(
                |k: Seq<char>| spec_pair_frag(k, spec_lookup(pvs, k)),
            ).push(spec_pair_frag(skeys[j as int], spec_lookup(pvs, skeys[j as int]))));
        }
        j = j + 1;
    }
    proof {
        assert(skeys.subrange(0, sorted.len() as int) =~= skeys);
    }
    join_comma(&frags)
}

/// A sample line with the rendered fragment injected: existing labels gain
/// the fragment after a comma, an empty or missing block becomes
/// `{fragment}` placed before the first space, and the trailing newline is
/// restored.
pub open spec fn spec_inject_line(line: Seq<char>, frag: Seq<char>) -> Seq<char> {
    let content = if line.len() > 0 && line.last() == '\n' {
        line.drop_last()
    } else {
        line
    };
    match spec_find(content, '{') {
        Some(open) => {
            let close = match spec_rfind(content, '}') {
                Some(c) => c,
                None => content.len() as int,
            };
            let existing = if open + 1 <= close {
                content.subrange(open + 1, close)
            } else {
                Seq::empty()
            };
            let after = if close + 1 <= content.len() {
                content.subrange(close + 1, content.len() as int)
            } else {
                Seq::empty()
            };
            let labels = if existing.len() == 0 {
                frag
            } else {
                existing + seq![','] + frag
            };
            content.subrange(0, open) + seq!['{'] + labels + seq!['}'] + after + seq!['\n']
        },
        None => {
            let space = match spec_find(content, ' ') {
                Some(s) => s,
                None => content.len() as int,
            };
            content.subrange(0, space) + seq!['{'] + frag + seq!['}'] + content.subrange(
                space,
                content.len() as int,
            ) + seq!['\n']
        },
    }
}

/// Injects a pre-rendered `k="v",...` fragment into a single sample line.
#[verifier::rlimit(100)]
fn inject_into_line(line: &str, extra_str: &str) -> (r: String)
    ensures
        r@ == spec_inject_line(line@, extra_str@),
{
    let n = line.unicode_len();
    let content = if n > 0 && line.get_char(n - 1) == '\n' {
        line.substring_char(0, n - 1)
    } else {
        line
    };
    proof {
        if n > 0 && line@.last() == '\n' {
            assert(content@ =~= line@.drop_last());
        }
    }
    let m = content.unicode_len();
    match find_char(content, '{') {
        Some(open) => {
            proof {
                crate::text::lemma_find_from_correct(content@, '{', 0);
                lemma_rfind_in_range(content@, '}');
            }
            let close = match rfind_char(content, '}') {
                Some(c) => c,
                None => m,
            };
            let mut out = str_to_string(content.substring_char(0, open));
            push_char(&mut out, '{');
            let existing = if open + 1 <= close {
                content.substring_char(open + 1, close)
            } else {
                ""
            };
            proof {
                reveal_strlit("");
            }
            if existing.unicode_len() == 0 {
                out.append(extra_str);
            } else {
                out.append(existing);
                push_char(&mut out, ',');
                out.append(extra_str);
            }
            push_char(&mut out, '}');
            if close < m {
                out.append(content.substring_char(close + 1, m));
            }
            push_char(&mut out, '\n');
            proof {
                assert(out@ =~= spec_inject_line(line@, extra_str@));
            }
            out
        },
        None => {
            let space = match find_char(content, ' ') {
                Some(s) => s,
                None => m,
            };
            proof {
                crate::text::lemma_find_from_correct(content@, ' ', 0);
            }
            let mut out = str_to_string(content.substring_char(0, space));
            push_char(&mut out, '{');
            out.append(extra_str);
            push_char(&mut out, '}');
            out.append(content.substring_char(space, m));
            push_char(&mut out, '\n');
            proof {
                assert(out@ =~= spec_inject_line(line@, extra_str@));
            }
            out
        },
    }
}

/// A family with every sample line carrying the fragment.
pub open spec fn spec_inject_family(f: FamilyView, frag: Seq<char>) -> FamilyView {
    FamilyView {
        name: f.name,
        help_line: f.help_line,
        type_line: f.type_line,
        samples: f.samples.map_values(|s: Seq<char>| spec_inject_line(s, frag)),
    }
}

/// What `inject_labels` does: nothing for an empty label set, otherwise
/// every sample of every family is rewritten with the rendered fragment.
pub open spec fn spec_inject(
    fams: Seq<FamilyView>,
    pairs: Seq<(Seq<char>, Seq<char>)>,
) -> Seq<FamilyView> {
    if pairs.len() == 0 {
        fams
    } else {
        fams.map_values(|f: FamilyView| spec_inject_family(f, spec_fragment(pairs)))
    }
}

/// Injects extra labels into every sample of the given families.
///
/// Labels are appended to any existing label set on each sample line (or
/// inserted as the only labels when the sample has none). Keys are sorted
/// lexicographically for deterministic output, and label values are escaped
/// per the Prometheus text format. Because the labels are written into each
/// sample's raw line, they flow into the canonical label key and so into the
/// consistent-hash key.
pub fn inject_labels(families: &mut Vec<ParsedFamily>, extra: &Vec<(String, String)>)
    ensures
        fams_view(*final(families)) == spec_inject(fams_view(*old(families)), pairs_view(*extra)),
{
    if extra.len() == 0 {
        return ;
    }
    let frag = build_fragment(extra);
    let ghost origv = fams_view(*families);
    let ghost fragv = spec_fragment(pairs_view(*extra));
    let n = families.len();
    let mut i: usize = 0;
    while i < n
        invariant
            0 <= i <= n,
            n == families.len(),
            frag@ == fragv,
            fams_view(*families).len() == origv.len(),
            forall|t: int|
                0 <= t < i ==> fams_view(*families)[t] == spec_inject_family(
                    origv[t],
                    fragv,
                ),
            forall|t: int| i <= t < n ==> fams_view(*families)[t] == origv[t],
        decreases n - i,
    {
        let ghost fv0 = fams_view(*families);
        let mut f = families.remove(i);
        let ghost samples0 = f@.samples;
        let mut news: Vec<Sample> = Vec::new();
        let mut j: usize = 0;
        let m = f.samples.len();
        while j < m
            invariant
                0 <= j <= m,
                m == f.samples.len(),
                frag@ == fragv,
                samples0 == f@.samples,
                news@.map_values(|s: Sample| s@) =~= samples0.subrange(0, j as int).map_values(
                    |s: Seq<char>| spec_inject_line(s, fragv),
                ),
            decreases m - j,
        {
            let ghost news0 = news@;
            news.push(Sample { raw_line: inject_into_line(f.samples[j].raw_line.as_str(), frag.as_str()) });
            proof {
                assert(news@.map_values(|s: Sample| s@) =~= news0.map_values(
                    |s: Sample| s@,
                ).push(spec_inject_line(samples0[j as int], fragv)));
                assert(samples0.subrange(0, j + 1).drop_last() =~= samples0.subrange(
                    0,
                    j as int,
                ));
                assert(samples0.subrange(0, j + 1).map_values(
                    |s: Seq<char>| spec_inject_line(s, fragv),
                ) =~= samples0.subrange(0, j as int).map_values(
                    |s: Seq<char>| spec_inject_line(s, fragv),
                ).push(spec_inject_line(samples0[j as int], fragv)));
            }
            j = j + 1;
        }
        proof {
            assert(samples0.subrange(0, m as int) =~= samples0);
        }
        f.samples = news;
        proof {
            assert(f@ =~~= spec_inject_family(fv0[i as int], fragv));
        }
        families.insert(i, f);
        proof {
            assert(fams_view(*families) =~~= fv0.update(
                i as int,
                spec_inject_family(fv0[i as int], fragv),
            ));
        }
        i = i + 1;
    }
    proof {
        assert(fams_view(*families) =~~= origv.map_values(
            |f: FamilyView| spec_inject_family(f, fragv),
        ));
    }
}

/// Statistics returned by `merge_families`.
pub struct MergeStats {
    /// Total number of sample lines dropped because their family and label
    /// key were already present.
    pub duplicate_count: usize,
    /// Up to three human-readable examples of dropped series.
    pub examples: Vec<String>,
}

/// The total number of samples across families.
pub open spec fn total_samples(fams: Seq<FamilyView>) -> int
    decreases fams.len(),
{
    if fams.len() == 0 {
        0
    } else {
        total_samples(fams.drop_last()) + fams.last().samples.len()
    }
}

/// An accepted family absorbing an incoming one's HELP and TYPE: the first
/// declaration wins, a missing one is filled in.
pub open spec fn merge_fill(f0: FamilyView, f: FamilyView) -> FamilyView {
    FamilyView {
        name: f0.name,
        help_line: if f0.help_line is None {
            f.help_line
        } else {
            f0.help_line
        },
        type_line: if f0.type_line is None {
            f.type_line
        } else {
            f0.type_line
        },
        samples: f0.samples,
    }
}

/// The example string logged for a dropped series.
pub open spec fn spec_example(name: Seq<char>, key: Seq<char>) -> Seq<char> {
    if key.len() == 0 {
        name
    } else {
        name + seq!['{'] + key + seq!['}']
    }
}

/// Folds the samples of one incoming family into the accepted family at
/// `idx`: a sample whose label key is already among `keys` is dropped and
/// counted (with up to three examples kept), any other is appended.
pub open spec fn spec_merge_into(
    merged: Seq<FamilyView>,
    idx: int,
    keys: Seq<Seq<char>>,
    name: Seq<char>,
    samples: Seq<Seq<char>>,
    dups: int,
    examples: Seq<Seq<char>>,
) -> (Seq<FamilyView>, int, Seq<Seq<char>>)
    decreases samples.len(),
{
    if samples.len() == 0 {
        (merged, dups, examples)
    } else {
        let s = samples[0];
        let key = spec_label_key(s);
        let rest = samples.subrange(1, samples.len() as int);
        if keys.contains(key) {
            let ex2 = if examples.len() < 3 {
                examples.push(spec_example(name, key))
            } else {
                examples
            };
            spec_merge_into(merged, idx, keys, name, rest, dups + 1, ex2)
        } else {
            spec_merge_into(
                merged.update(idx, add_sample(merged[idx], s)),
                idx,
                keys,
                name,
                rest,
                dups,
                examples,
            )
        }
    }
}

/// One incoming family folded into the accepted list: a fresh name is
/// appended whole; a known name has its samples deduplicated against the
/// label keys already accepted for that family.
pub open spec fn spec_merge_step(
    acc: (Seq<FamilyView>, int, Seq<Seq<char>>),
    fam: FamilyView,
) -> (Seq<FamilyView>, int, Seq<Seq<char>>) {
    match spec_family_index(acc.0, fam.name, 0) {
        None => (acc.0.push(fam), acc.1, acc.2),
        Some(i) => {
            let f0 = acc.0[i];
            let keys = f0.samples.map_values(|s: Seq<char>| spec_label_key(s));
            spec_merge_into(
                acc.0.update(i, merge_fill(f0, fam)),
                i,
                keys,
                fam.name,
                fam.samples,
                acc.1,
                acc.2,
            )
        },
    }
}

/// The merge of all families, in order, first wins.
pub open spec fn spec_merge_all(fams: Seq<FamilyView>) -> (Seq<FamilyView>, int, Seq<Seq<char>>)
    decreases fams.len(),
{
    if fams.len() == 0 {
        (Seq::empty(), 0, Seq::empty())
    } else {
        spec_merge_step(spec_merge_all(fams.drop_last()), fams[fams.len() - 1])
    }
}

proof fn lemma_merge_into_dups(
    merged: Seq<FamilyView>,
    idx: int,
    keys: Seq<Seq<char>>,
    name: Seq<char>,
    samples: Seq<Seq<char>>,
    dups: int,
    examples: Seq<Seq<char>>,
)
    ensures
        dups <= spec_merge_into(merged, idx, keys, name, samples, dups, examples).1 <= dups
            + samples.len(),
    decreases samples.len(),
{
    if samples.len() > 0 {
        let s = samples[0];
        let key = spec_label_key(s);
        let rest = samples.subrange(1, samples.len() as int);
        if keys.contains(key) {
            let ex2 = if examples.len() < 3 {
                examples.push(spec_example(name, key))
            } else {
                examples
            };
            lemma_merge_into_dups(merged, idx, keys, name, rest, dups + 1, ex2);
        } else {
            lemma_merge_into_dups(
                merged.update(idx, add_sample(merged[idx], s)),
                idx,
                keys,
                name,
                rest,
                dups,
                examples,
            );
        }
    }
}

/// The duplicate count never exceeds the number of samples seen.
pub proof fn lemma_merge_dups_bound(fams: Seq<FamilyView>)
    ensures
        0 <= spec_merge_all(fams).1 <= total_samples(fams),
    decreases fams.len(),
{
    if fams.len() > 0 {
        let pre = fams.drop_last();
        lemma_merge_dups_bound(pre);
        let acc = spec_merge_all(pre);
        let fam = fams[fams.len() - 1];
        match spec_family_index(acc.0, fam.name, 0) {
            None => {},
            Some(i) => {
                let f0 = acc.0[i];
                let keys = f0.samples.map_values(|s: Seq<char>| spec_label_key(s));
                lemma_merge_into_dups(
                    acc.0.update(i, merge_fill(f0, fam)),
                    i,
                    keys,
                    fam.name,
                    fam.samples,
                    acc.1,
                    acc.2,
                );
            },
        }
    }
}

/// A prefix never holds more samples than the whole.
pub proof fn lemma_total_samples_prefix(fams: Seq<FamilyView>, t: int)
    requires
        0 <= t <= fams.len(),
    ensures
        total_samples(fams.subrange(0, t)) <= total_samples(fams),
        0 <= total_samples(fams.subrange(0, t)),
    decreases fams.len() - t, fams.len(),
{
    lemma_total_samples_nonneg(fams.subrange(0, t));
    if t == fams.len() {
        assert(fams.subrange(0, t) =~= fams);
    } else {
        lemma_total_samples_prefix(fams, t + 1);
        assert(fams.subrange(0, t + 1).drop_last() =~= fams.subrange(0, t));
    }
}

proof fn lemma_total_samples_nonneg(fams: Seq<FamilyView>)
    ensures
        0 <= total_samples(fams),
    decreases fams.len(),
{
    if fams.len() > 0 {
        lemma_total_samples_nonneg(fams.drop_last());
    }
}

/// The first index of `name` among the family views, if any.
fn find_family(v: &Vec<ParsedFamily>, name: &str) -> (r: Option<usize>)
    ensures
        match r {
            Some(i) => spec_family_index(fams_view(*v), name@, 0) == Some(i as int) && i
                < v.len(),
            None => spec_family_index(fams_view(*v), name@, 0) is None,
        },
{
    let n = v.len();
    let ghost fv = fams_view(*v);
    let mut i: usize = 0;
    while i < n
        invariant
            0 <= i <= n,
            n == v.len(),
            fv == fams_view(*v),
            spec_family_index(fv, name@, 0) == spec_family_index(fv, name@, i as int),
        decreases n - i,
    {
        if str_eq(v[i].name.as_str(), name) {
            return Some(i);
        }
        i = i + 1;
    }
    None
}

/// Whether the key is among the collected strings.
fn contains_str(v: &Vec<String>, key: &str) -> (r: bool)
    ensures
        r == v@.map_values(|p: String| p@).contains(key@),
{
    let ghost kv = v@.map_values(|p: String| p@);
    let n = v.len();
    let mut i: usize = 0;
    while i < n
        invariant
            0 <= i <= n,
            n == v.len(),
            kv == v@.map_values(|p: String| p@),
            forall|t: int| 0 <= t < i ==> kv[t] != key@,
        decreases n - i,
    {
        if str_eq(v[i].as_str(), key) {
            proof {
                assert(kv[i as int] == key@);
                assert(kv.contains(key@));
            }
            return true;
        }
        i = i + 1;
    }
    assert(!kv.contains(key@));
    false
}

/// The canonical label keys of a family's samples.
fn collect_keys(f: &ParsedFamily) -> (r: Vec<String>)
    ensures
        r@.map_values(|p: String| p@) == f@.samples.map_values(
            |s: Seq<char>| spec_label_key(s),
        ),
{
    let ghost sv = f@.samples;
    let mut out: Vec<String> = Vec::new();
    let n = f.samples.len();
    let mut i: usize = 0;
    while i < n
        invariant
            0 <= i <= n,
            n == f.samples.len(),
            sv == f@.samples,
            out@.map_values(|p: String| p@) =~= sv.subrange(0, i as int).map_values(
                |s: Seq<char>| spec_label_key(s),
            ),
        decreases n - i,
    {
        let ghost o0 = out@;
        out.push(extract_sorted_label_key(f.samples[i].raw_line.as_str()));
        proof {
            assert(out@.map_values(|p: String| p@) =~= o0.map_values(|p: String| p@).push(
                spec_label_key(sv[i as int]),
            ));
            assert(sv.subrange(0, i + 1).drop_last() =~= sv.subrange(0, i as int));
            assert(sv.subrange(0, i + 1).map_values(|s: Seq<char>| spec_label_key(s)) =~= sv
                .subrange(0, i as int).map_values(|s: Seq<char>| spec_label_key(s)).push(
                spec_label_key(sv[i as int]),
            ));
        }
        i = i + 1;
    }
    proof {
        assert(sv.subrange(0, n as int) =~= sv);
    }
    out
}

/// Merges families collected from multiple sources into a deduplicated
/// list.
///
/// When the same family name and label key appear more than once the first
/// occurrence is kept and later ones are dropped (first wins). Families with
/// the same name but distinct label sets are merged into one entry, with the
/// HELP and TYPE of the first source to declare them. The result is exactly
/// the fold `spec_merge_all` describes, including the duplicate count and up
/// to three dropped-series examples.
pub fn merge_families(families: Vec<ParsedFamily>) -> (r: (Vec<ParsedFamily>, MergeStats))
    requires
        total_samples(fams_view(families)) <= usize::MAX,
    ensures
        ({
            let m = spec_merge_all(fams_view(families));
            &&& fams_view(r.0) == m.0
            &&& r.1.duplicate_count as int == m.1
            &&& r.1.examples@.map_values(|p: String| p@) == m.2
        }),
{
    let ghost origv = fams_view(families);
    let mut input = families;
    let mut merged: Vec<ParsedFamily> = Vec::new();
    let mut dup_count: usize = 0;
    let mut examples: Vec<String> = Vec::new();
    let ghost mut k: int = 0;
    proof {
        assert(fams_view(input) =~= origv.subrange(0, origv.len() as int));
        assert(origv.subrange(0, 0) =~= Seq::<FamilyView>::empty());
        assert(spec_merge_all(origv.subrange(0, 0)).0 =~= fams_view(merged));
    }
    while input.len() > 0
        invariant
            0 <= k <= origv.len(),
            total_samples(origv) <= usize::MAX,
            fams_view(input) =~= origv.subrange(k, origv.len() as int),
            ({
                let acc = spec_merge_all(origv.subrange(0, k));
                &&& fams_view(merged) == acc.0
                &&& dup_count as int == acc.1
                &&& examples@.map_values(|p: String| p@) == acc.2
            }),
        decreases input.len(),
    {
        proof {
            assert(fams_view(input).len() == input@.len());
            assert(k < origv.len());
        }
        let ghost acc = spec_merge_all(origv.subrange(0, k));
        let ghost famv = origv[k];
        proof {
            assert(origv.subrange(k, origv.len() as int)[0] == origv[k]);
            assert(origv.subrange(0, k + 1).drop_last() =~= origv.subrange(0, k));
            assert(origv.subrange(0, k + 1)[k] == origv[k]);
            lemma_merge_dups_bound(origv.subrange(0, k));
            lemma_merge_dups_bound(origv.subrange(0, k + 1));
            lemma_total_samples_prefix(origv, k + 1);
            assert(total_samples(origv.subrange(0, k + 1)) == total_samples(
                origv.subrange(0, k),
            ) + famv.samples.len());
        }
        let ghost inp0 = input@;
        let ghost inpview0 = fams_view(input);
        let fam = input.remove(0);
        proof {
            assert forall|t: int| 0 <= t < input@.len() implies fams_view(input)[t]
                == origv.subrange(k + 1, origv.len() as int)[t] by {
                assert(input@[t] == inp0[t + 1]);
                assert(fams_view(input)[t] == input@[t]@);
                assert(inpview0[t + 1] == inp0[t + 1]@);
                assert(inpview0[t + 1] == origv.subrange(k, origv.len() as int)[t + 1]);
            }
            assert(fams_view(input).len() == input@.len());
            assert(fams_view(input) =~= origv.subrange(k + 1, origv.len() as int));
            assert(inpview0[0] == fam@);
            assert(fam@ == famv);
        }
        match find_family(&merged, fam.name.as_str()) {
            None => {
                let ghost m0 = fams_view(merged);
                merged.push(fam);
                proof {
                    assert(fams_view(merged) =~= m0.push(famv));
                }
            },
            Some(i) => {
                let keys = collect_keys(&merged[i]);
                let ParsedFamily { name: fname, help_line: fhelp, type_line: ftype, samples: mut fsamples } = fam;
                let ghost m_pre = fams_view(merged);
                let ghost f0 = m_pre[i as int];
                {
                    let mut tgt = merged.remove(i);
                    if tgt.help_line.is_none() {
                        tgt.help_line = fhelp;
                    }
                    if tgt.type_line.is_none() {
                        tgt.type_line = ftype;
                    }
                    merged.insert(i, tgt);
                }
                proof {
                    assert(fams_view(merged) =~~= m_pre.update(i as int, merge_fill(f0, famv)));
                }
                let ghost m0 = fams_view(merged);
                let ghost keysv = f0.samples.map_values(|s: Seq<char>| spec_label_key(s));
                let ghost svs = famv.samples;
                let ghost d0: int = dup_count as int;
                let ghost e0 = examples@.map_values(|p: String| p@);
                proof {
                    assert(keys@.map_values(|p: String| p@) == keysv);
                    assert(fsamples@.map_values(|s: Sample| s@) == svs);
                    lemma_merge_into_dups(m0, i as int, keysv, fname@, svs, d0, e0);
                }
                while fsamples.len() > 0
                    invariant
                        i < merged.len(),
                        keys@.map_values(|p: String| p@) == keysv,
                        fname@ == famv.name,
                        dup_count as int <= d0 + (svs.len() - fsamples@.len()),
                        d0 + svs.len() <= total_samples(origv.subrange(0, k + 1)),
                        total_samples(origv.subrange(0, k + 1)) <= usize::MAX,
                        spec_merge_into(m0, i as int, keysv, famv.name, svs, d0, e0)
                            == spec_merge_into(
                            fams_view(merged),
                            i as int,
                            keysv,
                            famv.name,
                            fsamples@.map_values(|s: Sample| s@),
                            dup_count as int,
                            examples@.map_values(|p: String| p@),
                        ),
                    decreases fsamples.len(),
                {
                    let ghost cur_samples = fsamples@.map_values(|s: Sample| s@);
                    let ghost cur_merged = fams_view(merged);
                    let ghost cur_ex = examples@.map_values(|p: String| p@);
                    let s = fsamples.remove(0);
                    proof {
                        assert(fsamples@.map_values(|s2: Sample| s2@) =~= cur_samples.subrange(
                            1,
                            cur_samples.len() as int,
                        ));
                        assert(s@ == cur_samples[0]);
                    }
                    let key = extract_sorted_label_key(s.raw_line.as_str());
                    if contains_str(&keys, key.as_str()) {
                        dup_count = dup_count + 1;
                        if examples.len() < 3 {
                            let ghost ex0 = examples@;
                            let ex: String;
                            if key.unicode_len() == 0 {
                                ex = fname.clone();
                            } else {
                                let mut e = fname.clone();
                                push_char(&mut e, '{');
                                e.append(key.as_str());
                                push_char(&mut e, '}');
                                ex = e;
                            }
                            proof {
                                assert(ex@ =~= spec_example(famv.name, spec_label_key(s@)));
                            }
                            examples.push(ex);
                            proof {
                                assert(examples@.map_values(|p: String| p@) =~= ex0.map_values(
                                    |p: String| p@,
                                ).push(spec_example(famv.name, spec_label_key(s@))));
                            }
                        }
                    } else {
                        push_family_sample(&mut merged, i, s.raw_line);
                    }
                }
            },
        }
        proof {
            k = k + 1;
        }
    }
    proof {
        assert(origv.subrange(0, k) =~= origv);
    }
    (merged, MergeStats { duplicate_count: dup_count, examples })
}

proof fn lemma_total_update(fams: Seq<FamilyView>, i: int, f: FamilyView)
    requires
        0 <= i < fams.len(),
    ensures
        total_samples(fams.update(i, f)) == total_samples(fams) - fams[i].samples.len()
            + f.samples.len(),
    decreases fams.len(),
{
    if fams.len() > 0 {
        if i == fams.len() - 1 {
            assert(fams.update(i, f).drop_last() =~= fams.drop_last());
        } else {
            lemma_total_update(fams.drop_last(), i, f);
            assert(fams.update(i, f).drop_last() =~= fams.drop_last().update(i, f));
        }
    }
}

proof fn lemma_merge_into_total(
    merged: Seq<FamilyView>,
    idx: int,
    keys: Seq<Seq<char>>,
    name: Seq<char>,
    samples: Seq<Seq<char>>,
    dups: int,
    examples: Seq<Seq<char>>,
)
    requires
        0 <= idx < merged.len(),
    ensures
        ({
            let out = spec_merge_into(merged, idx, keys, name, samples, dups, examples).0;
            &&& out.len() == merged.len()
            &&& total_samples(out) <= total_samples(merged) + samples.len()
        }),
    decreases samples.len(),
{
    if samples.len() > 0 {
        let s = samples[0];
        let key = spec_label_key(s);
        let rest = samples.subrange(1, samples.len() as int);
        if keys.contains(key) {
            let ex2 = if examples.len() < 3 {
                examples.push(spec_example(name, key))
            } else {
                examples
            };
            lemma_merge_into_total(merged, idx, keys, name, rest, dups + 1, ex2);
        } else {
            lemma_total_update(merged, idx, add_sample(merged[idx], s));
            lemma_merge_into_total(
                merged.update(idx, add_sample(merged[idx], s)),
                idx,
                keys,
                name,
                rest,
                dups,
                examples,
            );
        }
    }
}

proof fn lemma_family_index_in_range(fams: Seq<FamilyView>, name: Seq<char>, i: int)
    ensures
        match spec_family_index(fams, name, i) {
            Some(j) => i <= j < fams.len(),
            None => true,
        },
    decreases fams.len() - i,
{
    if 0 <= i < fams.len() && fams[i].name != name {
        lemma_family_index_in_range(fams, name, i + 1);
    }
}

/// The merge never holds more samples than went in.
pub proof fn lemma_merge_total(fams: Seq<FamilyView>)
    ensures
        total_samples(spec_merge_all(fams).0) <= total_samples(fams),
    decreases fams.len(),
{
    if fams.len() > 0 {
        let pre = fams.drop_last();
        lemma_merge_total(pre);
        let acc = spec_merge_all(pre);
        let fam = fams[fams.len() - 1];
        match spec_family_index(acc.0, fam.name, 0) {
            None => {
                assert(acc.0.push(fam).drop_last() =~= acc.0);
            },
            Some(i) => {
                lemma_family_index_in_range(acc.0, fam.name, 0);
                let f0 = acc.0[i];
                let keys = f0.samples.map_values(|s: Seq<char>| spec_label_key(s));
                let filled = acc.0.update(i, merge_fill(f0, fam));
                lemma_total_update(acc.0, i, merge_fill(f0, fam));
                lemma_merge_into_total(filled, i, keys, fam.name, fam.samples, acc.1, acc.2);
            },
        }
    }
}

/// A sample that follows a HELP/TYPE declaration and carries the declared
/// base name, or the base plus one of the recognised suffixes — as every
/// histogram's `_bucket`, `_sum` and `_count` series do — is absorbed into
/// the declared family: no new family is created, the sample line joins the
/// selected family, and the selection does not move.
pub proof fn lemma_suffixed_sample_absorbed(
    st: ParseState,
    line: Seq<char>,
    b: Seq<char>,
    i: int,
)
    requires
        st.cur_base == Some(b),
        st.cur_idx == Some(i),
        line.len() > 0,
        !is_prefix_of("# HELP "@, line),
        !is_prefix_of("# TYPE "@, line),
        line[0] != '#',
        spec_belongs(spec_metric_name(line), b),
    ensures
        spec_parse_step(st, line).fams == st.fams.update(
            i,
            add_sample(st.fams[i], line.push('\n')),
        ),
        spec_parse_step(st, line).cur_idx == st.cur_idx,
        spec_parse_step(st, line).cur_base == st.cur_base,
{
}

/// Whether `sample` is one of `lines` with its newline restored.
pub open spec fn line_of(sample: Seq<char>, lines: Seq<Seq<char>>) -> bool {
    exists|i: int| 0 <= i < lines.len() && sample == #[trigger] lines[i].push('\n')
}

/// Every sample among `fams` is one of `lines` with its newline restored.
pub open spec fn samples_verbatim(fams: Seq<FamilyView>, lines: Seq<Seq<char>>) -> bool {
    forall|f: int, s: int|
        0 <= f < fams.len() && 0 <= s < fams[f].samples.len() ==> line_of(
            #[trigger] fams[f].samples[s],
            lines,
        )
}

proof fn lemma_verbatim_weaken(fams: Seq<FamilyView>, pre: Seq<Seq<char>>, lines: Seq<Seq<char>>)
    requires
        samples_verbatim(fams, pre),
        pre.len() <= lines.len(),
        forall|i: int| 0 <= i < pre.len() ==> pre[i] == #[trigger] lines[i],
    ensures
        samples_verbatim(fams, lines),
{
    assert forall|f: int, s: int|
        0 <= f < fams.len() && 0 <= s < fams[f].samples.len() implies line_of(
        #[trigger] fams[f].samples[s],
        lines,
    ) by {
        let x = fams[f].samples[s];
        assert(line_of(x, pre));
        let i = choose|i: int| 0 <= i < pre.len() && x == #[trigger] pre[i].push('\n');
        assert(x == lines[i].push('\n'));
    }
}

proof fn lemma_verbatim_push_empty(
    fams: Seq<FamilyView>,
    lines: Seq<Seq<char>>,
    name: Seq<char>,
)
    requires
        samples_verbatim(fams, lines),
    ensures
        samples_verbatim(fams.push(empty_family(name)), lines),
{
    let fams2 = fams.push(empty_family(name));
    assert forall|f: int, s: int|
        0 <= f < fams2.len() && 0 <= s < fams2[f].samples.len() implies line_of(
        #[trigger] fams2[f].samples[s],
        lines,
    ) by {
        assert(f < fams.len());
        assert(fams2[f] == fams[f]);
        assert(line_of(fams[f].samples[s], lines));
    }
}

proof fn lemma_verbatim_set(
    fams: Seq<FamilyView>,
    lines: Seq<Seq<char>>,
    idx: int,
    f2: FamilyView,
)
    requires
        samples_verbatim(fams, lines),
        0 <= idx < fams.len(),
        f2.samples == fams[idx].samples,
    ensures
        samples_verbatim(fams.update(idx, f2), lines),
{
    let fams2 = fams.update(idx, f2);
    assert forall|f: int, s: int|
        0 <= f < fams2.len() && 0 <= s < fams2[f].samples.len() implies line_of(
        #[trigger] fams2[f].samples[s],
        lines,
    ) by {
        assert(fams2[f].samples == fams[f].samples);
        assert(line_of(fams[f].samples[s], lines));
    }
}

proof fn lemma_verbatim_add(
    fams: Seq<FamilyView>,
    lines: Seq<Seq<char>>,
    idx: int,
    lnew: Seq<char>,
)
    requires
        samples_verbatim(fams, lines),
        0 <= idx < fams.len(),
        line_of(lnew, lines),
    ensures
        samples_verbatim(fams.update(idx, add_sample(fams[idx], lnew)), lines),
{
    let fams2 = fams.update(idx, add_sample(fams[idx], lnew));
    assert forall|f: int, s: int|
        0 <= f < fams2.len() && 0 <= s < fams2[f].samples.len() implies line_of(
        #[trigger] fams2[f].samples[s],
        lines,
    ) by {
        if f == idx && s == fams[idx].samples.len() {
            assert(fams2[f].samples[s] == lnew);
        } else {
            assert(fams2[f].samples[s] == fams[f].samples[s]);
            assert(line_of(fams[f].samples[s], lines));
        }
    }
}

proof fn lemma_parse_all_cur_idx(lines: Seq<Seq<char>>)
    ensures
        match spec_parse_all(lines).cur_idx {
            Some(i) => 0 <= i < spec_parse_all(lines).fams.len(),
            None => true,
        },
    decreases lines.len(),
{
    if lines.len() > 0 {
        let pre = lines.drop_last();
        lemma_parse_all_cur_idx(pre);
        let st = spec_parse_all(pre);
        let line = lines[lines.len() - 1];
        if line.len() == 0 {
        } else if is_prefix_of("# HELP "@, line) {
            let name = spec_first_token(
                line.subrange("# HELP "@.len() as int, line.len() as int),
            );
            lemma_family_index_in_range(st.fams, name, 0);
        } else if is_prefix_of("# TYPE "@, line) {
            let name = spec_first_token(
                line.subrange("# TYPE "@.len() as int, line.len() as int),
            );
            lemma_family_index_in_range(st.fams, name, 0);
        } else if line[0] == '#' {
        } else {
            let sname = spec_metric_name(line);
            let belongs = match st.cur_base {
                Some(b) => spec_belongs(sname, b),
                None => false,
            };
            if belongs {
                match st.cur_idx {
                    Some(_) => {},
                    None => {
                        let b = match st.cur_base {
                            Some(b2) => b2,
                            None => Seq::empty(),
                        };
                        lemma_family_index_in_range(st.fams, b, 0);
                    },
                }
            } else {
                let b = spec_base_name(sname);
                lemma_family_index_in_range(st.fams, b, 0);
            }
        }
    }
}

proof fn lemma_parse_all_verbatim(lines: Seq<Seq<char>>)
    ensures
        samples_verbatim(spec_parse_all(lines).fams, lines),
    decreases lines.len(),
{
    if lines.len() == 0 {
    } else {
        let pre = lines.drop_last();
        lemma_parse_all_verbatim(pre);
        let st = spec_parse_all(pre);
        let line = lines[lines.len() - 1];
        lemma_verbatim_weaken(st.fams, pre, lines);
        assert(line_of(line.push('\n'), lines)) by {
            assert(line.push('\n') == lines[lines.len() - 1].push('\n'));
        }
        if line.len() == 0 {
        } else if is_prefix_of("# HELP "@, line) {
            let name = spec_first_token(
                line.subrange("# HELP "@.len() as int, line.len() as int),
            );
            let fi = spec_get_or_insert(st.fams, name);
            lemma_family_index_in_range(st.fams, name, 0);
            if spec_family_index(st.fams, name, 0) is None {
                lemma_verbatim_push_empty(st.fams, lines, name);
            }
            lemma_verbatim_set(fi.0, lines, fi.1, set_help(fi.0[fi.1], line.push('\n')));
        } else if is_prefix_of("# TYPE "@, line) {
            let name = spec_first_token(
                line.subrange("# TYPE "@.len() as int, line.len() as int),
            );
            let fi = spec_get_or_insert(st.fams, name);
            lemma_family_index_in_range(st.fams, name, 0);
            if spec_family_index(st.fams, name, 0) is None {
                lemma_verbatim_push_empty(st.fams, lines, name);
            }
            lemma_verbatim_set(fi.0, lines, fi.1, set_type(fi.0[fi.1], line.push('\n')));
        } else if line[0] == '#' {
        } else {
            let sname = spec_metric_name(line);
            let belongs = match st.cur_base {
                Some(b) => spec_belongs(sname, b),
                None => false,
            };
            if belongs {
                match st.cur_idx {
                    Some(i) => {
                        lemma_parse_all_cur_idx(pre);
                        lemma_verbatim_add(st.fams, lines, i, line.push('\n'));
                    },
                    None => {
                        let b = match st.cur_base {
                            Some(b2) => b2,
                            None => Seq::empty(),
                        };
                        let fi = spec_get_or_insert(st.fams, b);
                        lemma_family_index_in_range(st.fams, b, 0);
                        if spec_family_index(st.fams, b, 0) is None {
                            lemma_verbatim_push_empty(st.fams, lines, b);
                        }
                        lemma_verbatim_add(fi.0, lines, fi.1, line.push('\n'));
                    },
                }
            } else {
                let b = spec_base_name(sname);
                let fi = spec_get_or_insert(st.fams, b);
                lemma_family_index_in_range(st.fams, b, 0);
                if spec_family_index(st.fams, b, 0) is None {
                    lemma_verbatim_push_empty(st.fams, lines, b);
                }
                lemma_verbatim_add(fi.0, lines, fi.1, line.push('\n'));
            }
        }
    }
}

proof fn lemma_keep_nonempty_verbatim(fams: Seq<FamilyView>, lines: Seq<Seq<char>>)
    requires
        samples_verbatim(fams, lines),
    ensures
        samples_verbatim(keep_nonempty(fams), lines),
    decreases fams.len(),
{
    if fams.len() > 0 {
        let rest = fams.subrange(1, fams.len() as int);
        assert(samples_verbatim(rest, lines)) by {
            assert forall|f: int, s: int|
                0 <= f < rest.len() && 0 <= s < rest[f].samples.len() implies line_of(
                #[trigger] rest[f].samples[s],
                lines,
            ) by {
                assert(rest[f] == fams[f + 1]);
                assert(line_of(fams[f + 1].samples[s], lines));
            }
        }
        lemma_keep_nonempty_verbatim(rest, lines);
        let keep = keep_nonempty(fams);
        let tail = keep_nonempty(rest);
        assert forall|f: int, s: int|
            0 <= f < keep.len() && 0 <= s < keep[f].samples.len() implies line_of(
            #[trigger] keep[f].samples[s],
            lines,
        ) by {
            if fams[0].samples.len() > 0 {
                if f == 0 {
                    assert(keep[0] == fams[0]);
                    assert(line_of(fams[0].samples[s], lines));
                } else {
                    assert(keep[f] == tail[f - 1]);
                    assert(line_of(tail[f - 1].samples[s], lines));
                }
            } else {
                assert(keep[f] == tail[f]);
                assert(line_of(tail[f].samples[s], lines));
            }
        }
    }
}

/// Round trip of the parse: every sample of every family `parse_families`
/// returns is, verbatim, one of the input's lines with its trailing newline
/// restored; concatenating such samples therefore reproduces their source
/// bytes exactly.
pub proof fn lemma_parse_round_trip(input: Seq<char>)
    ensures
        samples_verbatim(spec_parse(input), spec_lines(input)),
{
    lemma_parse_all_verbatim(spec_lines(input));
    lemma_keep_nonempty_verbatim(spec_parse_all(spec_lines(input)).fams, spec_lines(input));
}

/// The canonical key does not depend on the order in which label pairs
/// appear: any two pair sequences with the same multiset of pairs sort to
/// the same sequence, and so join to the same key.
pub proof fn lemma_label_key_canonical(p: Seq<Seq<char>>, q: Seq<Seq<char>>)
    requires
        p.to_multiset() == q.to_multiset(),
    ensures
        p.sort_by(lex_leq_fn()) == q.sort_by(lex_leq_fn()),
        spec_join_comma(p.sort_by(lex_leq_fn())) == spec_join_comma(q.sort_by(lex_leq_fn())),
{
    let leq = lex_leq_fn();
    lemma_lex_le_total_ordering();
    p.lemma_sort_by_ensures(leq);
    q.lemma_sort_by_ensures(leq);
    lemma_sorted_unique(p.sort_by(leq), q.sort_by(leq), leq);
    assert(p.sort_by(leq) =~= q.sort_by(leq));
}

} // verus!
