//! The integer side of retrieval scoring: where the first expected symbol
//! ranks, how many labels hit within the top results, which labels can be
//! scored, query length buckets, and the bytes read before a hit.

use vstd::prelude::*;

use crate::mining::{pair_in, same_labels, same_pair, Label, LabelSource};
use crate::protocol::SearchResult;
use crate::text::{concat, count_words, push_str_chars, str_eq, word_count};

verus! {

/// The position of the first ranked candidate that is expected, if any.
pub fn first_hit_index(ranked: &Vec<(String, String)>, expected: &Vec<(String, String)>) -> (res:
    Option<usize>)
    ensures
        match res {
            Some(i) => i < ranked@.len() && pair_in(expected@, ranked@[i as int]) && forall|k: int|
                0 <= k < i ==> !pair_in(expected@, #[trigger] ranked@[k]),
            None => forall|k: int| 0 <= k < ranked@.len() ==> !pair_in(expected@, #[trigger] ranked@[k]),
        },
{
    let n = ranked.len();
    for i in 0..n
        invariant
            n == ranked@.len(),
            forall|k: int| 0 <= k < i ==> !pair_in(expected@, #[trigger] ranked@[k]),
    {
        if crate::mining::contains_pair(expected, &ranked[i]) {
            return Some(i);
        }
    }
    None
}

/// Whether some expected symbol is among the first `k` ranked candidates.
pub open spec fn hits_within(ranked: Seq<(String, String)>, expected: Seq<(String, String)>, k: nat) -> bool {
    exists|i: int| 0 <= i < ranked.len() && i < k && pair_in(expected, #[trigger] ranked[i])
}

/// How many of the labels hit within the top `k`.
pub open spec fn top_k_hit_count(
    rankings: Seq<Vec<(String, String)>>,
    expected: Seq<Vec<(String, String)>>,
    k: nat,
) -> nat
    decreases rankings.len(),
{
    if rankings.len() == 0 || expected.len() < rankings.len() {
        0
    } else {
        let i = rankings.len() - 1;
        top_k_hit_count(rankings.drop_last(), expected.take(i), k) + if hits_within(
            rankings[i]@,
            expected[i]@,
            k,
        ) {
            1nat
        } else {
            0nat
        }
    }
}

/// Counts the labels whose expected symbol appears in the top `k` of their
/// ranking; the ranking and expectation lists pair up by position.
pub fn count_top_k_hits(
    rankings: &Vec<Vec<(String, String)>>,
    expected: &Vec<Vec<(String, String)>>,
    k: usize,
) -> (res: usize)
    requires
        rankings@.len() == expected@.len(),
    ensures
        res == top_k_hit_count(rankings@, expected@, k as nat),
{
    let n = rankings.len();
    let mut hits: usize = 0;
    for i in 0..n
        invariant
            n == rankings@.len(),
            n == expected@.len(),
            hits == top_k_hit_count(rankings@.take(i as int), expected@.take(i as int), k as nat),
            hits <= i,
    {
        assert(rankings@.take(i + 1).drop_last() == rankings@.take(i as int));
        assert(expected@.take(i + 1).take(i as int) == expected@.take(i as int));
        let hit = match first_hit_index(&rankings[i], &expected[i]) {
            Some(j) => j < k,
            None => false,
        };
        proof {
            if hits_within(rankings@[i as int]@, expected@[i as int]@, k as nat) {
                let j = choose|j: int|
                    0 <= j < rankings@[i as int]@.len() && j < k && pair_in(
                        expected@[i as int]@,
                        #[trigger] rankings@[i as int]@[j],
                    );
                assert(pair_in(expected@[i as int]@, rankings@[i as int]@[j]));
            }
        }
        if hit {
            hits = hits + 1;
        }
    }
    assert(rankings@.take(n as int) == rankings@);
    assert(expected@.take(n as int) == expected@);
    hits
}

/// Query length buckets by word count.
#[derive(Debug, Clone, Copy, PartialEq, Eq, PartialOrd, Ord, Hash, Structural)]
pub enum LengthBucket {
    Short,
    Medium,
    Long,
}

/// Up to 4 words is short, up to 10 medium, more is long.
pub open spec fn bucket_of(words: nat) -> LengthBucket {
    if words <= 4 {
        LengthBucket::Short
    } else if words <= 10 {
        LengthBucket::Medium
    } else {
        LengthBucket::Long
    }
}

impl LengthBucket {
    /// The bucket of a query, by its whitespace-separated words.
    pub fn from_query(query: &str) -> (res: Self)
        ensures
            res == bucket_of(word_count(query@)),
    {
        let words = count_words(query);
        if words <= 4 {
            LengthBucket::Short
        } else if words <= 10 {
            LengthBucket::Medium
        } else {
            LengthBucket::Long
        }
    }
}

/// The retrieval configurations compared. No reranking anywhere.
#[derive(Debug, Clone, Copy, PartialEq, Eq, PartialOrd, Ord, Hash, Structural)]
pub enum Ablation {
    LexicalOnly,
    DenseOnly,
    Fused,
}

/// Whether every expected symbol of a label is indexed, and it has some.
pub open spec fn scorable(label: Label, indexed: Seq<(String, String)>) -> bool {
    label.expected@.len() > 0 && forall|j: int|
        0 <= j < label.expected@.len() ==> pair_in(indexed, #[trigger] label.expected@[j])
}

/// The positions of the scorable labels, in order.
pub open spec fn scorable_positions(labels: Seq<Label>, indexed: Seq<(String, String)>) -> Seq<int>
    decreases labels.len(),
{
    if labels.len() == 0 {
        Seq::empty()
    } else {
        let rest = scorable_positions(labels.drop_last(), indexed);
        if scorable(labels.last(), indexed) {
            rest.push(labels.len() - 1)
        } else {
            rest
        }
    }
}

/// Whether all expected symbols of a label are indexed and there is one.
fn is_scorable(label: &Label, indexed: &Vec<(String, String)>) -> (res: bool)
    ensures
        res == scorable(*label, indexed@),
{
    let n = label.expected.len();
    if n == 0 {
        return false;
    }
    for j in 0..n
        invariant
            n == label.expected@.len(),
            forall|k: int| 0 <= k < j ==> pair_in(indexed@, #[trigger] label.expected@[k]),
    {
        if !crate::mining::contains_pair(indexed, &label.expected[j]) {
            return false;
        }
    }
    true
}

/// Splits labels into those that can be scored (every expected symbol
/// indexed, and at least one) and a count of the others, which are
/// discarded rather than scored as misses.
pub fn partition_labels(indexed: &Vec<(String, String)>, labels: Vec<Label>) -> (res: (Vec<Label>, u64))
    ensures
        res.0@ == scorable_positions(labels@, indexed@).map_values(|i: int| labels@[i]),
        res.1 == labels@.len() - scorable_positions(labels@, indexed@).len(),
{
    let ghost all = labels@;
    let mut scored: Vec<Label> = Vec::new();
    let mut discarded: u64 = 0;
    let mut rest = labels;
    let mut reversed: Vec<Label> = Vec::new();
    while rest.len() > 0
        invariant
            reversed@.len() + rest@.len() == all.len(),
            rest@ == all.take(rest@.len() as int),
            forall|k: int|
                0 <= k < reversed@.len() ==> #[trigger] reversed@[k] == all[all.len() - 1 - k],
        decreases rest@.len(),
    {
        let e = rest.pop().unwrap();
        reversed.push(e);
    }
    let n = reversed.len();
    let mut i: usize = 0;
    while reversed.len() > 0
        invariant
            n == all.len(),
            i + reversed@.len() == n,
            forall|k: int|
                0 <= k < reversed@.len() ==> #[trigger] reversed@[k] == all[all.len() - 1 - k],
            scored@ == scorable_positions(all.take(i as int), indexed@).map_values(
                |p: int| all.take(i as int)[p],
            ),
            discarded == i - scorable_positions(all.take(i as int), indexed@).len(),
            scorable_positions(all.take(i as int), indexed@).len() <= i,
            forall|k: int|
                0 <= k < scorable_positions(all.take(i as int), indexed@).len() ==> 0 <= #[trigger] scorable_positions(
                    all.take(i as int),
                    indexed@,
                )[k] < i,
        decreases reversed@.len(),
    {
        let label = reversed.pop().unwrap();
        let ghost prefix = all.take(i + 1);
        assert(prefix.drop_last() == all.take(i as int));
        assert(label == all[i as int]);
        let ghost old_pos = scorable_positions(all.take(i as int), indexed@);
        let ghost old_scored = scored@;
        proof {
            lemma_positions_bounded(all.take(i as int), indexed@);
        }
        if is_scorable(&label, indexed) {
            scored.push(label);
            proof {
                let new_pos = scorable_positions(prefix, indexed@);
                assert(new_pos == old_pos.push(i as int));
                assert forall|k: int| 0 <= k < new_pos.len() implies #[trigger] scored@[k]
                    == prefix[new_pos[k]] by {
                    if k < old_pos.len() {
                        assert(old_scored[k] == all.take(i as int)[old_pos[k]]);
                    }
                }
                assert(scored@ == new_pos.map_values(|p: int| prefix[p]));
            }
        } else {
            discarded = discarded + 1;
            proof {
                let new_pos = scorable_positions(prefix, indexed@);
                assert(new_pos == old_pos);
                assert forall|k: int| 0 <= k < new_pos.len() implies #[trigger] scored@[k]
                    == prefix[new_pos[k]] by {
                    assert(old_scored[k] == all.take(i as int)[old_pos[k]]);
                }
                assert(scored@ == new_pos.map_values(|p: int| prefix[p]));
            }
        }
        i = i + 1;
    }
    assert(all.take(n as int) == all);
    (scored, discarded)
}

proof fn lemma_positions_bounded(labels: Seq<Label>, indexed: Seq<(String, String)>)
    ensures
        scorable_positions(labels, indexed).len() <= labels.len(),
        forall|k: int|
            0 <= k < scorable_positions(labels, indexed).len() ==> 0 <= #[trigger] scorable_positions(
                labels,
                indexed,
            )[k] < labels.len(),
    decreases labels.len(),
{
    if labels.len() > 0 {
        lemma_positions_bounded(labels.drop_last(), indexed);
    }
}

/// Whether a label comes from `source`.
pub open spec fn from_source(source: LabelSource) -> spec_fn(Label) -> bool {
    |l: Label| l.source == source
}

/// Whether a label's query falls in `bucket`.
pub open spec fn in_bucket(bucket: LengthBucket) -> spec_fn(Label) -> bool {
    |l: Label| bucket_of(word_count(l.query@)) == bucket
}

/// The labels from `source`, in order.
pub fn labels_from_source(labels: &Vec<Label>, source: LabelSource) -> (res: Vec<Label>)
    ensures
        same_labels(res@, labels@.filter(from_source(source))),
{
    let ghost pred = from_source(source);
    let mut out: Vec<Label> = Vec::new();
    let n = labels.len();
    for i in 0..n
        invariant
            n == labels@.len(),
            pred == from_source(source),
            same_labels(out@, labels@.take(i as int).filter(pred)),
    {
        proof {
            reveal(Seq::filter);
            assert(labels@.take(i + 1).drop_last() == labels@.take(i as int));
        }
        if labels[i].source == source {
            out.push(labels[i].clone());
        }
    }
    assert(labels@.take(n as int) == labels@);
    out
}

/// The labels whose query falls in `bucket`, in order.
pub fn labels_in_bucket(labels: &Vec<Label>, bucket: LengthBucket) -> (res: Vec<Label>)
    ensures
        same_labels(res@, labels@.filter(in_bucket(bucket))),
{
    let ghost pred = in_bucket(bucket);
    let mut out: Vec<Label> = Vec::new();
    let n = labels.len();
    for i in 0..n
        invariant
            n == labels@.len(),
            pred == in_bucket(bucket),
            same_labels(out@, labels@.take(i as int).filter(pred)),
    {
        proof {
            reveal(Seq::filter);
            assert(labels@.take(i + 1).drop_last() == labels@.take(i as int));
        }
        if LengthBucket::from_query(labels[i].query.as_str()) == bucket {
            out.push(labels[i].clone());
        }
    }
    assert(labels@.take(n as int) == labels@);
    out
}

/// The total number of labels over a breakdown's groups.
pub open spec fn group_total<K>(groups: Seq<(K, Vec<Label>)>) -> nat
    decreases groups.len(),
{
    if groups.len() == 0 {
        0
    } else {
        group_total(groups.drop_last()) + groups.last().1@.len()
    }
}

/// `seq![key]` when `count` is positive, else nothing.
pub open spec fn key_if<K>(key: K, count: nat) -> Seq<K> {
    if count > 0 {
        seq![key]
    } else {
        Seq::empty()
    }
}

/// The sources a breakdown by source reports, in order: commit subjects,
/// then docstrings, each only when some label has it.
pub open spec fn source_groups(labels: Seq<Label>) -> Seq<LabelSource> {
    key_if(LabelSource::CommitSubject, labels.filter(from_source(LabelSource::CommitSubject)).len())
        + key_if(LabelSource::Docstring, labels.filter(from_source(LabelSource::Docstring)).len())
}

/// The buckets a breakdown by length reports, in order: short, medium,
/// long, each only when some label falls in it.
pub open spec fn bucket_groups(labels: Seq<Label>) -> Seq<LengthBucket> {
    key_if(LengthBucket::Short, labels.filter(in_bucket(LengthBucket::Short)).len()) + key_if(
        LengthBucket::Medium,
        labels.filter(in_bucket(LengthBucket::Medium)).len(),
    ) + key_if(LengthBucket::Long, labels.filter(in_bucket(LengthBucket::Long)).len())
}

/// Every label comes from exactly one source and falls in exactly one
/// length bucket, so each breakdown counts every label exactly once.
pub proof fn lemma_breakdowns_partition_labels(labels: Seq<Label>)
    ensures
        labels.filter(from_source(LabelSource::CommitSubject)).len() + labels.filter(
            from_source(LabelSource::Docstring),
        ).len() == labels.len(),
        labels.filter(in_bucket(LengthBucket::Short)).len() + labels.filter(
            in_bucket(LengthBucket::Medium),
        ).len() + labels.filter(in_bucket(LengthBucket::Long)).len() == labels.len(),
    decreases labels.len(),
{
    reveal(Seq::filter);
    if labels.len() > 0 {
        lemma_breakdowns_partition_labels(labels.drop_last());
    }
}

/// The labels grouped by source, in the order commit subjects then
/// docstrings, leaving out a source with no labels. Every label is in
/// exactly one group.
pub fn breakdown_by_source(labels: &Vec<Label>) -> (res: Vec<(LabelSource, Vec<Label>)>)
    ensures
        res@.map_values(|g: (LabelSource, Vec<Label>)| g.0) == source_groups(labels@),
        forall|k: int|
            0 <= k < res@.len() ==> same_labels(
                (#[trigger] res@[k]).1@,
                labels@.filter(from_source(res@[k].0)),
            ),
        group_total(res@) == labels@.len(),
{
    let mut out: Vec<(LabelSource, Vec<Label>)> = Vec::new();
    let commit = labels_from_source(labels, LabelSource::CommitSubject);
    if commit.len() > 0 {
        out.push((LabelSource::CommitSubject, commit));
    }
    let ghost first = out@;
    let doc = labels_from_source(labels, LabelSource::Docstring);
    if doc.len() > 0 {
        out.push((LabelSource::Docstring, doc));
    }
    proof {
        lemma_breakdowns_partition_labels(labels@);
        reveal_with_fuel(group_total, 3);
        if out@.len() > first.len() {
            assert(out@.drop_last() == first);
        }
        if first.len() > 0 {
            assert(first.drop_last() == Seq::<(LabelSource, Vec<Label>)>::empty());
        }
        assert(out@.map_values(|g: (LabelSource, Vec<Label>)| g.0) == source_groups(labels@));
    }
    out
}

/// The labels grouped by query length, in the order short, medium, long,
/// leaving out a bucket with no labels. Every label is in exactly one
/// group.
pub fn breakdown_by_length(labels: &Vec<Label>) -> (res: Vec<(LengthBucket, Vec<Label>)>)
    ensures
        res@.map_values(|g: (LengthBucket, Vec<Label>)| g.0) == bucket_groups(labels@),
        forall|k: int|
            0 <= k < res@.len() ==> same_labels(
                (#[trigger] res@[k]).1@,
                labels@.filter(in_bucket(res@[k].0)),
            ),
        group_total(res@) == labels@.len(),
{
    let mut out: Vec<(LengthBucket, Vec<Label>)> = Vec::new();
    let short = labels_in_bucket(labels, LengthBucket::Short);
    if short.len() > 0 {
        out.push((LengthBucket::Short, short));
    }
    let ghost after_short = out@;
    let medium = labels_in_bucket(labels, LengthBucket::Medium);
    if medium.len() > 0 {
        out.push((LengthBucket::Medium, medium));
    }
    let ghost after_medium = out@;
    let long = labels_in_bucket(labels, LengthBucket::Long);
    if long.len() > 0 {
        out.push((LengthBucket::Long, long));
    }
    proof {
        lemma_breakdowns_partition_labels(labels@);
        reveal_with_fuel(group_total, 4);
        if after_short.len() > 0 {
            assert(after_short.drop_last() == Seq::<(LengthBucket, Vec<Label>)>::empty());
        }
        if after_medium.len() > after_short.len() {
            assert(after_medium.drop_last() == after_short);
        }
        if out@.len() > after_medium.len() {
            assert(out@.drop_last() == after_medium);
        }
        assert(out@.map_values(|g: (LengthBucket, Vec<Label>)| g.0) == bucket_groups(labels@));
    }
    out
}

/// The keyword search an agent already has, used as the baseline.
pub const BASELINE_COMMAND: &'static str = "rg --files-with-matches -F";

/// How many characters at the front of `s` are not whitespace.
pub open spec fn leading_word(s: Seq<char>) -> nat
    decreases s.len(),
{
    if s.len() > 0 && !crate::text::is_white(s[0]) {
        1 + leading_word(s.drop_first())
    } else {
        0
    }
}

/// The keyword the baseline searches for: the first whitespace-separated
/// word of the query, or the whole query when it has none.
pub open spec fn baseline_keyword(query: Seq<char>) -> Seq<char> {
    let rest = query.skip(crate::text::leading_white(query) as int);
    if rest.len() == 0 {
        query
    } else {
        rest.take(leading_word(rest) as int)
    }
}

proof fn lemma_leading_word(s: Seq<char>, i: int)
    requires
        0 <= i <= s.len(),
        forall|k: int| 0 <= k < i ==> !crate::text::is_white(#[trigger] s[k]),
        i == s.len() || crate::text::is_white(s[i]),
    ensures
        leading_word(s) == i,
    decreases i,
{
    if i > 0 {
        lemma_leading_word(s.drop_first(), i - 1);
    }
}

proof fn lemma_leading_white_at(s: Seq<char>, i: int)
    requires
        0 <= i <= s.len(),
        forall|k: int| 0 <= k < i ==> crate::text::is_white(#[trigger] s[k]),
        i == s.len() || !crate::text::is_white(s[i]),
    ensures
        crate::text::leading_white(s) == i,
    decreases i,
{
    if i > 0 {
        lemma_leading_white_at(s.drop_first(), i - 1);
    }
}

/// The baseline command recorded for a query: [`BASELINE_COMMAND`], a
/// space, and the query's keyword.
pub fn baseline_command(query: &str) -> (res: String)
    ensures
        res@ == BASELINE_COMMAND@ + " "@ + baseline_keyword(query@),
{
    let chars = crate::text::chars_of(query);
    let n = chars.len();
    let mut i: usize = 0;
    while i < n && crate::text::char_is_white(chars[i])
        invariant
            n == chars@.len(),
            i <= n,
            forall|k: int| 0 <= k < i ==> crate::text::is_white(#[trigger] chars@[k]),
        decreases n - i,
    {
        i = i + 1;
    }
    proof {
        lemma_leading_white_at(chars@, i as int);
    }
    let mut cmd = concat(BASELINE_COMMAND, " ");
    if i == n {
        push_str_chars(&mut cmd, query);
        return cmd;
    }
    let ghost rest = chars@.skip(i as int);
    let ghost start = cmd@;
    let mut j: usize = i;
    while j < n && !crate::text::char_is_white(chars[j])
        invariant
            n == chars@.len(),
            i <= j <= n,
            forall|k: int| i <= k < j ==> !crate::text::is_white(#[trigger] chars@[k]),
            cmd@ == start + chars@.subrange(i as int, j as int),
        decreases n - j,
    {
        crate::text::push_char(&mut cmd, chars[j]);
        assert(chars@.subrange(i as int, j + 1) == chars@.subrange(i as int, j as int).push(
            chars@[j as int],
        ));
        j = j + 1;
    }
    assert(rest.take(j - i) == chars@.subrange(i as int, j as int));
    proof {
        assert forall|k: int| 0 <= k < j - i implies !crate::text::is_white(#[trigger] rest[k]) by {
            assert(rest[k] == chars@[k + i]);
        }
        if j < n {
            assert(rest[j - i] == chars@[j as int]);
        }
        lemma_leading_word(rest, j - i);
    }
    cmd
}

/// The median bytes read before a hit, by the tool and by the baseline.
#[derive(Debug, Clone, PartialEq, Eq, Default)]
pub struct BytesBeforeHit {
    pub mcp_median: u64,
    /// Grep-style baseline over the same repository.
    pub baseline_median: u64,
    pub baseline_command: String,
}

/// The length in bytes of the compact JSON object an MCP client receives
/// for one search result: its file, symbol, signature, doc, preview and
/// line range.
pub uninterp spec fn result_json_len_of(
    file: Seq<char>,
    symbol: Seq<char>,
    signature: Seq<char>,
    doc: Option<Seq<char>>,
    preview: Seq<char>,
    line_start: u32,
    line_end: u32,
) -> nat;

/// The JSON size of one search result as an MCP client receives it.
///
/// Builds a `serde_json::Value` object with the result's file, symbol,
/// signature, doc (`null` when absent), preview and line pair, and measures
/// its compact serialization (`Value`'s `Display`). The contract names that
/// length by the fields serialised.
#[verifier::external_body]
fn result_json_len(r: &SearchResult) -> (res: u64)
    ensures
        res == result_json_len_of(
            r.file@,
            r.symbol@,
            r.signature@,
            match r.doc {
                Some(d) => Some(d@),
                None => None,
            },
            r.preview@,
            r.lines@[0],
            r.lines@[1],
        ),
{
    let mut m = serde_json::Map::new();
    m.insert("file".to_owned(), serde_json::Value::String(r.file.clone()));
    m.insert("symbol".to_owned(), serde_json::Value::String(r.symbol.clone()));
    m.insert("signature".to_owned(), serde_json::Value::String(r.signature.clone()));
    m.insert("doc".to_owned(), r.doc.clone().map_or(serde_json::Value::Null, serde_json::Value::String));
    m.insert("preview".to_owned(), serde_json::Value::String(r.preview.clone()));
    m.insert("lines".to_owned(), serde_json::Value::from(r.lines.to_vec()));
    serde_json::Value::Object(m).to_string().len() as u64
}

/// The JSON size of a result.
pub open spec fn json_len(r: SearchResult) -> nat {
    result_json_len_of(
        r.file@,
        r.symbol@,
        r.signature@,
        match r.doc {
            Some(d) => Some(d@),
            None => None,
        },
        r.preview@,
        r.lines@[0],
        r.lines@[1],
    )
}

/// `a + b`, or `u64::MAX` when that passes it.
pub open spec fn sat_add(a: int, b: int) -> int {
    if a + b > u64::MAX {
        u64::MAX as int
    } else {
        a + b
    }
}

/// The bytes an MCP client reads over `results`: the running total of their
/// JSON sizes, saturating at `u64::MAX`.
pub open spec fn json_bytes(results: Seq<SearchResult>) -> int
    decreases results.len(),
{
    if results.len() == 0 {
        0
    } else {
        sat_add(json_bytes(results.drop_last()), json_len(results.last()) as int)
    }
}

/// The nearest-rank median of byte counts: the sample at rank
/// `ceil(n / 2)` once sorted, 0 for none.
pub open spec fn bytes_median(values: Seq<u64>) -> u64 {
    if values.len() == 0 {
        0
    } else {
        crate::measure::sorted_samples(values)[crate::measure::nearest_rank_index(
            50,
            values.len(),
        )]
    }
}

/// The nearest-rank median of byte counts, 0 when there are none.
pub fn median_bytes(values: &[u64]) -> (res: u64)
    ensures
        res == bytes_median(values@),
{
    let sorted = crate::measure::sort_samples(values);
    proof {
        crate::measure::lemma_sorted_lengths(values@);
    }
    match crate::measure::nearest_rank_percentile(sorted.as_slice(), 50) {
        Some(v) => v,
        None => 0,
    }
}

/// The bytes-before-hit figures of a set of labels: the medians of the
/// bytes read by the tool and by the baseline, with the baseline command
/// that was run.
pub fn bytes_before_hit_summary(mcp: &[u64], baseline: &[u64], baseline_command: String) -> (res:
    BytesBeforeHit)
    ensures
        res.mcp_median == bytes_median(mcp@),
        res.baseline_median == bytes_median(baseline@),
        res.baseline_command == baseline_command,
{
    BytesBeforeHit {
        mcp_median: median_bytes(mcp),
        baseline_median: median_bytes(baseline),
        baseline_command,
    }
}

/// Whether a result is one of the expected (file, symbol) pairs.
pub open spec fn result_expected(r: SearchResult, expected: Seq<(String, String)>) -> bool {
    exists|j: int| 0 <= j < expected.len() && (#[trigger] expected[j]).0@ == r.file@ && expected[j].1@
        == r.symbol@
}

/// Whether a result is one of the expected pairs.
fn is_expected(r: &SearchResult, expected: &Vec<(String, String)>) -> (res: bool)
    ensures
        res == result_expected(*r, expected@),
{
    let m = expected.len();
    for j in 0..m
        invariant
            m == expected@.len(),
            forall|k: int|
                0 <= k < j ==> !((#[trigger] expected@[k]).0@ == r.file@ && expected@[k].1@
                    == r.symbol@),
    {
        if str_eq(expected[j].0.as_str(), r.file.as_str()) && str_eq(
            expected[j].1.as_str(),
            r.symbol.as_str(),
        ) {
            return true;
        }
    }
    false
}

/// Whether any of the first `n` results is expected.
pub open spec fn hit_within(results: Seq<SearchResult>, expected: Seq<(String, String)>, n: int) -> bool {
    exists|i: int| 0 <= i < n && result_expected(#[trigger] results[i], expected)
}

/// Bytes of MCP-style results read up to and including the first expected
/// one (all of them when none is expected); the total saturates at
/// `u64::MAX`.
pub fn mcp_bytes_to_first_hit(results: &Vec<SearchResult>, expected: &Vec<(String, String)>) -> (res:
    u64)
    ensures
        !hit_within(results@, expected@, results@.len() as int) ==> res == json_bytes(results@),
        forall|i: int|
            0 <= i < results@.len() && result_expected(#[trigger] results@[i], expected@)
                && !hit_within(results@, expected@, i) ==> res == json_bytes(results@.take(i + 1)),
{
    let mut total: u64 = 0;
    let n = results.len();
    let mut i: usize = 0;
    while i < n
        invariant
            n == results@.len(),
            i <= n,
            total == json_bytes(results@.take(i as int)),
            !hit_within(results@, expected@, i as int),
        decreases n - i,
    {
        let r = &results[i];
        let len = result_json_len(r);
        assert(results@.take(i + 1).drop_last() == results@.take(i as int));
        total = total.saturating_add(len);
        let hit = is_expected(r, expected);
        if hit {
            assert(result_expected(results@[i as int], expected@));
            assert forall|k: int|
                0 <= k < results@.len() && result_expected(#[trigger] results@[k], expected@)
                    && !hit_within(results@, expected@, k) implies k == i by {
                if k < i {
                    assert(hit_within(results@, expected@, i as int));
                } else if k > i {
                    assert(result_expected(results@[i as int], expected@));
                    assert(hit_within(results@, expected@, k));
                }
            }
            return total;
        }
        assert(!result_expected(results@[i as int], expected@));
        assert forall|k: int| 0 <= k < i + 1 implies !result_expected(
            #[trigger] results@[k],
            expected@,
        ) by {
            if k < i {
                assert(!hit_within(results@, expected@, i as int));
            }
        }
        i = i + 1;
    }
    assert(results@.take(n as int) == results@);
    assert forall|k: int|
        0 <= k < results@.len() && result_expected(#[trigger] results@[k], expected@) implies false by {
        assert(hit_within(results@, expected@, n as int));
    }
    total
}

/// `s` with every backslash turned into a slash.
pub open spec fn slashed(s: Seq<char>) -> Seq<char> {
    s.map_values(|c: char| if c == '\\' { '/' } else { c })
}

/// Turns every backslash of a path into a slash.
pub fn normalize_separators(s: &str) -> (res: String)
    ensures
        res@ == slashed(s@),
{
    let chars = crate::text::chars_of(s);
    let n = chars.len();
    let mut out: Vec<char> = Vec::new();
    for i in 0..n
        invariant
            n == chars@.len(),
            chars@ == s@,
            out@ == slashed(chars@.take(i as int)),
    {
        let c = chars[i];
        out.push(if c == '\\' { '/' } else { c });
        assert(slashed(chars@.take(i + 1)) == slashed(chars@.take(i as int)).push(
            if c == '\\' { '/' } else { c },
        ));
    }
    assert(chars@.take(n as int) == chars@);
    crate::text::string_of(&out)
}

/// The running total of file sizes, saturating at `u64::MAX`.
pub open spec fn size_total(files: Seq<(String, u64)>) -> int
    decreases files.len(),
{
    if files.len() == 0 {
        0
    } else {
        sat_add(size_total(files.drop_last()), files.last().1 as int)
    }
}

/// Whether a listed file is the expected one, separators aside.
pub open spec fn is_file(entry: (String, u64), expected_file: Seq<char>) -> bool {
    slashed(entry.0@) == slashed(expected_file)
}

/// Whether any of the first `n` files is the expected one.
pub open spec fn file_within(files: Seq<(String, u64)>, expected_file: Seq<char>, n: int) -> bool {
    exists|i: int| 0 <= i < n && is_file(#[trigger] files[i], expected_file)
}

/// The bytes of the files a keyword search lists, read in order up to and
/// including the expected file (all of them when it is not listed); the
/// total saturates at `u64::MAX`.
pub fn bytes_until_file(files: &Vec<(String, u64)>, expected_file: &str) -> (res: u64)
    ensures
        !file_within(files@, expected_file@, files@.len() as int) ==> res == size_total(files@),
        forall|i: int|
            0 <= i < files@.len() && is_file(#[trigger] files@[i], expected_file@) && !file_within(
                files@,
                expected_file@,
                i,
            ) ==> res == size_total(files@.take(i + 1)),
{
    let target = normalize_separators(expected_file);
    let mut total: u64 = 0;
    let n = files.len();
    let mut i: usize = 0;
    while i < n
        invariant
            n == files@.len(),
            i <= n,
            target@ == slashed(expected_file@),
            total == size_total(files@.take(i as int)),
            !file_within(files@, expected_file@, i as int),
        decreases n - i,
    {
        assert(files@.take(i + 1).drop_last() == files@.take(i as int));
        total = total.saturating_add(files[i].1);
        let name = normalize_separators(files[i].0.as_str());
        if str_eq(name.as_str(), target.as_str()) {
            assert(is_file(files@[i as int], expected_file@));
            assert forall|k: int|
                0 <= k < files@.len() && is_file(#[trigger] files@[k], expected_file@)
                    && !file_within(files@, expected_file@, k) implies k == i by {
                if k < i {
                    assert(file_within(files@, expected_file@, i as int));
                } else if k > i {
                    assert(file_within(files@, expected_file@, k));
                }
            }
            return total;
        }
        assert forall|k: int| 0 <= k < i + 1 implies !is_file(#[trigger] files@[k], expected_file@) by {
            if k < i {
                assert(!file_within(files@, expected_file@, i as int));
            }
        }
        i = i + 1;
    }
    assert(files@.take(n as int) == files@);
    assert forall|k: int|
        0 <= k < files@.len() && is_file(#[trigger] files@[k], expected_file@) implies false by {
        assert(file_within(files@, expected_file@, n as int));
    }
    total
}

} // verus!
