//! Retrieval labels mined from git history: the rules that accept or reject
//! a commit, the report that accounts for every commit examined, and the
//! line arithmetic that finds which symbols a commit touched.

use vstd::prelude::*;

use crate::text::{
    concat, count_words, lemma_text_le_transitive, lemma_text_lt_irreflexive,
    lemma_text_lt_total, lemma_text_lt_transitive, push_str_chars, str_eq, text_le, text_less,
    text_lt, trimmed, word_count,
};

verus! {

/// Where a label came from.
#[derive(Debug, Clone, Copy, PartialEq, Eq, PartialOrd, Ord, Hash, Structural)]
pub enum LabelSource {
    CommitSubject,
    Docstring,
}

/// A query with the symbols a correct retrieval returns.
#[derive(Debug, PartialEq, Eq)]
pub struct Label {
    pub query: String,
    /// Expected answers as (file, qualified symbol).
    pub expected: Vec<(String, String)>,
    pub source: LabelSource,
    /// Commit hash, or `handwritten:<n>` for the hand-written set.
    pub provenance: String,
}

/// A copy of a list of (file, symbol) pairs.
pub fn copy_pairs(pairs: &Vec<(String, String)>) -> (res: Vec<(String, String)>)
    ensures
        res@ == pairs@,
{
    let mut out: Vec<(String, String)> = Vec::new();
    let n = pairs.len();
    for i in 0..n
        invariant
            n == pairs@.len(),
            out@ == pairs@.take(i as int),
    {
        out.push((pairs[i].0.clone(), pairs[i].1.clone()));
        assert(pairs@.take(i + 1) == pairs@.take(i as int).push(pairs@[i as int]));
    }
    assert(pairs@.take(n as int) == pairs@);
    out
}

/// Whether two labels hold the same query, expected symbols, source and
/// provenance.
pub open spec fn same_label(a: Label, b: Label) -> bool {
    &&& a.query == b.query
    &&& a.expected@ == b.expected@
    &&& a.source == b.source
    &&& a.provenance == b.provenance
}

/// Whether two label lists hold the same labels, position by position.
pub open spec fn same_labels(a: Seq<Label>, b: Seq<Label>) -> bool {
    a.len() == b.len() && forall|i: int| 0 <= i < a.len() ==> same_label(#[trigger] a[i], b[i])
}

impl Clone for Label {
    fn clone(&self) -> (res: Self)
        ensures
            same_label(res, *self),
    {
        Label {
            query: self.query.clone(),
            expected: copy_pairs(&self.expected),
            source: self.source,
            provenance: self.provenance.clone(),
        }
    }
}

/// Why an evaluation step failed.
#[derive(Debug, Clone, PartialEq, Eq)]
pub enum EvalError {
    Message(String),
    RevisionMismatch { expected: String, actual: String },
    Git(String),
    Index(String),
    Retrieval(String),
    Store(String),
    Io(String),
    Json(String),
}

impl EvalError {
    /// A plain message error.
    pub fn message(msg: String) -> (res: Self)
        ensures
            res == EvalError::Message(msg),
    {
        EvalError::Message(msg)
    }

    /// The text shown for the error.
    pub fn describe(&self) -> (res: String)
        ensures
            match *self {
                EvalError::Message(m) => res@ == m@,
                EvalError::RevisionMismatch { expected, actual } => res@
                    == "corpus revision mismatch: expected "@ + expected@ + ", got "@ + actual@,
                EvalError::Git(m) => res@ == "git: "@ + m@,
                EvalError::Index(m) => res@ == "index: "@ + m@,
                EvalError::Retrieval(m) => res@ == "retrieval: "@ + m@,
                EvalError::Store(m) => res@ == "store: "@ + m@,
                EvalError::Io(m) => res@ == "io: "@ + m@,
                EvalError::Json(m) => res@ == "json: "@ + m@,
            },
    {
        match self {
            EvalError::Message(m) => m.clone(),
            EvalError::RevisionMismatch { expected, actual } => {
                let mut s = concat("corpus revision mismatch: expected ", expected.as_str());
                push_str_chars(&mut s, ", got ");
                push_str_chars(&mut s, actual.as_str());
                s
            },
            EvalError::Git(m) => concat("git: ", m.as_str()),
            EvalError::Index(m) => concat("index: ", m.as_str()),
            EvalError::Retrieval(m) => concat("retrieval: ", m.as_str()),
            EvalError::Store(m) => concat("store: ", m.as_str()),
            EvalError::Io(m) => concat("io: ", m.as_str()),
            EvalError::Json(m) => concat("json: ", m.as_str()),
        }
    }
}

/// Harness version; bumped when mining or metric definitions change.
pub const HARNESS_VERSION: u32 = 1;

/// Default path of the third-party mined corpus.
pub const MINED_CORPUS_DEFAULT_PATH: &'static str = "~/llama.cpp";

/// The pinned revision of the mined corpus; mining refuses any other HEAD.
pub const MINED_CORPUS_PINNED_REVISION: &'static str = "c589f0ed10c643678c4707dd160c21ac7633ebc0";

/// First-party repository used for docstring and hand-written label sets.
pub const FIRST_PARTY_CORPUS_DEFAULT_PATH: &'static str = "~/projects/job-engine";

/// Accepts the checkout only at the pinned mined revision; any other HEAD is
/// a `RevisionMismatch` naming both.
pub fn require_mined_revision(actual: String) -> (res: Result<String, EvalError>)
    ensures
        actual@ == MINED_CORPUS_PINNED_REVISION@ ==> res == Ok::<String, EvalError>(actual),
        actual@ != MINED_CORPUS_PINNED_REVISION@ ==> (res matches Err(
            EvalError::RevisionMismatch { expected, actual: a },
        ) && expected@ == MINED_CORPUS_PINNED_REVISION@ && a == actual),
{
    if !str_eq(actual.as_str(), MINED_CORPUS_PINNED_REVISION) {
        return Err(
            EvalError::RevisionMismatch {
                expected: MINED_CORPUS_PINNED_REVISION.to_owned(),
                actual,
            },
        );
    }
    Ok(actual)
}

/// A path with a leading `~` replaced by the home directory, when one is
/// known: `~/rest` becomes `home/rest` and `~` becomes `home`.
pub open spec fn expanded(path: Seq<char>, home: Option<Seq<char>>) -> Seq<char> {
    match home {
        Some(h) => if path.len() >= 2 && path[0] == '~' && path[1] == '/' {
            crate::paths::joined(h, path.skip(2))
        } else if path == "~"@ {
            h
        } else {
            path
        },
        None => path,
    }
}

/// Expands `~` in a path string, given the home directory.
pub fn expand_home(path: &str, home: Option<&str>) -> (res: String)
    ensures
        res@ == expanded(
            path@,
            match home {
                Some(h) => Some(h@),
                None => None,
            },
        ),
{
    let chars = crate::text::chars_of(path);
    match home {
        Some(h) => {
            if chars.len() >= 2 && chars[0] == '~' && chars[1] == '/' {
                let mut rest: Vec<char> = Vec::new();
                let n = chars.len();
                for i in 2..n
                    invariant
                        n == chars@.len(),
                        2 <= n,
                        rest@ == chars@.subrange(2, i as int),
                {
                    rest.push(chars[i]);
                    assert(chars@.subrange(2, i + 1) == chars@.subrange(2, i as int).push(
                        chars@[i as int],
                    ));
                }
                assert(chars@.subrange(2, n as int) == chars@.skip(2));
                let tail = crate::text::string_of(&rest);
                crate::paths::join_path(h, tail.as_str())
            } else if str_eq(path, "~") {
                h.to_owned()
            } else {
                path.to_owned()
            }
        },
        None => path.to_owned(),
    }
}

/// Why a commit was rejected. Counted and reported per rule.
#[derive(Debug, Clone, PartialEq, Eq)]
pub enum RejectReason {
    Merge,
    TooManySymbols { count: usize },
    SubjectTooShort { words: usize },
    MaintenancePattern { pattern: &'static str },
    NoSymbolsTouched,
    SymbolsNotIndexed { missing: usize },
}

/// The name of the rule a rejection counts under.
pub open spec fn rule_of(reason: RejectReason) -> Seq<char> {
    match reason {
        RejectReason::Merge => "merge"@,
        RejectReason::TooManySymbols { .. } => "too_many_symbols"@,
        RejectReason::SubjectTooShort { .. } => "subject_too_short"@,
        RejectReason::MaintenancePattern { .. } => "maintenance_pattern"@,
        RejectReason::NoSymbolsTouched => "no_symbols_touched"@,
        RejectReason::SymbolsNotIndexed { .. } => "symbols_not_indexed"@,
    }
}

impl RejectReason {
    /// The name of the rule the rejection counts under.
    pub fn rule_name(&self) -> (res: &'static str)
        ensures
            res@ == rule_of(*self),
    {
        match self {
            RejectReason::Merge => "merge",
            RejectReason::TooManySymbols { .. } => "too_many_symbols",
            RejectReason::SubjectTooShort { .. } => "subject_too_short",
            RejectReason::MaintenancePattern { .. } => "maintenance_pattern",
            RejectReason::NoSymbolsTouched => "no_symbols_touched",
            RejectReason::SymbolsNotIndexed { .. } => "symbols_not_indexed",
        }
    }
}

/// The limits of commit mining.
#[derive(Debug, Clone)]
pub struct MiningConfig {
    pub max_symbols_per_commit: usize,
    pub min_subject_words: usize,
    pub maintenance_patterns: Vec<String>,
    pub max_commits: Option<usize>,
    /// When true, refuse unless HEAD equals the pinned mined corpus revision.
    pub enforce_pinned_revision: bool,
}

/// The maintenance words a commit subject is rejected for by default.
pub open spec fn default_maintenance_words() -> Seq<Seq<char>> {
    seq!["wip"@, "fixup"@, "typo"@, "bump"@, "lint"@]
}

impl Default for MiningConfig {
    /// At most 3 symbols per commit, at least 4 subject words, the usual
    /// maintenance words, no commit limit, and the pinned revision enforced.
    fn default() -> (res: Self)
        ensures
            res.max_symbols_per_commit == 3,
            res.min_subject_words == 4,
            res.maintenance_patterns@.len() == 5,
            forall|i: int|
                0 <= i < 5 ==> #[trigger] res.maintenance_patterns@[i]@
                    == default_maintenance_words()[i],
            res.max_commits is None,
            res.enforce_pinned_revision,
    {
        let mut patterns: Vec<String> = Vec::new();
        patterns.push("wip".to_owned());
        patterns.push("fixup".to_owned());
        patterns.push("typo".to_owned());
        patterns.push("bump".to_owned());
        patterns.push("lint".to_owned());
        MiningConfig {
            max_symbols_per_commit: 3,
            min_subject_words: 4,
            maintenance_patterns: patterns,
            max_commits: None,
            enforce_pinned_revision: true,
        }
    }
}

/// Whether counts are in strictly ascending order of their rules' names.
pub open spec fn names_ascending(entries: Seq<(String, u64)>) -> bool {
    forall|i: int, j: int|
        0 <= i < j < entries.len() ==> text_lt((#[trigger] entries[i]).0@, (#[trigger] entries[j]).0@)
}

/// Inserts a count whose rule is new at its place by name, and gives the
/// position it took.
fn insert_by_name(entries: &mut Vec<(String, u64)>, entry: (String, u64)) -> (res: usize)
    requires
        names_ascending(old(entries)@),
        forall|k: int| 0 <= k < old(entries)@.len() ==> (#[trigger] old(entries)@[k]).0@ != entry.0@,
    ensures
        res <= old(entries)@.len(),
        final(entries)@ == old(entries)@.insert(res as int, entry),
        names_ascending(final(entries)@),
{
    let mut j = entries.len();
    while j > 0 && text_less(entry.0.as_str(), entries[j - 1].0.as_str())
        invariant
            j <= entries@.len(),
            entries@ == old(entries)@,
            forall|k: int| j <= k < entries@.len() ==> text_lt(entry.0@, (#[trigger] entries@[k]).0@),
        decreases j,
    {
        j = j - 1;
    }
    let ghost before = entries@;
    proof {
        if j > 0 {
            assert(before[j - 1].0@ != entry.0@);
            lemma_text_lt_total(entry.0@, before[j - 1].0@);
        }
    }
    let ghost key = entry.0@;
    entries.insert(j, entry);
    proof {
        let after = entries@;
        assert(after[j as int].0@ == key);
        assert forall|a: int, b: int| 0 <= a < b < after.len() implies text_lt(
            (#[trigger] after[a]).0@,
            (#[trigger] after[b]).0@,
        ) by {
            if b < j {
                assert(after[a] == before[a] && after[b] == before[b]);
            } else if a > j {
                assert(after[a] == before[a - 1] && after[b] == before[b - 1]);
            } else if a == j {
                assert(after[b] == before[b - 1]);
            } else if b == j {
                assert(after[a] == before[a]);
                if a < j - 1 {
                    lemma_text_lt_transitive(before[a].0@, before[j - 1].0@, key);
                }
            } else {
                assert(after[a] == before[a] && after[b] == before[b - 1]);
                if a < j - 1 {
                    lemma_text_lt_transitive(before[a].0@, before[j - 1].0@, key);
                }
                lemma_text_lt_transitive(before[a].0@, key, before[b - 1].0@);
            }
        }
    }
    j
}

/// How many commits were examined, accepted, and rejected under each rule.
#[derive(Debug, PartialEq, Eq)]
pub struct MiningReport {
    commits_examined: u64,
    labels_accepted: u64,
    rejected: Vec<(String, u64)>,
}

/// The rule names of a list of counts.
pub open spec fn count_keys(entries: Seq<(String, u64)>) -> Seq<Seq<char>> {
    entries.map_values(|e: (String, u64)| e.0@)
}

/// The sum of a list of counts.
pub open spec fn count_total(entries: Seq<(String, u64)>) -> int
    decreases entries.len(),
{
    if entries.len() == 0 {
        0
    } else {
        count_total(entries.drop_last()) + entries.last().1
    }
}

/// The count of `rule` in a list of counts, 0 when absent.
pub open spec fn count_of(entries: Seq<(String, u64)>, rule: Seq<char>) -> int
    decreases entries.len(),
{
    if entries.len() == 0 {
        0
    } else {
        count_of(entries.drop_last(), rule) + if entries.last().0@ == rule {
            entries.last().1 as int
        } else {
            0
        }
    }
}

proof fn lemma_count_total_update(entries: Seq<(String, u64)>, i: int, v: u64)
    requires
        0 <= i < entries.len(),
    ensures
        count_total(entries.update(i, (entries[i].0, v))) == count_total(entries) - entries[i].1
            + v,
    decreases entries.len(),
{
    let u = entries.update(i, (entries[i].0, v));
    if i == entries.len() - 1 {
        assert(u.drop_last() == entries.drop_last());
    } else {
        lemma_count_total_update(entries.drop_last(), i, v);
        assert(u.drop_last() == entries.drop_last().update(i, (entries[i].0, v)));
    }
}

proof fn lemma_count_of_update(entries: Seq<(String, u64)>, i: int, v: u64, rule: Seq<char>)
    requires
        0 <= i < entries.len(),
    ensures
        count_of(entries.update(i, (entries[i].0, v)), rule) == count_of(entries, rule) + if entries[i].0@
            == rule {
            v - entries[i].1
        } else {
            0
        },
    decreases entries.len(),
{
    let u = entries.update(i, (entries[i].0, v));
    if i == entries.len() - 1 {
        assert(u.drop_last() == entries.drop_last());
    } else {
        lemma_count_of_update(entries.drop_last(), i, v, rule);
        assert(u.drop_last() == entries.drop_last().update(i, (entries[i].0, v)));
    }
}

/// The position of the counts of `rule`, if it has any.
fn find_rule(entries: &Vec<(String, u64)>, rule: &str) -> (res: Option<usize>)
    ensures
        match res {
            Some(i) => i < entries@.len() && entries@[i as int].0@ == rule@,
            None => forall|k: int| 0 <= k < entries@.len() ==> #[trigger] entries@[k].0@ != rule@,
        },
{
    let n = entries.len();
    let mut i: usize = 0;
    while i < n
        invariant
            n == entries@.len(),
            i <= n,
            forall|k: int| 0 <= k < i ==> #[trigger] entries@[k].0@ != rule@,
        decreases n - i,
    {
        if str_eq(entries[i].0.as_str(), rule) {
            return Some(i);
        }
        i = i + 1;
    }
    None
}

proof fn lemma_count_of_absent(entries: Seq<(String, u64)>, rule: Seq<char>)
    requires
        !count_keys(entries).contains(rule),
    ensures
        count_of(entries, rule) == 0,
    decreases entries.len(),
{
    if entries.len() > 0 {
        let k = count_keys(entries);
        assert(k[entries.len() - 1] == entries.last().0@);
        assert(count_keys(entries.drop_last()) == k.drop_last());
        if count_keys(entries.drop_last()).contains(rule) {
            let j = choose|j: int|
                0 <= j < count_keys(entries.drop_last()).len() && count_keys(entries.drop_last())[j]
                    == rule;
            assert(k[j] == rule);
        }
        lemma_count_of_absent(entries.drop_last(), rule);
    }
}

/// Counts in ascending order of their names name no rule twice.
proof fn lemma_ascending_distinct(entries: Seq<(String, u64)>)
    requires
        names_ascending(entries),
    ensures
        count_keys(entries).no_duplicates(),
{
    assert forall|a: int, b: int|
        0 <= a < count_keys(entries).len() && 0 <= b < count_keys(entries).len() && a != b
            implies count_keys(entries)[a] != count_keys(entries)[b] by {
        lemma_text_lt_irreflexive(entries[a].0@);
        if a < b {
            assert(text_lt(entries[a].0@, entries[b].0@));
        } else {
            assert(text_lt(entries[b].0@, entries[a].0@));
        }
    }
}

proof fn lemma_count_total_insert(entries: Seq<(String, u64)>, p: int, e: (String, u64))
    requires
        0 <= p <= entries.len(),
    ensures
        count_total(entries.insert(p, e)) == count_total(entries) + e.1,
    decreases entries.len(),
{
    let u = entries.insert(p, e);
    if p == entries.len() {
        assert(u.drop_last() == entries);
    } else {
        lemma_count_total_insert(entries.drop_last(), p, e);
        assert(u.drop_last() == entries.drop_last().insert(p, e));
        assert(u.last() == entries.last());
    }
}

proof fn lemma_count_of_insert(entries: Seq<(String, u64)>, p: int, e: (String, u64), rule: Seq<char>)
    requires
        0 <= p <= entries.len(),
    ensures
        count_of(entries.insert(p, e), rule) == count_of(entries, rule) + if e.0@ == rule {
            e.1 as int
        } else {
            0
        },
    decreases entries.len(),
{
    let u = entries.insert(p, e);
    if p == entries.len() {
        assert(u.drop_last() == entries);
    } else {
        lemma_count_of_insert(entries.drop_last(), p, e, rule);
        assert(u.drop_last() == entries.drop_last().insert(p, e));
        assert(u.last() == entries.last());
    }
}

impl MiningReport {
    #[verifier::type_invariant]
    spec fn rules_ascending(self) -> bool {
        names_ascending(self.rejected@)
    }

    /// The number of commits examined.
    pub closed spec fn examined(self) -> u64 {
        self.commits_examined
    }

    /// The number of labels accepted.
    pub closed spec fn accepted(self) -> u64 {
        self.labels_accepted
    }

    /// The number of commits examined.
    pub fn commits_examined(&self) -> (res: u64)
        ensures
            res == self.examined(),
    {
        self.commits_examined
    }

    /// The number of labels accepted.
    pub fn labels_accepted(&self) -> (res: u64)
        ensures
            res == self.accepted(),
    {
        self.labels_accepted
    }

    /// The rejections counted under each rule, in ascending order of the
    /// rules' names.
    pub closed spec fn rejections(self) -> Seq<(String, u64)> {
        self.rejected@
    }

    /// The number of rejections counted under `rule`.
    pub open spec fn rejected_under(self, rule: Seq<char>) -> int {
        count_of(self.rejections(), rule)
    }

    /// The number of rejections under all rules.
    pub open spec fn rejected_total(self) -> int {
        count_total(self.rejections())
    }

    /// Whether every examined commit was either accepted or rejected.
    pub open spec fn balanced(self) -> bool {
        self.accepted() + self.rejected_total() == self.examined()
    }

    /// A report of nothing examined yet.
    pub fn new() -> (res: Self)
        ensures
            res.examined() == 0,
            res.accepted() == 0,
            res.rejections().len() == 0,
            res.rejected_total() == 0,
            res.balanced(),
    {
        MiningReport { commits_examined: 0, labels_accepted: 0, rejected: Vec::new() }
    }

    /// Counts one more examined commit.
    pub fn examine(&mut self)
        requires
            old(self).examined() < u64::MAX,
        ensures
            final(self).examined() == old(self).examined() + 1,
            final(self).accepted() == old(self).accepted(),
            final(self).rejections() == old(self).rejections(),
    {
        proof {
            use_type_invariant(&*self);
        }
        self.commits_examined = self.commits_examined + 1;
    }

    /// Counts one more accepted label.
    pub fn accept(&mut self)
        requires
            old(self).accepted() < u64::MAX,
        ensures
            final(self).accepted() == old(self).accepted() + 1,
            final(self).examined() == old(self).examined(),
            final(self).rejections() == old(self).rejections(),
    {
        proof {
            use_type_invariant(&*self);
        }
        self.labels_accepted = self.labels_accepted + 1;
    }

    /// Counts one rejection under the reason's rule.
    pub fn reject(&mut self, reason: &RejectReason)
        requires
            old(self).rejected_under(rule_of(*reason)) < u64::MAX,
        ensures
            final(self).examined() == old(self).examined(),
            final(self).accepted() == old(self).accepted(),
            final(self).rejected_total() == old(self).rejected_total() + 1,
            final(self).rejected_under(rule_of(*reason)) == old(self).rejected_under(
                rule_of(*reason),
            ) + 1,
            forall|rule: Seq<char>|
                rule != rule_of(*reason) ==> #[trigger] final(self).rejected_under(rule) == old(
                    self,
                ).rejected_under(rule),
    {
        proof {
            use_type_invariant(&*self);
            lemma_ascending_distinct(self.rejected@);
        }
        let name = reason.rule_name();
        let ghost rule = rule_of(*reason);
        let mut entries: Vec<(String, u64)> = Vec::new();
        std::mem::swap(&mut entries, &mut self.rejected);
        let ghost before = entries@;
        match find_rule(&entries, name) {
            Some(i) => {
                proof {
                    lemma_count_of_unique(before, rule, i as int);
                }
                let count = entries[i].1;
                let key = entries[i].0.clone();
                entries.set(i, (key, count + 1));
                proof {
                    lemma_count_total_update(before, i as int, (count + 1) as u64);
                    assert forall|r: Seq<char>| true implies #[trigger] count_of(entries@, r)
                        == count_of(before, r) + if before[i as int].0@ == r {
                        1int
                    } else {
                        0
                    } by {
                        lemma_count_of_update(before, i as int, (count + 1) as u64, r);
                    }
                    assert forall|a: int, b: int| 0 <= a < b < entries@.len() implies text_lt(
                        (#[trigger] entries@[a]).0@,
                        (#[trigger] entries@[b]).0@,
                    ) by {
                        assert(entries@[a].0@ == before[a].0@);
                        assert(entries@[b].0@ == before[b].0@);
                    }
                }
            },
            None => {
                proof {
                    assert forall|k: int| 0 <= k < count_keys(before).len() implies count_keys(
                        before,
                    )[k] != rule by {
                        assert(before[k].0@ != rule);
                    }
                    lemma_count_of_absent(before, rule);
                }
                let entry = (name.to_owned(), 1u64);
                let p = insert_by_name(&mut entries, entry);
                proof {
                    lemma_count_total_insert(before, p as int, entry);
                    assert forall|r: Seq<char>| true implies #[trigger] count_of(entries@, r)
                        == count_of(before, r) + if rule == r {
                        1int
                    } else {
                        0
                    } by {
                        lemma_count_of_insert(before, p as int, entry, r);
                    }
                }
            },
        }
        self.rejected = entries;
    }

    /// The count of rejections under `rule`.
    pub fn rejected_count(&self, rule: &str) -> (res: u64)
        ensures
            res == self.rejected_under(rule@),
    {
        proof {
            use_type_invariant(self);
            lemma_ascending_distinct(self.rejected@);
        }
        match find_rule(&self.rejected, rule) {
            Some(i) => {
                proof {
                    lemma_count_of_unique(self.rejected@, rule@, i as int);
                }
                self.rejected[i].1
            },
            None => {
                proof {
                    assert forall|k: int| 0 <= k < count_keys(self.rejected@).len() implies count_keys(
                        self.rejected@,
                    )[k] != rule@ by {
                        assert(self.rejected@[k].0@ != rule@);
                    }
                    lemma_count_of_absent(self.rejected@, rule@);
                }
                0
            },
        }
    }

    /// A copy of the counts, in the order they are held.
    fn copy_rejections(&self) -> (res: Vec<(String, u64)>)
        ensures
            res@.len() == self.rejections().len(),
            forall|i: int|
                0 <= i < res@.len() ==> (#[trigger] res@[i]).0@ == self.rejections()[i].0@
                    && res@[i].1 == self.rejections()[i].1,
    {
        let mut out: Vec<(String, u64)> = Vec::new();
        let n = self.rejected.len();
        for i in 0..n
            invariant
                n == self.rejected@.len(),
                out@.len() == i,
                forall|k: int|
                    0 <= k < i ==> (#[trigger] out@[k]).0@ == self.rejected@[k].0@ && out@[k].1
                        == self.rejected@[k].1,
        {
            out.push((self.rejected[i].0.clone(), self.rejected[i].1));
        }
        out
    }

    /// The rules with rejections and their counts, in order of the rules'
    /// names.
    pub fn rejected_rules(&self) -> (res: Vec<(String, u64)>)
        ensures
            names_ascending(res@),
            res@.len() == self.rejections().len(),
            forall|i: int|
                0 <= i < res@.len() ==> count_keys(self.rejections()).contains(
                    (#[trigger] res@[i]).0@,
                ) && res@[i].1 == self.rejected_under(res@[i].0@),
            forall|rule: Seq<char>|
                #[trigger] count_keys(self.rejections()).contains(rule) ==> exists|i: int|
                    0 <= i < res@.len() && (#[trigger] res@[i]).0@ == rule,
    {
        proof {
            use_type_invariant(self);
            lemma_ascending_distinct(self.rejected@);
        }
        let out = self.copy_rejections();
        let ghost entries = self.rejected@;
        proof {
            assert forall|a: int, b: int| 0 <= a < b < out@.len() implies text_lt(
                (#[trigger] out@[a]).0@,
                (#[trigger] out@[b]).0@,
            ) by {
                assert(text_lt(entries[a].0@, entries[b].0@));
            }
            assert forall|k: int| 0 <= k < out@.len() implies count_keys(entries).contains(
                (#[trigger] out@[k]).0@,
            ) && out@[k].1 == self.rejected_under(out@[k].0@) by {
                assert(count_keys(entries)[k] == entries[k].0@);
                lemma_count_of_unique(entries, out@[k].0@, k);
            }
            assert forall|rule: Seq<char>|
                #[trigger] count_keys(entries).contains(rule) implies exists|k: int|
                0 <= k < out@.len() && (#[trigger] out@[k]).0@ == rule by {
                let j = choose|j: int| 0 <= j < count_keys(entries).len() && count_keys(entries)[j] == rule;
                assert(out@[j].0@ == entries[j].0@);
            }
        }
        out
    }

    /// Whether the accepted labels and the rejections add up to the commits
    /// examined.
    pub fn reconciles(&self) -> (res: bool)
        ensures
            res == self.balanced(),
    {
        let n = self.rejected.len();
        let mut sum: u128 = 0;
        for i in 0..n
            invariant
                n == self.rejected@.len(),
                sum == count_total(self.rejected@.take(i as int)),
                sum <= i * (u64::MAX as int),
        {
            assert(self.rejected@.take(i + 1).drop_last() == self.rejected@.take(i as int));
            assert(sum + self.rejected[i as int].1 <= (i + 1) * (u64::MAX as int)) by (nonlinear_arith)
                requires
                    sum <= i * (u64::MAX as int),
                    self.rejected[i as int].1 <= u64::MAX,
            ;
            assert((i + 1) * (u64::MAX as int) <= u128::MAX) by (nonlinear_arith)
                requires
                    i < n,
                    n <= usize::MAX,
            ;
            sum = sum + self.rejected[i].1 as u128;
        }
        assert(self.rejected@.take(n as int) == self.rejected@);
        self.labels_accepted as u128 + sum == self.commits_examined as u128
    }
}

impl Clone for MiningReport {
    fn clone(&self) -> (res: Self)
        ensures
            res.examined() == self.examined(),
            res.accepted() == self.accepted(),
            count_keys(res.rejections()) == count_keys(self.rejections()),
            forall|i: int|
                0 <= i < res.rejections().len() ==> (#[trigger] res.rejections()[i]).1
                    == self.rejections()[i].1,
    {
        proof {
            use_type_invariant(self);
        }
        let rejected = self.copy_rejections();
        assert(count_keys(rejected@) == count_keys(self.rejected@));
        assert forall|a: int, b: int| 0 <= a < b < rejected@.len() implies text_lt(
            (#[trigger] rejected@[a]).0@,
            (#[trigger] rejected@[b]).0@,
        ) by {
            assert(text_lt(self.rejected@[a].0@, self.rejected@[b].0@));
        }
        MiningReport {
            commits_examined: self.commits_examined,
            labels_accepted: self.labels_accepted,
            rejected,
        }
    }
}

proof fn lemma_count_of_unique(entries: Seq<(String, u64)>, rule: Seq<char>, i: int)
    requires
        0 <= i < entries.len(),
        entries[i].0@ == rule,
        count_keys(entries).no_duplicates(),
    ensures
        count_of(entries, rule) == entries[i].1,
    decreases entries.len(),
{
    let k = count_keys(entries);
    if i == entries.len() - 1 {
        assert(count_keys(entries.drop_last()) == k.drop_last());
        assert forall|j: int| 0 <= j < k.drop_last().len() implies k.drop_last()[j] != rule by {
            assert(k[j] != k[i]);
        }
        lemma_count_of_absent(entries.drop_last(), rule);
    } else {
        assert(count_keys(entries.drop_last()) == k.drop_last());
        assert(k[entries.len() - 1] != k[i]);
        lemma_count_of_unique(entries.drop_last(), rule, i);
    }
}

/// Each examined commit is accepted or rejected exactly once, so a report
/// that balanced before a commit balances after it.
pub proof fn lemma_each_commit_keeps_balance(before: MiningReport, after: MiningReport, accepted: bool)
    requires
        before.balanced(),
        after.examined() == before.examined() + 1,
        accepted ==> after.accepted() == before.accepted() + 1 && after.rejected_total()
            == before.rejected_total(),
        !accepted ==> after.accepted() == before.accepted() && after.rejected_total()
            == before.rejected_total() + 1,
    ensures
        after.balanced(),
{
}

#[verifier::external_type_specification]
#[verifier::external_body]
pub struct ExRegex(regex::Regex);

/// Whether the regular expression `pattern` matches somewhere in `text`.
pub uninterp spec fn regex_matches(pattern: Seq<char>, text: Seq<char>) -> bool;

/// Whether `regex::Regex::new` accepts `pattern`: it parses and compiles
/// within the default size limits.
pub uninterp spec fn regex_compiles(pattern: Seq<char>) -> bool;

/// Whether `c` has a meaning of its own in a regular expression: the
/// characters `regex::escape` puts a backslash before.
pub open spec fn is_regex_meta(c: char) -> bool {
    c == '\\' || c == '.' || c == '+' || c == '*' || c == '?' || c == '(' || c == ')' || c == '|'
        || c == '[' || c == ']' || c == '{' || c == '}' || c == '^' || c == '$' || c == '#' || c
        == '&' || c == '-' || c == '~'
}

/// `text` with a backslash before each meta character: a pattern that
/// matches `text` literally.
pub open spec fn regex_escaped(text: Seq<char>) -> Seq<char>
    decreases text.len(),
{
    if text.len() == 0 {
        Seq::empty()
    } else {
        regex_escaped(text.drop_last()) + if is_regex_meta(text.last()) {
            seq!['\\', text.last()]
        } else {
            seq![text.last()]
        }
    }
}

fn is_meta_char(c: char) -> (res: bool)
    ensures
        res == is_regex_meta(c),
{
    c == '\\' || c == '.' || c == '+' || c == '*' || c == '?' || c == '(' || c == ')' || c == '|'
        || c == '[' || c == ']' || c == '{' || c == '}' || c == '^' || c == '$' || c == '#' || c
        == '&' || c == '-' || c == '~'
}

/// Escapes the meta characters of `text`, as `regex::escape` does.
pub fn escape_meta(text: &str) -> (res: String)
    ensures
        res@ == regex_escaped(text@),
{
    let chars = crate::text::chars_of(text);
    let n = chars.len();
    let mut out: Vec<char> = Vec::new();
    for i in 0..n
        invariant
            n == chars@.len(),
            chars@ == text@,
            out@ == regex_escaped(chars@.take(i as int)),
    {
        let ghost prefix = chars@.take(i + 1);
        assert(prefix.drop_last() == chars@.take(i as int));
        assert(prefix.last() == chars@[i as int]);
        if is_meta_char(chars[i]) {
            out.push('\\');
            out.push(chars[i]);
            assert(out@ == regex_escaped(chars@.take(i as int)) + seq!['\\', chars@[i as int]]);
        } else {
            out.push(chars[i]);
            assert(out@ == regex_escaped(chars@.take(i as int)) + seq![chars@[i as int]]);
        }
    }
    assert(chars@.take(n as int) == chars@);
    crate::text::string_of(&out)
}

/// A compiled regular expression together with its source.
pub struct CompiledPattern {
    source: String,
    re: regex::Regex,
}

impl CompiledPattern {
    /// The pattern it was compiled from.
    pub closed spec fn source_view(self) -> Seq<char> {
        self.source@
    }
}

/// Compiles `pattern`.
///
/// Calls `regex::Regex::new`, which refuses an invalid pattern or one that
/// compiles too large. The contract names when it succeeds, by the pattern
/// alone, and states that a compiled pattern keeps the source it came from.
/// The error's text is not stated.
#[verifier::external_body]
fn compile_regex(pattern: String) -> (res: Result<CompiledPattern, String>)
    ensures
        res is Ok <==> regex_compiles(pattern@),
        res matches Ok(c) ==> c.source_view() == pattern@,
{
    match regex::Regex::new(&pattern) {
        Ok(re) => Ok(CompiledPattern { source: pattern, re }),
        Err(e) => Err(e.to_string()),
    }
}

/// Whether the compiled pattern matches somewhere in `text`.
///
/// Calls `regex::Regex::is_match`; the contract names its result by the
/// pattern's source and the text.
#[verifier::external_body]
fn regex_is_match(pattern: &CompiledPattern, text: &str) -> (res: bool)
    ensures
        res == regex_matches(pattern.source_view(), text@),
{
    pattern.re.is_match(text)
}

/// The pattern that finds `word` as a whole word, in any case.
pub open spec fn word_pattern(word: Seq<char>) -> Seq<char> {
    "(?i)\\b"@ + regex_escaped(word) + "\\b"@
}

/// A maintenance word is matched only as a whole word, in any case: its
/// pattern is the case-insensitive flag, a word boundary, the word with
/// its meta characters escaped, and a closing word boundary, so a word that
/// only begins a longer one does not match.
pub proof fn lemma_word_pattern_bounds_the_word(word: Seq<char>)
    ensures
        word_pattern(word).len() == regex_escaped(word).len() + 8,
        word_pattern(word).take(4) == seq!['(', '?', 'i', ')'],
        word_pattern(word).subrange(4, 6) == seq!['\\', 'b'],
        word_pattern(word).subrange(6, word_pattern(word).len() - 2) == regex_escaped(word),
        word_pattern(word).skip(word_pattern(word).len() - 2) == seq!['\\', 'b'],
        !regex_escaped(word).contains('\\') ==> regex_escaped(word) == word,
{
    reveal_strlit("(?i)\\b");
    reveal_strlit("\\b");
    let p = word_pattern(word);
    let e = regex_escaped(word);
    assert(p.take(4) =~= seq!['(', '?', 'i', ')']);
    assert(p.subrange(4, 6) =~= seq!['\\', 'b']);
    assert(p.subrange(6, p.len() - 2) =~= e);
    assert(p.skip(p.len() - 2) =~= seq!['\\', 'b']);
    lemma_escaping_adds_only_backslashes(word);
}

/// A character is escaped exactly when it is one of the characters with a
/// meaning of their own in a pattern, `\.+*?()|[]{}^$#&-~`; escaping text
/// escapes each of its characters in turn.
pub proof fn lemma_meta_characters_are_escaped(c: char, a: Seq<char>, b: Seq<char>)
    ensures
        "\\.+*?()|[]{}^$#&-~"@.contains(c) ==> regex_escaped(seq![c]) == seq!['\\', c],
        !"\\.+*?()|[]{}^$#&-~"@.contains(c) ==> regex_escaped(seq![c]) == seq![c],
        regex_escaped(a + b) == regex_escaped(a) + regex_escaped(b),
    decreases b.len(),
{
    reveal_strlit("\\.+*?()|[]{}^$#&-~");
    let metas = "\\.+*?()|[]{}^$#&-~"@;
    assert(seq![c].drop_last() =~= Seq::<char>::empty());
    assert(regex_escaped(Seq::<char>::empty()) =~= Seq::<char>::empty());
    assert(seq![c].last() == c);
    if metas.contains(c) {
        let k = choose|k: int| 0 <= k < metas.len() && metas[k] == c;
        assert(is_regex_meta(c));
        assert(regex_escaped(seq![c]) =~= seq!['\\', c]);
    } else {
        assert(!is_regex_meta(c)) by {
            if is_regex_meta(c) {
                if c == '\\' { assert(metas[0] == c); }
                else if c == '.' { assert(metas[1] == c); }
                else if c == '+' { assert(metas[2] == c); }
                else if c == '*' { assert(metas[3] == c); }
                else if c == '?' { assert(metas[4] == c); }
                else if c == '(' { assert(metas[5] == c); }
                else if c == ')' { assert(metas[6] == c); }
                else if c == '|' { assert(metas[7] == c); }
                else if c == '[' { assert(metas[8] == c); }
                else if c == ']' { assert(metas[9] == c); }
                else if c == '{' { assert(metas[10] == c); }
                else if c == '}' { assert(metas[11] == c); }
                else if c == '^' { assert(metas[12] == c); }
                else if c == '$' { assert(metas[13] == c); }
                else if c == '#' { assert(metas[14] == c); }
                else if c == '&' { assert(metas[15] == c); }
                else if c == '-' { assert(metas[16] == c); }
                else { assert(metas[17] == c); }
            }
        }
        assert(regex_escaped(seq![c]) =~= seq![c]);
    }
    if b.len() == 0 {
        assert(a + b =~= a);
        assert(regex_escaped(a) + regex_escaped(b) =~= regex_escaped(a));
    } else {
        lemma_meta_characters_are_escaped(c, a, b.drop_last());
        assert((a + b).drop_last() =~= a + b.drop_last());
        assert((a + b).last() == b.last());
    }
}

/// Escaping puts a backslash before each meta character and changes
/// nothing else: where no backslash was added, the text is unchanged.
proof fn lemma_escaping_adds_only_backslashes(word: Seq<char>)
    ensures
        regex_escaped(word).len() >= word.len(),
        !regex_escaped(word).contains('\\') ==> regex_escaped(word) == word,
    decreases word.len(),
{
    if word.len() > 0 {
        let rest = word.drop_last();
        lemma_escaping_adds_only_backslashes(rest);
        let c = word.last();
        let e = regex_escaped(word);
        let er = regex_escaped(rest);
        if !e.contains('\\') {
            if is_regex_meta(c) {
                assert(e[er.len() as int] == '\\');
            } else {
                assert forall|k: int| 0 <= k < er.len() implies er[k] != '\\' by {
                    assert(e[k] == er[k]);
                }
                assert(er == rest);
                assert(e =~= rest.push(c));
                assert(word =~= rest.push(c));
            }
        }
    }
}

/// Compiles the maintenance words into whole-word, case-insensitive
/// patterns, in order. It succeeds exactly when every word's pattern
/// compiles; a pattern that does not compile is a `Message` error.
pub fn compile_maintenance(words: &Vec<String>) -> (res: Result<
    Vec<(String, CompiledPattern)>,
    EvalError,
>)
    ensures
        res is Ok <==> forall|i: int|
            0 <= i < words@.len() ==> regex_compiles(#[trigger] word_pattern(words@[i]@)),
        res matches Ok(out) ==> out@.len() == words@.len() && forall|i: int|
            0 <= i < words@.len() ==> (#[trigger] out@[i]).0 == words@[i]
                && out@[i].1.source_view() == word_pattern(words@[i]@),
        res matches Err(e) ==> e is Message,
{
    let mut out: Vec<(String, CompiledPattern)> = Vec::new();
    let n = words.len();
    for i in 0..n
        invariant
            n == words@.len(),
            out@.len() == i,
            forall|k: int|
                0 <= k < i ==> (#[trigger] out@[k]).0 == words@[k] && out@[k].1.source_view()
                    == word_pattern(words@[k]@),
            forall|k: int| 0 <= k < i ==> regex_compiles(#[trigger] word_pattern(words@[k]@)),
    {
        let escaped = escape_meta(words[i].as_str());
        let mut source = concat("(?i)\\b", escaped.as_str());
        push_str_chars(&mut source, "\\b");
        match compile_regex(source) {
            Ok(compiled) => {
                out.push((words[i].clone(), compiled));
            },
            Err(e) => {
                assert(!regex_compiles(word_pattern(words@[i as int]@)));
                return Err(EvalError::Message(e));
            },
        }
    }
    Ok(out)
}

/// `c` with ASCII capitals lowered.
pub open spec fn ascii_lower(c: char) -> char {
    if 'A' <= c && c <= 'Z' {
        ((c as u32) + 32) as char
    } else {
        c
    }
}

/// Whether two strings are equal ignoring ASCII case, as
/// `str::eq_ignore_ascii_case` tests.
pub open spec fn eq_ignore_ascii_case(a: Seq<char>, b: Seq<char>) -> bool {
    a.len() == b.len() && forall|i: int| 0 <= i < a.len() ==> ascii_lower(#[trigger] a[i]) == ascii_lower(b[i])
}

fn lower_char(c: char) -> (res: char)
    ensures
        res == ascii_lower(c),
{
    if 'A' <= c && c <= 'Z' {
        let b = c as u8;
        assert(b == c as u32);
        (b + 32) as char
    } else {
        c
    }
}

/// Compares ignoring ASCII case.
pub fn same_ignoring_ascii_case(a: &str, b: &str) -> (res: bool)
    ensures
        res == eq_ignore_ascii_case(a@, b@),
{
    let x = crate::text::chars_of(a);
    let y = crate::text::chars_of(b);
    if x.len() != y.len() {
        return false;
    }
    let n = x.len();
    for i in 0..n
        invariant
            n == x@.len(),
            n == y@.len(),
            x@ == a@,
            y@ == b@,
            forall|k: int| 0 <= k < i ==> ascii_lower(#[trigger] x@[k]) == ascii_lower(y@[k]),
    {
        if lower_char(x[i]) != lower_char(y[i]) {
            return false;
        }
    }
    true
}

/// The maintenance words known by name; others are reported as `custom`.
pub open spec fn known_words() -> Seq<Seq<char>> {
    seq!["wip"@, "fixup"@, "typo"@, "bump"@, "lint"@]
}

/// The name a matched maintenance word is reported under: the known word it
/// equals ignoring ASCII case, else `custom`.
pub open spec fn reported_word(name: Seq<char>) -> Seq<char> {
    if eq_ignore_ascii_case(name, "wip"@) {
        "wip"@
    } else if eq_ignore_ascii_case(name, "fixup"@) {
        "fixup"@
    } else if eq_ignore_ascii_case(name, "typo"@) {
        "typo"@
    } else if eq_ignore_ascii_case(name, "bump"@) {
        "bump"@
    } else if eq_ignore_ascii_case(name, "lint"@) {
        "lint"@
    } else {
        "custom"@
    }
}

fn report_word(name: &str) -> (res: &'static str)
    ensures
        res@ == reported_word(name@),
{
    if same_ignoring_ascii_case(name, "wip") {
        "wip"
    } else if same_ignoring_ascii_case(name, "fixup") {
        "fixup"
    } else if same_ignoring_ascii_case(name, "typo") {
        "typo"
    } else if same_ignoring_ascii_case(name, "bump") {
        "bump"
    } else if same_ignoring_ascii_case(name, "lint") {
        "lint"
    } else {
        "custom"
    }
}

/// The maintenance word a subject is rejected for: the first pattern that
/// matches decides, reported by name.
pub fn match_maintenance(subject: &str, patterns: &Vec<(String, CompiledPattern)>) -> (res: Option<
    &'static str,
>)
    ensures
        match res {
            None => forall|i: int|
                0 <= i < patterns@.len() ==> !regex_matches(
                    (#[trigger] patterns@[i]).1.source_view(),
                    subject@,
                ),
            Some(word) => exists|i: int|
                0 <= i < patterns@.len() && regex_matches(
                    (#[trigger] patterns@[i]).1.source_view(),
                    subject@,
                ) && (forall|k: int|
                    0 <= k < i ==> !regex_matches(patterns@[k].1.source_view(), subject@)) && word@
                    == reported_word(patterns@[i].0@),
        },
{
    let n = patterns.len();
    for i in 0..n
        invariant
            n == patterns@.len(),
            forall|k: int|
                0 <= k < i ==> !regex_matches((#[trigger] patterns@[k]).1.source_view(), subject@),
    {
        if regex_is_match(&patterns[i].1, subject) {
            let word = report_word(patterns[i].0.as_str());
            assert(regex_matches(patterns@[i as int].1.source_view(), subject@));
            return Some(word);
        }
    }
    None
}

/// The first screening of a commit, before the symbols it touched are
/// known: a merge, a maintenance subject, or a subject with fewer words than
/// required is rejected, in that order.
pub fn screen_commit(
    config: &MiningConfig,
    parent_count: usize,
    subject: &str,
    patterns: &Vec<(String, CompiledPattern)>,
) -> (res: Result<(), RejectReason>)
    ensures
        parent_count > 1 ==> res == Err::<(), RejectReason>(RejectReason::Merge),
        parent_count <= 1 && (exists|i: int|
            0 <= i < patterns@.len() && regex_matches(
                (#[trigger] patterns@[i]).1.source_view(),
                subject@,
            )) ==> res matches Err(RejectReason::MaintenancePattern { .. }),
        parent_count <= 1 && (forall|i: int|
            0 <= i < patterns@.len() ==> !regex_matches(
                (#[trigger] patterns@[i]).1.source_view(),
                subject@,
            )) ==> if word_count(subject@) < config.min_subject_words {
            res == Err::<(), RejectReason>(
                RejectReason::SubjectTooShort { words: word_count(subject@) as usize },
            )
        } else {
            res is Ok
        },
{
    if parent_count > 1 {
        return Err(RejectReason::Merge);
    }
    if let Some(pattern) = match_maintenance(subject, patterns) {
        return Err(RejectReason::MaintenancePattern { pattern });
    }
    let words = count_words(subject);
    if words < config.min_subject_words {
        return Err(RejectReason::SubjectTooShort { words });
    }
    Ok(())
}

/// Whether two (file, symbol) pairs name the same symbol.
pub open spec fn same_pair(a: (String, String), b: (String, String)) -> bool {
    a.0@ == b.0@ && a.1@ == b.1@
}

/// Whether `pair` is among `set`.
pub open spec fn pair_in(set: Seq<(String, String)>, pair: (String, String)) -> bool {
    exists|j: int| 0 <= j < set.len() && same_pair(#[trigger] set[j], pair)
}

/// How many of `pairs` are not among `set`.
pub open spec fn count_absent(pairs: Seq<(String, String)>, set: Seq<(String, String)>) -> nat
    decreases pairs.len(),
{
    if pairs.len() == 0 {
        0
    } else {
        count_absent(pairs.drop_last(), set) + if pair_in(set, pairs.last()) {
            0nat
        } else {
            1nat
        }
    }
}

/// Whether `pair` is among `set`.
pub fn contains_pair(set: &Vec<(String, String)>, pair: &(String, String)) -> (res: bool)
    ensures
        res == pair_in(set@, *pair),
{
    let n = set.len();
    for j in 0..n
        invariant
            n == set@.len(),
            forall|k: int| 0 <= k < j ==> !same_pair(#[trigger] set@[k], *pair),
    {
        if str_eq(set[j].0.as_str(), pair.0.as_str()) && str_eq(set[j].1.as_str(), pair.1.as_str()) {
            assert(same_pair(set@[j as int], *pair));
            return true;
        }
    }
    false
}

/// The second screening of a commit, once the symbols it touched are known:
/// none, more than allowed, or any not indexed rejects it, in that order.
pub fn judge_touched(
    config: &MiningConfig,
    touched: &Vec<(String, String)>,
    indexed: &Vec<(String, String)>,
) -> (res: Result<(), RejectReason>)
    ensures
        touched@.len() == 0 ==> res == Err::<(), RejectReason>(RejectReason::NoSymbolsTouched),
        0 < touched@.len() && touched@.len() > config.max_symbols_per_commit ==> res == Err::<
            (),
            RejectReason,
        >(RejectReason::TooManySymbols { count: touched@.len() as usize }),
        0 < touched@.len() <= config.max_symbols_per_commit ==> if count_absent(
            touched@,
            indexed@,
        ) > 0 {
            res == Err::<(), RejectReason>(
                RejectReason::SymbolsNotIndexed {
                    missing: count_absent(touched@, indexed@) as usize,
                },
            )
        } else {
            res is Ok
        },
{
    if touched.len() == 0 {
        return Err(RejectReason::NoSymbolsTouched);
    }
    if touched.len() > config.max_symbols_per_commit {
        return Err(RejectReason::TooManySymbols { count: touched.len() });
    }
    let mut missing: usize = 0;
    let n = touched.len();
    for i in 0..n
        invariant
            n == touched@.len(),
            missing == count_absent(touched@.take(i as int), indexed@),
            missing <= i,
    {
        assert(touched@.take(i + 1).drop_last() == touched@.take(i as int));
        if !contains_pair(indexed, &touched[i]) {
            missing = missing + 1;
        }
    }
    assert(touched@.take(n as int) == touched@);
    if missing > 0 {
        return Err(RejectReason::SymbolsNotIndexed { missing });
    }
    Ok(())
}

/// The number of `'\n'` characters in `s`.
pub open spec fn newline_count(s: Seq<char>) -> nat
    decreases s.len(),
{
    if s.len() == 0 {
        0
    } else {
        newline_count(s.drop_last()) + if s.last() == '\n' {
            1nat
        } else {
            0nat
        }
    }
}

proof fn lemma_newline_count_bound(s: Seq<char>)
    ensures
        newline_count(s) <= s.len(),
    decreases s.len(),
{
    if s.len() > 0 {
        lemma_newline_count_bound(s.drop_last());
    }
}

/// The number of lines `str::lines` yields: every line break ends a line,
/// and text after the last break is a line too.
pub open spec fn lines_in(s: Seq<char>) -> nat {
    if s.len() == 0 {
        0
    } else {
        newline_count(s) + if s.last() == '\n' {
            0nat
        } else {
            1nat
        }
    }
}

/// The number of lines of a text, truncated to `u32`: 0 for empty text.
pub fn line_count(text: &str) -> (res: u32)
    ensures
        res == lines_in(text@) as u32,
{
    let chars = crate::text::chars_of(text);
    let n = chars.len();
    if n == 0 {
        return 0;
    }
    let mut newlines: usize = 0;
    for i in 0..n
        invariant
            n == chars@.len(),
            newlines == newline_count(chars@.take(i as int)),
            newlines <= i,
    {
        assert(chars@.take(i + 1).drop_last() == chars@.take(i as int));
        if chars[i] == '\n' {
            newlines = newlines + 1;
        }
    }
    assert(chars@.take(n as int) == chars@);
    proof {
        lemma_newline_count_bound(chars@.drop_last());
    }
    let total: usize = if chars[n - 1] == '\n' {
        newlines
    } else {
        newlines + 1
    };
    total as u32
}

/// How a line of a line diff changed.
#[derive(Debug, Clone, Copy, PartialEq, Eq, Structural)]
pub enum LineTag {
    Equal,
    Delete,
    Insert,
}

/// The line diff of two texts: one tag per line of either side, in diff
/// order.
pub uninterp spec fn line_diff_of(old: Seq<char>, new: Seq<char>) -> Seq<LineTag>;

/// The tags of the line diff between `old` and `new`.
///
/// Calls `similar::TextDiff::from_lines` and walks the changes; the
/// contract names the sequence of their tags.
#[verifier::external_body]
fn line_diff(old: &str, new: &str) -> (res: Vec<LineTag>)
    ensures
        res@ == line_diff_of(old@, new@),
{
    similar::TextDiff::from_lines(old, new).iter_all_changes().map(|c| match c.tag() {
        similar::ChangeTag::Equal => LineTag::Equal,
        similar::ChangeTag::Delete => LineTag::Delete,
        similar::ChangeTag::Insert => LineTag::Insert,
    }).collect()
}

/// How many lines of the new side the tags cover.
pub open spec fn new_side_len(tags: Seq<LineTag>) -> nat
    decreases tags.len(),
{
    if tags.len() == 0 {
        0
    } else {
        new_side_len(tags.drop_last()) + if tags.last() is Delete {
            0nat
        } else {
            1nat
        }
    }
}

/// The 1-based new-side numbers of the inserted lines, ascending.
pub open spec fn inserted_lines(tags: Seq<LineTag>) -> Seq<int>
    decreases tags.len(),
{
    if tags.len() == 0 {
        Seq::empty()
    } else {
        let rest = inserted_lines(tags.drop_last());
        if tags.last() is Insert {
            rest.push(new_side_len(tags) as int)
        } else {
            rest
        }
    }
}

proof fn lemma_new_side_len_grows(tags: Seq<LineTag>, i: int)
    requires
        0 <= i <= tags.len(),
    ensures
        new_side_len(tags.take(i)) <= new_side_len(tags),
    decreases tags.len() - i,
{
    if i < tags.len() {
        lemma_new_side_len_grows(tags, i + 1);
        assert(tags.take(i + 1).drop_last() == tags.take(i));
    } else {
        assert(tags.take(i) == tags);
    }
}

/// The values of `lines` as integers.
pub open spec fn as_ints(lines: Seq<u32>) -> Seq<int> {
    lines.map_values(|x: u32| x as int)
}

/// The new-side numbers of the inserted lines of a diff.
pub fn changed_lines_from_tags(tags: &Vec<LineTag>) -> (res: Vec<u32>)
    requires
        new_side_len(tags@) <= u32::MAX,
    ensures
        as_ints(res@) == inserted_lines(tags@),
{
    let mut out: Vec<u32> = Vec::new();
    let mut line: u32 = 0;
    let n = tags.len();
    for i in 0..n
        invariant
            n == tags@.len(),
            new_side_len(tags@) <= u32::MAX,
            line == new_side_len(tags@.take(i as int)),
            as_ints(out@) == inserted_lines(tags@.take(i as int)),
    {
        let ghost prefix = tags@.take(i + 1);
        assert(prefix.drop_last() == tags@.take(i as int));
        proof {
            lemma_new_side_len_grows(tags@, i + 1);
        }
        assert(prefix.last() == tags@[i as int]);
        let ghost before = out@;
        match tags[i] {
            LineTag::Equal => {
                line = line + 1;
            },
            LineTag::Insert => {
                line = line + 1;
                out.push(line);
                assert(as_ints(out@) == as_ints(before).push(line as int));
            },
            LineTag::Delete => {},
        }
    }
    assert(tags@.take(n as int) == tags@);
    out
}

/// The new-side numbers of the lines `new` inserted over `old`, by a line
/// diff. `None` when the new side has more lines than a `u32` numbers.
pub fn new_side_changed_lines(old: &str, new: &str) -> (res: Option<Vec<u32>>)
    ensures
        new_side_len(line_diff_of(old@, new@)) <= u32::MAX ==> (res matches Some(lines)
            && as_ints(lines@) == inserted_lines(line_diff_of(old@, new@))),
        new_side_len(line_diff_of(old@, new@)) > u32::MAX ==> res is None,
{
    let tags = line_diff(old, new);
    let mut covered: u64 = 0;
    let n = tags.len();
    for i in 0..n
        invariant
            n == tags@.len(),
            covered == new_side_len(tags@.take(i as int)),
            covered <= i,
    {
        assert(tags@.take(i + 1).drop_last() == tags@.take(i as int));
        if !matches!(tags[i], LineTag::Delete) {
            covered = covered + 1;
        }
    }
    assert(tags@.take(n as int) == tags@);
    if covered > u32::MAX as u64 {
        return None;
    }
    Some(changed_lines_from_tags(&tags))
}

/// Whether any changed line falls within `start..=end`.
pub fn chunk_touched(changed: &Vec<u32>, start: u32, end: u32) -> (res: bool)
    ensures
        res == exists|i: int| 0 <= i < changed@.len() && start <= #[trigger] changed@[i] <= end,
{
    let n = changed.len();
    for i in 0..n
        invariant
            n == changed@.len(),
            forall|k: int| 0 <= k < i ==> !(start <= #[trigger] changed@[k] <= end),
    {
        if start <= changed[i] && changed[i] <= end {
            return true;
        }
    }
    false
}

/// The line numbers `1..=n`.
pub open spec fn first_lines(n: nat) -> Seq<int> {
    Seq::new(n, |i: int| i + 1)
}

/// The new-side lines a commit changed in a file: every line of a file that
/// did not exist before (or was empty), else the lines the diff inserted.
/// `None` when the new side has more lines than a `u32` numbers.
pub fn changed_lines_for(old: &str, new: &str) -> (res: Option<Vec<u32>>)
    ensures
        old@.len() == 0 ==> (res matches Some(lines) && as_ints(lines@) == first_lines(
            (lines_in(new@) as u32) as nat,
        )),
        old@.len() > 0 && new_side_len(line_diff_of(old@, new@)) <= u32::MAX ==> (res matches Some(
            lines,
        ) && as_ints(lines@) == inserted_lines(line_diff_of(old@, new@))),
        old@.len() > 0 && new_side_len(line_diff_of(old@, new@)) > u32::MAX ==> res is None,
{
    if old.is_empty() {
        let n = line_count(new);
        let mut out: Vec<u32> = Vec::new();
        let mut k: u32 = 0;
        while k < n
            invariant
                k <= n,
                n == lines_in(new@) as u32,
                as_ints(out@) == first_lines(k as nat),
            decreases n - k,
        {
            let ghost before = out@;
            out.push(k + 1);
            k = k + 1;
            proof {
                assert(as_ints(out@) == as_ints(before).push(k as int));
                assert(first_lines(k as nat) == first_lines((k - 1) as nat).push(k as int));
            }
        }
        return Some(out);
    }
    new_side_changed_lines(old, new)
}

/// A symbol chunk of a file: its qualified symbol and its 1-based line
/// span.
#[derive(Debug, Clone, PartialEq, Eq)]
pub struct ChunkSpan {
    pub symbol: String,
    pub line_start: u32,
    pub line_end: u32,
}

/// The symbol name of a file's leading non-symbol text.
pub open spec fn prelude_symbol() -> Seq<char> {
    "<file_prelude>"@
}

/// Whether a chunk is a symbol that one of the changed lines falls in.
pub open spec fn chunk_hit(changed: Seq<u32>, c: ChunkSpan) -> bool {
    c.symbol@ != prelude_symbol() && exists|i: int|
        0 <= i < changed.len() && c.line_start <= #[trigger] changed[i] <= c.line_end
}

/// The (file, symbol) text of a pair.
pub open spec fn pair_key(p: (String, String)) -> (Seq<char>, Seq<char>) {
    (p.0@, p.1@)
}

/// The (file, symbol) texts a list of pairs holds.
pub open spec fn pair_keys(s: Seq<(String, String)>) -> Set<(Seq<char>, Seq<char>)> {
    Set::new(|k: (Seq<char>, Seq<char>)| exists|i: int| 0 <= i < s.len() && pair_key(#[trigger] s[i]) == k)
}

/// Whether pair `a` sorts before pair `b`: by file, then by symbol.
pub open spec fn pair_lt(a: (Seq<char>, Seq<char>), b: (Seq<char>, Seq<char>)) -> bool {
    text_lt(a.0, b.0) || (a.0 == b.0 && text_lt(a.1, b.1))
}

/// Whether pairs are strictly ascending, so that none occurs twice.
pub open spec fn pairs_ascending(s: Seq<(String, String)>) -> bool {
    forall|i: int, j: int|
        0 <= i < j < s.len() ==> pair_lt(pair_key(#[trigger] s[i]), pair_key(#[trigger] s[j]))
}

proof fn lemma_pair_lt_transitive(a: (Seq<char>, Seq<char>), b: (Seq<char>, Seq<char>), c: (Seq<char>, Seq<char>))
    requires
        pair_lt(a, b),
        pair_lt(b, c),
    ensures
        pair_lt(a, c),
{
    if text_lt(a.0, b.0) && text_lt(b.0, c.0) {
        lemma_text_lt_transitive(a.0, b.0, c.0);
    } else if a.0 == b.0 && b.0 == c.0 {
        lemma_text_lt_transitive(a.1, b.1, c.1);
    }
}

proof fn lemma_pair_lt_total(a: (Seq<char>, Seq<char>), b: (Seq<char>, Seq<char>))
    requires
        a != b,
    ensures
        pair_lt(a, b) || pair_lt(b, a),
{
    if a.0 != b.0 {
        lemma_text_lt_total(a.0, b.0);
    } else {
        assert(a.1 != b.1);
        lemma_text_lt_total(a.1, b.1);
    }
}

/// Whether the pair (`file`, `symbol`) sorts before `p`.
fn key_before(file: &str, symbol: &str, p: &(String, String)) -> (res: bool)
    ensures
        res == pair_lt((file@, symbol@), pair_key(*p)),
{
    if text_less(file, p.0.as_str()) {
        return true;
    }
    crate::text::str_eq(file, p.0.as_str()) && text_less(symbol, p.1.as_str())
}

/// Adds the pair (`file`, `symbol`) to an ascending list of pairs, unless
/// it is already there.
pub fn insert_pair(pairs: &mut Vec<(String, String)>, file: &str, symbol: &str)
    requires
        pairs_ascending(old(pairs)@),
    ensures
        pairs_ascending(final(pairs)@),
        pair_keys(final(pairs)@) == pair_keys(old(pairs)@).insert((file@, symbol@)),
{
    let ghost key = (file@, symbol@);
    let mut j = pairs.len();
    while j > 0 && key_before(file, symbol, &pairs[j - 1])
        invariant
            j <= pairs@.len(),
            pairs@ == old(pairs)@,
            key == (file@, symbol@),
            forall|k: int| j <= k < pairs@.len() ==> pair_lt(key, pair_key(#[trigger] pairs@[k])),
        decreases j,
    {
        j = j - 1;
    }
    let ghost before = pairs@;
    if j > 0 && crate::text::str_eq(pairs[j - 1].0.as_str(), file) && crate::text::str_eq(
        pairs[j - 1].1.as_str(),
        symbol,
    ) {
        proof {
            assert(pair_key(before[j - 1]) == key);
            assert(pair_keys(before).insert(key) =~= pair_keys(before));
        }
        return;
    }
    proof {
        if j > 0 {
            assert(!pair_lt(key, pair_key(before[j - 1])));
            assert(pair_key(before[j - 1]) != key);
            lemma_pair_lt_total(key, pair_key(before[j - 1]));
        }
    }
    pairs.insert(j, (file.to_owned(), symbol.to_owned()));
    proof {
        let after = pairs@;
        assert(pair_key(after[j as int]) == key);
        assert forall|a: int, b: int| 0 <= a < b < after.len() implies pair_lt(
            pair_key(#[trigger] after[a]),
            pair_key(#[trigger] after[b]),
        ) by {
            if b < j {
                assert(after[a] == before[a] && after[b] == before[b]);
            } else if a > j {
                assert(after[a] == before[a - 1] && after[b] == before[b - 1]);
            } else if a == j {
                assert(after[b] == before[b - 1]);
            } else if b == j {
                assert(after[a] == before[a]);
                if a < j - 1 {
                    lemma_pair_lt_transitive(
                        pair_key(before[a]),
                        pair_key(before[j - 1]),
                        key,
                    );
                }
            } else {
                assert(after[a] == before[a] && after[b] == before[b - 1]);
                if a < j - 1 {
                    lemma_pair_lt_transitive(
                        pair_key(before[a]),
                        pair_key(before[j - 1]),
                        key,
                    );
                }
                lemma_pair_lt_transitive(pair_key(before[a]), key, pair_key(before[b - 1]));
            }
        }
        assert forall|k: (Seq<char>, Seq<char>)| #[trigger] pair_keys(after).contains(k) <==> pair_keys(
            before,
        ).insert(key).contains(k) by {
            if pair_keys(after).contains(k) {
                let i = choose|i: int| 0 <= i < after.len() && pair_key(#[trigger] after[i]) == k;
                if i < j {
                    assert(after[i] == before[i]);
                } else if i > j {
                    assert(after[i] == before[i - 1]);
                }
            }
            if pair_keys(before).contains(k) {
                let i = choose|i: int| 0 <= i < before.len() && pair_key(#[trigger] before[i]) == k;
                if i < j {
                    assert(after[i] == before[i]);
                } else {
                    assert(after[i + 1] == before[i]);
                }
            }
        }
        assert(pair_keys(after) =~= pair_keys(before).insert(key));
    }
}

/// The (file, symbol) texts of the chunks of `file` that the changed lines
/// touch.
pub open spec fn touched_keys(file: Seq<char>, changed: Seq<u32>, chunks: Seq<ChunkSpan>) -> Set<
    (Seq<char>, Seq<char>),
> {
    Set::new(
        |k: (Seq<char>, Seq<char>)|
            k.0 == file && exists|j: int|
                0 <= j < chunks.len() && chunk_hit(changed, #[trigger] chunks[j]) && chunks[j].symbol@
                    == k.1,
    )
}

/// A chunk of `file` other than the file prelude is touched exactly when a
/// changed line falls within its lines, both ends included: a change on its
/// first line, its last line, or the single line of a one-line chunk
/// touches it. Nothing but the file's own symbols is touched, and never its
/// prelude.
pub proof fn lemma_touched_means_a_changed_line_within(
    file: Seq<char>,
    changed: Seq<u32>,
    chunks: Seq<ChunkSpan>,
    j: int,
    i: int,
)
    ensures
        0 <= j < chunks.len() && 0 <= i < changed.len() && chunks[j].symbol@ != "<file_prelude>"@
            && chunks[j].line_start <= changed[i] && changed[i] <= chunks[j].line_end
            ==> touched_keys(file, changed, chunks).contains((file, chunks[j].symbol@)),
        forall|k: (Seq<char>, Seq<char>)| #[trigger]
            touched_keys(file, changed, chunks).contains(k) ==> k.0 == file && k.1 != "<file_prelude>"@
                && exists|a: int, b: int|
                0 <= a < chunks.len() && 0 <= b < changed.len() && chunks[a].symbol@ == k.1
                    && chunks[a].line_start <= changed[b] && changed[b] <= chunks[a].line_end,
{
    reveal_strlit("<file_prelude>");
    if 0 <= j < chunks.len() && 0 <= i < changed.len() && chunks[j].symbol@ != "<file_prelude>"@
        && chunks[j].line_start <= changed[i] && changed[i] <= chunks[j].line_end {
        assert(chunk_hit(changed, chunks[j]));
    }
    assert forall|k: (Seq<char>, Seq<char>)| #[trigger]
        touched_keys(file, changed, chunks).contains(k) implies k.0 == file && k.1 != "<file_prelude>"@
            && exists|a: int, b: int|
            0 <= a < chunks.len() && 0 <= b < changed.len() && chunks[a].symbol@ == k.1
                && chunks[a].line_start <= changed[b] && changed[b] <= chunks[a].line_end by {
        let a = choose|a: int|
            0 <= a < chunks.len() && chunk_hit(changed, #[trigger] chunks[a]) && chunks[a].symbol@
                == k.1;
        let b = choose|b: int|
            0 <= b < changed.len() && chunks[a].line_start <= #[trigger] changed[b]
                <= chunks[a].line_end;
        assert(chunks[a].symbol@ == k.1);
    }
}

/// Adds to `touched` the symbols of `file`'s chunks that a changed line
/// falls in, leaving out the file prelude; `touched` stays ascending and
/// free of repeats.
pub fn add_touched(
    touched: &mut Vec<(String, String)>,
    file: &str,
    changed: &Vec<u32>,
    chunks: &Vec<ChunkSpan>,
)
    requires
        pairs_ascending(old(touched)@),
    ensures
        pairs_ascending(final(touched)@),
        pair_keys(final(touched)@) == pair_keys(old(touched)@).union(
            touched_keys(file@, changed@, chunks@),
        ),
{
    let n = chunks.len();
    for i in 0..n
        invariant
            n == chunks@.len(),
            pairs_ascending(touched@),
            pair_keys(touched@) == pair_keys(old(touched)@).union(
                touched_keys(file@, changed@, chunks@.take(i as int)),
            ),
    {
        let c = &chunks[i];
        let ghost before = touched@;
        let ghost now = chunks@.take(i + 1);
        let prelude = crate::text::str_eq(c.symbol.as_str(), "<file_prelude>");
        let hit = !prelude && chunk_touched(changed, c.line_start, c.line_end);
        if hit {
            insert_pair(touched, file, c.symbol.as_str());
        }
        proof {
            assert(now[i as int] == *c);
            assert forall|k: (Seq<char>, Seq<char>)| #[trigger] touched_keys(file@, changed@, now).contains(k)
                <==> touched_keys(file@, changed@, chunks@.take(i as int)).contains(k) || (hit && k == (
                file@,
                c.symbol@,
            )) by {
                if touched_keys(file@, changed@, now).contains(k) {
                    let j = choose|j: int|
                        0 <= j < now.len() && chunk_hit(changed@, #[trigger] now[j]) && now[j].symbol@
                            == k.1;
                    if j < i {
                        assert(chunks@.take(i as int)[j] == now[j]);
                    } else {
                        let w = choose|w: int|
                            0 <= w < changed@.len() && c.line_start <= #[trigger] changed@[w]
                                <= c.line_end;
                        assert(changed@[w] == changed@[w]);
                    }
                }
                if touched_keys(file@, changed@, chunks@.take(i as int)).contains(k) {
                    let j = choose|j: int|
                        0 <= j < chunks@.take(i as int).len() && chunk_hit(
                            changed@,
                            #[trigger] chunks@.take(i as int)[j],
                        ) && chunks@.take(i as int)[j].symbol@ == k.1;
                    assert(now[j] == chunks@.take(i as int)[j]);
                }
                if hit && k == (file@, c.symbol@) {
                    assert(chunk_hit(changed@, now[i as int]));
                }
            }
            assert(touched_keys(file@, changed@, now) =~= if hit {
                touched_keys(file@, changed@, chunks@.take(i as int)).insert((file@, c.symbol@))
            } else {
                touched_keys(file@, changed@, chunks@.take(i as int))
            });
            assert(pair_keys(touched@) =~= pair_keys(old(touched)@).union(
                touched_keys(file@, changed@, now),
            ));
        }
    }
    proof {
        assert(chunks@.take(n as int) == chunks@);
    }
}

/// The hand-written sanity set's path under the evaluation crate's
/// directory.
pub fn default_handwritten_path(crate_dir: &str) -> (res: String)
    ensures
        res@ == crate::paths::joined(crate_dir@, "data/handwritten.json"@),
{
    crate::paths::join_path(crate_dir, "data/handwritten.json")
}

/// One entry of the hand-written sanity set as stored.
#[derive(Debug, Clone, PartialEq, Eq)]
pub struct HandwrittenEntry {
    pub query: String,
    pub expected: Vec<(String, String)>,
}

/// The provenance of the `i`-th hand-written label.
pub open spec fn handwritten_provenance(i: nat) -> Seq<char> {
    "handwritten:"@ + crate::text::decimal_of(i)
}

/// Labels for the hand-written entries, in order, each with provenance
/// `handwritten:<position>` so that they are never mistaken for mined ones.
pub fn handwritten_labels(entries: Vec<HandwrittenEntry>) -> (res: Vec<Label>)
    ensures
        res@.len() == entries@.len(),
        forall|i: int|
            0 <= i < res@.len() ==> {
                let l = #[trigger] res@[i];
                &&& l.query == entries@[i].query
                &&& l.expected == entries@[i].expected
                &&& l.source == LabelSource::CommitSubject
                &&& l.provenance@ == handwritten_provenance(i as nat)
            },
{
    let mut out: Vec<Label> = Vec::new();
    let mut rest = entries;
    let ghost all = rest@;
    let mut reversed: Vec<HandwrittenEntry> = Vec::new();
    while rest.len() > 0
        invariant
            reversed@.len() + rest@.len() == all.len(),
            rest@ == all.take(rest@.len() as int),
            forall|k: int|
                0 <= k < reversed@.len() ==> #[trigger] reversed@[k] == all[all.len() - 1 - k],
        decreases rest@.len(),
    {
        let e = rest.pop().unwrap();
        reversed.push(e);
    }
    let n = reversed.len();
    let mut i: usize = 0;
    while reversed.len() > 0
        invariant
            n == all.len(),
            i + reversed@.len() == n,
            forall|k: int|
                0 <= k < reversed@.len() ==> #[trigger] reversed@[k] == all[all.len() - 1 - k],
            out@.len() == i,
            forall|k: int|
                0 <= k < i ==> {
                    let l = #[trigger] out@[k];
                    &&& l.query == all[k].query
                    &&& l.expected == all[k].expected
                    &&& l.source == LabelSource::CommitSubject
                    &&& l.provenance@ == handwritten_provenance(k as nat)
                },
        decreases reversed@.len(),
    {
        let e = reversed.pop().unwrap();
        let provenance = concat("handwritten:", crate::text::format_u64(i as u64).as_str());
        out.push(
            Label {
                query: e.query,
                expected: e.expected,
                source: LabelSource::CommitSubject,
                provenance,
            },
        );
        i = i + 1;
    }
    out
}

/// Whether mining stops before examining another commit: the configured
/// commit limit, if any, has been reached.
pub fn commit_limit_reached(config: &MiningConfig, report: &MiningReport) -> (res: bool)
    ensures
        res == (match config.max_commits {
            Some(max) => report.examined() >= max,
            None => false,
        }),
{
    match config.max_commits {
        Some(max) => report.commits_examined() as u128 >= max as u128,
        None => false,
    }
}

/// What mining needs of one commit: its id, how many parents it has, its
/// subject line, and the (file, symbol) pairs its change touched.
#[derive(Debug)]
pub struct CommitFacts {
    pub id: String,
    pub parent_count: usize,
    pub subject: String,
    pub touched: Vec<(String, String)>,
}

/// Whether some maintenance pattern matches the subject.
pub open spec fn maintenance_hit(patterns: Seq<(String, CompiledPattern)>, subject: Seq<char>) -> bool {
    exists|i: int|
        0 <= i < patterns.len() && regex_matches((#[trigger] patterns[i]).1.source_view(), subject)
}

/// The rule a commit is rejected under, or `None` when it yields a label.
/// The rules are tried in order: a merge, a maintenance subject, a subject
/// too short, no symbols touched, too many, and symbols not indexed.
pub open spec fn verdict_of(
    config: MiningConfig,
    c: CommitFacts,
    indexed: Seq<(String, String)>,
    patterns: Seq<(String, CompiledPattern)>,
) -> Option<Seq<char>> {
    if c.parent_count > 1 {
        Some("merge"@)
    } else if maintenance_hit(patterns, c.subject@) {
        Some("maintenance_pattern"@)
    } else if word_count(c.subject@) < config.min_subject_words {
        Some("subject_too_short"@)
    } else if c.touched@.len() == 0 {
        Some("no_symbols_touched"@)
    } else if c.touched@.len() > config.max_symbols_per_commit {
        Some("too_many_symbols"@)
    } else if count_absent(c.touched@, indexed) > 0 {
        Some("symbols_not_indexed"@)
    } else {
        None
    }
}

/// The label an accepted commit yields: its subject as the query, the
/// symbols it touched as the answers, and its id as the provenance.
pub open spec fn label_of(c: CommitFacts) -> Label {
    Label {
        query: c.subject,
        expected: c.touched,
        source: LabelSource::CommitSubject,
        provenance: c.id,
    }
}

/// The labels of the accepted commits, in commit order.
pub open spec fn accepted_in(
    commits: Seq<CommitFacts>,
    config: MiningConfig,
    indexed: Seq<(String, String)>,
    patterns: Seq<(String, CompiledPattern)>,
) -> Seq<Label>
    decreases commits.len(),
{
    if commits.len() == 0 {
        Seq::empty()
    } else {
        let rest = accepted_in(commits.drop_last(), config, indexed, patterns);
        if verdict_of(config, commits.last(), indexed, patterns) is None {
            rest.push(label_of(commits.last()))
        } else {
            rest
        }
    }
}

/// How many of the commits are rejected under `rule`.
pub open spec fn rejected_in(
    commits: Seq<CommitFacts>,
    config: MiningConfig,
    indexed: Seq<(String, String)>,
    patterns: Seq<(String, CompiledPattern)>,
    rule: Seq<char>,
) -> nat
    decreases commits.len(),
{
    if commits.len() == 0 {
        0
    } else {
        rejected_in(commits.drop_last(), config, indexed, patterns, rule) + if verdict_of(
            config,
            commits.last(),
            indexed,
            patterns,
        ) == Some(rule) {
            1nat
        } else {
            0nat
        }
    }
}

/// How many commits mining examines: all of them, or the configured limit
/// when that is fewer.
pub open spec fn examined_of(config: MiningConfig, n: nat) -> nat {
    match config.max_commits {
        Some(m) => if m < n {
            m as nat
        } else {
            n
        },
        None => n,
    }
}

/// Where a label with provenance `key` goes in `sorted`: after every label
/// that does not sort after it, so that equal provenances keep their order.
pub open spec fn insertion_point(sorted: Seq<Label>, key: Seq<char>) -> nat
    decreases sorted.len(),
{
    if sorted.len() > 0 && text_lt(key, sorted.last().provenance@) {
        insertion_point(sorted.drop_last(), key)
    } else {
        sorted.len()
    }
}

/// The labels ordered by provenance, stably: the labels taken in order,
/// each inserted after those that do not sort after it.
pub open spec fn sorted_by_provenance(labels: Seq<Label>) -> Seq<Label>
    decreases labels.len(),
{
    if labels.len() == 0 {
        Seq::empty()
    } else {
        let rest = sorted_by_provenance(labels.drop_last());
        rest.insert(insertion_point(rest, labels.last().provenance@) as int, labels.last())
    }
}

proof fn lemma_insertion_point_bound(sorted: Seq<Label>, key: Seq<char>)
    ensures
        insertion_point(sorted, key) <= sorted.len(),
    decreases sorted.len(),
{
    if sorted.len() > 0 {
        lemma_insertion_point_bound(sorted.drop_last(), key);
    }
}

/// Sorting by provenance keeps the number of labels.
pub proof fn lemma_sorted_by_provenance_len(labels: Seq<Label>)
    ensures
        sorted_by_provenance(labels).len() == labels.len(),
    decreases labels.len(),
{
    if labels.len() > 0 {
        lemma_sorted_by_provenance_len(labels.drop_last());
        let rest = sorted_by_provenance(labels.drop_last());
        lemma_insertion_point_bound(rest, labels.last().provenance@);
    }
}

/// Inserts `label` at its place by provenance.
fn insert_by_provenance(sorted: &mut Vec<Label>, label: Label)
    ensures
        final(sorted)@ == old(sorted)@.insert(
            insertion_point(old(sorted)@, label.provenance@) as int,
            label,
        ),
{
    let mut j = sorted.len();
    assert(sorted@.take(j as int) == sorted@);
    while j > 0 && text_less(label.provenance.as_str(), sorted[j - 1].provenance.as_str())
        invariant
            j <= sorted@.len(),
            sorted@ == old(sorted)@,
            insertion_point(sorted@, label.provenance@) == insertion_point(
                sorted@.take(j as int),
                label.provenance@,
            ),
        decreases j,
    {
        proof {
            assert(sorted@.take(j as int).drop_last() == sorted@.take(j - 1));
        }
        j = j - 1;
    }
    proof {
        lemma_insertion_point_bound(sorted@.take(j as int), label.provenance@);
    }
    sorted.insert(j, label);
}

/// Orders labels by provenance, stably.
pub fn sort_by_provenance(labels: Vec<Label>) -> (res: Vec<Label>)
    ensures
        res@ == sorted_by_provenance(labels@),
        provenance_ordered(res@),
        res@.to_multiset() == labels@.to_multiset(),
{
    proof {
        lemma_sorted_by_provenance_ordered(labels@);
        lemma_sorted_by_provenance_permutes(labels@);
    }
    let ghost all = labels@;
    let mut rest = labels;
    let mut reversed: Vec<Label> = Vec::new();
    while rest.len() > 0
        invariant
            reversed@.len() + rest@.len() == all.len(),
            rest@ == all.take(rest@.len() as int),
            forall|k: int|
                0 <= k < reversed@.len() ==> #[trigger] reversed@[k] == all[all.len() - 1 - k],
        decreases rest@.len(),
    {
        let e = rest.pop().unwrap();
        reversed.push(e);
    }
    let n = reversed.len();
    let mut sorted: Vec<Label> = Vec::new();
    let mut i: usize = 0;
    while reversed.len() > 0
        invariant
            n == all.len(),
            i + reversed@.len() == n,
            forall|k: int|
                0 <= k < reversed@.len() ==> #[trigger] reversed@[k] == all[all.len() - 1 - k],
            sorted@ == sorted_by_provenance(all.take(i as int)),
        decreases reversed@.len(),
    {
        let label = reversed.pop().unwrap();
        proof {
            assert(all.take(i + 1).drop_last() == all.take(i as int));
            assert(label == all[i as int]);
        }
        insert_by_provenance(&mut sorted, label);
        i = i + 1;
    }
    assert(all.take(n as int) == all);
    sorted
}

/// Whether labels are in provenance order.
pub open spec fn provenance_ordered(labels: Seq<Label>) -> bool {
    forall|i: int, j: int|
        0 <= i < j < labels.len() ==> text_le(
            (#[trigger] labels[i]).provenance@,
            (#[trigger] labels[j]).provenance@,
        )
}

proof fn lemma_insertion_point_spot(sorted: Seq<Label>, key: Seq<char>)
    ensures
        insertion_point(sorted, key) <= sorted.len(),
        forall|j: int|
            insertion_point(sorted, key) <= j < sorted.len() ==> text_lt(
                key,
                (#[trigger] sorted[j]).provenance@,
            ),
        insertion_point(sorted, key) > 0 ==> text_le(
            sorted[insertion_point(sorted, key) - 1].provenance@,
            key,
        ),
    decreases sorted.len(),
{
    if sorted.len() > 0 && text_lt(key, sorted.last().provenance@) {
        let front = sorted.drop_last();
        lemma_insertion_point_spot(front, key);
        assert forall|j: int|
            insertion_point(sorted, key) <= j < sorted.len() implies text_lt(
                key,
                (#[trigger] sorted[j]).provenance@,
            ) by {
            if j < sorted.len() - 1 {
                assert(sorted[j] == front[j]);
            }
        }
        if insertion_point(sorted, key) > 0 {
            assert(sorted[insertion_point(sorted, key) - 1] == front[insertion_point(front, key) - 1]);
        }
    }
}

/// Sorting by provenance puts the labels in provenance order.
pub proof fn lemma_sorted_by_provenance_ordered(labels: Seq<Label>)
    ensures
        provenance_ordered(sorted_by_provenance(labels)),
    decreases labels.len(),
{
    if labels.len() > 0 {
        let rest = sorted_by_provenance(labels.drop_last());
        lemma_sorted_by_provenance_ordered(labels.drop_last());
        let x = labels.last();
        let key = x.provenance@;
        let p = insertion_point(rest, key) as int;
        lemma_insertion_point_spot(rest, key);
        let out = rest.insert(p, x);
        assert forall|i: int, j: int| 0 <= i < j < out.len() implies text_le(
            (#[trigger] out[i]).provenance@,
            (#[trigger] out[j]).provenance@,
        ) by {
            if j < p {
                assert(out[i] == rest[i] && out[j] == rest[j]);
            } else if i > p {
                assert(out[i] == rest[i - 1] && out[j] == rest[j - 1]);
            } else if i == p {
                assert(out[j] == rest[j - 1]);
                assert(text_lt(key, rest[j - 1].provenance@));
                lemma_text_lt_irreflexive(key);
                if text_lt(rest[j - 1].provenance@, key) {
                    lemma_text_lt_transitive(key, rest[j - 1].provenance@, key);
                }
            } else if j == p {
                assert(out[i] == rest[i]);
                if i < p - 1 {
                    assert(text_le(rest[i].provenance@, rest[p - 1].provenance@));
                    lemma_text_le_transitive(rest[i].provenance@, rest[p - 1].provenance@, key);
                }
            } else {
                assert(out[i] == rest[i] && out[j] == rest[j - 1]);
                if i < j - 1 {
                    assert(text_le(rest[i].provenance@, rest[j - 1].provenance@));
                } else {
                    lemma_text_lt_irreflexive(rest[i].provenance@);
                }
            }
        }
    }
}

/// Sorting by provenance keeps exactly the labels it was given.
pub proof fn lemma_sorted_by_provenance_permutes(labels: Seq<Label>)
    ensures
        sorted_by_provenance(labels).to_multiset() == labels.to_multiset(),
    decreases labels.len(),
{
    if labels.len() > 0 {
        let rest = sorted_by_provenance(labels.drop_last());
        lemma_sorted_by_provenance_permutes(labels.drop_last());
        lemma_insertion_point_bound(rest, labels.last().provenance@);
        vstd::seq_lib::to_multiset_insert(
            rest,
            insertion_point(rest, labels.last().provenance@) as int,
            labels.last(),
        );
        vstd::seq_lib::to_multiset_build(labels.drop_last(), labels.last());
        assert(labels.drop_last().push(labels.last()) == labels);
        let p = insertion_point(rest, labels.last().provenance@) as int;
        assert(sorted_by_provenance(labels) == rest.insert(p, labels.last()));
        assert(rest.insert(p, labels.last()).to_multiset() == rest.to_multiset().insert(labels.last()));
        assert(labels.to_multiset() == labels.drop_last().to_multiset().insert(labels.last()));
    } else {
        assert(labels == Seq::<Label>::empty());
    }
}

proof fn lemma_count_of_within_total(entries: Seq<(String, u64)>, rule: Seq<char>)
    ensures
        0 <= count_of(entries, rule) <= count_total(entries),
    decreases entries.len(),
{
    if entries.len() > 0 {
        lemma_count_of_within_total(entries.drop_last(), rule);
    }
}

/// Mines labels from commits taken newest first, as a history walk gives
/// them: up to the configured limit, each commit is examined and either
/// rejected under the first rule it breaks or accepted as a label. The
/// labels come out ordered by provenance, and the report accounts for
/// every commit examined: accepted plus rejected equals examined.
pub fn mine_commit_facts(
    config: &MiningConfig,
    commits: &Vec<CommitFacts>,
    indexed: &Vec<(String, String)>,
    patterns: &Vec<(String, CompiledPattern)>,
) -> (res: (Vec<Label>, MiningReport))
    ensures
        ({
            let examined = examined_of(*config, commits@.len());
            let taken = commits@.take(examined as int);
            &&& res.1.examined() == examined
            &&& res.1.accepted() == accepted_in(taken, *config, indexed@, patterns@).len()
            &&& forall|rule: Seq<char>|
                #[trigger] res.1.rejected_under(rule) == rejected_in(
                    taken,
                    *config,
                    indexed@,
                    patterns@,
                    rule,
                )
            &&& res.1.balanced()
            &&& same_labels(
                res.0@,
                sorted_by_provenance(accepted_in(taken, *config, indexed@, patterns@)),
            )
            &&& res.0@.len() == res.1.accepted()
            &&& provenance_ordered(res.0@)
        }),
{
    let ghost cfg = *config;
    let ghost idx = indexed@;
    let ghost pats = patterns@;
    let mut report = MiningReport::new();
    let mut labels: Vec<Label> = Vec::new();
    let n = commits.len();
    let mut i: usize = 0;
    while i < n
        invariant
            n == commits@.len(),
            i <= n,
            cfg == *config,
            idx == indexed@,
            pats == patterns@,
            config.max_commits matches Some(m) ==> i <= m,
            report.examined() == i,
            report.accepted() <= i,
            report.rejected_total() <= i,
            report.balanced(),
            report.accepted() == accepted_in(commits@.take(i as int), cfg, idx, pats).len(),
            forall|rule: Seq<char>|
                #[trigger] report.rejected_under(rule) == rejected_in(
                    commits@.take(i as int),
                    cfg,
                    idx,
                    pats,
                    rule,
                ),
            same_labels(labels@, accepted_in(commits@.take(i as int), cfg, idx, pats)),
        ensures
            i == examined_of(cfg, n as nat),
            report.examined() == i,
            report.balanced(),
            report.accepted() == accepted_in(commits@.take(i as int), cfg, idx, pats).len(),
            forall|rule: Seq<char>|
                #[trigger] report.rejected_under(rule) == rejected_in(
                    commits@.take(i as int),
                    cfg,
                    idx,
                    pats,
                    rule,
                ),
            same_labels(labels@, accepted_in(commits@.take(i as int), cfg, idx, pats)),
        decreases n - i,
    {
        if commit_limit_reached(config, &report) {
            break;
        }
        let c = &commits[i];
        let ghost prefix = commits@.take(i as int);
        let ghost next = commits@.take(i + 1);
        proof {
            assert(next.drop_last() == prefix);
            assert(next.last() == *c);
        }
        let ghost start = report;
        report.examine();
        let verdict = match screen_commit(config, c.parent_count, c.subject.as_str(), patterns) {
            Err(reason) => Err(reason),
            Ok(()) => judge_touched(config, &c.touched, indexed),
        };
        match verdict {
            Err(reason) => {
                proof {
                    assert(verdict_of(cfg, *c, idx, pats) == Some(rule_of(reason)));
                    lemma_count_of_within_total(report.rejections(), rule_of(reason));
                }
                let ghost before = report;
                report.reject(&reason);
                proof {
                    assert forall|rule: Seq<char>| #[trigger] report.rejected_under(rule)
                        == rejected_in(next, cfg, idx, pats, rule) by {
                        assert(start.rejected_under(rule) == rejected_in(prefix, cfg, idx, pats, rule));
                        if rule != rule_of(reason) {
                            assert(report.rejected_under(rule) == before.rejected_under(rule));
                        }
                    }
                }
            },
            Ok(()) => {
                let label = Label {
                    query: c.subject.clone(),
                    expected: copy_pairs(&c.touched),
                    source: LabelSource::CommitSubject,
                    provenance: c.id.clone(),
                };
                proof {
                    assert(verdict_of(cfg, *c, idx, pats) is None);
                    assert(same_label(label, label_of(*c)));
                }
                labels.push(label);
                report.accept();
                proof {
                    assert(accepted_in(next, cfg, idx, pats) == accepted_in(prefix, cfg, idx, pats).push(
                        label_of(*c),
                    ));
                    assert forall|rule: Seq<char>| #[trigger] report.rejected_under(rule)
                        == rejected_in(next, cfg, idx, pats, rule) by {
                        assert(start.rejected_under(rule) == rejected_in(prefix, cfg, idx, pats, rule));
                        assert(rejected_in(next, cfg, idx, pats, rule) == rejected_in(
                            prefix,
                            cfg,
                            idx,
                            pats,
                            rule,
                        ));
                    }
                }
            },
        }
        i = i + 1;
    }
    let sorted = sort_by_provenance(labels);
    proof {
        let accepted = accepted_in(commits@.take(i as int), cfg, idx, pats);
        lemma_sorted_by_provenance_len(accepted);
        lemma_sorted_by_provenance_len(labels@);
        lemma_sorted_labels_agree(labels@, accepted);
    }
    (sorted, report)
}

/// Label lists that agree position by position still agree once sorted by
/// provenance.
proof fn lemma_sorted_labels_agree(a: Seq<Label>, b: Seq<Label>)
    requires
        same_labels(a, b),
    ensures
        same_labels(sorted_by_provenance(a), sorted_by_provenance(b)),
    decreases a.len(),
{
    if a.len() > 0 {
        assert(same_labels(a.drop_last(), b.drop_last())) by {
            assert forall|i: int| 0 <= i < a.drop_last().len() implies same_label(
                #[trigger] a.drop_last()[i],
                b.drop_last()[i],
            ) by {
                assert(same_label(a[i], b[i]));
            }
        }
        lemma_sorted_labels_agree(a.drop_last(), b.drop_last());
        let ra = sorted_by_provenance(a.drop_last());
        let rb = sorted_by_provenance(b.drop_last());
        assert(same_label(a.last(), b.last()));
        lemma_insertion_points_agree(ra, rb, a.last().provenance@);
        lemma_sorted_by_provenance_len(a.drop_last());
        lemma_sorted_by_provenance_len(b.drop_last());
        lemma_insertion_point_bound(ra, a.last().provenance@);
        let p = insertion_point(ra, a.last().provenance@) as int;
        let sa = ra.insert(p, a.last());
        let sb = rb.insert(p, b.last());
        assert forall|i: int| 0 <= i < sa.len() implies same_label(#[trigger] sa[i], sb[i]) by {
            if i < p {
                assert(same_label(ra[i], rb[i]));
            } else if i > p {
                assert(same_label(ra[i - 1], rb[i - 1]));
            }
        }
    }
}

proof fn lemma_insertion_points_agree(a: Seq<Label>, b: Seq<Label>, key: Seq<char>)
    requires
        same_labels(a, b),
    ensures
        insertion_point(a, key) == insertion_point(b, key),
    decreases a.len(),
{
    if a.len() > 0 {
        assert(same_label(a.last(), b.last()));
        assert(same_labels(a.drop_last(), b.drop_last())) by {
            assert forall|i: int| 0 <= i < a.drop_last().len() implies same_label(
                #[trigger] a.drop_last()[i],
                b.drop_last()[i],
            ) by {
                assert(same_label(a[i], b[i]));
            }
        }
        lemma_insertion_points_agree(a.drop_last(), b.drop_last(), key);
    }
}

/// The text of `s` up to its first line feed.
pub open spec fn first_line(s: Seq<char>) -> Seq<char>
    decreases s.len(),
{
    if s.len() == 0 {
        s
    } else if s[0] == '\n' {
        Seq::empty()
    } else {
        seq![s[0]] + first_line(s.drop_first())
    }
}

/// The subject of a commit message: its first line, trimmed (a carriage
/// return ending the line is trimmed with the rest of the white space).
pub open spec fn subject_of(message: Seq<char>) -> Seq<char> {
    trimmed(first_line(message))
}

/// The subject of a commit message.
pub fn commit_subject(message: &str) -> (res: String)
    ensures
        res@ == subject_of(message@),
{
    let chars = crate::text::chars_of(message);
    let n = chars.len();
    let mut out: Vec<char> = Vec::new();
    let mut i: usize = 0;
    assert(chars@.skip(0) == chars@);
    assert(out@ + first_line(chars@) == first_line(chars@));
    while i < n && chars[i] != '\n'
        invariant
            n == chars@.len(),
            chars@ == message@,
            i <= n,
            first_line(chars@) == out@ + first_line(chars@.skip(i as int)),
        decreases n - i,
    {
        let ghost rest = chars@.skip(i as int);
        assert(rest.drop_first() == chars@.skip(i + 1));
        assert(rest[0] == chars@[i as int]);
        out.push(chars[i]);
        assert(out@ + first_line(chars@.skip(i + 1)) == out@.drop_last() + (seq![chars@[i as int]]
            + first_line(chars@.skip(i + 1))));
        i = i + 1;
    }
    proof {
        let rest = chars@.skip(i as int);
        if i < n {
            assert(rest[0] == '\n');
        } else {
            assert(rest.len() == 0);
        }
        assert(out@ + Seq::<char>::empty() == out@);
    }
    let line = crate::text::string_of(&out);
    crate::text::trim_white(line.as_str())
}

/// The symbol name of the chunk that holds a file's text before its first
/// symbol; it names no symbol a label could point at.
pub open spec fn is_prelude(symbol: Seq<char>) -> bool {
    symbol == "<file_prelude>"@
}

/// The (file, symbol) pairs of the indexed rows, leaving out preludes.
pub open spec fn indexed_keys(rows: Seq<(String, String)>) -> Set<(Seq<char>, Seq<char>)> {
    Set::new(
        |k: (Seq<char>, Seq<char>)|
            exists|i: int| 0 <= i < rows.len() && !is_prelude(rows[i].1@) && pair_key(#[trigger] rows[i]) == k,
    )
}

/// The set of (file, symbol) pairs an index holds, in ascending order
/// without repeats, leaving out file preludes.
pub fn indexed_pairs(rows: &Vec<(String, String)>) -> (res: Vec<(String, String)>)
    ensures
        pairs_ascending(res@),
        pair_keys(res@) == indexed_keys(rows@),
{
    let mut out: Vec<(String, String)> = Vec::new();
    let n = rows.len();
    proof {
        assert(pair_keys(out@) =~= indexed_keys(rows@.take(0)));
    }
    for i in 0..n
        invariant
            n == rows@.len(),
            pairs_ascending(out@),
            pair_keys(out@) == indexed_keys(rows@.take(i as int)),
    {
        let ghost now = rows@.take(i + 1);
        let ghost prev = rows@.take(i as int);
        let prelude = str_eq(rows[i].1.as_str(), "<file_prelude>");
        if !prelude {
            insert_pair(&mut out, rows[i].0.as_str(), rows[i].1.as_str());
        }
        proof {
            reveal_strlit("<file_prelude>");
            assert(now[i as int] == rows@[i as int]);
            assert forall|k: (Seq<char>, Seq<char>)| #[trigger] indexed_keys(now).contains(k)
                <==> indexed_keys(prev).contains(k) || (!prelude && k == pair_key(rows@[i as int])) by {
                if indexed_keys(now).contains(k) {
                    let j = choose|j: int|
                        0 <= j < now.len() && !is_prelude(now[j].1@) && pair_key(#[trigger] now[j]) == k;
                    if j < i {
                        assert(prev[j] == now[j]);
                    }
                }
                if indexed_keys(prev).contains(k) {
                    let j = choose|j: int|
                        0 <= j < prev.len() && !is_prelude(prev[j].1@) && pair_key(#[trigger] prev[j]) == k;
                    assert(now[j] == prev[j]);
                }
                if !prelude && k == pair_key(rows@[i as int]) {
                    assert(pair_key(now[i as int]) == k);
                }
            }
            assert(indexed_keys(now) =~= if !prelude {
                indexed_keys(prev).insert(pair_key(rows@[i as int]))
            } else {
                indexed_keys(prev)
            });
        }
    }
    proof {
        assert(rows@.take(n as int) == rows@);
    }
    out
}

/// `s` with each backslash made a forward slash.
pub open spec fn slashed(s: Seq<char>) -> Seq<char> {
    s.map_values(|c: char| if c == '\\' { '/' } else { c })
}

/// The path a change's location gives: none for a location that is not
/// text or is empty, else the location with forward slashes.
pub open spec fn location_path(location: Option<String>) -> Option<Seq<char>> {
    match location {
        Some(l) => if l@.len() > 0 {
            Some(slashed(l@))
        } else {
            None
        },
        None => None,
    }
}

/// Whether texts are strictly ascending, so that none occurs twice.
pub open spec fn texts_ascending(s: Seq<String>) -> bool {
    forall|i: int, j: int| 0 <= i < j < s.len() ==> text_lt((#[trigger] s[i])@, (#[trigger] s[j])@)
}

/// The texts held in `s`.
pub open spec fn text_set(s: Seq<String>) -> Set<Seq<char>> {
    Set::new(|t: Seq<char>| exists|i: int| 0 <= i < s.len() && (#[trigger] s[i])@ == t)
}

/// The paths the changes' locations give.
pub open spec fn location_paths(locations: Seq<Option<String>>) -> Set<Seq<char>> {
    Set::new(
        |t: Seq<char>| exists|i: int| 0 <= i < locations.len() && location_path(#[trigger] locations[i]) == Some(t),
    )
}

/// `s` with each backslash made a forward slash.
fn with_forward_slashes(s: &str) -> (res: String)
    ensures
        res@ == slashed(s@),
{
    let chars = crate::text::chars_of(s);
    let n = chars.len();
    let mut out: Vec<char> = Vec::new();
    for i in 0..n
        invariant
            n == chars@.len(),
            chars@ == s@,
            out@ == slashed(chars@.take(i as int)),
    {
        if chars[i] == '\\' {
            out.push('/');
        } else {
            out.push(chars[i]);
        }
        assert(slashed(chars@.take(i + 1)) =~= slashed(chars@.take(i as int)).push(
            if chars@[i as int] == '\\' { '/' } else { chars@[i as int] },
        ));
    }
    assert(chars@.take(n as int) == chars@);
    crate::text::string_of(&out)
}

/// Adds `t` to ascending texts, which stay ascending and free of repeats.
fn insert_text(texts: &mut Vec<String>, t: String)
    requires
        texts_ascending(old(texts)@),
    ensures
        texts_ascending(final(texts)@),
        text_set(final(texts)@) == text_set(old(texts)@).insert(t@),
{
    let ghost key = t@;
    let mut j = texts.len();
    while j > 0 && text_less(t.as_str(), texts[j - 1].as_str())
        invariant
            j <= texts@.len(),
            texts@ == old(texts)@,
            key == t@,
            forall|k: int| j <= k < texts@.len() ==> text_lt(key, (#[trigger] texts@[k])@),
        decreases j,
    {
        j = j - 1;
    }
    let ghost before = texts@;
    if j > 0 && str_eq(texts[j - 1].as_str(), t.as_str()) {
        proof {
            assert(before[j - 1]@ == key);
            assert(text_set(before).insert(key) =~= text_set(before));
        }
        return;
    }
    proof {
        if j > 0 {
            assert(!text_lt(key, before[j - 1]@));
            lemma_text_lt_total(key, before[j - 1]@);
        }
    }
    texts.insert(j, t);
    proof {
        let after = texts@;
        assert(after[j as int]@ == key);
        assert forall|a: int, b: int| 0 <= a < b < after.len() implies text_lt(
            (#[trigger] after[a])@,
            (#[trigger] after[b])@,
        ) by {
            if b < j {
                assert(after[a] == before[a] && after[b] == before[b]);
            } else if a > j {
                assert(after[a] == before[a - 1] && after[b] == before[b - 1]);
            } else if a == j {
                assert(after[b] == before[b - 1]);
            } else if b == j {
                assert(after[a] == before[a]);
                if a < j - 1 {
                    lemma_text_lt_transitive(before[a]@, before[j - 1]@, key);
                }
            } else {
                assert(after[a] == before[a] && after[b] == before[b - 1]);
                if a < j - 1 {
                    lemma_text_lt_transitive(before[a]@, before[j - 1]@, key);
                }
                lemma_text_lt_transitive(before[a]@, key, before[b - 1]@);
            }
        }
        assert forall|x: Seq<char>| #[trigger] text_set(after).contains(x) <==> text_set(before).insert(
            key,
        ).contains(x) by {
            if text_set(after).contains(x) {
                let i = choose|i: int| 0 <= i < after.len() && (#[trigger] after[i])@ == x;
                if i < j {
                    assert(after[i] == before[i]);
                } else if i > j {
                    assert(after[i] == before[i - 1]);
                }
            }
            if text_set(before).contains(x) {
                let i = choose|i: int| 0 <= i < before.len() && (#[trigger] before[i])@ == x;
                if i < j {
                    assert(after[i] == before[i]);
                } else {
                    assert(after[i + 1] == before[i]);
                }
            }
        }
        assert(text_set(after) =~= text_set(before).insert(key));
    }
}

/// The paths a commit changed, from the locations of its tree changes:
/// each non-empty location with forward slashes, in ascending order and
/// without repeats.
pub fn changed_paths_from(locations: &Vec<Option<String>>) -> (res: Vec<String>)
    ensures
        texts_ascending(res@),
        text_set(res@) == location_paths(locations@),
{
    let mut out: Vec<String> = Vec::new();
    let n = locations.len();
    proof {
        assert(text_set(out@) =~= location_paths(locations@.take(0)));
    }
    for i in 0..n
        invariant
            n == locations@.len(),
            texts_ascending(out@),
            text_set(out@) == location_paths(locations@.take(i as int)),
    {
        let ghost now = locations@.take(i + 1);
        let ghost prev = locations@.take(i as int);
        let ghost added = location_path(locations@[i as int]);
        let ghost before = text_set(out@);
        match &locations[i] {
            Some(l) => {
                proof {
                    reveal_strlit("");
                }
                if !str_eq(l.as_str(), "") {
                    let p = with_forward_slashes(l.as_str());
                    assert(l@.len() > 0) by {
                        if l@.len() == 0 {
                            assert(l@ =~= ""@);
                        }
                    }
                    assert(locations@[i as int] == Some(*l));
                    assert(added == Some(p@));
                    insert_text(&mut out, p);
                } else {
                    assert(added is None);
                }
            },
            None => {},
        }
        assert(text_set(out@) == match added {
            Some(t) => before.insert(t),
            None => before,
        });
        proof {
            assert(now[i as int] == locations@[i as int]);
            assert forall|t: Seq<char>| #[trigger] location_paths(now).contains(t)
                <==> location_paths(prev).contains(t) || added == Some(t) by {
                if location_paths(now).contains(t) {
                    let j = choose|j: int| 0 <= j < now.len() && location_path(#[trigger] now[j]) == Some(t);
                    if j < i {
                        assert(prev[j] == now[j]);
                    }
                }
                if location_paths(prev).contains(t) {
                    let j = choose|j: int| 0 <= j < prev.len() && location_path(#[trigger] prev[j]) == Some(t);
                    assert(now[j] == prev[j]);
                }
                if added == Some(t) {
                    assert(location_path(now[i as int]) == Some(t));
                }
            }
            assert(location_paths(now) =~= match added {
                Some(t) => location_paths(prev).insert(t),
                None => location_paths(prev),
            });
        }
    }
    proof {
        assert(locations@.take(n as int) == locations@);
    }
    out
}

} // verus!
