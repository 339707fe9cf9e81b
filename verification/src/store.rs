//! The identity of the store a daemon serves, and how a symbol is looked up
//! among the chunks of a file.

use vstd::prelude::*;

use crate::protocol::{DaemonError, Response};
use crate::text::{concat, push_str_chars, str_eq};

verus! {

/// What identifies the store a daemon loaded, so that its removal or
/// replacement under the running daemon is noticed.
#[derive(Debug, Clone, PartialEq, Eq)]
pub struct StoreIdentity {
    pub canonical_path: String,
    pub schema_version: u32,
    pub model_id: String,
    pub dir_dev: u64,
    pub dir_ino: u64,
}

impl StoreIdentity {
    /// Checks the store directory against what it is now: `observed` is its
    /// device and inode, or why it could not be read. A missing directory or
    /// one with another device or inode makes the store stale.
    pub fn check_still_valid(&self, observed: Result<(u64, u64), String>) -> (res: Result<
        (),
        DaemonError,
    >)
        ensures
            match observed {
                Err(why) => res matches Err(DaemonError::StoreStale { reason }) && reason@
                    == "store missing: "@ + why@,
                Ok((dev, ino)) => if dev != self.dir_dev || ino != self.dir_ino {
                    res matches Err(DaemonError::StoreStale { reason }) && reason@
                        == "store directory replaced"@
                } else {
                    res is Ok
                },
            },
    {
        match observed {
            Err(why) => Err(
                DaemonError::StoreStale { reason: concat("store missing: ", why.as_str()) },
            ),
            Ok((dev, ino)) => {
                if dev != self.dir_dev || ino != self.dir_ino {
                    return Err(
                        DaemonError::StoreStale { reason: "store directory replaced".to_owned() },
                    );
                }
                Ok(())
            },
        }
    }
}

/// The metadata of one stored chunk that a symbol lookup reads.
#[derive(Debug, Clone, PartialEq, Eq)]
pub struct SymbolRecord {
    pub file: String,
    pub symbol: String,
    pub language: String,
    pub signature: String,
    pub line_start: u32,
    pub line_end: u32,
}

/// The positions of the records present and named `symbol`, in order.
pub open spec fn symbol_matches(records: Seq<Option<SymbolRecord>>, symbol: Seq<char>) -> Seq<int>
    decreases records.len(),
{
    if records.len() == 0 {
        Seq::empty()
    } else {
        let rest = symbol_matches(records.drop_last(), symbol);
        match records.last() {
            Some(r) => if r.symbol@ == symbol {
                rest.push(records.len() - 1)
            } else {
                rest
            },
            None => rest,
        }
    }
}

/// How an ambiguous match is listed: `file:signature`.
pub open spec fn candidate_of(r: SymbolRecord) -> Seq<char> {
    r.file@ + ":"@ + r.signature@
}

proof fn lemma_symbol_matches_in_range(records: Seq<Option<SymbolRecord>>, symbol: Seq<char>)
    ensures
        forall|k: int|
            0 <= k < symbol_matches(records, symbol).len() ==> {
                let i = #[trigger] symbol_matches(records, symbol)[k];
                &&& 0 <= i < records.len()
                &&& records[i] is Some
                &&& records[i]->Some_0.symbol@ == symbol
            },
    decreases records.len(),
{
    if records.len() > 0 {
        lemma_symbol_matches_in_range(records.drop_last(), symbol);
    }
}

/// Finds the one chunk of a file that holds `symbol`. Absent records are
/// skipped. No match is `SymbolNotFound`; several are `SymbolAmbiguous`,
/// listing each as `file:signature`. On success the position of the match
/// is returned, for its body to be fetched.
pub fn resolve_symbol(file: &str, symbol: &str, records: &Vec<Option<SymbolRecord>>) -> (res:
    Result<usize, DaemonError>)
    ensures
        ({
            let m = symbol_matches(records@, symbol@);
            &&& m.len() == 0 ==> (res matches Err(DaemonError::SymbolNotFound { file: f, symbol: s })
                && f@ == file@ && s@ == symbol@)
            &&& m.len() == 1 ==> res == Ok::<usize, DaemonError>(m[0] as usize)
            &&& m.len() > 1 ==> (res matches Err(
                DaemonError::SymbolAmbiguous { file: f, symbol: s, candidates },
            ) && f@ == file@ && s@ == symbol@ && candidates@.len() == m.len() && forall|k: int|
                0 <= k < m.len() ==> #[trigger] candidates@[k]@ == candidate_of(
                    records@[m[k]]->Some_0,
                ))
        }),
{
    let ghost all = records@;
    let mut found: Vec<usize> = Vec::new();
    let mut candidates: Vec<String> = Vec::new();
    let n = records.len();
    for i in 0..n
        invariant
            n == all.len(),
            all == records@,
            found@.len() == symbol_matches(all.take(i as int), symbol@).len(),
            candidates@.len() == found@.len(),
            forall|k: int|
                0 <= k < found@.len() ==> #[trigger] found@[k] == symbol_matches(
                    all.take(i as int),
                    symbol@,
                )[k],
            forall|k: int| 0 <= k < found@.len() ==> #[trigger] found@[k] < i,
            forall|k: int| 0 <= k < found@.len() ==> all[#[trigger] found@[k] as int] is Some,
            forall|k: int|
                0 <= k < found@.len() ==> #[trigger] candidates@[k]@ == candidate_of(
                    all[found@[k] as int]->Some_0,
                ),
    {
        proof {
            assert(all.take(i + 1).drop_last() == all.take(i as int));
            lemma_symbol_matches_in_range(all.take(i as int), symbol@);
        }
        match &records[i] {
            Some(r) => {
                if str_eq(r.symbol.as_str(), symbol) {
                    found.push(i);
                    let mut c = concat(r.file.as_str(), ":");
                    push_str_chars(&mut c, r.signature.as_str());
                    candidates.push(c);
                    assert(all[i as int] == Some(*r));
                }
            },
            None => {},
        }
    }
    proof {
        assert(all.take(n as int) == all);
    }
    if found.len() == 0 {
        Err(DaemonError::SymbolNotFound { file: file.to_owned(), symbol: symbol.to_owned() })
    } else if found.len() == 1 {
        Ok(found[0])
    } else {
        Err(
            DaemonError::SymbolAmbiguous {
                file: file.to_owned(),
                symbol: symbol.to_owned(),
                candidates,
            },
        )
    }
}

/// The Symbol response for a resolved record and its body.
pub fn symbol_response(record: &SymbolRecord, body: String) -> (res: Response)
    ensures
        res matches Response::Symbol { file, symbol, language, signature, lines, body: b } && file
            == record.file && symbol == record.symbol && language == record.language && signature
            == record.signature && lines@ == seq![record.line_start, record.line_end] && b == body,
{
    Response::Symbol {
        file: record.file.clone(),
        symbol: record.symbol.clone(),
        language: record.language.clone(),
        signature: record.signature.clone(),
        lines: [record.line_start, record.line_end],
        body,
    }
}

} // verus!
