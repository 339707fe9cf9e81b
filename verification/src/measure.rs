//! Helpers of the overhead measurements: percentiles and medians of
//! latencies, the command lines of the measuring programs, the order of
//! paired runs, and the medians a set of runs is summarised by.

use vstd::prelude::*;
use vstd::relations::{sorted_by, total_ordering};

verus! {

/// The order `<=` on `u64`, by which samples are sorted.
pub open spec fn u64_leq() -> spec_fn(u64, u64) -> bool {
    |x: u64, y: u64| x <= y
}

/// The samples in ascending order.
pub open spec fn sorted_samples(values: Seq<u64>) -> Seq<u64> {
    values.sort_by(u64_leq())
}

/// The 1-based nearest rank of percentile `p` among `n` samples:
/// `ceil(p * n / 100)`.
pub open spec fn nearest_rank(p: nat, n: nat) -> nat {
    ((p * n + 99) / 100) as nat
}

/// The 0-based index the nearest-rank percentile reads, kept within the
/// samples.
pub open spec fn nearest_rank_index(p: nat, n: nat) -> int {
    let rank = nearest_rank(p, n);
    let idx: int = if rank == 0 {
        0
    } else {
        rank - 1
    };
    if idx > n - 1 {
        n - 1
    } else {
        idx
    }
}

/// `ceil(p * n / 100)`, computed without forming `p * n`.
fn rank_of(p: usize, n: usize) -> (res: usize)
    requires
        p <= 100,
    ensures
        res == nearest_rank(p as nat, n as nat),
        res <= n,
{
    let whole = n / 100;
    let part = n % 100;
    assert(part * p <= 9900) by (nonlinear_arith)
        requires
            part < 100,
            p <= 100,
    ;
    let tail = (part * p + 99) / 100;
    assert(tail <= part) by (nonlinear_arith)
        requires
            tail == (part * p + 99) / 100,
            p <= 100,
    ;
    assert(whole * p <= whole * 100) by (nonlinear_arith)
        requires
            p <= 100,
    ;
    assert(whole * p + tail == (p * n + 99) / 100) by (nonlinear_arith)
        requires
            part == n % 100,
            tail == (part * p + 99) / 100,
            n == whole * 100 + part,
    ;
    whole * p + tail
}

/// The nearest-rank percentile of ascending samples: the value at rank
/// `ceil(p * n / 100)`. `None` for no samples or a percentile outside
/// `1..=100`. For the values 1 to 100 the 95th percentile is 95.
pub fn nearest_rank_percentile(sorted_asc: &[u64], percentile: u8) -> (res: Option<u64>)
    ensures
        sorted_asc@.len() == 0 || percentile == 0 || percentile > 100 ==> res is None,
        sorted_asc@.len() > 0 && 1 <= percentile <= 100 ==> res == Some(
            sorted_asc@[nearest_rank_index(percentile as nat, sorted_asc@.len())],
        ),
{
    if sorted_asc.len() == 0 || percentile == 0 || percentile > 100 {
        return None;
    }
    let n = sorted_asc.len();
    let rank = rank_of(percentile as usize, n);
    let idx = if rank == 0 {
        0
    } else {
        rank - 1
    };
    let idx = if idx > n - 1 {
        n - 1
    } else {
        idx
    };
    Some(sorted_asc[idx])
}

/// The middle of `a` and `b`, rounded down.
pub open spec fn midpoint(a: u64, b: u64) -> int {
    (a + b) / 2
}

/// The median of the samples: the middle one of an odd count, the midpoint
/// of the two middle ones of an even count.
pub open spec fn median_of(values: Seq<u64>) -> Option<u64> {
    let s = sorted_samples(values);
    let mid = s.len() / 2;
    if s.len() == 0 {
        None
    } else if s.len() % 2 == 0 {
        Some(midpoint(s[mid - 1], s[mid as int]) as u64)
    } else {
        Some(s[mid as int])
    }
}

/// The samples in ascending order.
pub fn sort_samples(values: &[u64]) -> (res: Vec<u64>)
    ensures
        res@ == sorted_samples(values@),
{
    broadcast use vstd::seq_lib::group_to_multiset_ensures;

    let n = values.len();
    let mut out: Vec<u64> = Vec::new();
    for i in 0..n
        invariant
            n == values@.len(),
            out@.len() == i,
            sorted_by(out@, u64_leq()),
            out@.to_multiset() == values@.take(i as int).to_multiset(),
    {
        let x = values[i];
        let mut pos: usize = 0;
        while pos < out.len() && out[pos] <= x
            invariant
                pos <= out@.len(),
                forall|k: int| 0 <= k < pos ==> out@[k] <= x,
            decreases out@.len() - pos,
        {
            pos = pos + 1;
        }
        let ghost before = out@;
        out.insert(pos, x);
        proof {
            assert(values@.take(i + 1) == values@.take(i as int).push(x));
            vstd::seq_lib::to_multiset_insert(before, pos as int, x);
            vstd::seq_lib::to_multiset_build(values@.take(i as int), x);
            assert forall|a: int, b: int| 0 <= a < b < out@.len() implies #[trigger] u64_leq()(
                out@[a],
                out@[b],
            ) by {
                if b < pos {
                    assert(u64_leq()(before[a], before[b]));
                } else if b == pos {
                    assert(before[a] <= x);
                } else if a == pos {
                    if (b - 1) < before.len() && pos < before.len() {
                        assert(before[pos as int] > x);
                        if pos < b - 1 {
                            assert(u64_leq()(before[pos as int], before[b - 1]));
                        }
                    }
                } else if a < pos {
                    assert(u64_leq()(before[a], before[b - 1]));
                } else {
                    assert(u64_leq()(before[a - 1], before[b - 1]));
                }
            }
        }
    }
    proof {
        assert(values@.take(n as int) == values@);
        let leq = u64_leq();
        assert(total_ordering(leq));
        values@.lemma_sort_by_ensures(leq);
        vstd::seq_lib::lemma_sorted_unique(out@, values@.sort_by(leq), leq);
    }
    out
}

/// Sorting keeps the number of samples.
pub proof fn lemma_sorted_lengths(values: Seq<u64>)
    ensures
        sorted_samples(values).len() == values.len(),
{
    lemma_sorted_samples(values);
}

/// Sorting keeps the samples: as many, in ascending order.
proof fn lemma_sorted_samples(values: Seq<u64>)
    ensures
        sorted_samples(values).len() == values.len(),
        sorted_by(sorted_samples(values), u64_leq()),
        sorted_samples(values).to_multiset() == values.to_multiset(),
{
    broadcast use vstd::seq_lib::group_to_multiset_ensures;

    let leq = u64_leq();
    assert(total_ordering(leq));
    values.lemma_sort_by_ensures(leq);
    assert(values.sort_by(leq).to_multiset().len() == values.sort_by(leq).len());
    assert(values.to_multiset().len() == values.len());
}

/// The median of the samples, `None` for none. The midpoint of an even
/// count is computed without overflow.
pub fn median_u64(values: &[u64]) -> (res: Option<u64>)
    ensures
        res == median_of(values@),
{
    proof {
        lemma_sorted_samples(values@);
    }
    if values.len() == 0 {
        return None;
    }
    let v = sort_samples(values);
    let mid = v.len() / 2;
    if v.len() % 2 == 0 {
        let a = v[mid - 1];
        let b = v[mid];
        let m = a / 2 + b / 2 + (a % 2 + b % 2) / 2;
        assert(m == (a + b) / 2) by (nonlinear_arith)
            requires
                m == a / 2 + b / 2 + (a % 2 + b % 2) / 2,
        ;
        Some(m)
    } else {
        Some(v[mid])
    }
}

/// Which of a pair of runs goes first: `[false, true]` (collection off,
/// then on) for even run indices, `[true, false]` for odd ones, so that
/// ordering bias cancels out.
pub fn pair_order(run_index: u32) -> (res: [bool; 2])
    ensures
        run_index % 2 == 0 ==> res@ == seq![false, true],
        run_index % 2 == 1 ==> res@ == seq![true, false],
{
    if run_index % 2 == 0 {
        [false, true]
    } else {
        [true, false]
    }
}

/// The paths and run count of an observability measurement.
#[derive(Debug, Clone, PartialEq, Eq)]
pub struct MeasureArgs {
    pub repo: String,
    pub store: String,
    pub model: String,
    pub daemon: String,
    pub runs: u32,
    pub output: String,
}

/// The paths and run count of a console overhead measurement.
#[derive(Debug, Clone, PartialEq, Eq)]
pub struct ConsoleMeasureArgs {
    pub repo: String,
    pub store: String,
    pub model: String,
    pub daemon: String,
    pub console: String,
    pub runs: u32,
    pub output: String,
}

/// Why a measurement command line was refused.
#[derive(Debug, Clone, PartialEq, Eq)]
pub enum MeasureArgsError {
    /// A required argument, or the value of a flag, is missing.
    Missing(&'static str),
    /// The value of `--runs` is not a positive `u32`.
    InvalidRuns(String),
    /// An argument that is not one of the flags.
    UnknownFlag(String),
}

/// What the flags of a measurement command line have set so far.
pub struct FlagScan {
    pub repo: Option<Seq<char>>,
    pub store: Option<Seq<char>>,
    pub model: Option<Seq<char>>,
    pub daemon: Option<Seq<char>>,
    pub console: Option<Seq<char>>,
    pub runs: u32,
    pub output: Option<Seq<char>>,
}

/// Why scanning a measurement command line fails.
pub enum ScanFailure {
    Missing(Seq<char>),
    InvalidRuns(Seq<char>),
    UnknownFlag(Seq<char>),
}

/// Nothing set yet; three runs unless `--runs` says otherwise.
pub open spec fn scan_start() -> FlagScan {
    FlagScan {
        repo: None,
        store: None,
        model: None,
        daemon: None,
        console: None,
        runs: 3,
        output: None,
    }
}

/// The flags that take a path, with the name each is reported under.
pub open spec fn path_flag(flag: Seq<char>, with_console: bool) -> Option<Seq<char>> {
    if flag == "--repo"@ {
        Some("repo"@)
    } else if flag == "--store"@ {
        Some("store"@)
    } else if flag == "--model"@ {
        Some("model"@)
    } else if flag == "--daemon"@ {
        Some("daemon"@)
    } else if flag == "--console"@ && with_console {
        Some("console"@)
    } else if flag == "--output"@ {
        Some("output"@)
    } else {
        None
    }
}

/// `scan` with the path named `name` set to `value`.
pub open spec fn set_path(scan: FlagScan, name: Seq<char>, value: Seq<char>) -> FlagScan {
    if name == "repo"@ {
        FlagScan { repo: Some(value), ..scan }
    } else if name == "store"@ {
        FlagScan { store: Some(value), ..scan }
    } else if name == "model"@ {
        FlagScan { model: Some(value), ..scan }
    } else if name == "daemon"@ {
        FlagScan { daemon: Some(value), ..scan }
    } else if name == "console"@ {
        FlagScan { console: Some(value), ..scan }
    } else {
        FlagScan { output: Some(value), ..scan }
    }
}

/// Reads the flags from position `i` on: each flag takes the argument after
/// it as its value, a later flag overriding an earlier one. A flag without a
/// value, a `--runs` value that is not a positive `u32`, or an unknown
/// argument stops the scan.
pub open spec fn scan_from(args: Seq<Seq<char>>, i: nat, scan: FlagScan, with_console: bool) -> Result<
    FlagScan,
    ScanFailure,
>
    decreases args.len() - i,
{
    if i >= args.len() {
        Ok(scan)
    } else {
        let flag = args[i as int];
        if flag == "--runs"@ {
            if i + 1 >= args.len() {
                Err(ScanFailure::Missing("runs"@))
            } else {
                let raw = args[i + 1 as int];
                match crate::text::parsed_u32(raw) {
                    Some(n) => if n == 0 {
                        Err(ScanFailure::InvalidRuns(raw))
                    } else {
                        scan_from(args, i + 2, FlagScan { runs: n, ..scan }, with_console)
                    },
                    None => Err(ScanFailure::InvalidRuns(raw)),
                }
            }
        } else {
            match path_flag(flag, with_console) {
                Some(name) => if i + 1 >= args.len() {
                    Err(ScanFailure::Missing(name))
                } else {
                    scan_from(args, i + 2, set_path(scan, name, args[i + 1 as int]), with_console)
                },
                None => Err(ScanFailure::UnknownFlag(flag)),
            }
        }
    }
}

/// The first required path that was not given, in the order repo, store,
/// model, daemon, console (when asked for), output.
pub open spec fn first_missing(scan: FlagScan, with_console: bool) -> Option<Seq<char>> {
    if scan.repo is None {
        Some("repo"@)
    } else if scan.store is None {
        Some("store"@)
    } else if scan.model is None {
        Some("model"@)
    } else if scan.daemon is None {
        Some("daemon"@)
    } else if with_console && scan.console is None {
        Some("console"@)
    } else if scan.output is None {
        Some("output"@)
    } else {
        None
    }
}

/// What a measurement command line asks for, or why it is refused.
pub open spec fn measure_outcome(args: Seq<Seq<char>>, with_console: bool) -> Result<
    FlagScan,
    ScanFailure,
> {
    match scan_from(args, 0, scan_start(), with_console) {
        Ok(scan) => match first_missing(scan, with_console) {
            Some(name) => Err(ScanFailure::Missing(name)),
            None => Ok(scan),
        },
        Err(e) => Err(e),
    }
}

/// The characters of each argument.
pub open spec fn arg_views(args: Seq<String>) -> Seq<Seq<char>> {
    args.map_values(|a: String| a@)
}

/// Whether `err` reports `failure`.
pub open spec fn reports_failure(err: MeasureArgsError, failure: ScanFailure) -> bool {
    match failure {
        ScanFailure::Missing(name) => err matches MeasureArgsError::Missing(n) && n@ == name,
        ScanFailure::InvalidRuns(raw) => err matches MeasureArgsError::InvalidRuns(r) && r@ == raw,
        ScanFailure::UnknownFlag(flag) => err matches MeasureArgsError::UnknownFlag(f) && f@
            == flag,
    }
}

/// The value of an optional path, as characters.
pub open spec fn opt_view(o: Option<String>) -> Option<Seq<char>> {
    match o {
        Some(s) => Some(s@),
        None => None,
    }
}

/// The paths and runs scanned from a command line.
struct Scanned {
    repo: Option<String>,
    store: Option<String>,
    model: Option<String>,
    daemon: Option<String>,
    console: Option<String>,
    runs: u32,
    output: Option<String>,
}

impl Scanned {
    spec fn view_scan(self) -> FlagScan {
        FlagScan {
            repo: opt_view(self.repo),
            store: opt_view(self.store),
            model: opt_view(self.model),
            daemon: opt_view(self.daemon),
            console: opt_view(self.console),
            runs: self.runs,
            output: opt_view(self.output),
        }
    }
}

/// The name `name` refers to, as the static string errors carry.
fn path_name(flag: &str, with_console: bool) -> (res: Option<&'static str>)
    ensures
        match path_flag(flag@, with_console) {
            Some(name) => res matches Some(n) && n@ == name,
            None => res is None,
        },
{
    if crate::text::str_eq(flag, "--repo") {
        Some("repo")
    } else if crate::text::str_eq(flag, "--store") {
        Some("store")
    } else if crate::text::str_eq(flag, "--model") {
        Some("model")
    } else if crate::text::str_eq(flag, "--daemon") {
        Some("daemon")
    } else if crate::text::str_eq(flag, "--console") && with_console {
        Some("console")
    } else if crate::text::str_eq(flag, "--output") {
        Some("output")
    } else {
        None
    }
}

/// Scans the flags of a measurement command line.
fn scan_flags(args: &[String], with_console: bool) -> (res: Result<Scanned, MeasureArgsError>)
    ensures
        match scan_from(arg_views(args@), 0, scan_start(), with_console) {
            Ok(scan) => res is Ok && res->Ok_0.view_scan() == scan,
            Err(f) => res is Err && reports_failure(res->Err_0, f),
        },
{
    let ghost a = arg_views(args@);
    let mut cur = Scanned {
        repo: None,
        store: None,
        model: None,
        daemon: None,
        console: None,
        runs: 3,
        output: None,
    };
    let n = args.len();
    let mut i: usize = 0;
    while i < n
        invariant
            n == args@.len(),
            a == arg_views(args@),
            a.len() == n,
            i <= n + 1,
            scan_from(a, 0, scan_start(), with_console) == scan_from(
                a,
                i as nat,
                cur.view_scan(),
                with_console,
            ),
        decreases n + 1 - i,
    {
        let flag = args[i].as_str();
        assert(a[i as int] == flag@);
        if crate::text::str_eq(flag, "--runs") {
            if i + 1 >= n {
                return Err(MeasureArgsError::Missing("runs"));
            }
            let raw = &args[i + 1];
            assert(a[i + 1] == raw@);
            match crate::text::parse_u32(raw.as_str()) {
                Some(value) => {
                    if value == 0 {
                        return Err(MeasureArgsError::InvalidRuns(raw.clone()));
                    }
                    cur.runs = value;
                },
                None => {
                    return Err(MeasureArgsError::InvalidRuns(raw.clone()));
                },
            }
        } else {
            match path_name(flag, with_console) {
                Some(name) => {
                    if i + 1 >= n {
                        return Err(MeasureArgsError::Missing(name));
                    }
                    let value = args[i + 1].clone();
                    assert(a[i + 1] == value@);
                    if crate::text::str_eq(name, "repo") {
                        cur.repo = Some(value);
                    } else if crate::text::str_eq(name, "store") {
                        cur.store = Some(value);
                    } else if crate::text::str_eq(name, "model") {
                        cur.model = Some(value);
                    } else if crate::text::str_eq(name, "daemon") {
                        cur.daemon = Some(value);
                    } else if crate::text::str_eq(name, "console") {
                        cur.console = Some(value);
                    } else {
                        cur.output = Some(value);
                    }
                },
                None => {
                    return Err(MeasureArgsError::UnknownFlag(flag.to_owned()));
                },
            }
        }
        i = i + 2;
    }
    Ok(cur)
}

/// Takes a required path out of the scan, or reports it missing.
fn require(value: Option<String>, name: &'static str) -> (res: Result<String, MeasureArgsError>)
    ensures
        match value {
            Some(v) => res == Ok::<String, MeasureArgsError>(v),
            None => res matches Err(MeasureArgsError::Missing(n)) && n@ == name@,
        },
{
    match value {
        Some(v) => Ok(v),
        None => Err(MeasureArgsError::Missing(name)),
    }
}

/// Parses the command line of an observability measurement: `--repo`,
/// `--store`, `--model`, `--daemon` and `--output` are required, `--runs`
/// defaults to 3 and must be positive.
pub fn parse_measure_args(args: &[String]) -> (res: Result<MeasureArgs, MeasureArgsError>)
    ensures
        match measure_outcome(arg_views(args@), false) {
            Ok(scan) => res is Ok && {
                let m = res->Ok_0;
                &&& Some(m.repo@) == scan.repo
                &&& Some(m.store@) == scan.store
                &&& Some(m.model@) == scan.model
                &&& Some(m.daemon@) == scan.daemon
                &&& m.runs == scan.runs
                &&& Some(m.output@) == scan.output
            },
            Err(f) => res is Err && reports_failure(res->Err_0, f),
        },
{
    let cur = match scan_flags(args, false) {
        Ok(c) => c,
        Err(e) => return Err(e),
    };
    let repo = match require(cur.repo, "repo") {
        Ok(v) => v,
        Err(e) => return Err(e),
    };
    let store = match require(cur.store, "store") {
        Ok(v) => v,
        Err(e) => return Err(e),
    };
    let model = match require(cur.model, "model") {
        Ok(v) => v,
        Err(e) => return Err(e),
    };
    let daemon = match require(cur.daemon, "daemon") {
        Ok(v) => v,
        Err(e) => return Err(e),
    };
    let output = match require(cur.output, "output") {
        Ok(v) => v,
        Err(e) => return Err(e),
    };
    Ok(MeasureArgs { repo, store, model, daemon, runs: cur.runs, output })
}

/// Parses the command line of a console overhead measurement: as
/// [`parse_measure_args`], with `--console` required as well.
pub fn parse_console_measure_args(args: &[String]) -> (res: Result<
    ConsoleMeasureArgs,
    MeasureArgsError,
>)
    ensures
        match measure_outcome(arg_views(args@), true) {
            Ok(scan) => res is Ok && {
                let m = res->Ok_0;
                &&& Some(m.repo@) == scan.repo
                &&& Some(m.store@) == scan.store
                &&& Some(m.model@) == scan.model
                &&& Some(m.daemon@) == scan.daemon
                &&& Some(m.console@) == scan.console
                &&& m.runs == scan.runs
                &&& Some(m.output@) == scan.output
            },
            Err(f) => res is Err && reports_failure(res->Err_0, f),
        },
{
    let cur = match scan_flags(args, true) {
        Ok(c) => c,
        Err(e) => return Err(e),
    };
    let repo = match require(cur.repo, "repo") {
        Ok(v) => v,
        Err(e) => return Err(e),
    };
    let store = match require(cur.store, "store") {
        Ok(v) => v,
        Err(e) => return Err(e),
    };
    let model = match require(cur.model, "model") {
        Ok(v) => v,
        Err(e) => return Err(e),
    };
    let daemon = match require(cur.daemon, "daemon") {
        Ok(v) => v,
        Err(e) => return Err(e),
    };
    let console = match require(cur.console, "console") {
        Ok(v) => v,
        Err(e) => return Err(e),
    };
    let output = match require(cur.output, "output") {
        Ok(v) => v,
        Err(e) => return Err(e),
    };
    Ok(ConsoleMeasureArgs { repo, store, model, daemon, console, runs: cur.runs, output })
}

impl MeasureArgsError {
    /// The message shown for the error.
    pub fn message(&self) -> (res: String)
        ensures
            match *self {
                MeasureArgsError::Missing(name) => res@ == "missing required argument --"@
                    + name@,
                MeasureArgsError::InvalidRuns(raw) => res@ == "invalid --runs value: "@ + raw@,
                MeasureArgsError::UnknownFlag(flag) => res@ == "unknown argument: "@ + flag@,
            },
    {
        match self {
            MeasureArgsError::Missing(name) => crate::text::concat(
                "missing required argument --",
                name,
            ),
            MeasureArgsError::InvalidRuns(raw) => crate::text::concat(
                "invalid --runs value: ",
                raw.as_str(),
            ),
            MeasureArgsError::UnknownFlag(flag) => crate::text::concat(
                "unknown argument: ",
                flag.as_str(),
            ),
        }
    }
}

/// One measured run of the console overhead benchmark.
#[derive(Debug, Clone, PartialEq)]
pub struct ConsoleRunReport {
    pub collection: bool,
    pub run_index: u32,
    pub latencies_micros: Vec<u64>,
    pub p50_micros: u64,
    pub p95_micros: u64,
    pub daemon_rss_bytes: Option<u64>,
    pub console_rss_bytes: Option<u64>,
    pub device_id: Option<String>,
    pub device_used_bytes: Option<u64>,
    pub process_used_bytes: Option<u64>,
    pub sample_count: usize,
}

/// A figure of a run that the summary takes medians of.
#[derive(Debug, Clone, Copy, PartialEq, Eq, Structural)]
pub enum RunFigure {
    P50,
    P95,
    DaemonRss,
    ConsoleRss,
}

/// The figure of `run`, when the run has it.
pub open spec fn figure_of(run: ConsoleRunReport, figure: RunFigure) -> Option<u64> {
    match figure {
        RunFigure::P50 => Some(run.p50_micros),
        RunFigure::P95 => Some(run.p95_micros),
        RunFigure::DaemonRss => run.daemon_rss_bytes,
        RunFigure::ConsoleRss => run.console_rss_bytes,
    }
}

/// The figures of the runs with collection on (or off), in run order,
/// leaving out runs that lack the figure.
pub open spec fn figures(runs: Seq<ConsoleRunReport>, collection: bool, figure: RunFigure) -> Seq<
    u64,
>
    decreases runs.len(),
{
    if runs.len() == 0 {
        Seq::empty()
    } else {
        let rest = figures(runs.drop_last(), collection, figure);
        let last = runs.last();
        if last.collection == collection && figure_of(last, figure) is Some {
            rest.push(figure_of(last, figure)->Some_0)
        } else {
            rest
        }
    }
}

/// The medians that summarise paired console runs, by collection off and
/// on. The relative change of the p95 median is a ratio and is computed
/// where the summary is written.
#[derive(Debug, Clone, Copy, PartialEq, Eq)]
pub struct ConsoleMedians {
    pub runs_count: u32,
    pub collection_off_p50_median: Option<u64>,
    pub collection_off_p95_median: Option<u64>,
    pub collection_on_p50_median: Option<u64>,
    pub collection_on_p95_median: Option<u64>,
    pub daemon_rss_off_median: Option<u64>,
    pub daemon_rss_on_median: Option<u64>,
    pub console_rss_off_median: Option<u64>,
    pub console_rss_on_median: Option<u64>,
}

/// Collects one figure of the runs with collection on (or off).
fn collect_figures(runs: &Vec<ConsoleRunReport>, collection: bool, figure: RunFigure) -> (res: Vec<
    u64,
>)
    ensures
        res@ == figures(runs@, collection, figure),
{
    let mut out: Vec<u64> = Vec::new();
    let n = runs.len();
    for i in 0..n
        invariant
            n == runs@.len(),
            out@ == figures(runs@.take(i as int), collection, figure),
    {
        let run = &runs[i];
        assert(runs@.take(i + 1).drop_last() == runs@.take(i as int));
        assert(runs@.take(i + 1).last() == *run);
        let value = match figure {
            RunFigure::P50 => Some(run.p50_micros),
            RunFigure::P95 => Some(run.p95_micros),
            RunFigure::DaemonRss => run.daemon_rss_bytes,
            RunFigure::ConsoleRss => run.console_rss_bytes,
        };
        if run.collection == collection {
            if let Some(v) = value {
                out.push(v);
            }
        }
    }
    assert(runs@.take(n as int) == runs@);
    out
}

/// Summarises paired console runs: for collection off and on, the medians
/// of the p50 and p95 latencies and of the daemon and console resident
/// sizes of the runs that report them. The run count is the
/// number of runs, truncated to `u32` as a cast truncates.
pub fn aggregate_console_medians(runs: &Vec<ConsoleRunReport>) -> (res: ConsoleMedians)
    ensures
        res.runs_count == runs@.len() as u32,
        res.collection_off_p50_median == median_of(figures(runs@, false, RunFigure::P50)),
        res.collection_off_p95_median == median_of(figures(runs@, false, RunFigure::P95)),
        res.collection_on_p50_median == median_of(figures(runs@, true, RunFigure::P50)),
        res.collection_on_p95_median == median_of(figures(runs@, true, RunFigure::P95)),
        res.daemon_rss_off_median == median_of(figures(runs@, false, RunFigure::DaemonRss)),
        res.daemon_rss_on_median == median_of(figures(runs@, true, RunFigure::DaemonRss)),
        res.console_rss_off_median == median_of(figures(runs@, false, RunFigure::ConsoleRss)),
        res.console_rss_on_median == median_of(figures(runs@, true, RunFigure::ConsoleRss)),
{
    let off_p50 = collect_figures(runs, false, RunFigure::P50);
    let off_p95 = collect_figures(runs, false, RunFigure::P95);
    let on_p50 = collect_figures(runs, true, RunFigure::P50);
    let on_p95 = collect_figures(runs, true, RunFigure::P95);
    let daemon_off = collect_figures(runs, false, RunFigure::DaemonRss);
    let daemon_on = collect_figures(runs, true, RunFigure::DaemonRss);
    let console_off = collect_figures(runs, false, RunFigure::ConsoleRss);
    let console_on = collect_figures(runs, true, RunFigure::ConsoleRss);
    let runs_count: u32 = runs.len() as u32;
    ConsoleMedians {
        runs_count,
        collection_off_p50_median: median_u64(off_p50.as_slice()),
        collection_off_p95_median: median_u64(off_p95.as_slice()),
        collection_on_p50_median: median_u64(on_p50.as_slice()),
        collection_on_p95_median: median_u64(on_p95.as_slice()),
        daemon_rss_off_median: median_u64(daemon_off.as_slice()),
        daemon_rss_on_median: median_u64(daemon_on.as_slice()),
        console_rss_off_median: median_u64(console_off.as_slice()),
        console_rss_on_median: median_u64(console_on.as_slice()),
    }
}

} // verus!
