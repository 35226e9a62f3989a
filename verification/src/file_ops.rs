//! Planning of a batch run: per-file analysis records, the selective
//! hashing gate, bucket grouping, placement decisions and the final
//! report.
//!
//! Everything here is pure bookkeeping over plain values.  The caller
//! performs the filesystem probes and mutations between the steps and
//! feeds their outcomes back in; no error on one file may change the
//! outcome of another, except through the claimed-name set and the hash
//! index that the steps thread through explicitly.

use vstd::prelude::*;
use vstd::string::StringExecFns;
use vstd::string::StrSliceExecFns;

use crate::exif::ExifData;
use crate::naming::spec_bucket_of;
use crate::strutil::{find_last_char, lower_char, push_char, str_eq};
use crate::timestamp::CaptureTimestamp;

verus! {

/// How files are placed at their destination, selected once per batch.
#[derive(Clone, Copy, Debug, PartialEq, Eq, Structural)]
pub enum OperationMode {
    /// Rename, falling back to copy-then-delete across devices.
    Move,
    /// Copy, leaving the source intact.
    Copy,
    /// Create a symbolic link at the destination.
    Symlink,
}

/// The mode a mode string names, if any.
pub open spec fn spec_parse_mode(s: Seq<char>) -> Option<OperationMode> {
    if s == "move"@ {
        Some(OperationMode::Move)
    } else if s == "copy"@ {
        Some(OperationMode::Copy)
    } else if s == "symlink"@ {
        Some(OperationMode::Symlink)
    } else {
        None
    }
}

pub fn parse_mode(mode: &str) -> (r: Option<OperationMode>)
    ensures
        r == spec_parse_mode(mode@),
{
    if str_eq(mode, "move") {
        Some(OperationMode::Move)
    } else if str_eq(mode, "copy") {
        Some(OperationMode::Copy)
    } else if str_eq(mode, "symlink") {
        Some(OperationMode::Symlink)
    } else {
        None
    }
}

/// The name of a mode as it appears in diagnostics.
pub open spec fn mode_name(m: OperationMode) -> Seq<char> {
    match m {
        OperationMode::Move => "move"@,
        OperationMode::Copy => "copy"@,
        OperationMode::Symlink => "symlink"@,
    }
}

pub fn mode_str(m: OperationMode) -> (r: &'static str)
    ensures
        r@ == mode_name(m),
{
    match m {
        OperationMode::Move => "move",
        OperationMode::Copy => "copy",
        OperationMode::Symlink => "symlink",
    }
}

/// A configuration fault detected before any file is touched: the only
/// failures that abort a whole batch.
#[derive(Clone, Copy, Debug, PartialEq, Eq, Structural)]
pub enum ConfigError {
    /// The input list is empty.
    NoInputs,
    /// The mode string names no operation mode.
    InvalidMode,
}

impl ConfigError {
    pub fn message(&self) -> (r: String)
        ensures
            *self is NoInputs ==> r@ == "No files specified"@,
            *self is InvalidMode ==> r@ == "Invalid mode. Must be 'move', 'copy', or 'symlink'"@,
    {
        match self {
            ConfigError::NoInputs => String::from_str("No files specified"),
            ConfigError::InvalidMode => String::from_str(
                "Invalid mode. Must be 'move', 'copy', or 'symlink'",
            ),
        }
    }
}

/// Checks a batch configuration: some input files, and a known mode.
pub fn validate_config(n_files: usize, mode: &str) -> (r: Result<OperationMode, ConfigError>)
    ensures
        n_files == 0 ==> r == Result::<OperationMode, ConfigError>::Err(ConfigError::NoInputs),
        n_files > 0 ==> r == (match spec_parse_mode(mode@) {
            Some(m) => Result::<OperationMode, ConfigError>::Ok(m),
            None => Result::<OperationMode, ConfigError>::Err(ConfigError::InvalidMode),
        }),
{
    if n_files == 0 {
        return Err(ConfigError::NoInputs);
    }
    match parse_mode(mode) {
        Some(m) => Ok(m),
        None => Err(ConfigError::InvalidMode),
    }
}

/// The worker count for an I/O-bound pool: at most half the cores, at
/// least one, capped by an explicit request.
pub open spec fn spec_worker_count(requested: Option<usize>, cpus: usize) -> int {
    let half = cpus as int / 2;
    let base = match requested {
        Some(w) => (if (w as int) < half {
            w as int
        } else {
            half
        }),
        None => half,
    };
    if base < 1 {
        1
    } else {
        base
    }
}

pub fn worker_count(requested: Option<usize>, cpus: usize) -> (r: usize)
    ensures
        r == spec_worker_count(requested, cpus),
        r >= 1,
{
    let half = cpus / 2;
    let base = match requested {
        Some(w) => {
            if w < half {
                w
            } else {
                half
            }
        },
        None => half,
    };
    if base < 1 {
        1
    } else {
        base
    }
}

/// What the metadata-source chain yielded for one input file; the
/// caller performs the extraction and hands the outcome in.
#[derive(Clone)]
pub enum ExtractionOutcome {
    /// The input is a symbolic link and is skipped outright.
    Symlink,
    /// Every metadata source failed, with the last diagnostic.
    Failed(String),
    /// Some metadata source produced a bag.
    Extracted(crate::exif::MetadataBag),
}

/// The per-file record of the analysis phase, consumed unchanged by the
/// placement phase.
pub struct AnalysisResult {
    pub file_path: String,
    pub success: bool,
    pub error: Option<String>,
    pub exif_data: Option<ExifData>,
    pub new_filename: Option<String>,
}

/// The externally visible outcome for one input file.
#[derive(Clone)]
pub struct ProcessResult {
    pub file_path: String,
    pub success: bool,
    pub renamed: bool,
    pub new_path: Option<String>,
    pub error: Option<String>,
}

/// The lowercased extension of a path: the part of the final component
/// after its last dot, absent when there is no dot or the only dot
/// leads a hidden file's name.  A few malformed extensions that begin
/// with a stray `%` are mapped to their plain forms.
pub open spec fn spec_file_name(path: Seq<char>) -> Seq<char> {
    match path.index_of_last('/') {
        Some(i) => path.skip(i + 1),
        None => path,
    }
}

pub open spec fn spec_lower_ascii(s: Seq<char>) -> Seq<char> {
    s.map_values(|c: char| lower_char(c))
}

pub open spec fn spec_get_file_extension(path: Seq<char>) -> Seq<char> {
    let name = spec_file_name(path);
    match name.index_of_last('.') {
        Some(j) => (if j > 0 {
            let l = spec_lower_ascii(name.skip(j + 1));
            if l == "%jpg"@ || l == "%jpeg"@ {
                "jpg"@
            } else if l == "%mov"@ {
                "mov"@
            } else if l == "%mp4"@ {
                "mp4"@
            } else {
                l
            }
        } else {
            Seq::empty()
        }),
        None => Seq::empty(),
    }
}

/// Lowercases a string slice character by character.
fn lower_ascii_str(s: &str) -> (r: String)
    ensures
        r@ == spec_lower_ascii(s@),
{
    let n = s.unicode_len();
    let mut out = String::new();
    let mut i: usize = 0;
    while i < n
        invariant
            n == s@.len(),
            i <= n,
            out@.len() == i,
            forall|j: int| 0 <= j < i ==> out@[j] == lower_char(s@[j]),
        decreases n - i,
    {
        push_char(&mut out, crate::strutil::to_lower(s.get_char(i)));
        i = i + 1;
    }
    proof {
        assert(out@ =~= spec_lower_ascii(s@));
    }
    out
}

/// The lowercased, normalized extension of `file_path`.
pub fn get_file_extension(file_path: &str) -> (r: String)
    ensures
        r@ == spec_get_file_extension(file_path@),
{
    let n = file_path.unicode_len();
    let name_start: usize = match find_last_char(file_path, '/') {
        Some(i) => {
            proof {
                file_path@.index_of_last_ensures('/');
            }
            i + 1
        },
        None => 0,
    };
    let name = file_path.substring_char(name_start, n);
    proof {
        assert(name@ =~= spec_file_name(file_path@));
    }
    let dot = find_last_char(name, '.');
    match dot {
        Some(j) => {
            if j == 0 {
                String::new()
            } else {
                proof {
                    name@.index_of_last_ensures('.');
                }
                let raw = name.substring_char(j + 1, name.unicode_len());
                proof {
                    assert(raw@ =~= spec_file_name(file_path@).skip(j + 1));
                }
                let l = lower_ascii_str(raw);
                if str_eq(l.as_str(), "%jpg") || str_eq(l.as_str(), "%jpeg") {
                    String::from_str("jpg")
                } else if str_eq(l.as_str(), "%mov") {
                    String::from_str("mov")
                } else if str_eq(l.as_str(), "%mp4") {
                    String::from_str("mp4")
                } else {
                    l
                }
            }
        },
        None => String::new(),
    }
}


/// The view of an optional string.
pub open spec fn opt_view(o: Option<String>) -> Option<Seq<char>> {
    match o {
        Some(s) => Some(s@),
        None => None,
    }
}

/// The view of an optional borrowed string.
pub open spec fn opt_ref_view(o: Option<&String>) -> Option<Seq<char>> {
    match o {
        Some(s) => Some(s@),
        None => None,
    }
}

/// A directory and a relative path, joined with `/`.
pub open spec fn spec_join(dir: Seq<char>, name: Seq<char>) -> Seq<char> {
    dir + "/"@ + name
}

pub fn join_path(dir: &str, name: &str) -> (r: String)
    ensures
        r@ == spec_join(dir@, name@),
{
    let mut out = String::from_str(dir);
    out.append("/");
    out.append(name);
    proof {
        assert(out@ =~= spec_join(dir@, name@));
    }
    out
}

/// The absolute target a successful analysis proposes under `dir`.
pub open spec fn target_spec(r: AnalysisResult, dir: Seq<char>) -> Option<Seq<char>> {
    if r.success && r.exif_data is Some && r.new_filename is Some {
        Some(spec_join(dir, r.new_filename.unwrap()@))
    } else {
        None
    }
}

/// The provisional target path of every analysis record, aligned with
/// the input; failed records get none.
pub fn provisional_targets(results: &Vec<AnalysisResult>, output_dir: &str) -> (r: Vec<
    Option<String>,
>)
    ensures
        r@.len() == results@.len(),
        forall|i: int|
            0 <= i < results@.len() ==> opt_view(#[trigger] r@[i]) == target_spec(
                results@[i],
                output_dir@,
            ),
{
    let n = results.len();
    let mut out: Vec<Option<String>> = Vec::new();
    let mut i: usize = 0;
    while i < n
        invariant
            n == results@.len(),
            i <= n,
            out@.len() == i,
            forall|j: int|
                0 <= j < i ==> opt_view(#[trigger] out@[j]) == target_spec(
                    results@[j],
                    output_dir@,
                ),
        decreases n - i,
    {
        let res = &results[i];
        if res.success && res.exif_data.is_some() && res.new_filename.is_some() {
            let name = res.new_filename.as_ref().unwrap();
            out.push(Some(join_path(output_dir, name.as_str())));
        } else {
            out.push(None);
        }
        i = i + 1;
    }
    out
}

/// The files the selective-hash gate must digest: for every analysis
/// whose provisional target already exists on disk, the source path and
/// the target path, in input order.  Files without an on-disk collision
/// are never hashed.
pub open spec fn spec_hash_candidates(
    rs: Seq<AnalysisResult>,
    ts: Seq<Option<String>>,
    ex: Seq<bool>,
) -> Seq<Seq<char>>
    decreases rs.len(),
{
    if rs.len() == 0 || rs.len() != ts.len() || rs.len() != ex.len() {
        Seq::empty()
    } else {
        let head = spec_hash_candidates(rs.drop_last(), ts.drop_last(), ex.drop_last());
        if ts.last() is Some && ex.last() {
            head + seq![rs.last().file_path@, ts.last().unwrap()@]
        } else {
            head
        }
    }
}

pub fn files_needing_hash(
    results: &Vec<AnalysisResult>,
    targets: &Vec<Option<String>>,
    target_exists: &Vec<bool>,
) -> (r: Vec<String>)
    requires
        targets@.len() == results@.len(),
        target_exists@.len() == results@.len(),
    ensures
        r@.map_values(|s: String| s@) == spec_hash_candidates(
            results@,
            targets@,
            target_exists@,
        ),
{
    let n = results.len();
    let mut out: Vec<String> = Vec::new();
    proof {
        assert(results@.take(0) =~= Seq::<AnalysisResult>::empty());
        assert(out@.map_values(|s: String| s@) =~= spec_hash_candidates(
            results@.take(0),
            targets@.take(0),
            target_exists@.take(0),
        ));
    }
    let mut i: usize = 0;
    while i < n
        invariant
            n == results@.len(),
            targets@.len() == n,
            target_exists@.len() == n,
            i <= n,
            out@.map_values(|s: String| s@) == spec_hash_candidates(
                results@.take(i as int),
                targets@.take(i as int),
                target_exists@.take(i as int),
            ),
        decreases n - i,
    {
        proof {
            assert(results@.take(i + 1).drop_last() =~= results@.take(i as int));
            assert(targets@.take(i + 1).drop_last() =~= targets@.take(i as int));
            assert(target_exists@.take(i + 1).drop_last() =~= target_exists@.take(i as int));
            assert(results@.take(i + 1).last() == results@[i as int]);
            assert(targets@.take(i + 1).last() == targets@[i as int]);
            assert(target_exists@.take(i + 1).last() == target_exists@[i as int]);
        }
        if target_exists[i] && targets[i].is_some() {
            out.push(results[i].file_path.clone());
            let t = targets[i].as_ref().unwrap().clone();
            out.push(t);
            proof {
                assert(out@.map_values(|s: String| s@) =~= spec_hash_candidates(
                    results@.take(i + 1),
                    targets@.take(i + 1),
                    target_exists@.take(i + 1),
                ));
            }
        } else {
            proof {
                assert(out@.map_values(|s: String| s@) =~= spec_hash_candidates(
                    results@.take(i + 1),
                    targets@.take(i + 1),
                    target_exists@.take(i + 1),
                ));
            }
        }
        i = i + 1;
    }
    proof {
        assert(results@.take(n as int) =~= results@);
        assert(targets@.take(n as int) =~= targets@);
        assert(target_exists@.take(n as int) =~= target_exists@);
    }
    out
}

/// What to do with one file once its final target is known.
#[derive(Clone, Copy, Debug, PartialEq, Eq, Structural)]
pub enum PlacementDecision {
    /// The target holds byte-identical content: leave everything alone.
    SkipDuplicate,
    /// The target is the source itself: nothing to do.
    SkipNoop,
    /// Place the file.
    Perform,
}

/// The placement decision: a content duplicate is skipped only when the
/// target exists and both hashes are known and equal; a missing hash is
/// treated as "not a duplicate" and the placement proceeds.
pub open spec fn spec_placement_decision(
    src: Seq<char>,
    tgt: Seq<char>,
    target_exists: bool,
    input_hash: Option<Seq<char>>,
    existing_hash: Option<Seq<char>>,
) -> PlacementDecision {
    if target_exists && input_hash is Some && existing_hash is Some && input_hash.unwrap()
        == existing_hash.unwrap() {
        PlacementDecision::SkipDuplicate
    } else if tgt == src {
        PlacementDecision::SkipNoop
    } else {
        PlacementDecision::Perform
    }
}

pub fn placement_decision(
    source_path: &String,
    target_path: &String,
    target_exists: bool,
    input_hash: Option<&String>,
    existing_hash: Option<&String>,
) -> (r: PlacementDecision)
    ensures
        r == spec_placement_decision(
            source_path@,
            target_path@,
            target_exists,
            opt_ref_view(input_hash),
            opt_ref_view(existing_hash),
        ),
{
    if target_exists {
        if let (Some(ih), Some(eh)) = (input_hash, existing_hash) {
            if str_eq(ih.as_str(), eh.as_str()) {
                return PlacementDecision::SkipDuplicate;
            }
        }
    }
    if str_eq(target_path.as_str(), source_path.as_str()) {
        PlacementDecision::SkipNoop
    } else {
        PlacementDecision::Perform
    }
}

/// The record of a file left in place because its content already sits
/// at the target.
pub fn duplicate_result(file_path: String) -> (r: ProcessResult)
    ensures
        r.file_path == file_path,
        r.success,
        !r.renamed,
        r.new_path is None,
        r.error matches Some(e) && e@ == "Content duplicate"@,
{
    ProcessResult {
        file_path,
        success: true,
        renamed: false,
        new_path: None,
        error: Some(String::from_str("Content duplicate")),
    }
}

/// The record of a file already bearing its final name.
pub fn noop_result(file_path: String) -> (r: ProcessResult)
    ensures
        r.file_path == file_path,
        r.success,
        !r.renamed,
        r.new_path is None,
        r.error matches Some(e) && e@ == "No rename needed"@,
{
    ProcessResult {
        file_path,
        success: true,
        renamed: false,
        new_path: None,
        error: Some(String::from_str("No rename needed")),
    }
}

/// The record of a file that never reached placement; its analysis
/// verdict and diagnostic carry over unchanged.
pub fn unplaced_result(a: AnalysisResult) -> (r: ProcessResult)
    ensures
        r.file_path == a.file_path,
        r.success == a.success,
        !r.renamed,
        r.new_path is None,
        r.error == a.error,
{
    ProcessResult {
        file_path: a.file_path,
        success: a.success,
        renamed: false,
        new_path: None,
        error: a.error,
    }
}

/// The diagnostic for a failed filesystem operation.
pub open spec fn spec_fail_message(mode: OperationMode, e: Seq<char>) -> Seq<char> {
    "Failed to "@ + mode_name(mode) + " file: "@ + e
}

/// Records the outcome of the filesystem mutation for one file: on
/// success the final name joins the bucket's claimed set and the record
/// shows the new path; on failure the claimed set is untouched and the
/// error text is carried verbatim, isolated to this file.
pub fn record_outcome(
    existing_files: &mut Vec<String>,
    final_filename: String,
    file_path: String,
    target_path: String,
    mode: OperationMode,
    op_result: Result<(), String>,
) -> (r: ProcessResult)
    ensures
        op_result is Ok ==> {
            &&& final(existing_files)@ == old(existing_files)@.push(final_filename)
            &&& r.file_path == file_path
            &&& r.success
            &&& r.renamed
            &&& r.new_path == Some(target_path)
            &&& r.error is None
        },
        op_result matches Err(e) ==> {
            &&& final(existing_files)@ == old(existing_files)@
            &&& r.file_path == file_path
            &&& !r.success
            &&& !r.renamed
            &&& r.new_path is None
            &&& (r.error matches Some(msg) && msg@ == spec_fail_message(mode, e@))
        },
{
    match op_result {
        Ok(()) => {
            existing_files.push(final_filename);
            ProcessResult {
                file_path,
                success: true,
                renamed: true,
                new_path: Some(target_path),
                error: None,
            }
        },
        Err(e) => {
            let mut msg = String::from_str("Failed to ");
            msg.append(mode_str(mode));
            msg.append(" file: ");
            msg.append(e.as_str());
            proof {
                assert(msg@ =~= spec_fail_message(mode, e@));
            }
            ProcessResult {
                file_path,
                success: false,
                renamed: false,
                new_path: None,
                error: Some(msg),
            }
        },
    }
}

/// The counts a batch report renders.
#[derive(Clone, Copy, Debug, PartialEq, Eq, Structural)]
pub struct ProcessingSummary {
    pub processed: usize,
    pub renamed: usize,
    pub skipped: usize,
    pub errors: usize,
}

/// Counts every record exactly once: renamed, skipped (successful but
/// left in place), or failed; the three classes partition the batch.
pub fn summarize(results: &Vec<ProcessResult>) -> (r: ProcessingSummary)
    ensures
        r.processed == results@.len(),
        r.renamed == results@.filter(|x: ProcessResult| x.success && x.renamed).len(),
        r.skipped == results@.filter(|x: ProcessResult| x.success && !x.renamed).len(),
        r.errors == results@.filter(|x: ProcessResult| !x.success).len(),
        r.renamed + r.skipped + r.errors == r.processed,
{
    let n = results.len();
    let mut renamed: usize = 0;
    let mut skipped: usize = 0;
    let mut errors: usize = 0;
    proof {
        assert(results@.take(0) =~= Seq::<ProcessResult>::empty());
        reveal(Seq::filter);
    }
    let mut i: usize = 0;
    while i < n
        invariant
            n == results@.len(),
            i <= n,
            renamed == results@.take(i as int).filter(|x: ProcessResult| x.success && x.renamed).len(),
            skipped == results@.take(i as int).filter(
                |x: ProcessResult| x.success && !x.renamed,
            ).len(),
            errors == results@.take(i as int).filter(|x: ProcessResult| !x.success).len(),
            renamed + skipped + errors == i,
        decreases n - i,
    {
        proof {
            let pre = results@.take(i as int);
            let cur = results@.take(i + 1);
            assert(cur.drop_last() =~= pre);
            assert(cur.last() == results@[i as int]);
            reveal_filter_step::<ProcessResult>(cur, |x: ProcessResult| x.success && x.renamed);
            reveal_filter_step::<ProcessResult>(cur, |x: ProcessResult| x.success && !x.renamed);
            reveal_filter_step::<ProcessResult>(cur, |x: ProcessResult| !x.success);
        }
        let res = &results[i];
        if res.success && res.renamed {
            renamed = renamed + 1;
        } else if res.success {
            skipped = skipped + 1;
        } else {
            errors = errors + 1;
        }
        i = i + 1;
    }
    proof {
        assert(results@.take(n as int) =~= results@);
    }
    ProcessingSummary { processed: n, renamed, skipped, errors }
}

/// The placeable records and the rest split a batch without loss.
proof fn lemma_placeable_split_len(s: Seq<AnalysisResult>)
    ensures
        s.filter(|x: AnalysisResult| placeable(x)).len() + s.filter(
            |x: AnalysisResult| !placeable(x),
        ).len() == s.len(),
    decreases s.len(),
{
    reveal(Seq::filter);
    if s.len() > 0 {
        lemma_placeable_split_len(s.drop_last());
        reveal_filter_step::<AnalysisResult>(s, |x: AnalysisResult| placeable(x));
        reveal_filter_step::<AnalysisResult>(s, |x: AnalysisResult| !placeable(x));
    }
}

/// One unfolding of `filter` at the last element.
proof fn reveal_filter_step<A>(s: Seq<A>, p: spec_fn(A) -> bool)
    requires
        s.len() > 0,
    ensures
        s.filter(p) == if p(s.last()) {
            s.drop_last().filter(p).push(s.last())
        } else {
            s.drop_last().filter(p)
        },
    decreases s.len(),
{
    reveal(Seq::filter);
}


/// The analysis record enters placement: it succeeded and carries both
/// a resolved instant and a provisional name.
pub open spec fn placeable(r: AnalysisResult) -> bool {
    r.success && r.exif_data is Some && r.new_filename is Some
}

/// The report record of an analysis that never reaches placement.
pub open spec fn spec_unplaced(a: AnalysisResult) -> ProcessResult {
    ProcessResult {
        file_path: a.file_path,
        success: a.success,
        renamed: false,
        new_path: None,
        error: a.error,
    }
}

/// Splits a batch into the records that enter placement, in order, and
/// the finished report records of all others, in order.
pub fn partition_placeable(results: Vec<AnalysisResult>) -> (r: (
    Vec<AnalysisResult>,
    Vec<ProcessResult>,
))
    ensures
        r.0@ == results@.filter(|x: AnalysisResult| placeable(x)),
        r.1@ == results@.filter(|x: AnalysisResult| !placeable(x)).map_values(
            |x: AnalysisResult| spec_unplaced(x),
        ),
        r.0@.len() + r.1@.len() == results@.len(),
{
    proof {
        lemma_placeable_split_len(results@);
    }
    let ghost orig = results@;
    let mut rest = results;
    let total = rest.len();
    proof {
        assert(orig.len() == total);
    }
    let mut place: Vec<AnalysisResult> = Vec::new();
    let mut other: Vec<ProcessResult> = Vec::new();
    let mut j: usize = 0;
    proof {
        assert(orig.take(0) =~= Seq::<AnalysisResult>::empty());
        reveal(Seq::filter);
        assert(place@ =~= orig.take(0).filter(|x: AnalysisResult| placeable(x)));
        assert(other@ =~= orig.take(0).filter(|x: AnalysisResult| !placeable(x)).map_values(
            |x: AnalysisResult| spec_unplaced(x),
        ));
        assert(rest@ =~= orig.skip(0));
    }
    while rest.len() > 0
        invariant
            orig.len() <= usize::MAX,
            j + rest@.len() == orig.len(),
            rest@ == orig.skip(j as int),
            place@ == orig.take(j as int).filter(|x: AnalysisResult| placeable(x)),
            other@ == orig.take(j as int).filter(|x: AnalysisResult| !placeable(x)).map_values(
                |x: AnalysisResult| spec_unplaced(x),
            ),
        decreases rest@.len(),
    {
        let a = rest.remove(0);
        proof {
            assert(orig.skip(j as int)[0] == orig[j as int]);
            assert(orig.skip(j as int).remove(0) =~= orig.skip(j as int + 1));
            let cur = orig.take(j as int + 1);
            assert(cur.drop_last() =~= orig.take(j as int));
            assert(cur.last() == orig[j as int]);
            reveal_filter_step::<AnalysisResult>(cur, |x: AnalysisResult| placeable(x));
            reveal_filter_step::<AnalysisResult>(cur, |x: AnalysisResult| !placeable(x));
        }
        if a.success && a.exif_data.is_some() && a.new_filename.is_some() {
            place.push(a);
        } else {
            let pr = unplaced_result(a);
            other.push(pr);
            proof {
                let prev = orig.take(j as int).filter(|x: AnalysisResult| !placeable(x));
                assert(orig.take(j as int + 1).filter(|x: AnalysisResult| !placeable(x))
                    =~= prev.push(orig[j as int]));
                assert(prev.push(orig[j as int]).map_values(|x: AnalysisResult| spec_unplaced(x))
                    =~= prev.map_values(|x: AnalysisResult| spec_unplaced(x)).push(
                    spec_unplaced(orig[j as int]),
                ));
                assert(pr == spec_unplaced(orig[j as int]));
            }
        }
        j = j + 1;
    }
    proof {
        assert(orig.take(j as int) =~= orig);
    }
    (place, other)
}

/// The bucket of a placeable record.
pub open spec fn res_bucket(r: AnalysisResult) -> Seq<char>
    recommends
        r.exif_data is Some,
{
    spec_bucket_of(r.exif_data.unwrap().timestamp)
}

/// The `{year}/{month:02}-{Mon}` bucket directory of an instant.
pub fn bucket_of(ts: &CaptureTimestamp) -> (r: String)
    requires
        ts.valid(),
    ensures
        r@ == spec_bucket_of(*ts),
{
    let mut out = String::new();
    crate::strutil::push_dec_u64(&mut out, ts.year as u64);
    out.append("/");
    crate::strutil::push_dec2(&mut out, ts.month);
    out.append("-");
    out.append(crate::naming::month_abbrev_str(ts.month));
    proof {
        assert(out@ =~= spec_bucket_of(*ts));
    }
    out
}

fn find_group(groups: &Vec<(String, Vec<AnalysisResult>)>, key: &String) -> (r: Option<usize>)
    ensures
        match r {
            Some(g) => g < groups@.len() && groups@[g as int].0@ == key@,
            None => forall|g: int| 0 <= g < groups@.len() ==> (#[trigger] groups@[g]).0@ != key@,
        },
{
    let n = groups.len();
    let mut gi: usize = 0;
    while gi < n
        invariant
            n == groups@.len(),
            gi <= n,
            forall|g: int| 0 <= g < gi ==> (#[trigger] groups@[g]).0@ != key@,
        decreases n - gi,
    {
        if str_eq(groups[gi].0.as_str(), key.as_str()) {
            return Some(gi);
        }
        gi = gi + 1;
    }
    None
}

/// Some group carries key `b`.
pub open spec fn bucket_key_present(groups: Seq<(String, Vec<AnalysisResult>)>, b: Seq<char>) -> bool {
    exists|g: int| 0 <= g < groups.len() && (#[trigger] groups[g]).0@ == b
}

/// Partitions placeable records by their output bucket.  Group keys are
/// pairwise distinct; each group holds exactly the records of its
/// bucket, in input order; every record lands in the group of its
/// bucket.  Distinct buckets share no path, so groups may be placed
/// concurrently, while order within a group is what makes tie-breaking
/// deterministic.
pub fn group_by_bucket(placeable: Vec<AnalysisResult>) -> (groups: Vec<
    (String, Vec<AnalysisResult>),
>)
    requires
        forall|i: int|
            0 <= i < placeable@.len() ==> (#[trigger] placeable@[i]).exif_data is Some
                && placeable@[i].exif_data.unwrap().timestamp.valid(),
    ensures
        forall|g: int|
            0 <= g < groups@.len() ==> (#[trigger] groups@[g]).1@ == placeable@.filter(
                |x: AnalysisResult| res_bucket(x) == groups@[g].0@,
            ),
        forall|g1: int, g2: int|
            0 <= g1 < g2 < groups@.len() ==> (#[trigger] groups@[g1]).0@ != (
            #[trigger] groups@[g2]).0@,
        forall|i: int|
            0 <= i < placeable@.len() ==> bucket_key_present(
                groups@,
                res_bucket(#[trigger] placeable@[i]),
            ),
{
    let ghost orig = placeable@;
    let mut rest = placeable;
    let total = rest.len();
    proof {
        assert(orig.len() == total);
    }
    let mut groups: Vec<(String, Vec<AnalysisResult>)> = Vec::new();
    let mut j: usize = 0;
    proof {
        assert(rest@ =~= orig.skip(0));
    }
    while rest.len() > 0
        invariant
            orig.len() <= usize::MAX,
            j + rest@.len() == orig.len(),
            rest@ == orig.skip(j as int),
            forall|i: int|
                0 <= i < orig.len() ==> (#[trigger] orig[i]).exif_data is Some
                    && orig[i].exif_data.unwrap().timestamp.valid(),
            forall|g: int|
                0 <= g < groups@.len() ==> (#[trigger] groups@[g]).1@ == orig.take(
                    j as int,
                ).filter(|x: AnalysisResult| res_bucket(x) == groups@[g].0@),
            forall|g1: int, g2: int|
                0 <= g1 < g2 < groups@.len() ==> (#[trigger] groups@[g1]).0@ != (
                #[trigger] groups@[g2]).0@,
            forall|i: int|
                0 <= i < j ==> bucket_key_present(groups@, res_bucket(#[trigger] orig[i])),
        decreases rest@.len(),
    {
        let a = rest.remove(0);
        proof {
            assert(orig.skip(j as int)[0] == orig[j as int]);
            assert(orig.skip(j as int).remove(0) =~= orig.skip(j as int + 1));
            assert(orig[j as int].exif_data is Some);
        }
        let b = bucket_of(&a.exif_data.as_ref().unwrap().timestamp);
        let ghost bb = b@;
        let ghost cur = orig.take(j as int + 1);
        proof {
            assert(cur.drop_last() =~= orig.take(j as int));
            assert(cur.last() == orig[j as int]);
            assert(res_bucket(orig[j as int]) == bb);
        }
        match find_group(&groups, &b) {
            Some(g) => {
                let ghost old_groups = groups@;
                let pair = groups.remove(g);
                let (key0, mut members) = pair;
                members.push(a);
                let ghost pair2 = (key0, members);
                groups.insert(g, (key0, members));
                proof {
                    assert(groups@ =~= old_groups.update(g as int, pair2));
                    assert(groups@.len() == old_groups.len());
                    assert(pair2.0 == old_groups[g as int].0);
                    assert(groups@[g as int].0@ == bb);
                    assert forall|i: int| 0 <= i < j + 1 implies bucket_key_present(
                        groups@,
                        res_bucket(#[trigger] orig[i]),
                    ) by {
                        if i == j {
                            assert(groups@[g as int].0@ == res_bucket(orig[i]));
                        } else {
                            assert(bucket_key_present(old_groups, res_bucket(orig[i])));
                            let g0 = choose|g0: int|
                                0 <= g0 < old_groups.len() && (#[trigger] old_groups[g0]).0@
                                    == res_bucket(orig[i]);
                            assert(groups@[g0].0@ == old_groups[g0].0@);
                        }
                    }
                    assert forall|g2: int| 0 <= g2 < groups@.len() implies (
                    #[trigger] groups@[g2]).1@ == cur.filter(
                        |x: AnalysisResult| res_bucket(x) == groups@[g2].0@,
                    ) by {
                        reveal_filter_step::<AnalysisResult>(
                            cur,
                            |x: AnalysisResult| res_bucket(x) == groups@[g2].0@,
                        );
                        if g2 == g {
                            assert(groups@[g2].0@ == bb);
                            assert(groups@[g2].1@ =~= old_groups[g2].1@.push(orig[j as int]));
                        } else {
                            assert(groups@[g2] == old_groups[g2]);
                            assert(old_groups[g2].0@ != bb);
                        }
                    }
                }
            },
            None => {
                let ghost old_groups = groups@;
                let mut members: Vec<AnalysisResult> = Vec::new();
                members.push(a);
                groups.push((b, members));
                proof {
                    let gl = groups@.len();
                    assert(groups@.drop_last() =~= old_groups);
                    assert(groups@[gl - 1].0@ == bb);
                    assert(groups@[gl - 1].1@ =~= seq![orig[j as int]]);
                    assert forall|i: int| 0 <= i < j + 1 implies bucket_key_present(
                        groups@,
                        res_bucket(#[trigger] orig[i]),
                    ) by {
                        if i == j {
                            assert(groups@[gl - 1].0@ == res_bucket(orig[i]));
                        } else {
                            assert(bucket_key_present(old_groups, res_bucket(orig[i])));
                            let g0 = choose|g0: int|
                                0 <= g0 < old_groups.len() && (#[trigger] old_groups[g0]).0@
                                    == res_bucket(orig[i]);
                            assert(groups@[g0] == old_groups[g0]);
                        }
                    }
                    assert forall|i: int| 0 <= i < j implies res_bucket(#[trigger] orig[i]) != bb
                        by {
                        assert(bucket_key_present(old_groups, res_bucket(orig[i])));
                        let g0 = choose|g0: int|
                            0 <= g0 < old_groups.len() && (#[trigger] old_groups[g0]).0@
                                == res_bucket(orig[i]);
                    }
                    assert forall|g2: int| 0 <= g2 < gl implies (#[trigger] groups@[g2]).1@
                        == cur.filter(|x: AnalysisResult| res_bucket(x) == groups@[g2].0@) by {
                        reveal_filter_step::<AnalysisResult>(
                            cur,
                            |x: AnalysisResult| res_bucket(x) == groups@[g2].0@,
                        );
                        if g2 == gl - 1 {
                            let pred = |x: AnalysisResult| res_bucket(x) == bb;
                            assert(orig.take(j as int).all(|x: AnalysisResult| !pred(x))) by {
                                assert forall|i: int|
                                    0 <= i < j implies !pred(#[trigger] orig.take(j as int)[i])
                                    by {
                                    assert(orig.take(j as int)[i] == orig[i]);
                                }
                            }
                            orig.take(j as int).lemma_all_neg_filter_empty(pred);
                            assert(orig.take(j as int).filter(pred) =~= Seq::<
                                AnalysisResult,
                            >::empty());
                            assert(groups@[g2].1@ =~= orig.take(j as int).filter(pred).push(
                                orig[j as int],
                            ));
                        } else {
                            assert(groups@[g2] == old_groups[g2]);
                            assert(old_groups[g2].0@ != bb);
                        }
                    }
                }
            },
        }
        j = j + 1;
    }
    proof {
        assert(orig.take(j as int) =~= orig);
        assert forall|i: int| 0 <= i < placeable@.len() implies bucket_key_present(
            groups@,
            res_bucket(#[trigger] placeable@[i]),
        ) by {
            assert(placeable@[i] == orig[i]);
        }
    }
    groups
}

/// The fixed set of media file extensions a batch scan picks up,
/// compared case-insensitively.
pub open spec fn spec_is_media_extension(ext: Seq<char>) -> bool {
    let l = spec_lower_ascii(ext);
    ||| l == "jpg"@
    ||| l == "jpeg"@
    ||| l == "png"@
    ||| l == "tiff"@
    ||| l == "tif"@
    ||| l == "hif"@
    ||| l == "heic"@
    ||| l == "cr2"@
    ||| l == "mov"@
    ||| l == "mp4"@
    ||| l == "avi"@
    ||| l == "3gp"@
    ||| l == "dng"@
    ||| l == "m4v"@
    ||| l == "mkv"@
}

pub fn is_media_extension(ext: &str) -> (r: bool)
    ensures
        r == spec_is_media_extension(ext@),
{
    let l = lower_ascii_str(ext);
    let s = l.as_str();
    str_eq(s, "jpg") || str_eq(s, "jpeg") || str_eq(s, "png") || str_eq(s, "tiff") || str_eq(
        s,
        "tif",
    ) || str_eq(s, "hif") || str_eq(s, "heic") || str_eq(s, "cr2") || str_eq(s, "mov") || str_eq(
        s,
        "mp4",
    ) || str_eq(s, "avi") || str_eq(s, "3gp") || str_eq(s, "dng") || str_eq(s, "m4v") || str_eq(
        s,
        "mkv",
    )
}

} // verus!
