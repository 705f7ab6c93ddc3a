//! The scan: which of the files found under a root are taken, in which order
//! they are worked through, and the report that comes of it.

use crate::error::{ErrorView, TalosError, TalosResult};
use crate::extractor::{extraction, infer_lang_from_ext, lang_of_path, registry_error, Grammars};
use crate::laws::{
    in_plan_order, in_report_order, law_report_in_order, lemma_insert_keeps_order,
    lemma_insert_position, lemma_order_chain,
};
use crate::globs::{left_out, passes, sets_outcome, taken_in, PathFilter};
use crate::model::{
    directory_views, error_views, file_views, DirectoryEntry, DirectoryView, Document,
    DocumentView, ErrorEntry, ErrorEntryView, FileEntry, FileView,
};
use crate::paths::{
    extension, extract_file_name, parent, path_extension, path_parent, path_relative_to,
    relative_to, shown_name,
};
use crate::sequences::lemma_take_push;
use crate::signature_set::strictly_sorted;
use crate::text::{compare, lowercased, same_text, str_lt, texts, Order};
use crate::types::{Extensions, GlobPatterns, MaxFileSize};
use time::format_description::well_known::Rfc3339;
use time::OffsetDateTime;
use vstd::prelude::*;

verus! {

/// How a scan is configured.
pub struct ScanOptions {
    pub allowed_exts: Extensions,
    pub include_globs: GlobPatterns,
    pub exclude_globs: GlobPatterns,
    pub max_file_size: Option<MaxFileSize>,
    pub terse_output: bool,
}

/// A file found under the root: its path as the walk gave it, its size where
/// the file system told it, and its text, or the reason why it could not be
/// read.
#[derive(Debug)]
pub struct SourceFile {
    pub path: String,
    pub size: Option<u64>,
    pub content: Result<String, String>,
}

/// A `SourceFile` as specifications see it.
pub struct SourceView {
    pub path: Seq<char>,
    pub size: Option<u64>,
    pub content: Result<Seq<char>, Seq<char>>,
}

impl View for SourceFile {
    type V = SourceView;

    open spec fn view(&self) -> SourceView {
        SourceView {
            path: self.path@,
            size: self.size,
            content: match self.content {
                Ok(code) => Ok(code@),
                Err(reason) => Err(reason@),
            },
        }
    }
}

/// The views of a list of source files.
pub open spec fn source_views(files: Vec<SourceFile>) -> Seq<SourceView> {
    files@.map_values(|f: SourceFile| f@)
}

/// What decides whether a file is taken: the extensions allowed, the size
/// limit, and the patterns that take paths in and leave them out. Terse
/// mode is no part of it: it decides what is listed of what was taken.
pub struct Filter {
    pub extensions: Seq<Seq<char>>,
    pub max_size: Option<u64>,
    pub includes: Option<Seq<Seq<char>>>,
    pub excludes: Seq<Seq<char>>,
}

impl ScanOptions {
    /// The size limit, if one is set.
    pub open spec fn size_limit(&self) -> Option<u64> {
        match self.max_file_size {
            Some(max) => Some(max@),
            None => None,
        }
    }

    /// The filter that the options stand for. The default leave-out patterns
    /// come before the user's; blank patterns do not count; without take-in
    /// patterns every path is taken in.
    pub open spec fn filter(&self) -> Filter {
        Filter {
            extensions: self.allowed_exts@,
            max_size: self.size_limit(),
            includes: taken_in(self.include_globs@),
            excludes: left_out(self.exclude_globs@),
        }
    }
}

/// Whether the extension of the path, whatever its case, is among `allowed`.
/// A path without an extension counts as having the empty one.
pub open spec fn extension_allowed(path: Seq<char>, allowed: Seq<Seq<char>>) -> bool {
    allowed.contains(
        lowercased(
            match path_extension(path) {
                Some(ext) => ext,
                None => Seq::empty(),
            },
        ),
    )
}

/// Whether a file of this size is within the limit. A file of unknown size
/// is, and so is every file where there is no limit.
pub open spec fn size_allowed(size: Option<u64>, limit: Option<u64>) -> bool {
    match (limit, size) {
        (Some(max), Some(bytes)) => bytes <= max,
        _ => true,
    }
}

/// Whether a file found under `root` is taken: its extension is allowed and
/// has a registered language, it is not too large, no leave-out pattern
/// matches its path as seen from the root and, where there are take-in
/// patterns, one of them does.
pub open spec fn eligible(file: SourceView, root: Seq<char>, filter: Filter) -> bool {
    &&& extension_allowed(file.path, filter.extensions)
    &&& lang_of_path(file.path) is Some
    &&& size_allowed(file.size, filter.max_size)
    &&& passes(relative_to(file.path, root), filter.includes, filter.excludes)
}

/// Whether the extension of the path is among the allowed ones.
pub fn matches_allowed_ext(path: &str, extensions: &Extensions) -> (r: bool)
    ensures
        r == extension_allowed(path@, extensions@),
{
    match extension(path) {
        Some(ext) => extensions.contains(ext.as_str()),
        None => {
            let none = "";
            proof {
                reveal_strlit("");
                assert(none@ =~= Seq::<char>::empty());
            }
            extensions.contains(none)
        },
    }
}

/// Whether a file may be scanned, by its extension and its size.
pub fn is_allowed_file(
    path: &str,
    extensions: &Extensions,
    max_size: Option<&MaxFileSize>,
    size: Option<u64>,
) -> (r: bool)
    ensures
        r == (extension_allowed(path@, extensions@) && size_allowed(
            size,
            match max_size {
                Some(max) => Some(max@),
                None => None,
            },
        )),
{
    if !matches_allowed_ext(path, extensions) {
        return false;
    }
    if let Some(max) = max_size {
        if let Some(bytes) = size {
            if max.exceeds(bytes) {
                return false;
            }
        }
    }
    true
}

/// The filter that the options stand for with the path filter `paths`.
pub open spec fn filter_with(opts: ScanOptions, paths: PathFilter) -> Filter {
    Filter {
        extensions: opts.allowed_exts@,
        max_size: opts.size_limit(),
        includes: paths.includes(),
        excludes: paths.excludes(),
    }
}

/// Whether a file is taken, given its path as seen from the root.
fn is_eligible_at(file: &SourceFile, rel_file: &str, opts: &ScanOptions, paths: &PathFilter) -> (r:
    bool)
    ensures
        r == (extension_allowed(file@.path, opts.allowed_exts@) && lang_of_path(file@.path)
            is Some && size_allowed(file@.size, opts.size_limit()) && passes(
            rel_file@,
            paths.includes(),
            paths.excludes(),
        )),
{
    if !is_allowed_file(
        file.path.as_str(),
        &opts.allowed_exts,
        opts.max_file_size.as_ref(),
        file.size,
    ) {
        return false;
    }
    if infer_lang_from_ext(file.path.as_str()).is_none() {
        return false;
    }
    paths.included(rel_file)
}

/// Whether a file found under `root` is taken by the options with the path
/// filter `paths`.
pub fn is_eligible(file: &SourceFile, root: &str, opts: &ScanOptions, paths: &PathFilter) -> (r:
    bool)
    ensures
        r == eligible(file@, root@, filter_with(*opts, *paths)),
{
    let rel_file = path_relative_to(file.path.as_str(), root);
    is_eligible_at(file, rel_file.as_str(), opts, paths)
}

/// The directory a file is listed under: its parent, or the root where it
/// has none, as seen from the root.
pub open spec fn directory_of(path: Seq<char>, root: Seq<char>) -> Seq<char> {
    relative_to(
        match path_parent(path) {
            Some(dir) => dir,
            None => root,
        },
        root,
    )
}

/// A file that will be worked through, with the two paths it is ordered by:
/// that of its directory and its own, both as seen from the root.
pub struct PlannedView {
    pub dir: Seq<char>,
    pub rel_file: Seq<char>,
    pub source: SourceView,
}

/// A file as it is planned under `root`.
pub open spec fn planned_of(root: Seq<char>, source: SourceView) -> PlannedView {
    PlannedView {
        dir: directory_of(source.path, root),
        rel_file: relative_to(source.path, root),
        source,
    }
}

/// The order files are worked through in: by directory, and within a
/// directory by path.
pub open spec fn comes_before(a: PlannedView, b: PlannedView) -> bool {
    str_lt(a.dir, b.dir) || (a.dir == b.dir && str_lt(a.rel_file, b.rel_file))
}

/// `x` put into `s` before the first file that it comes before.
pub open spec fn insert_ordered(s: Seq<PlannedView>, x: PlannedView) -> Seq<PlannedView>
    decreases s.len(),
{
    if s.len() == 0 {
        seq![x]
    } else if comes_before(x, s[0]) {
        seq![x] + s
    } else {
        seq![s[0]] + insert_ordered(s.drop_first(), x)
    }
}

/// The files that are taken, in the order they are worked through. Files
/// with the same two paths keep the order they were found in. A file that
/// is not taken is passed over without a trace.
pub open spec fn plan(root: Seq<char>, files: Seq<SourceView>, filter: Filter) -> Seq<PlannedView>
    decreases files.len(),
{
    if files.len() == 0 {
        Seq::empty()
    } else {
        let earlier = plan(root, files.drop_last(), filter);
        if eligible(files.last(), root, filter) {
            insert_ordered(earlier, planned_of(root, files.last()))
        } else {
            earlier
        }
    }
}

/// What a file gives: an I/O error where it could not be read, else what
/// extraction from its text gives in the language of its path. A path
/// without a registered language gives no signatures; no scan takes such a
/// file.
pub open spec fn outcome_of(source: SourceView) -> Result<Seq<Seq<char>>, ErrorView> {
    match lang_of_path(source.path) {
        None => Ok(Seq::empty()),
        Some(lang) => match source.content {
            Ok(code) => extraction(lang, code),
            Err(reason) => Err(ErrorView::Io(reason)),
        },
    }
}

/// The directories and the errors of a report.
pub struct Report {
    pub directories: Seq<DirectoryView>,
    pub errors: Seq<ErrorEntryView>,
}

/// The entry of a file with these signatures.
pub open spec fn file_entry(item: PlannedView, signatures: Seq<Seq<char>>, ts: Seq<char>)
    -> FileView {
    FileView {
        file_name: shown_name(item.source.path, item.rel_file),
        relative_file_path: item.rel_file,
        last_scanned: ts,
        signatures,
        summary: None,
    }
}

/// `entry` listed under `dir`: in the last directory where that is `dir`,
/// else in a new directory after it.
pub open spec fn with_file(directories: Seq<DirectoryView>, dir: Seq<char>, entry: FileView)
    -> Seq<DirectoryView> {
    if directories.len() > 0 && directories.last().directory_path == dir {
        directories.drop_last().push(
            DirectoryView { directory_path: dir, files: directories.last().files.push(entry) },
        )
    } else {
        directories.push(DirectoryView { directory_path: dir, files: seq![entry] })
    }
}

/// Whether a file with these signatures is left out of the report: in terse
/// mode, where it has none.
pub open spec fn dropped(terse: bool, signatures: Seq<Seq<char>>) -> bool {
    terse && signatures.len() == 0
}

/// The report after one more file. A file that gives signatures is listed
/// under its directory, unless it is dropped; a file that fails is recorded
/// with its path and the text of the error.
pub open spec fn with_item(report: Report, item: PlannedView, terse: bool, ts: Seq<char>)
    -> Report {
    match outcome_of(item.source) {
        Ok(signatures) => if dropped(terse, signatures) {
            report
        } else {
            Report {
                directories: with_file(
                    report.directories,
                    item.dir,
                    file_entry(item, signatures, ts),
                ),
                errors: report.errors,
            }
        },
        Err(e) => Report {
            directories: report.directories,
            errors: report.errors.push(
                ErrorEntryView { path: item.rel_file, error: e.message() },
            ),
        },
    }
}

/// The report of the planned files, worked through in order.
pub open spec fn assemble(planned: Seq<PlannedView>, terse: bool, ts: Seq<char>) -> Report
    decreases planned.len(),
{
    if planned.len() == 0 {
        Report { directories: Seq::empty(), errors: Seq::empty() }
    } else {
        with_item(assemble(planned.drop_last(), terse, ts), planned.last(), terse, ts)
    }
}

/// The report of a scan of `files` under `root`.
pub open spec fn report(
    root: Seq<char>,
    files: Seq<SourceView>,
    filter: Filter,
    terse: bool,
    ts: Seq<char>,
) -> Report {
    assemble(plan(root, files, filter), terse, ts)
}

/// A file to work through.
struct Planned<'a> {
    dir: String,
    rel_file: String,
    source: &'a SourceFile,
}

impl<'a> View for Planned<'a> {
    type V = PlannedView;

    closed spec fn view(&self) -> PlannedView {
        PlannedView { dir: self.dir@, rel_file: self.rel_file@, source: self.source@ }
    }
}

spec fn planned_views<'a>(planned: Vec<Planned<'a>>) -> Seq<PlannedView> {
    planned@.map_values(|p: Planned<'a>| p@)
}

fn precedes<'a>(a: &Planned<'a>, b: &Planned<'a>) -> (r: bool)
    ensures
        r == comes_before(a@, b@),
{
    match compare(a.dir.as_str(), b.dir.as_str()) {
        Order::Less => true,
        Order::Equal => compare(a.rel_file.as_str(), b.rel_file.as_str()) == Order::Less,
        Order::Greater => false,
    }
}

/// Puts `item` into the plan, which is in order, by bisection.
fn insert_planned<'a>(planned: &mut Vec<Planned<'a>>, item: Planned<'a>)
    requires
        in_plan_order(planned_views(*old(planned))),
    ensures
        planned_views(*final(planned)) == insert_ordered(planned_views(*old(planned)), item@),
        in_plan_order(planned_views(*final(planned))),
{
    let ghost all = planned_views(*planned);
    let ghost x = item@;
    let mut low: usize = 0;
    let mut high: usize = planned.len();
    while low < high
        invariant
            low <= high <= planned.len(),
            all == planned_views(*planned),
            x == item@,
            in_plan_order(all),
            forall|k: int| 0 <= k < low ==> !comes_before(x, #[trigger] all[k]),
            high < all.len() ==> comes_before(x, all[high as int]),
        decreases high - low,
    {
        let middle = low + (high - low) / 2;
        assert(all[middle as int] == planned[middle as int]@);
        if precedes(&item, &planned[middle]) {
            high = middle;
        } else {
            proof {
                assert forall|k: int| 0 <= k < middle + 1 implies !comes_before(
                    x,
                    #[trigger] all[k],
                ) by {
                    if k < middle && comes_before(x, all[k]) {
                        lemma_order_chain(all[k], all[middle as int], x);
                    }
                }
            }
            low = middle + 1;
        }
    }
    proof {
        lemma_insert_position(all, x, low as int);
        lemma_insert_keeps_order(all, x);
    }
    planned.insert(low, item);
    assert(planned_views(*planned) =~= all.insert(low as int, x));
}

/// The files that are taken, in the order they are worked through.
fn plan_files<'a>(
    root: &str,
    files: &'a Vec<SourceFile>,
    opts: &ScanOptions,
    paths: &PathFilter,
) -> (planned: Vec<Planned<'a>>)
    ensures
        planned_views(planned) == plan(root@, source_views(*files), filter_with(*opts, *paths)),
{
    let ghost all = source_views(*files);
    let ghost filter = filter_with(*opts, *paths);
    let mut planned: Vec<Planned<'a>> = Vec::new();
    assert(planned_views(planned) =~= Seq::<PlannedView>::empty());
    assert(all.take(0) =~= Seq::<SourceView>::empty());
    for i in 0..files.len()
        invariant
            all == source_views(*files),
            filter == filter_with(*opts, *paths),
            planned_views(planned) == plan(root@, all.take(i as int), filter),
            in_plan_order(planned_views(planned)),
    {
        let file = &files[i];
        proof {
            assert(all[i as int] == file@);
            lemma_take_push(all, i as int);
            assert(all.take(i + 1).drop_last() =~= all.take(i as int));
        }
        let path = file.path.as_str();
        let rel_file = path_relative_to(path, root);
        if is_eligible_at(file, rel_file.as_str(), opts, paths) {
            let dir = match parent(path) {
                Some(dir) => path_relative_to(dir.as_str(), root),
                None => path_relative_to(root, root),
            };
            insert_planned(&mut planned, Planned { dir, rel_file, source: file });
        }
    }
    assert(all.take(files.len() as int) =~= all);
    planned
}

/// What a file gives.
pub fn extract_source(source: &SourceFile, grammars: &Grammars) -> (r: TalosResult<Vec<String>>)
    ensures
        match r {
            Ok(signatures) => outcome_of(source@) == Ok::<Seq<Seq<char>>, ErrorView>(
                texts(signatures),
            ) && strictly_sorted(texts(signatures)),
            Err(e) => outcome_of(source@) == Err::<Seq<Seq<char>>, ErrorView>(e@),
        },
{
    match infer_lang_from_ext(source.path.as_str()) {
        Some(lang) => match &source.content {
            Ok(code) => grammars.extract(code.as_str(), lang),
            Err(reason) => Err(TalosError::Io(reason.clone())),
        },
        None => {
            let none: Vec<String> = Vec::new();
            assert(texts(none) =~= Seq::<Seq<char>>::empty());
            Ok(none)
        },
    }
}

fn add_file(directories: &mut Vec<DirectoryEntry>, dir: &str, entry: FileEntry)
    ensures
        directory_views(*final(directories)) == with_file(
            directory_views(*old(directories)),
            dir@,
            entry@,
        ),
{
    let ghost before = directory_views(*directories);
    let n = directories.len();
    if n > 0 && same_text(directories[n - 1].directory_path.as_str(), dir) {
        assert(before.last() == directories[n - 1]@);
        let mut last = directories.pop().unwrap();
        let ghost listed = file_views(last.files);
        last.files.push(entry);
        assert(file_views(last.files) =~= listed.push(entry@));
        directories.push(last);
        assert(directory_views(*directories) =~= before.drop_last().push(
            DirectoryView { directory_path: dir@, files: listed.push(entry@) },
        ));
    } else {
        if n > 0 {
            assert(before.last() == directories[n - 1]@);
        }
        let mut files: Vec<FileEntry> = Vec::new();
        files.push(entry);
        assert(file_views(files) =~= seq![entry@]);
        directories.push(DirectoryEntry { directory_path: dir.to_owned(), files });
        assert(directory_views(*directories) =~= before.push(
            DirectoryView { directory_path: dir@, files: seq![entry@] },
        ));
    }
}

/// Every file of every directory lists its signatures in strictly increasing
/// order, each once.
pub open spec fn signatures_in_order(directories: Seq<DirectoryView>) -> bool {
    forall|d: int, f: int|
        0 <= d < directories.len() && 0 <= f < directories[d].files.len() ==> strictly_sorted(
            (#[trigger] directories[d].files[f]).signatures,
        )
}

proof fn lemma_with_file_keeps_order(
    directories: Seq<DirectoryView>,
    dir: Seq<char>,
    entry: FileView,
)
    requires
        signatures_in_order(directories),
        strictly_sorted(entry.signatures),
    ensures
        signatures_in_order(with_file(directories, dir, entry)),
{
    let after = with_file(directories, dir, entry);
    assert forall|d: int, f: int|
        0 <= d < after.len() && 0 <= f < after[d].files.len() implies strictly_sorted(
        (#[trigger] after[d].files[f]).signatures,
    ) by {
        if d < directories.len() - 1 {
            assert(after[d] == directories[d]);
        } else if directories.len() > 0 && directories.last().directory_path == dir {
            if f < directories.last().files.len() {
                assert(after[d].files[f] == directories[d].files[f]);
            }
        } else if d < directories.len() {
            assert(after[d] == directories[d]);
        }
    }
}

/// The report that lists of entries stand for.
pub open spec fn report_of(directories: Vec<DirectoryEntry>, errors: Vec<ErrorEntry>) -> Report {
    Report { directories: directory_views(directories), errors: error_views(errors) }
}

/// Works through the planned files.
fn assemble_report<'a>(
    planned: &Vec<Planned<'a>>,
    grammars: &Grammars,
    terse: bool,
    ts: &str,
) -> (r: (Vec<DirectoryEntry>, Vec<ErrorEntry>))
    ensures
        report_of(r.0, r.1) == assemble(planned_views(*planned), terse, ts@),
        signatures_in_order(directory_views(r.0)),
{
    let ghost all = planned_views(*planned);
    let mut directories: Vec<DirectoryEntry> = Vec::new();
    let mut errors: Vec<ErrorEntry> = Vec::new();
    proof {
        assert(directory_views(directories) =~= Seq::<DirectoryView>::empty());
        assert(error_views(errors) =~= Seq::<ErrorEntryView>::empty());
        assert(all.take(0) =~= Seq::<PlannedView>::empty());
    }
    for i in 0..planned.len()
        invariant
            all == planned_views(*planned),
            report_of(directories, errors) == assemble(all.take(i as int), terse, ts@),
            signatures_in_order(directory_views(directories)),
    {
        let item = &planned[i];
        proof {
            assert(all[i as int] == item@);
            lemma_take_push(all, i as int);
            assert(all.take(i + 1).drop_last() =~= all.take(i as int));
        }
        match extract_source(item.source, grammars) {
            Ok(signatures) => {
                if !(terse && signatures.is_empty()) {
                    let file_name = extract_file_name(
                        item.source.path.as_str(),
                        item.rel_file.as_str(),
                    );
                    let entry = FileEntry {
                        file_name,
                        relative_file_path: item.rel_file.clone(),
                        last_scanned: ts.to_owned(),
                        signatures,
                        summary: None,
                    };
                    proof {
                        lemma_with_file_keeps_order(
                            directory_views(directories),
                            item.dir@,
                            entry@,
                        );
                    }
                    add_file(&mut directories, item.dir.as_str(), entry);
                }
            },
            Err(e) => {
                let ghost recorded = error_views(errors);
                let entry = ErrorEntry { path: item.rel_file.clone(), error: e.to_string() };
                errors.push(entry);
                assert(error_views(errors) =~= recorded.push(entry@));
            },
        }
    }
    assert(all.take(planned.len() as int) =~= all);
    (directories, errors)
}

/// The directories and the errors of a scan of `files` under `root`, with
/// the path filter already built, the grammars loaded and `ts` as the time
/// of the scan.
pub fn build_report(
    root: &str,
    files: &Vec<SourceFile>,
    opts: &ScanOptions,
    paths: &PathFilter,
    grammars: &Grammars,
    ts: &str,
) -> (r: (Vec<DirectoryEntry>, Vec<ErrorEntry>))
    ensures
        report_of(r.0, r.1) == report(
            root@,
            source_views(*files),
            filter_with(*opts, *paths),
            opts.terse_output,
            ts@,
        ),
        signatures_in_order(directory_views(r.0)),
{
    let planned = plan_files(root, files, opts, paths);
    assemble_report(&planned, grammars, opts.terse_output, ts)
}

/// Whether `c` is one of the ten digits.
pub open spec fn is_digit(c: char) -> bool {
    '0' <= c <= '9'
}

/// Whether the characters of `s` from `from` up to, not including, `to` are
/// all digits.
pub open spec fn digits_between(s: Seq<char>, from: int, to: int) -> bool {
    forall|i: int| from <= i < to ==> is_digit(#[trigger] s[i])
}

/// The shape of a time in UTC as RFC 3339 writes it: four digits of the
/// year, two of the month and two of the day with hyphens between them, a
/// `T`, two digits each of the hour, the minute and the second with colons
/// between them, then, where the second has a fraction, a point and one to
/// nine digits, and a `Z` at the end.
pub open spec fn is_utc_timestamp(ts: Seq<char>) -> bool {
    &&& (ts.len() == 20 || 22 <= ts.len() <= 30)
    &&& digits_between(ts, 0, 4) && ts[4] == '-'
    &&& digits_between(ts, 5, 7) && ts[7] == '-'
    &&& digits_between(ts, 8, 10) && ts[10] == 'T'
    &&& digits_between(ts, 11, 13) && ts[13] == ':'
    &&& digits_between(ts, 14, 16) && ts[16] == ':'
    &&& digits_between(ts, 17, 19)
    &&& (ts.len() > 20 ==> ts[19] == '.' && digits_between(ts, 20, ts.len() - 1))
    &&& ts.last() == 'Z'
}

/// `OffsetDateTime::now_utc`, formatted as RFC 3339; `None` where the
/// formatting fails. Which time comes back depends on the clock; whatever
/// it is, the text has the shape that the formatter writes for a time
/// in UTC.
#[verifier::external_body]
pub(crate) fn utc_now_rfc3339() -> (r: Option<String>)
    ensures
        r matches Some(ts) ==> is_utc_timestamp(ts@),
{
    OffsetDateTime::now_utc().format(&Rfc3339).ok()
}

/// The time of the scan as text: the time of the clock in UTC, written as
/// RFC 3339 writes it. Where the time cannot be written so, that is an
/// error.
pub fn format_timestamp() -> (r: TalosResult<String>)
    ensures
        r matches Ok(ts) ==> is_utc_timestamp(ts@),
        r matches Err(e) ==> e@ == timestamp_error(),
{
    match utc_now_rfc3339() {
        Some(ts) => Ok(ts),
        None => Err(TalosError::ScanError("Failed to format timestamp".to_owned())),
    }
}

/// The document of a scan at the time `ts`: the directories of the report,
/// and no errors; those are handed out beside it.
pub open spec fn document_of(report: Report, ts: Seq<char>) -> DocumentView {
    DocumentView {
        schema_version: "1.0"@,
        last_updated: ts,
        directories: report.directories,
        errors: Seq::empty(),
    }
}

/// The error that the configuration of a scan gives: that of the take-in
/// patterns where they fail, else that of the leave-out patterns, else that
/// of the query programs.
pub open spec fn configuration_error(opts: ScanOptions) -> Option<ErrorView> {
    match sets_outcome(opts.include_globs@, opts.exclude_globs@) {
        Err(e) => Some(e),
        Ok(_) => registry_error(),
    }
}

/// `doc` and `errors` are what a scan of `files` under `root` at the time
/// `ts` hands out.
pub open spec fn is_scan_of(
    root: Seq<char>,
    files: Seq<SourceView>,
    opts: ScanOptions,
    ts: Seq<char>,
    doc: DocumentView,
    errors: Seq<ErrorEntryView>,
) -> bool {
    let report = report(root, files, opts.filter(), opts.terse_output, ts);
    doc == document_of(report, ts) && errors == report.errors
}

/// The error of a scan that could not take the time.
pub open spec fn timestamp_error() -> ErrorView {
    ErrorView::ScanError("Failed to format timestamp"@)
}

/// A scan that is set up: its time is taken, the patterns of its options
/// are parsed and the query programs are compiled. It says which of the
/// files found are to be read, and makes the report of those handed in.
pub struct Scan<'a> {
    opts: &'a ScanOptions,
    paths: PathFilter,
    grammars: Grammars,
    ts: String,
}

impl<'a> Scan<'a> {
    #[verifier::type_invariant]
    spec fn set_up(self) -> bool {
        filter_with(*self.opts, self.paths) == self.opts.filter()
    }

    /// The options the scan was set up with.
    pub closed spec fn options(&self) -> ScanOptions {
        *self.opts
    }

    /// The time of the scan.
    pub closed spec fn time(&self) -> Seq<char> {
        self.ts@
    }

    /// Sets up a scan at the time `ts`. The patterns of the options are
    /// parsed and the query programs compiled; a failure there is an error,
    /// and there is no scan then.
    pub fn begin_at(opts: &'a ScanOptions, ts: String) -> (r: TalosResult<Scan<'a>>)
        ensures
            r is Ok <==> configuration_error(*opts) is None,
            r matches Err(e) ==> configuration_error(*opts) == Some(e@),
            r matches Ok(scan) ==> scan.options() == *opts && scan.time() == ts@,
    {
        let paths = match PathFilter::build(&opts.include_globs, &opts.exclude_globs) {
            Ok(paths) => paths,
            Err(e) => {
                return Err(e);
            },
        };
        let grammars = match Grammars::load() {
            Ok(grammars) => grammars,
            Err(e) => {
                return Err(e);
            },
        };
        assert(filter_with(*opts, paths) == opts.filter());
        Ok(Scan { opts, paths, grammars, ts })
    }

    /// Sets up a scan now. The time is taken first, then the patterns are
    /// parsed and the query programs compiled; a failure of any of these is
    /// an error, and there is no scan then.
    pub fn begin(opts: &'a ScanOptions) -> (r: TalosResult<Scan<'a>>)
        ensures
            r is Ok ==> configuration_error(*opts) is None,
            r matches Err(e) ==> e@ == timestamp_error() || configuration_error(*opts) == Some(
                e@,
            ),
            r matches Ok(scan) ==> scan.options() == *opts && is_utc_timestamp(scan.time()),
    {
        let ts = match format_timestamp() {
            Ok(ts) => ts,
            Err(e) => {
                return Err(e);
            },
        };
        Scan::begin_at(opts, ts)
    }

    /// Whether the scan takes a file found under `root`; only such a file
    /// need be read.
    pub fn takes(&self, file: &SourceFile, root: &str) -> (r: bool)
        ensures
            r == eligible(file@, root@, self.options().filter()),
    {
        proof {
            use_type_invariant(self);
        }
        is_eligible(file, root, self.opts, &self.paths)
    }

    /// The document and the errors of the scan of `files`, found under
    /// `root`.
    pub fn finish(self, root: &str, files: &Vec<SourceFile>) -> (out: (Document, Vec<ErrorEntry>))
        ensures
            is_scan_of(
                root@,
                source_views(*files),
                self.options(),
                self.time(),
                out.0@,
                error_views(out.1),
            ),
            signatures_in_order(out.0@.directories),
            in_report_order(out.0@.directories),
    {
        proof {
            use_type_invariant(&self);
            law_report_in_order(
                root@,
                source_views(*files),
                self.opts.filter(),
                self.opts.terse_output,
                self.ts@,
            );
        }
        let (directories, errors) = build_report(
            root,
            files,
            self.opts,
            &self.paths,
            &self.grammars,
            self.ts.as_str(),
        );
        let none: Vec<ErrorEntry> = Vec::new();
        assert(error_views(none) =~= Seq::<ErrorEntryView>::empty());
        let doc = Document {
            schema_version: "1.0".to_owned(),
            last_updated: self.ts,
            directories,
            errors: none,
        };
        (doc, errors)
    }
}

/// Scans `files`, found under `root`, at the time `ts`. The patterns of the
/// options are parsed and the query programs compiled first; a failure there
/// ends the scan before any file is looked at.
pub fn scan_at(root: &str, files: &Vec<SourceFile>, opts: &ScanOptions, ts: String) -> (r:
    TalosResult<(Document, Vec<ErrorEntry>)>)
    ensures
        r is Ok <==> configuration_error(*opts) is None,
        r matches Err(e) ==> configuration_error(*opts) == Some(e@),
        r matches Ok(out) ==> is_scan_of(
            root@,
            source_views(*files),
            *opts,
            ts@,
            out.0@,
            error_views(out.1),
        ),
        r matches Ok(out) ==> signatures_in_order(out.0@.directories),
        r matches Ok(out) ==> in_report_order(out.0@.directories),
{
    match Scan::begin_at(opts, ts) {
        Ok(scan) => Ok(scan.finish(root, files)),
        Err(e) => Err(e),
    }
}

/// Scans `files`, found under `root`, now. The time is taken first, then the
/// patterns are parsed and the query programs compiled; a failure of any of
/// these ends the scan before any file is looked at.
pub fn scan_project(root: &str, files: &Vec<SourceFile>, opts: &ScanOptions) -> (r: TalosResult<
    (Document, Vec<ErrorEntry>),
>)
    ensures
        r is Ok ==> configuration_error(*opts) is None,
        r matches Err(e) ==> e@ == timestamp_error() || configuration_error(*opts) == Some(e@),
        r matches Ok(out) ==> is_scan_of(
            root@,
            source_views(*files),
            *opts,
            out.0@.last_updated,
            out.0@,
            error_views(out.1),
        ),
        r matches Ok(out) ==> signatures_in_order(out.0@.directories),
        r matches Ok(out) ==> in_report_order(out.0@.directories),
        r matches Ok(out) ==> is_utc_timestamp(out.0@.last_updated),
{
    match Scan::begin(opts) {
        Ok(scan) => Ok(scan.finish(root, files)),
        Err(e) => Err(e),
    }
}

} // verus!
