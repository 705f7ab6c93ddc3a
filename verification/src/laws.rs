//! What holds of every scan: the order of the report, where its entries come
//! from, what terse mode leaves out, and that the time of a scan is the only
//! thing two scans of the same files differ in.

use crate::error::ErrorView;
use crate::extractor::lang_of_path;
use crate::globs::matches_any;
use crate::model::{DirectoryView, DocumentView, ErrorEntryView, FileView};
use crate::paths::relative_to;
use crate::scanner::{
    assemble, comes_before, dropped, eligible, file_entry, insert_ordered, is_scan_of,
    outcome_of, plan, planned_of, report, size_allowed, with_file, Filter, PlannedView,
    ScanOptions, SourceView,
};
use crate::text::{
    lemma_str_lt_asymmetric, lemma_str_lt_irreflexive, lemma_str_lt_total,
    lemma_str_lt_transitive, str_le, str_lt,
};
use vstd::prelude::*;

verus! {

/// No later file of the sequence comes before an earlier one.
pub open spec fn in_plan_order(s: Seq<PlannedView>) -> bool {
    forall|i: int, j: int| 0 <= i < j < s.len() ==> !comes_before(#[trigger] s[j], #[trigger] s[i])
}

pub proof fn lemma_order_chain(a: PlannedView, b: PlannedView, c: PlannedView)
    requires
        !comes_before(b, a),
        !comes_before(c, b),
    ensures
        !comes_before(c, a),
{
    lemma_str_lt_total(a.dir, b.dir);
    lemma_str_lt_total(b.dir, c.dir);
    lemma_str_lt_total(a.rel_file, b.rel_file);
    lemma_str_lt_total(b.rel_file, c.rel_file);
    if str_lt(c.dir, a.dir) {
        if str_lt(a.dir, b.dir) {
            lemma_str_lt_transitive(c.dir, a.dir, b.dir);
        }
        if str_lt(b.dir, c.dir) {
            lemma_str_lt_transitive(b.dir, c.dir, a.dir);
        }
        lemma_str_lt_irreflexive(a.dir);
        lemma_str_lt_irreflexive(b.dir);
        lemma_str_lt_irreflexive(c.dir);
    } else if c.dir == a.dir && str_lt(c.rel_file, a.rel_file) {
        if str_lt(a.dir, b.dir) {
            lemma_str_lt_asymmetric(a.dir, b.dir);
        }
        if str_lt(b.dir, c.dir) {
            lemma_str_lt_asymmetric(b.dir, c.dir);
        }
        if str_lt(a.rel_file, b.rel_file) {
            lemma_str_lt_transitive(c.rel_file, a.rel_file, b.rel_file);
        }
        if str_lt(b.rel_file, c.rel_file) {
            lemma_str_lt_transitive(b.rel_file, c.rel_file, a.rel_file);
        }
        lemma_str_lt_irreflexive(a.rel_file);
        lemma_str_lt_irreflexive(b.rel_file);
        lemma_str_lt_irreflexive(c.rel_file);
    }
}

proof fn lemma_before_is_one_way(a: PlannedView, b: PlannedView)
    requires
        comes_before(a, b),
    ensures
        !comes_before(b, a),
{
    if str_lt(a.dir, b.dir) {
        lemma_str_lt_asymmetric(a.dir, b.dir);
    } else {
        lemma_str_lt_asymmetric(a.rel_file, b.rel_file);
        lemma_str_lt_irreflexive(a.dir);
    }
}

/// Where the new file goes: before the first file that it comes before. If
/// it comes before none of the first `at` files, and either there are no
/// more or it comes before the next, then it goes at `at`.
pub proof fn lemma_insert_position(s: Seq<PlannedView>, x: PlannedView, at: int)
    requires
        0 <= at <= s.len(),
        forall|k: int| 0 <= k < at ==> !comes_before(x, #[trigger] s[k]),
        at < s.len() ==> comes_before(x, s[at]),
    ensures
        insert_ordered(s, x) == s.insert(at, x),
    decreases s.len(),
{
    if s.len() == 0 {
        assert(seq![x] =~= s.insert(at, x));
    } else if at == 0 {
        assert(seq![x] + s =~= s.insert(0, x));
    } else {
        let rest = s.drop_first();
        assert(!comes_before(x, s[0]));
        assert forall|k: int| 0 <= k < at - 1 implies !comes_before(x, #[trigger] rest[k]) by {
            assert(rest[k] == s[k + 1]);
        }
        if at < s.len() {
            assert(rest[at - 1] == s[at]);
        }
        lemma_insert_position(rest, x, at - 1);
        assert(seq![s[0]] + rest.insert(at - 1, x) =~= s.insert(at, x));
    }
}

/// Inserting adds the new file and nothing else.
proof fn lemma_insert_members(s: Seq<PlannedView>, x: PlannedView)
    ensures
        insert_ordered(s, x).len() == s.len() + 1,
        forall|k: int|
            0 <= k < s.len() + 1 ==> (#[trigger] insert_ordered(s, x)[k]) == x || s.contains(
                insert_ordered(s, x)[k],
            ),
    decreases s.len(),
{
    if s.len() > 0 && !comes_before(x, s[0]) {
        let rest = s.drop_first();
        lemma_insert_members(rest, x);
        let r = insert_ordered(s, x);
        assert forall|k: int| 0 <= k < s.len() + 1 implies (#[trigger] r[k]) == x || s.contains(
            r[k],
        ) by {
            if k == 0 {
                assert(r[0] == s[0]);
            } else {
                let e = insert_ordered(rest, x)[k - 1];
                assert(r[k] == e);
                if e != x {
                    let m = choose|m: int| 0 <= m < rest.len() && rest[m] == e;
                    assert(s[m + 1] == e);
                }
            }
        }
    } else if s.len() > 0 {
        let r = insert_ordered(s, x);
        assert forall|k: int| 0 <= k < s.len() + 1 implies (#[trigger] r[k]) == x || s.contains(
            r[k],
        ) by {
            if k > 0 {
                assert(r[k] == s[k - 1]);
            }
        }
    }
}

pub proof fn lemma_insert_keeps_order(s: Seq<PlannedView>, x: PlannedView)
    requires
        in_plan_order(s),
    ensures
        in_plan_order(insert_ordered(s, x)),
    decreases s.len(),
{
    let r = insert_ordered(s, x);
    if s.len() == 0 {
    } else if comes_before(x, s[0]) {
        assert forall|i: int, j: int| 0 <= i < j < r.len() implies !comes_before(
            #[trigger] r[j],
            #[trigger] r[i],
        ) by {
            assert(r[j] == s[j - 1]);
            if i == 0 {
                lemma_before_is_one_way(x, s[0]);
                if j - 1 > 0 {
                    lemma_order_chain(x, s[0], s[j - 1]);
                }
            } else {
                assert(r[i] == s[i - 1]);
            }
        }
    } else {
        let rest = s.drop_first();
        assert(in_plan_order(rest)) by {
            assert forall|i: int, j: int| 0 <= i < j < rest.len() implies !comes_before(
                #[trigger] rest[j],
                #[trigger] rest[i],
            ) by {
                assert(rest[i] == s[i + 1] && rest[j] == s[j + 1]);
            }
        }
        lemma_insert_keeps_order(rest, x);
        lemma_insert_members(rest, x);
        let tail = insert_ordered(rest, x);
        assert forall|i: int, j: int| 0 <= i < j < r.len() implies !comes_before(
            #[trigger] r[j],
            #[trigger] r[i],
        ) by {
            assert(r[j] == tail[j - 1]);
            if i == 0 {
                assert(r[0] == s[0]);
                if tail[j - 1] != x {
                    let m = choose|m: int| 0 <= m < rest.len() && rest[m] == tail[j - 1];
                    assert(s[m + 1] == tail[j - 1]);
                }
            } else {
                assert(r[i] == tail[i - 1]);
            }
        }
    }
}

/// The plan works through directories in increasing order of their paths,
/// and through the files of one directory in increasing order of theirs.
pub proof fn law_plan_in_order(root: Seq<char>, files: Seq<SourceView>, filter: Filter)
    ensures
        in_plan_order(plan(root, files, filter)),
    decreases files.len(),
{
    if files.len() > 0 {
        law_plan_in_order(root, files.drop_last(), filter);
        lemma_insert_keeps_order(
            plan(root, files.drop_last(), filter),
            planned_of(root, files.last()),
        );
    }
}

/// Whether a planned file is one of `files`, and one that the filter takes.
pub open spec fn taken_from(
    item: PlannedView,
    root: Seq<char>,
    files: Seq<SourceView>,
    filter: Filter,
) -> bool {
    exists|i: int|
        0 <= i < files.len() && eligible(#[trigger] files[i], root, filter) && item == planned_of(
            root,
            files[i],
        )
}

/// Every planned file is one of the files given, and one that the filter
/// takes; every file that the filter takes is planned.
pub proof fn law_plan_is_the_eligible(root: Seq<char>, files: Seq<SourceView>, filter: Filter)
    ensures
        forall|k: int|
            0 <= k < plan(root, files, filter).len() ==> taken_from(
                #[trigger] plan(root, files, filter)[k],
                root,
                files,
                filter,
            ),
        forall|i: int|
            0 <= i < files.len() && eligible(#[trigger] files[i], root, filter) ==> plan(
                root,
                files,
                filter,
            ).contains(planned_of(root, files[i])),
    decreases files.len(),
{
    if files.len() > 0 {
        let earlier_files = files.drop_last();
        let earlier = plan(root, earlier_files, filter);
        law_plan_is_the_eligible(root, earlier_files, filter);
        let last = files.last();
        let now = plan(root, files, filter);
        if eligible(last, root, filter) {
            lemma_insert_members(earlier, planned_of(root, last));
            lemma_insert_holds(earlier, planned_of(root, last));
        }
        assert forall|k: int| 0 <= k < now.len() implies taken_from(
            #[trigger] now[k],
            root,
            files,
            filter,
        ) by {
            if eligible(last, root, filter) && now[k] == planned_of(root, last) {
                assert(files[files.len() - 1] == last);
            } else {
                let m = choose|m: int| 0 <= m < earlier.len() && earlier[m] == now[k];
                assert(taken_from(earlier[m], root, earlier_files, filter));
                let i = choose|i: int|
                    0 <= i < earlier_files.len() && eligible(#[trigger] earlier_files[i], root, filter) && earlier[m] == planned_of(root, earlier_files[i]);
                assert(files[i] == earlier_files[i]);
            }
        }
        assert forall|i: int|
            0 <= i < files.len() && eligible(#[trigger] files[i], root, filter) implies now.contains(
            planned_of(root, files[i]),
        ) by {
            if i < files.len() - 1 {
                assert(earlier_files[i] == files[i]);
                assert(earlier.contains(planned_of(root, files[i])));
            }
        }
    }
}

/// Inserting keeps what was there and holds the new file.
proof fn lemma_insert_holds(s: Seq<PlannedView>, x: PlannedView)
    ensures
        insert_ordered(s, x).contains(x),
        forall|e: PlannedView| s.contains(e) ==> insert_ordered(s, x).contains(e),
    decreases s.len(),
{
    let r = insert_ordered(s, x);
    if s.len() == 0 {
        assert(r[0] == x);
    } else if comes_before(x, s[0]) {
        assert(r[0] == x);
        assert forall|e: PlannedView| s.contains(e) implies r.contains(e) by {
            let m = choose|m: int| 0 <= m < s.len() && s[m] == e;
            assert(r[m + 1] == e);
        }
    } else {
        let rest = s.drop_first();
        lemma_insert_holds(rest, x);
        let tail = insert_ordered(rest, x);
        let k = choose|k: int| 0 <= k < tail.len() && tail[k] == x;
        assert(r[k + 1] == x);
        assert forall|e: PlannedView| s.contains(e) implies r.contains(e) by {
            let m = choose|m: int| 0 <= m < s.len() && s[m] == e;
            if m == 0 {
                assert(r[0] == e);
            } else {
                assert(rest[m - 1] == e);
                assert(rest.contains(e));
                assert(tail.contains(e));
                let n = choose|n: int| 0 <= n < tail.len() && tail[n] == e;
                assert(r[n + 1] == e);
            }
        }
    }
}

/// The files of a report with the directories they are listed under.
pub open spec fn listed(directories: Seq<DirectoryView>) -> Set<(Seq<char>, FileView)> {
    Set::new(
        |p: (Seq<char>, FileView)|
            exists|d: int, f: int|
                0 <= d < directories.len() && 0 <= f < directories[d].files.len()
                    && directories[d].directory_path == p.0 && (
                #[trigger] directories[d].files[f]) == p.1,
    )
}

/// Listing one more file adds that file under its directory, and nothing
/// else.
pub proof fn lemma_listed_with_file(
    directories: Seq<DirectoryView>,
    dir: Seq<char>,
    entry: FileView,
)
    ensures
        listed(with_file(directories, dir, entry)) == listed(directories).insert((dir, entry)),
{
    let after = with_file(directories, dir, entry);
    let n = directories.len() as int;
    let joins = n > 0 && directories.last().directory_path == dir;
    assert forall|p: (Seq<char>, FileView)| listed(after).contains(p) <==> listed(
        directories,
    ).insert((dir, entry)).contains(p) by {
        if listed(after).contains(p) {
            let (d, f) = choose|d: int, f: int|
                0 <= d < after.len() && 0 <= f < after[d].files.len() && after[d].directory_path
                    == p.0 && (#[trigger] after[d].files[f]) == p.1;
            if joins {
                if d < n - 1 {
                    assert(after[d] == directories[d]);
                    assert(directories[d].files[f] == p.1);
                } else if f < directories.last().files.len() {
                    assert(directories[d].files[f] == p.1);
                }
            } else {
                if d < n {
                    assert(after[d] == directories[d]);
                    assert(directories[d].files[f] == p.1);
                }
            }
        }
        if listed(directories).contains(p) {
            let (d, f) = choose|d: int, f: int|
                0 <= d < n && 0 <= f < directories[d].files.len()
                    && directories[d].directory_path == p.0 && (
                #[trigger] directories[d].files[f]) == p.1;
            if joins && d == n - 1 {
                assert(after[d].files[f] == p.1);
            } else {
                assert(after[d] == directories[d]);
                assert(after[d].files[f] == p.1);
            }
        }
        if p == (dir, entry) {
            if joins {
                assert(after[n - 1].files[directories.last().files.len() as int] == entry);
            } else {
                assert(after[n].files[0] == entry);
            }
        }
    }
    assert(listed(after) =~= listed(directories).insert((dir, entry)));
}

/// Terse mode is a filter. With the same files, everything a terse report
/// lists is listed by the full report under the same directory; what the
/// full report lists and the terse one does not has no signatures; and the
/// errors are the same.
pub proof fn law_terse_is_a_filter(planned: Seq<PlannedView>, ts: Seq<char>)
    ensures
        listed(assemble(planned, true, ts).directories).subset_of(
            listed(assemble(planned, false, ts).directories),
        ),
        forall|p: (Seq<char>, FileView)|
            listed(assemble(planned, false, ts).directories).contains(p) && !listed(
                assemble(planned, true, ts).directories,
            ).contains(p) ==> p.1.signatures.len() == 0,
        assemble(planned, true, ts).errors == assemble(planned, false, ts).errors,
    decreases planned.len(),
{
    if planned.len() > 0 {
        let earlier = planned.drop_last();
        let item = planned.last();
        law_terse_is_a_filter(earlier, ts);
        let terse = assemble(earlier, true, ts);
        let full = assemble(earlier, false, ts);
        match outcome_of(item.source) {
            Ok(signatures) => {
                let entry = file_entry(item, signatures, ts);
                lemma_listed_with_file(full.directories, item.dir, entry);
                lemma_listed_with_file(terse.directories, item.dir, entry);
            },
            Err(_) => {},
        }
    }
}

/// Terse mode is a filter: the law above, for the reports of two scans of
/// the same files that differ in the mode alone.
pub proof fn law_terse_scan_is_a_filter(
    root: Seq<char>,
    files: Seq<SourceView>,
    filter: Filter,
    ts: Seq<char>,
)
    ensures
        listed(report(root, files, filter, true, ts).directories).subset_of(
            listed(report(root, files, filter, false, ts).directories),
        ),
        forall|p: (Seq<char>, FileView)|
            listed(report(root, files, filter, false, ts).directories).contains(p) && !listed(
                report(root, files, filter, true, ts).directories,
            ).contains(p) ==> p.1.signatures.len() == 0,
        report(root, files, filter, true, ts).errors == report(
            root,
            files,
            filter,
            false,
            ts,
        ).errors,
{
    law_terse_is_a_filter(plan(root, files, filter), ts);
}

/// What a planned file adds to the listing: its entry under its directory,
/// where it gives signatures and is not dropped.
pub open spec fn listing_of(item: PlannedView, terse: bool, ts: Seq<char>) -> Option<
    (Seq<char>, FileView),
> {
    match outcome_of(item.source) {
        Ok(signatures) => if dropped(terse, signatures) {
            None
        } else {
            Some((item.dir, file_entry(item, signatures, ts)))
        },
        Err(_) => None,
    }
}

/// What a planned file adds to the errors: its path and the text of its
/// error, where it fails.
pub open spec fn failure_of(item: PlannedView) -> Option<ErrorEntryView> {
    match outcome_of(item.source) {
        Ok(_) => None,
        Err(e) => Some(ErrorEntryView { path: item.rel_file, error: e.message() }),
    }
}

/// Whether a listed file is what one of the planned files adds.
pub open spec fn file_is_planned(
    p: (Seq<char>, FileView),
    planned: Seq<PlannedView>,
    terse: bool,
    ts: Seq<char>,
) -> bool {
    exists|k: int| 0 <= k < planned.len() && listing_of(#[trigger] planned[k], terse, ts) == Some(p)
}

/// Whether a recorded error is what one of the planned files adds.
pub open spec fn error_is_planned(e: ErrorEntryView, planned: Seq<PlannedView>) -> bool {
    exists|k: int| 0 <= k < planned.len() && failure_of(#[trigger] planned[k]) == Some(e)
}

/// The files and the errors of a report are what the planned files add, and
/// nothing else.
pub proof fn lemma_entries_are_planned(planned: Seq<PlannedView>, terse: bool, ts: Seq<char>)
    ensures
        forall|p: (Seq<char>, FileView)|
            listed(assemble(planned, terse, ts).directories).contains(p) <==> file_is_planned(
                p,
                planned,
                terse,
                ts,
            ),
        forall|e: ErrorEntryView|
            #[trigger] assemble(planned, terse, ts).errors.contains(e) <==> error_is_planned(
                e,
                planned,
            ),
    decreases planned.len(),
{
    if planned.len() > 0 {
        let earlier = planned.drop_last();
        let item = planned.last();
        lemma_entries_are_planned(earlier, terse, ts);
        let before = assemble(earlier, terse, ts);
        let after = assemble(planned, terse, ts);
        let last = planned.len() - 1;
        match outcome_of(item.source) {
            Ok(signatures) => {
                lemma_listed_with_file(
                    before.directories,
                    item.dir,
                    file_entry(item, signatures, ts),
                );
            },
            Err(_) => {},
        }
        assert forall|p: (Seq<char>, FileView)|
            listed(after.directories).contains(p) <==> file_is_planned(p, planned, terse, ts) by {
            if file_is_planned(p, earlier, terse, ts) {
                let k = choose|k: int|
                    0 <= k < earlier.len() && listing_of(#[trigger] earlier[k], terse, ts)
                        == Some(p);
                assert(planned[k] == earlier[k]);
            }
            if file_is_planned(p, planned, terse, ts) {
                let k = choose|k: int|
                    0 <= k < planned.len() && listing_of(#[trigger] planned[k], terse, ts)
                        == Some(p);
                if k < last {
                    assert(earlier[k] == planned[k]);
                }
            }
            if listing_of(item, terse, ts) == Some(p) {
                assert(planned[last] == item);
            }
        }
        assert forall|e: ErrorEntryView| #[trigger]
            after.errors.contains(e) <==> error_is_planned(e, planned) by {
            if after.errors.contains(e) {
                let j = choose|j: int| 0 <= j < after.errors.len() && after.errors[j] == e;
                if j < before.errors.len() {
                    assert(before.errors[j] == e);
                }
            }
            if before.errors.contains(e) {
                let j = choose|j: int| 0 <= j < before.errors.len() && before.errors[j] == e;
                assert(after.errors[j] == e);
            }
            if error_is_planned(e, earlier) {
                let k = choose|k: int|
                    0 <= k < earlier.len() && failure_of(#[trigger] earlier[k]) == Some(e);
                assert(planned[k] == earlier[k]);
            }
            if error_is_planned(e, planned) {
                let k = choose|k: int|
                    0 <= k < planned.len() && failure_of(#[trigger] planned[k]) == Some(e);
                if k < last {
                    assert(earlier[k] == planned[k]);
                }
            }
            if failure_of(item) == Some(e) {
                assert(planned[last] == item);
                assert(after.errors[after.errors.len() - 1] == e);
            }
        }
    } else {
        assert forall|e: ErrorEntryView| #[trigger]
            assemble(planned, terse, ts).errors.contains(e) <==> error_is_planned(e, planned) by {}
    }
}

/// Whether a listed file is what one of `files` adds that is taken.
pub open spec fn file_was_taken(
    p: (Seq<char>, FileView),
    root: Seq<char>,
    files: Seq<SourceView>,
    filter: Filter,
    terse: bool,
    ts: Seq<char>,
) -> bool {
    exists|i: int|
        0 <= i < files.len() && eligible(#[trigger] files[i], root, filter) && listing_of(
            planned_of(root, files[i]),
            terse,
            ts,
        ) == Some(p)
}

/// Whether a recorded error is what one of `files` adds that is taken.
pub open spec fn error_was_taken(
    e: ErrorEntryView,
    root: Seq<char>,
    files: Seq<SourceView>,
    filter: Filter,
) -> bool {
    exists|i: int|
        0 <= i < files.len() && eligible(#[trigger] files[i], root, filter) && failure_of(
            planned_of(root, files[i]),
        ) == Some(e)
}

/// A report holds the files that are taken, and nothing else. What it lists
/// are the entries of the files that are taken, give signatures and are not
/// dropped; what it records are the errors of the files that are taken and
/// fail. So a file that fails keeps no other file out of the report, and a
/// file that is not taken leaves no trace.
pub proof fn law_report_is_of_the_taken(
    root: Seq<char>,
    files: Seq<SourceView>,
    filter: Filter,
    terse: bool,
    ts: Seq<char>,
)
    ensures
        forall|p: (Seq<char>, FileView)|
            listed(report(root, files, filter, terse, ts).directories).contains(p)
                <==> file_was_taken(p, root, files, filter, terse, ts),
        forall|e: ErrorEntryView|
            #[trigger] report(root, files, filter, terse, ts).errors.contains(e)
                <==> error_was_taken(e, root, files, filter),
{
    let planned = plan(root, files, filter);
    let out = report(root, files, filter, terse, ts);
    law_plan_is_the_eligible(root, files, filter);
    lemma_entries_are_planned(planned, terse, ts);
    assert forall|p: (Seq<char>, FileView)|
        listed(out.directories).contains(p) <==> file_was_taken(
            p,
            root,
            files,
            filter,
            terse,
            ts,
        ) by {
        if file_is_planned(p, planned, terse, ts) {
            let k = choose|k: int|
                0 <= k < planned.len() && listing_of(#[trigger] planned[k], terse, ts) == Some(p);
            assert(taken_from(planned[k], root, files, filter));
        }
        if file_was_taken(p, root, files, filter, terse, ts) {
            let i = choose|i: int|
                0 <= i < files.len() && eligible(#[trigger] files[i], root, filter) && listing_of(
                    planned_of(root, files[i]),
                    terse,
                    ts,
                ) == Some(p);
            let item = planned_of(root, files[i]);
            assert(planned.contains(item));
            let k = choose|k: int| 0 <= k < planned.len() && planned[k] == item;
            assert(listing_of(planned[k], terse, ts) == Some(p));
        }
    }
    assert forall|e: ErrorEntryView| #[trigger]
        out.errors.contains(e) <==> error_was_taken(e, root, files, filter) by {
        if error_is_planned(e, planned) {
            let k = choose|k: int|
                0 <= k < planned.len() && failure_of(#[trigger] planned[k]) == Some(e);
            assert(taken_from(planned[k], root, files, filter));
        }
        if error_was_taken(e, root, files, filter) {
            let i = choose|i: int|
                0 <= i < files.len() && eligible(#[trigger] files[i], root, filter) && failure_of(
                    planned_of(root, files[i]),
                ) == Some(e);
            let item = planned_of(root, files[i]);
            assert(planned.contains(item));
            let k = choose|k: int| 0 <= k < planned.len() && planned[k] == item;
            assert(failure_of(planned[k]) == Some(e));
        }
    }
}

/// Whether some file of the directories has the path `path`.
pub open spec fn lists_path(directories: Seq<DirectoryView>, path: Seq<char>) -> bool {
    exists|p: (Seq<char>, FileView)|
        #[trigger] listed(directories).contains(p) && p.1.relative_file_path == path
}

/// Whether some error is recorded for the path `path`.
pub open spec fn records_path(errors: Seq<ErrorEntryView>, path: Seq<char>) -> bool {
    exists|e: ErrorEntryView| #[trigger] errors.contains(e) && e.path == path
}

/// A path that stands for no file that is taken is nowhere in the report.
/// If none of the files with the path `path`, as seen from the root, is
/// taken, then the report lists no file with that path and records no error
/// for it.
pub proof fn law_not_taken_is_absent(
    root: Seq<char>,
    files: Seq<SourceView>,
    filter: Filter,
    terse: bool,
    ts: Seq<char>,
    path: Seq<char>,
)
    requires
        forall|i: int|
            0 <= i < files.len() && relative_to((#[trigger] files[i]).path, root) == path
                ==> !eligible(files[i], root, filter),
    ensures
        !lists_path(report(root, files, filter, terse, ts).directories, path),
        !records_path(report(root, files, filter, terse, ts).errors, path),
{
    let out = report(root, files, filter, terse, ts);
    law_report_is_of_the_taken(root, files, filter, terse, ts);
    if lists_path(out.directories, path) {
        let p = choose|p: (Seq<char>, FileView)|
            #[trigger] listed(out.directories).contains(p) && p.1.relative_file_path == path;
        assert(file_was_taken(p, root, files, filter, terse, ts));
        let i = choose|i: int|
            0 <= i < files.len() && eligible(#[trigger] files[i], root, filter) && listing_of(
                planned_of(root, files[i]),
                terse,
                ts,
            ) == Some(p);
        assert(relative_to(files[i].path, root) == path);
    }
    if records_path(out.errors, path) {
        let e = choose|e: ErrorEntryView| #[trigger] out.errors.contains(e) && e.path == path;
        assert(error_was_taken(e, root, files, filter));
        let i = choose|i: int|
            0 <= i < files.len() && eligible(#[trigger] files[i], root, filter) && failure_of(
                planned_of(root, files[i]),
            ) == Some(e);
        assert(relative_to(files[i].path, root) == path);
    }
}

/// Leaving out wins over taking in. A path that a leave-out pattern matches
/// is the path of no file that the report lists and of no error that it
/// records, whatever the take-in patterns say of it and whatever files
/// were found.
pub proof fn law_excluded_is_absent(
    root: Seq<char>,
    files: Seq<SourceView>,
    filter: Filter,
    terse: bool,
    ts: Seq<char>,
    path: Seq<char>,
)
    requires
        matches_any(filter.excludes, path),
    ensures
        !lists_path(report(root, files, filter, terse, ts).directories, path),
        !records_path(report(root, files, filter, terse, ts).errors, path),
{
    law_not_taken_is_absent(root, files, filter, terse, ts, path);
}

/// A file over the size limit is not taken: it is neither listed nor
/// recorded as failed, in terse mode and otherwise. This holds of a path
/// under which every file found is over the limit.
pub proof fn law_oversized_is_absent(
    root: Seq<char>,
    files: Seq<SourceView>,
    filter: Filter,
    terse: bool,
    ts: Seq<char>,
    path: Seq<char>,
)
    requires
        forall|i: int|
            0 <= i < files.len() && relative_to((#[trigger] files[i]).path, root) == path
                ==> !size_allowed(files[i].size, filter.max_size),
    ensures
        !lists_path(report(root, files, filter, terse, ts).directories, path),
        !records_path(report(root, files, filter, terse, ts).errors, path),
{
    law_not_taken_is_absent(root, files, filter, terse, ts, path);
}

/// A file without a registered language is skipped: it is neither listed
/// nor recorded as failed, though its extension be allowed. This holds of a
/// path under which every file found is without a registered language.
pub proof fn law_unregistered_is_absent(
    root: Seq<char>,
    files: Seq<SourceView>,
    filter: Filter,
    terse: bool,
    ts: Seq<char>,
    path: Seq<char>,
)
    requires
        forall|i: int|
            0 <= i < files.len() && relative_to((#[trigger] files[i]).path, root) == path
                ==> lang_of_path(files[i].path) is None,
    ensures
        !lists_path(report(root, files, filter, terse, ts).directories, path),
        !records_path(report(root, files, filter, terse, ts).errors, path),
{
    law_not_taken_is_absent(root, files, filter, terse, ts, path);
}

/// In terse mode a file without signatures is absent: it is neither listed
/// nor recorded as failed. This holds of a path under which every file
/// found gives no signatures.
pub proof fn law_empty_is_absent_when_terse(
    root: Seq<char>,
    files: Seq<SourceView>,
    filter: Filter,
    ts: Seq<char>,
    path: Seq<char>,
)
    requires
        forall|i: int|
            0 <= i < files.len() && relative_to((#[trigger] files[i]).path, root) == path
                ==> outcome_of(files[i]) == Ok::<Seq<Seq<char>>, ErrorView>(Seq::empty()),
    ensures
        !lists_path(report(root, files, filter, true, ts).directories, path),
        !records_path(report(root, files, filter, true, ts).errors, path),
{
    let out = report(root, files, filter, true, ts);
    law_report_is_of_the_taken(root, files, filter, true, ts);
    if lists_path(out.directories, path) {
        let p = choose|p: (Seq<char>, FileView)|
            #[trigger] listed(out.directories).contains(p) && p.1.relative_file_path == path;
        assert(file_was_taken(p, root, files, filter, true, ts));
        let i = choose|i: int|
            0 <= i < files.len() && eligible(#[trigger] files[i], root, filter) && listing_of(
                planned_of(root, files[i]),
                true,
                ts,
            ) == Some(p);
        assert(relative_to(files[i].path, root) == path);
    }
    if records_path(out.errors, path) {
        let e = choose|e: ErrorEntryView| #[trigger] out.errors.contains(e) && e.path == path;
        assert(error_was_taken(e, root, files, filter));
        let i = choose|i: int|
            0 <= i < files.len() && eligible(#[trigger] files[i], root, filter) && failure_of(
                planned_of(root, files[i]),
            ) == Some(e);
        assert(relative_to(files[i].path, root) == path);
    }
}

/// A file that is taken is in the report. If it gives signatures and is
/// not dropped, its entry is listed under its directory, with the
/// signatures it gives, among them none where it gives none; if it fails,
/// its error is recorded. Whatever the other files are or do.
pub proof fn law_taken_is_present(
    root: Seq<char>,
    files: Seq<SourceView>,
    filter: Filter,
    terse: bool,
    ts: Seq<char>,
    i: int,
)
    requires
        0 <= i < files.len(),
        eligible(files[i], root, filter),
    ensures
        listing_of(planned_of(root, files[i]), terse, ts) matches Some(p) ==> listed(
            report(root, files, filter, terse, ts).directories,
        ).contains(p),
        failure_of(planned_of(root, files[i])) matches Some(e) ==> report(
            root,
            files,
            filter,
            terse,
            ts,
        ).errors.contains(e),
{
    law_report_is_of_the_taken(root, files, filter, terse, ts);
    if listing_of(planned_of(root, files[i]), terse, ts) is Some {
        let p = listing_of(planned_of(root, files[i]), terse, ts)->0;
        assert(file_was_taken(p, root, files, filter, terse, ts));
    }
    if failure_of(planned_of(root, files[i])) is Some {
        let e = failure_of(planned_of(root, files[i]))->0;
        assert(error_was_taken(e, root, files, filter));
    }
}

/// The directories of a report that lists this one entry, or none.
pub open spec fn listed_alone(listing: Option<(Seq<char>, FileView)>) -> Seq<DirectoryView> {
    match listing {
        Some(p) => seq![DirectoryView { directory_path: p.0, files: seq![p.1] }],
        None => Seq::empty(),
    }
}

/// The errors of a report that records this one error, or none.
pub open spec fn recorded_alone(failure: Option<ErrorEntryView>) -> Seq<ErrorEntryView> {
    match failure {
        Some(e) => seq![e],
        None => Seq::empty(),
    }
}

/// The report of one file. A file that is not taken gives the empty report.
/// A file that is taken gives one directory with its one entry where it
/// gives signatures and is not dropped, and no directory otherwise; and one
/// error where it fails, and none otherwise.
pub proof fn law_single_file(
    root: Seq<char>,
    file: SourceView,
    filter: Filter,
    terse: bool,
    ts: Seq<char>,
)
    ensures
        !eligible(file, root, filter) ==> report(
            root,
            seq![file],
            filter,
            terse,
            ts,
        ).directories.len() == 0,
        !eligible(file, root, filter) ==> report(root, seq![file], filter, terse, ts).errors.len()
            == 0,
        eligible(file, root, filter) ==> report(root, seq![file], filter, terse, ts).directories
            == listed_alone(listing_of(planned_of(root, file), terse, ts)),
        eligible(file, root, filter) ==> report(root, seq![file], filter, terse, ts).errors
            == recorded_alone(failure_of(planned_of(root, file))),
{
    let files = seq![file];
    let item = planned_of(root, file);
    assert(files.drop_last() =~= Seq::<SourceView>::empty());
    assert(files.last() == file);
    assert(plan(root, files.drop_last(), filter) =~= Seq::<PlannedView>::empty());
    let planned = plan(root, files, filter);
    if eligible(file, root, filter) {
        assert(planned =~= seq![item]);
        assert(planned.drop_last() =~= Seq::<PlannedView>::empty());
        assert(planned.last() == item);
        let start = assemble(planned.drop_last(), terse, ts);
        assert(start.directories =~= Seq::<DirectoryView>::empty());
        assert(start.errors =~= Seq::<ErrorEntryView>::empty());
        let out = assemble(planned, terse, ts);
        assert(out.directories =~= report(root, files, filter, terse, ts).directories);
        match outcome_of(item.source) {
            Ok(signatures) => {
                if !dropped(terse, signatures) {
                    assert(out.directories =~= seq![
                        DirectoryView {
                            directory_path: item.dir,
                            files: seq![file_entry(item, signatures, ts)],
                        },
                    ]);
                }
                assert(out.errors =~= Seq::<ErrorEntryView>::empty());
            },
            Err(e) => {
                assert(out.directories =~= Seq::<DirectoryView>::empty());
                assert(out.errors =~= seq![
                    ErrorEntryView { path: item.rel_file, error: e.message() },
                ]);
            },
        }
    } else {
        assert(planned =~= Seq::<PlannedView>::empty());
    }
}

/// A file entry without the time it was scanned at.
pub open spec fn untimed_file(file: FileView) -> FileView {
    FileView {
        file_name: file.file_name,
        relative_file_path: file.relative_file_path,
        last_scanned: Seq::empty(),
        signatures: file.signatures,
        summary: file.summary,
    }
}

/// A directory whose files are without their times.
pub open spec fn untimed_directory(directory: DirectoryView) -> DirectoryView {
    DirectoryView {
        directory_path: directory.directory_path,
        files: directory.files.map_values(|f: FileView| untimed_file(f)),
    }
}

/// Directories whose files are without their times.
pub open spec fn untimed(directories: Seq<DirectoryView>) -> Seq<DirectoryView> {
    directories.map_values(|d: DirectoryView| untimed_directory(d))
}

proof fn lemma_untimed_with_file(directories: Seq<DirectoryView>, dir: Seq<char>, entry: FileView)
    ensures
        untimed(with_file(directories, dir, entry)) == with_file(
            untimed(directories),
            dir,
            untimed_file(entry),
        ),
{
    let after = with_file(directories, dir, entry);
    let plain = untimed(directories);
    let expected = with_file(plain, dir, untimed_file(entry));
    if directories.len() > 0 {
        assert(plain.last() == untimed_directory(directories.last()));
    }
    assert(untimed(after).len() == expected.len());
    assert forall|d: int| 0 <= d < expected.len() implies untimed(after)[d] == expected[d] by {
        if directories.len() > 0 && directories.last().directory_path == dir {
            if d == directories.len() - 1 {
                assert(untimed(after)[d].files =~= expected[d].files);
            } else {
                assert(after[d] == directories[d]);
            }
        } else {
            if d == directories.len() {
                assert(untimed(after)[d].files =~= expected[d].files);
            } else {
                assert(after[d] == directories[d]);
            }
        }
    }
    assert(untimed(after) =~= expected);
}

/// The time of a scan shows in the `last_scanned` of its files and nowhere
/// else in the directories and errors of the report.
pub proof fn lemma_time_only_stamps(
    planned: Seq<PlannedView>,
    terse: bool,
    first: Seq<char>,
    second: Seq<char>,
)
    ensures
        untimed(assemble(planned, terse, first).directories) == untimed(
            assemble(planned, terse, second).directories,
        ),
        assemble(planned, terse, first).errors == assemble(planned, terse, second).errors,
    decreases planned.len(),
{
    if planned.len() > 0 {
        let earlier = planned.drop_last();
        let item = planned.last();
        lemma_time_only_stamps(earlier, terse, first, second);
        match outcome_of(item.source) {
            Ok(signatures) => {
                lemma_untimed_with_file(
                    assemble(earlier, terse, first).directories,
                    item.dir,
                    file_entry(item, signatures, first),
                );
                lemma_untimed_with_file(
                    assemble(earlier, terse, second).directories,
                    item.dir,
                    file_entry(item, signatures, second),
                );
            },
            Err(_) => {},
        }
    } else {
        assert(untimed(assemble(planned, terse, first).directories) =~= untimed(
            assemble(planned, terse, second).directories,
        ));
    }
}

/// Scanning twice gives the same report. Two scans of the same files under
/// the same root with the same options hand out the same errors and, the
/// times aside, the same directories.
pub proof fn law_scan_is_repeatable(
    root: Seq<char>,
    files: Seq<SourceView>,
    opts: ScanOptions,
    first_ts: Seq<char>,
    first_doc: DocumentView,
    first_errors: Seq<ErrorEntryView>,
    second_ts: Seq<char>,
    second_doc: DocumentView,
    second_errors: Seq<ErrorEntryView>,
)
    requires
        is_scan_of(root, files, opts, first_ts, first_doc, first_errors),
        is_scan_of(root, files, opts, second_ts, second_doc, second_errors),
    ensures
        untimed(first_doc.directories) == untimed(second_doc.directories),
        first_doc.errors == second_doc.errors,
        first_doc.schema_version == second_doc.schema_version,
        first_errors == second_errors,
{
    lemma_time_only_stamps(
        plan(root, files, opts.filter()),
        opts.terse_output,
        first_ts,
        second_ts,
    );
}

/// Every file of a report bears the time of the scan, and none has a
/// summary.
pub proof fn law_entries_are_stamped(planned: Seq<PlannedView>, terse: bool, ts: Seq<char>)
    ensures
        forall|p: (Seq<char>, FileView)|
            listed(assemble(planned, terse, ts).directories).contains(p) ==> p.1.last_scanned
                == ts && p.1.summary is None,
    decreases planned.len(),
{
    if planned.len() > 0 {
        let earlier = planned.drop_last();
        let item = planned.last();
        law_entries_are_stamped(earlier, terse, ts);
        match outcome_of(item.source) {
            Ok(signatures) => {
                lemma_listed_with_file(
                    assemble(earlier, terse, ts).directories,
                    item.dir,
                    file_entry(item, signatures, ts),
                );
            },
            Err(_) => {},
        }
    }
}

/// The files of all the directories, one directory after the other.
pub open spec fn all_files(directories: Seq<DirectoryView>) -> Seq<FileView>
    decreases directories.len(),
{
    if directories.len() == 0 {
        Seq::empty()
    } else {
        all_files(directories.drop_last()) + directories.last().files
    }
}

/// The entries of the planned files that give signatures and are not
/// dropped, in the order of the plan.
pub open spec fn kept_entries(planned: Seq<PlannedView>, terse: bool, ts: Seq<char>) -> Seq<
    FileView,
>
    decreases planned.len(),
{
    if planned.len() == 0 {
        Seq::empty()
    } else {
        let earlier = kept_entries(planned.drop_last(), terse, ts);
        match outcome_of(planned.last().source) {
            Ok(signatures) => if dropped(terse, signatures) {
                earlier
            } else {
                earlier.push(file_entry(planned.last(), signatures, ts))
            },
            Err(_) => earlier,
        }
    }
}

/// The errors of the planned files that fail, in the order of the plan.
pub open spec fn failed_entries(planned: Seq<PlannedView>) -> Seq<ErrorEntryView>
    decreases planned.len(),
{
    if planned.len() == 0 {
        Seq::empty()
    } else {
        let earlier = failed_entries(planned.drop_last());
        match outcome_of(planned.last().source) {
            Ok(_) => earlier,
            Err(e) => earlier.push(
                ErrorEntryView { path: planned.last().rel_file, error: e.message() },
            ),
        }
    }
}

proof fn lemma_all_files_with_file(directories: Seq<DirectoryView>, dir: Seq<char>, entry: FileView)
    ensures
        all_files(with_file(directories, dir, entry)) == all_files(directories).push(entry),
{
    let after = with_file(directories, dir, entry);
    if directories.len() > 0 && directories.last().directory_path == dir {
        assert(after.drop_last() =~= directories.drop_last());
        assert(all_files(directories.drop_last()) + directories.last().files.push(entry)
            =~= (all_files(directories.drop_last()) + directories.last().files).push(entry));
    } else {
        assert(after.drop_last() =~= directories);
        assert(all_files(directories) + seq![entry] =~= all_files(directories).push(entry));
    }
}

/// Every file is accounted for once. The files of a report, directory after
/// directory, are the entries of the planned files that give signatures and
/// are not dropped, each once and in the order of the plan; its errors are
/// those of the planned files that fail, each once and in that order. So no
/// file is listed under two directories, and none is both listed and
/// recorded as failed.
pub proof fn law_each_file_once(planned: Seq<PlannedView>, terse: bool, ts: Seq<char>)
    ensures
        all_files(assemble(planned, terse, ts).directories) == kept_entries(planned, terse, ts),
        assemble(planned, terse, ts).errors == failed_entries(planned),
    decreases planned.len(),
{
    if planned.len() > 0 {
        let earlier = planned.drop_last();
        let item = planned.last();
        law_each_file_once(earlier, terse, ts);
        match outcome_of(item.source) {
            Ok(signatures) => {
                lemma_all_files_with_file(
                    assemble(earlier, terse, ts).directories,
                    item.dir,
                    file_entry(item, signatures, ts),
                );
            },
            Err(_) => {},
        }
    }
}

/// The order of a report: directories in strictly increasing order of their
/// paths, none of them without files, and the files of each in increasing
/// order of their paths.
pub open spec fn in_report_order(directories: Seq<DirectoryView>) -> bool {
    &&& forall|a: int, b: int|
        0 <= a < b < directories.len() ==> str_lt(
            (#[trigger] directories[a]).directory_path,
            (#[trigger] directories[b]).directory_path,
        )
    &&& forall|d: int| 0 <= d < directories.len() ==> (#[trigger] directories[d]).files.len() > 0
    &&& forall|d: int, f: int, g: int|
        0 <= d < directories.len() && 0 <= f < g < directories[d].files.len() ==> str_le(
            (#[trigger] directories[d].files[f]).relative_file_path,
            (#[trigger] directories[d].files[g]).relative_file_path,
        )
}

proof fn lemma_assemble_in_order(planned: Seq<PlannedView>, terse: bool, ts: Seq<char>)
    requires
        in_plan_order(planned),
    ensures
        in_report_order(assemble(planned, terse, ts).directories),
    decreases planned.len(),
{
    if planned.len() > 0 {
        let earlier = planned.drop_last();
        let item = planned.last();
        let last = planned.len() - 1;
        assert(in_plan_order(earlier)) by {
            assert forall|i: int, j: int| 0 <= i < j < earlier.len() implies !comes_before(
                #[trigger] earlier[j],
                #[trigger] earlier[i],
            ) by {
                assert(earlier[i] == planned[i] && earlier[j] == planned[j]);
            }
        }
        lemma_assemble_in_order(earlier, terse, ts);
        lemma_entries_are_planned(earlier, terse, ts);
        let before = assemble(earlier, terse, ts).directories;
        let after = assemble(planned, terse, ts).directories;
        match outcome_of(item.source) {
            Ok(signatures) => {
                if !dropped(terse, signatures) {
                    let entry = file_entry(item, signatures, ts);
                    let n = before.len() as int;
                    // Every file listed so far stands for a planned file that
                    // does not come after the new one.
                    assert forall|d: int, f: int|
                        0 <= d < n && 0 <= f < before[d].files.len() implies !str_lt(
                        item.dir,
                        before[d].directory_path,
                    ) && (before[d].directory_path == item.dir ==> str_le(
                        (#[trigger] before[d].files[f]).relative_file_path,
                        item.rel_file,
                    )) by {
                        let p = (before[d].directory_path, before[d].files[f]);
                        assert(listed(before).contains(p));
                        assert(file_is_planned(p, earlier, terse, ts));
                        let k = choose|k: int|
                            0 <= k < earlier.len() && listing_of(
                                #[trigger] earlier[k],
                                terse,
                                ts,
                            ) == Some(p);
                        assert(planned[k] == earlier[k]);
                        assert(!comes_before(planned[last], planned[k]));
                        lemma_str_lt_total(before[d].files[f].relative_file_path, item.rel_file);
                    }
                    if n > 0 && before.last().directory_path == item.dir {
                        assert forall|a: int, b: int| 0 <= a < b < after.len() implies str_lt(
                            (#[trigger] after[a]).directory_path,
                            (#[trigger] after[b]).directory_path,
                        ) by {
                            assert(after[a].directory_path == before[a].directory_path);
                            assert(after[b].directory_path == before[b].directory_path);
                        }
                        assert forall|d: int, f: int, g: int|
                            0 <= d < after.len() && 0 <= f < g < after[d].files.len()
                                implies str_le(
                            (#[trigger] after[d].files[f]).relative_file_path,
                            (#[trigger] after[d].files[g]).relative_file_path,
                        ) by {
                            if d < n - 1 {
                                assert(after[d] == before[d]);
                            } else if g < before[d].files.len() {
                                assert(after[d].files[f] == before[d].files[f]);
                                assert(after[d].files[g] == before[d].files[g]);
                            } else {
                                assert(after[d].files[f] == before[d].files[f]);
                            }
                        }
                        assert forall|d: int| 0 <= d < after.len() implies (
                        #[trigger] after[d]).files.len() > 0 by {
                            if d < n - 1 {
                                assert(after[d] == before[d]);
                            }
                        }
                    } else {
                        assert forall|a: int, b: int| 0 <= a < b < after.len() implies str_lt(
                            (#[trigger] after[a]).directory_path,
                            (#[trigger] after[b]).directory_path,
                        ) by {
                            assert(after[a] == before[a]);
                            if b < n {
                                assert(after[b] == before[b]);
                            } else {
                                assert(before[a].files.len() > 0);
                                assert(!str_lt(item.dir, before[a].directory_path)) by {
                                    let f = before[a].files[0];
                                }
                                lemma_str_lt_total(before[a].directory_path, item.dir);
                                if before[a].directory_path == item.dir {
                                    // Then the last directory, which is not
                                    // this one, would come after the new file's.
                                    assert(a < n - 1);
                                    assert(str_lt(
                                        before[a].directory_path,
                                        before[n - 1].directory_path,
                                    ));
                                    assert(before[n - 1].files.len() > 0);
                                    let f = before[n - 1].files[0];
                                    assert(!str_lt(item.dir, before[n - 1].directory_path));
                                }
                            }
                        }
                        assert forall|d: int, f: int, g: int|
                            0 <= d < after.len() && 0 <= f < g < after[d].files.len()
                                implies str_le(
                            (#[trigger] after[d].files[f]).relative_file_path,
                            (#[trigger] after[d].files[g]).relative_file_path,
                        ) by {
                            if d < n {
                                assert(after[d] == before[d]);
                            }
                        }
                        assert forall|d: int| 0 <= d < after.len() implies (
                        #[trigger] after[d]).files.len() > 0 by {
                            if d < n {
                                assert(after[d] == before[d]);
                            }
                        }
                    }
                }
            },
            Err(_) => {},
        }
    }
}

/// The report of every scan is in order: its directories in strictly
/// increasing order of their paths, so that none occurs twice; none of them
/// without files; and the files of each in increasing order of their paths.
pub proof fn law_report_in_order(
    root: Seq<char>,
    files: Seq<SourceView>,
    filter: Filter,
    terse: bool,
    ts: Seq<char>,
)
    ensures
        in_report_order(report(root, files, filter, terse, ts).directories),
{
    law_plan_in_order(root, files, filter);
    lemma_assemble_in_order(plan(root, files, filter), terse, ts);
}

/// A file entry with another time of the scan.
pub open spec fn restamped(file: FileView, ts: Seq<char>) -> FileView {
    FileView {
        file_name: file.file_name,
        relative_file_path: file.relative_file_path,
        last_scanned: ts,
        signatures: file.signatures,
        summary: file.summary,
    }
}

/// Terse mode is a filter, whenever the two scans ran. Of the same files, a
/// terse scan at one time and a full scan at another: every file that the
/// terse report lists, the full report lists under the same directory, the
/// time aside; what the full report lists and the terse one does not has
/// no signatures; and the errors are the same.
pub proof fn law_terse_is_a_filter_at_any_time(
    root: Seq<char>,
    files: Seq<SourceView>,
    filter: Filter,
    terse_ts: Seq<char>,
    full_ts: Seq<char>,
)
    ensures
        forall|p: (Seq<char>, FileView)|
            #[trigger] listed(report(root, files, filter, true, terse_ts).directories).contains(p)
                ==> listed(report(root, files, filter, false, full_ts).directories).contains(
                (p.0, restamped(p.1, full_ts)),
            ),
        forall|q: (Seq<char>, FileView)|
            #[trigger] listed(report(root, files, filter, false, full_ts).directories).contains(q)
                && !listed(report(root, files, filter, true, terse_ts).directories).contains(
                (q.0, restamped(q.1, terse_ts)),
            ) ==> q.1.signatures.len() == 0,
        report(root, files, filter, true, terse_ts).errors == report(
            root,
            files,
            filter,
            false,
            full_ts,
        ).errors,
{
    let planned = plan(root, files, filter);
    let terse = assemble(planned, true, terse_ts);
    let full = assemble(planned, false, full_ts);
    lemma_entries_are_planned(planned, true, terse_ts);
    lemma_entries_are_planned(planned, false, full_ts);
    law_terse_is_a_filter(planned, terse_ts);
    lemma_time_only_stamps(planned, false, terse_ts, full_ts);
    assert forall|p: (Seq<char>, FileView)| #[trigger]
        listed(terse.directories).contains(p) implies listed(full.directories).contains(
        (p.0, restamped(p.1, full_ts)),
    ) by {
        assert(file_is_planned(p, planned, true, terse_ts));
        let k = choose|k: int|
            0 <= k < planned.len() && listing_of(#[trigger] planned[k], true, terse_ts) == Some(p);
        assert(listing_of(planned[k], false, full_ts) == Some((p.0, restamped(p.1, full_ts))));
        assert(file_is_planned((p.0, restamped(p.1, full_ts)), planned, false, full_ts));
    }
    assert forall|q: (Seq<char>, FileView)| #[trigger]
        listed(full.directories).contains(q) && !listed(terse.directories).contains(
            (q.0, restamped(q.1, terse_ts)),
        ) implies q.1.signatures.len() == 0 by {
        assert(file_is_planned(q, planned, false, full_ts));
        let k = choose|k: int|
            0 <= k < planned.len() && listing_of(#[trigger] planned[k], false, full_ts) == Some(
                q,
            );
        if q.1.signatures.len() > 0 {
            assert(listing_of(planned[k], true, terse_ts) == Some(
                (q.0, restamped(q.1, terse_ts)),
            ));
            assert(file_is_planned((q.0, restamped(q.1, terse_ts)), planned, true, terse_ts));
        }
    }
}

/// Whether no two of the files that are taken have the same path as seen
/// from the root.
pub open spec fn no_path_twice(root: Seq<char>, files: Seq<SourceView>, filter: Filter) -> bool {
    forall|i: int, j: int|
        0 <= i < j < files.len() && eligible(#[trigger] files[i], root, filter) && eligible(
            #[trigger] files[j],
            root,
            filter,
        ) ==> relative_to(files[i].path, root) != relative_to(files[j].path, root)
}

/// Whether no two planned files have the same path.
pub open spec fn planned_once(planned: Seq<PlannedView>) -> bool {
    forall|i: int, j: int|
        0 <= i < j < planned.len() ==> (#[trigger] planned[i]).rel_file != (
        #[trigger] planned[j]).rel_file
}

/// Whether no path is that of two entries of the report.
pub open spec fn paths_once(directories: Seq<DirectoryView>) -> bool {
    forall|d: int, f: int, e: int, g: int|
        0 <= d < directories.len() && 0 <= f < directories[d].files.len() && 0 <= e
            < directories.len() && 0 <= g < directories[e].files.len() && (d != e || f != g) ==> (
        #[trigger] directories[d].files[f]).relative_file_path != (
        #[trigger] directories[e].files[g]).relative_file_path
}

/// Whether the files of each directory are in strictly increasing order of
/// their paths.
pub open spec fn files_strictly_ordered(directories: Seq<DirectoryView>) -> bool {
    forall|d: int, f: int, g: int|
        0 <= d < directories.len() && 0 <= f < g < directories[d].files.len() ==> str_lt(
            (#[trigger] directories[d].files[f]).relative_file_path,
            (#[trigger] directories[d].files[g]).relative_file_path,
        )
}

/// Inserting puts the new file at some place and moves nothing else.
proof fn lemma_insert_is_insertion(s: Seq<PlannedView>, x: PlannedView)
    ensures
        exists|at: int| 0 <= at <= s.len() && insert_ordered(s, x) == #[trigger] s.insert(at, x),
    decreases s.len(),
{
    if s.len() == 0 {
        assert(seq![x] =~= s.insert(0, x));
    } else if comes_before(x, s[0]) {
        assert(seq![x] + s =~= s.insert(0, x));
    } else {
        let rest = s.drop_first();
        lemma_insert_is_insertion(rest, x);
        let at = choose|at: int|
            0 <= at <= rest.len() && insert_ordered(rest, x) == #[trigger] rest.insert(at, x);
        assert(seq![s[0]] + rest.insert(at, x) =~= s.insert(at + 1, x));
    }
}

proof fn lemma_plan_once(root: Seq<char>, files: Seq<SourceView>, filter: Filter)
    requires
        no_path_twice(root, files, filter),
    ensures
        planned_once(plan(root, files, filter)),
    decreases files.len(),
{
    if files.len() > 0 {
        let earlier_files = files.drop_last();
        let last = files.last();
        assert(no_path_twice(root, earlier_files, filter)) by {
            assert forall|i: int, j: int|
                0 <= i < j < earlier_files.len() && eligible(
                    #[trigger] earlier_files[i],
                    root,
                    filter,
                ) && eligible(#[trigger] earlier_files[j], root, filter) implies relative_to(
                earlier_files[i].path,
                root,
            ) != relative_to(earlier_files[j].path, root) by {
                assert(earlier_files[i] == files[i] && earlier_files[j] == files[j]);
            }
        }
        lemma_plan_once(root, earlier_files, filter);
        let earlier = plan(root, earlier_files, filter);
        if eligible(last, root, filter) {
            let x = planned_of(root, last);
            law_plan_is_the_eligible(root, earlier_files, filter);
            lemma_insert_is_insertion(earlier, x);
            let at = choose|at: int|
                0 <= at <= earlier.len() && insert_ordered(earlier, x) == #[trigger] earlier.insert(
                    at,
                    x,
                );
            let now = earlier.insert(at, x);
            assert forall|k: int| 0 <= k < earlier.len() implies (#[trigger] earlier[k]).rel_file
                != x.rel_file by {
                assert(taken_from(earlier[k], root, earlier_files, filter));
                let i = choose|i: int|
                    0 <= i < earlier_files.len() && eligible(
                        #[trigger] earlier_files[i],
                        root,
                        filter,
                    ) && earlier[k] == planned_of(root, earlier_files[i]);
                assert(files[i] == earlier_files[i]);
                assert(files[files.len() - 1] == last);
            }
            assert forall|i: int, j: int| 0 <= i < j < now.len() implies (
            #[trigger] now[i]).rel_file != (#[trigger] now[j]).rel_file by {
                let a = if i < at {
                    i
                } else {
                    i - 1
                };
                let b = if j < at {
                    j
                } else {
                    j - 1
                };
                if i != at {
                    assert(now[i] == earlier[a]);
                }
                if j != at {
                    assert(now[j] == earlier[b]);
                }
            }
        }
    }
}

proof fn lemma_assemble_paths_once(planned: Seq<PlannedView>, terse: bool, ts: Seq<char>)
    requires
        planned_once(planned),
    ensures
        paths_once(assemble(planned, terse, ts).directories),
    decreases planned.len(),
{
    if planned.len() > 0 {
        let earlier = planned.drop_last();
        let item = planned.last();
        let last = planned.len() - 1;
        assert(planned_once(earlier)) by {
            assert forall|i: int, j: int| 0 <= i < j < earlier.len() implies (
            #[trigger] earlier[i]).rel_file != (#[trigger] earlier[j]).rel_file by {
                assert(earlier[i] == planned[i] && earlier[j] == planned[j]);
            }
        }
        lemma_assemble_paths_once(earlier, terse, ts);
        lemma_entries_are_planned(earlier, terse, ts);
        let before = assemble(earlier, terse, ts).directories;
        let after = assemble(planned, terse, ts).directories;
        if listing_of(item, terse, ts) is Some {
            let entry = listing_of(item, terse, ts)->0;
            let n = before.len() as int;
            let joins = n > 0 && before.last().directory_path == item.dir;
            // No file listed so far has the path of the new one.
            assert forall|d: int, f: int|
                0 <= d < n && 0 <= f < before[d].files.len() implies (
            #[trigger] before[d].files[f]).relative_file_path != item.rel_file by {
                let p = (before[d].directory_path, before[d].files[f]);
                assert(listed(before).contains(p));
                assert(file_is_planned(p, earlier, terse, ts));
                let k = choose|k: int|
                    0 <= k < earlier.len() && listing_of(#[trigger] earlier[k], terse, ts)
                        == Some(p);
                assert(planned[k] == earlier[k]);
                assert(planned[k].rel_file != planned[last].rel_file);
            }
            assert forall|d: int, f: int, e: int, g: int|
                0 <= d < after.len() && 0 <= f < after[d].files.len() && 0 <= e < after.len()
                    && 0 <= g < after[e].files.len() && (d != e || f != g) implies (
            #[trigger] after[d].files[f]).relative_file_path != (
            #[trigger] after[e].files[g]).relative_file_path by {
                let new_d = if joins {
                    n - 1
                } else {
                    n
                };
                let new_f = if joins {
                    before[n - 1].files.len() as int
                } else {
                    0
                };
                let first_new = d == new_d && f == new_f;
                let second_new = e == new_d && g == new_f;
                if !first_new {
                    assert(after[d].files[f] == before[d].files[f]);
                }
                if !second_new {
                    assert(after[e].files[g] == before[e].files[g]);
                }
                if first_new {
                    assert(after[d].files[f].relative_file_path == item.rel_file);
                }
                if second_new {
                    assert(after[e].files[g].relative_file_path == item.rel_file);
                }
            }
        }
    }
}

/// No path twice in, no path twice out. Where no two of the files that are
/// taken have the same path as seen from the root, no path is that of two
/// entries of the report, and the files of each directory are in strictly
/// increasing order of their paths.
pub proof fn law_no_path_twice(
    root: Seq<char>,
    files: Seq<SourceView>,
    filter: Filter,
    terse: bool,
    ts: Seq<char>,
)
    requires
        no_path_twice(root, files, filter),
    ensures
        paths_once(report(root, files, filter, terse, ts).directories),
        files_strictly_ordered(report(root, files, filter, terse, ts).directories),
{
    let directories = report(root, files, filter, terse, ts).directories;
    lemma_plan_once(root, files, filter);
    lemma_assemble_paths_once(plan(root, files, filter), terse, ts);
    law_report_in_order(root, files, filter, terse, ts);
    assert forall|d: int, f: int, g: int|
        0 <= d < directories.len() && 0 <= f < g < directories[d].files.len() implies str_lt(
        (#[trigger] directories[d].files[f]).relative_file_path,
        (#[trigger] directories[d].files[g]).relative_file_path,
    ) by {
        assert(str_le(
            directories[d].files[f].relative_file_path,
            directories[d].files[g].relative_file_path,
        ));
    }
}

/// A file that adds nothing to the listing takes nothing from it. With and
/// without a file that fails, is dropped or is not taken, a report lists
/// the same files under the same directories; and the errors it records
/// differ by the error of that file alone.
pub proof fn law_failing_file_is_harmless(
    root: Seq<char>,
    files: Seq<SourceView>,
    filter: Filter,
    terse: bool,
    ts: Seq<char>,
    i: int,
)
    requires
        0 <= i < files.len(),
        !eligible(files[i], root, filter) || listing_of(planned_of(root, files[i]), terse, ts)
            is None,
    ensures
        listed(report(root, files, filter, terse, ts).directories) == listed(
            report(root, files.remove(i), filter, terse, ts).directories,
        ),
        forall|e: ErrorEntryView|
            #[trigger] report(root, files, filter, terse, ts).errors.contains(e) <==> report(
                root,
                files.remove(i),
                filter,
                terse,
                ts,
            ).errors.contains(e) || (eligible(files[i], root, filter) && failure_of(
                planned_of(root, files[i]),
            ) == Some(e)),
{
    let rest = files.remove(i);
    let with = report(root, files, filter, terse, ts);
    let without = report(root, rest, filter, terse, ts);
    law_report_is_of_the_taken(root, files, filter, terse, ts);
    law_report_is_of_the_taken(root, rest, filter, terse, ts);
    assert forall|p: (Seq<char>, FileView)|
        listed(with.directories).contains(p) <==> listed(without.directories).contains(p) by {
        if file_was_taken(p, root, files, filter, terse, ts) {
            let j = choose|j: int|
                0 <= j < files.len() && eligible(#[trigger] files[j], root, filter) && listing_of(
                    planned_of(root, files[j]),
                    terse,
                    ts,
                ) == Some(p);
            if j < i {
                assert(rest[j] == files[j]);
            } else {
                assert(rest[j - 1] == files[j]);
            }
        }
        if file_was_taken(p, root, rest, filter, terse, ts) {
            let j = choose|j: int|
                0 <= j < rest.len() && eligible(#[trigger] rest[j], root, filter) && listing_of(
                    planned_of(root, rest[j]),
                    terse,
                    ts,
                ) == Some(p);
            if j < i {
                assert(files[j] == rest[j]);
            } else {
                assert(files[j + 1] == rest[j]);
            }
        }
    }
    assert(listed(with.directories) =~= listed(without.directories));
    assert forall|e: ErrorEntryView| #[trigger]
        with.errors.contains(e) <==> without.errors.contains(e) || (eligible(
            files[i],
            root,
            filter,
        ) && failure_of(planned_of(root, files[i])) == Some(e)) by {
        if error_was_taken(e, root, files, filter) {
            let j = choose|j: int|
                0 <= j < files.len() && eligible(#[trigger] files[j], root, filter) && failure_of(
                    planned_of(root, files[j]),
                ) == Some(e);
            if j < i {
                assert(rest[j] == files[j]);
            } else if j > i {
                assert(rest[j - 1] == files[j]);
            }
        }
        if error_was_taken(e, root, rest, filter) {
            let j = choose|j: int|
                0 <= j < rest.len() && eligible(#[trigger] rest[j], root, filter) && failure_of(
                    planned_of(root, rest[j]),
                ) == Some(e);
            if j < i {
                assert(files[j] == rest[j]);
            } else {
                assert(files[j + 1] == rest[j]);
            }
        }
    }
}

} // verus!
