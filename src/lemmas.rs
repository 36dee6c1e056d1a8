use vstd::prelude::*;

use crate::app::SortBy;
use crate::project::{
    is_projection, matches_filter, ordered, precedes, resolved_selection,
    row_has_pid, rows_in_range, sort_key,
};
use crate::snapshot::{pids_unique, ProcessRecord};

verus! {

/// Every shown row passes the filter, and every process that passes it is shown.
pub proof fn lemma_filter_exact(
    mode: SortBy,
    procs: Seq<ProcessRecord>,
    filter: Seq<char>,
    rows: Seq<usize>,
)
    requires
        is_projection(mode, procs, filter, rows),
    ensures
        forall|k: int|
            0 <= k < rows.len() ==> matches_filter(#[trigger] procs[rows[k] as int].name@, filter),
        forall|i: int|
            0 <= i < procs.len() && matches_filter(procs[i].name@, filter) ==> exists|k: int|
                0 <= k < rows.len() && #[trigger] rows[k] == i as usize,
{
    assert forall|k: int| 0 <= k < rows.len() implies matches_filter(
        #[trigger] procs[rows[k] as int].name@,
        filter,
    ) by {
        let i = rows[k] as int;
        assert(rows_in_range(procs, rows) && rows[k] < procs.len());
        assert(rows.contains(i as usize));
    }
    assert forall|i: int| 0 <= i < procs.len() && matches_filter(procs[i].name@, filter) implies exists|k: int|
        0 <= k < rows.len() && #[trigger] rows[k] == i as usize by {
        assert(rows.contains(i as usize));
    }
}

/// Going down the rows, the sort key never grows, and on equal keys the
/// process id falls.
pub proof fn lemma_rows_sorted(
    mode: SortBy,
    procs: Seq<ProcessRecord>,
    filter: Seq<char>,
    rows: Seq<usize>,
    a: int,
    b: int,
)
    requires
        is_projection(mode, procs, filter, rows),
        0 <= a < b < rows.len(),
    ensures
        sort_key(mode, procs[rows[a] as int]) >= sort_key(mode, procs[rows[b] as int]),
        sort_key(mode, procs[rows[a] as int]) == sort_key(mode, procs[rows[b] as int]) ==> procs[rows[a] as int].pid
            > procs[rows[b] as int].pid,
{
    assert(precedes(mode, procs[rows[a] as int], procs[rows[b] as int]));
}

/// No row appears twice.
pub proof fn lemma_rows_distinct(mode: SortBy, procs: Seq<ProcessRecord>, rows: Seq<usize>)
    requires
        ordered(mode, procs, rows),
    ensures
        rows.no_duplicates(),
{
    assert forall|a: int, b: int| 0 <= a < rows.len() && 0 <= b < rows.len() && a != b implies rows[a]
        != rows[b] by {
        if a < b {
            assert(precedes(mode, procs[rows[a] as int], procs[rows[b] as int]));
        } else {
            assert(precedes(mode, procs[rows[b] as int], procs[rows[a] as int]));
        }
    }
}

/// A selected process that is still shown keeps the selection, at whatever
/// position it now has.
pub proof fn lemma_selection_persists(
    mode: SortBy,
    procs: Seq<ProcessRecord>,
    filter: Seq<char>,
    rows: Seq<usize>,
    index: usize,
    pid: u32,
    k: int,
    new_index: usize,
    new_pid: Option<u32>,
)
    requires
        pids_unique(procs),
        is_projection(mode, procs, filter, rows),
        row_has_pid(procs, rows, k, pid),
        resolved_selection(procs, rows, index, Some(pid), new_index, new_pid),
    ensures
        new_index == k,
        new_pid == Some(pid),
{
    lemma_rows_distinct(mode, procs, rows);
    assert(row_has_pid(procs, rows, new_index as int, pid));
    if new_index != k {
        assert(rows[new_index as int] != rows[k]);
        assert(procs[rows[new_index as int] as int].pid != procs[rows[k] as int].pid);
    }
}

/// A selected process that is no longer shown gives way to the process at the
/// previous index, clamped to the last row; with no rows the index is 0.
pub proof fn lemma_selection_fallback(
    procs: Seq<ProcessRecord>,
    rows: Seq<usize>,
    index: usize,
    pid: u32,
    new_index: usize,
    new_pid: Option<u32>,
)
    requires
        forall|k: int| !row_has_pid(procs, rows, k, pid),
        resolved_selection(procs, rows, index, Some(pid), new_index, new_pid),
    ensures
        rows.len() == 0 ==> new_index == 0,
        rows.len() > 0 ==> new_index == (if index < rows.len() {
            index as int
        } else {
            rows.len() - 1
        }) && new_pid == Some(procs[rows[new_index as int] as int].pid),
{
}

/// With an empty filter every process is shown, each exactly once.
pub proof fn lemma_empty_filter_keeps_all(mode: SortBy, procs: Seq<ProcessRecord>, rows: Seq<usize>)
    requires
        is_projection(mode, procs, Seq::<char>::empty(), rows),
    ensures
        forall|i: int| 0 <= i < procs.len() ==> #[trigger] rows.contains(i as usize),
        forall|k: int| 0 <= k < rows.len() ==> #[trigger] rows[k] < procs.len(),
        rows.no_duplicates(),
{
    lemma_rows_distinct(mode, procs, rows);
    assert forall|i: int| 0 <= i < procs.len() implies #[trigger] rows.contains(i as usize) by {
        assert(matches_filter(procs[i].name@, Seq::<char>::empty()));
    }
}

/// A snapshot with no processes projects to no rows, whatever the filter.
pub proof fn lemma_empty_snapshot(mode: SortBy, filter: Seq<char>, rows: Seq<usize>)
    requires
        is_projection(mode, Seq::<ProcessRecord>::empty(), filter, rows),
    ensures
        rows.len() == 0,
{
    if rows.len() > 0 {
        assert(rows[0] < 0);
    }
}

} // verus!
