use vstd::prelude::*;

use crate::app::{App, SortBy};
use crate::snapshot::{cpu_rank, cpu_rank_spec, pids_unique, ProcessRecord, Snapshot};
use crate::text::{contains_str, is_substring, lemma_empty_is_substring, lower_of, lowercase};

verus! {

/// Most rows that a view shows; the rows after them are still filtered,
/// sorted and selectable.
pub const MAX_ROWS: usize = 200;

/// The value that a sort mode orders by.
pub open spec fn sort_key(mode: SortBy, p: ProcessRecord) -> int {
    match mode {
        SortBy::Cpu => cpu_rank_spec(p.cpu_bits),
        SortBy::Mem => p.memory as int,
        SortBy::Pid => p.pid as int,
    }
}

/// `a` is shown above `b`: a larger key first, and on equal keys the larger pid.
pub open spec fn precedes(mode: SortBy, a: ProcessRecord, b: ProcessRecord) -> bool {
    sort_key(mode, a) > sort_key(mode, b) || (sort_key(mode, a) == sort_key(mode, b) && a.pid
        > b.pid)
}

/// The rows, given as indices into `procs`, stand in display order.
pub open spec fn ordered(mode: SortBy, procs: Seq<ProcessRecord>, rows: Seq<usize>) -> bool {
    forall|a: int, b: int|
        0 <= a < b < rows.len() ==> #[trigger] precedes(
            mode,
            procs[rows[a] as int],
            procs[rows[b] as int],
        )
}

/// Every row is an index into `procs`.
pub open spec fn rows_in_range(procs: Seq<ProcessRecord>, rows: Seq<usize>) -> bool {
    forall|k: int| 0 <= k < rows.len() ==> #[trigger] rows[k] < procs.len()
}

/// Row `k` of the view holds the process `pid`.
pub open spec fn row_has_pid(procs: Seq<ProcessRecord>, rows: Seq<usize>, k: int, pid: u32) -> bool {
    0 <= k < rows.len() && procs[rows[k] as int].pid == pid
}

/// Some row of the view holds the process `pid`.
pub open spec fn pid_in_rows(procs: Seq<ProcessRecord>, rows: Seq<usize>, pid: u32) -> bool {
    exists|k: int| #[trigger] row_has_pid(procs, rows, k, pid)
}

/// The selection after a projection onto `rows`, given the session before it:
/// the index and the id that the session then holds.
pub open spec fn resolved_selection(
    procs: Seq<ProcessRecord>,
    rows: Seq<usize>,
    index: usize,
    pid: Option<u32>,
    new_index: usize,
    new_pid: Option<u32>,
) -> bool {
    match pid {
        Some(p) if pid_in_rows(procs, rows, p) => new_pid == pid && row_has_pid(
            procs,
            rows,
            new_index as int,
            p,
        ),
        _ => if rows.len() == 0 {
            new_index == 0 && new_pid == pid
        } else {
            new_index == (if index < rows.len() {
                index as int
            } else {
                rows.len() - 1
            }) && new_pid == Some(procs[rows[new_index as int] as int].pid)
        },
    }
}

/// A process name passes the filter: the filter is empty, or its lowercase
/// form occurs in the name's lowercase form.
pub open spec fn matches_filter(name: Seq<char>, filter: Seq<char>) -> bool {
    filter.len() == 0 || is_substring(lower_of(filter), lower_of(name))
}

/// `rows` holds, in display order under `mode`, exactly the indices of the
/// processes whose names pass `filter`, each once.
pub open spec fn is_projection(
    mode: SortBy,
    procs: Seq<ProcessRecord>,
    filter: Seq<char>,
    rows: Seq<usize>,
) -> bool {
    &&& rows_in_range(procs, rows)
    &&& ordered(mode, procs, rows)
    &&& forall|i: int|
        0 <= i < procs.len() ==> (#[trigger] rows.contains(i as usize) <==> matches_filter(
            procs[i].name@,
            filter,
        ))
}

/// One refresh's ordered, filtered view of a snapshot.
///
/// `rows` holds indices into the snapshot's processes, in display order, all
/// of them; only the first [`MAX_ROWS`] are drawn. `selected` is the position
/// of the selected row, absent when there are no rows.
pub struct OrderedView {
    pub rows: Vec<usize>,
    pub selected: Option<usize>,
}

impl OrderedView {
    /// Number of rows that are drawn.
    pub fn shown_len(&self) -> (r: usize)
        ensures
            r == (if self.rows@.len() < MAX_ROWS {
                self.rows@.len()
            } else {
                MAX_ROWS as nat
            }),
    {
        if self.rows.len() < MAX_ROWS {
            self.rows.len()
        } else {
            MAX_ROWS
        }
    }

    /// Row `i` is drawn highlighted: it is drawn and it is the selected one.
    pub fn is_highlighted(&self, i: usize) -> (r: bool)
        ensures
            r == (i < MAX_ROWS && i < self.rows@.len() && self.selected == Some(i)),
    {
        i < MAX_ROWS && i < self.rows.len() && match self.selected {
            Some(s) => s == i,
            None => false,
        }
    }
}

/// Transitivity of the display order.
pub proof fn lemma_precedes_transitive(mode: SortBy, a: ProcessRecord, b: ProcessRecord, c: ProcessRecord)
    requires
        precedes(mode, a, b),
        precedes(mode, b, c),
    ensures
        precedes(mode, a, c),
{
}

/// Two processes with different ids are always ordered one way or the other.
pub proof fn lemma_precedes_total(mode: SortBy, a: ProcessRecord, b: ProcessRecord)
    requires
        a.pid != b.pid,
    ensures
        precedes(mode, a, b) || precedes(mode, b, a),
{
}

/// The key that `mode` orders by.
fn key_of(mode: SortBy, p: &ProcessRecord) -> (r: u64)
    ensures
        r as int == sort_key(mode, *p),
{
    match mode {
        SortBy::Cpu => cpu_rank(p.cpu_bits),
        SortBy::Mem => p.memory,
        SortBy::Pid => p.pid as u64,
    }
}

/// Whether `a` is shown above `b` under `mode`.
pub fn goes_before(mode: SortBy, a: &ProcessRecord, b: &ProcessRecord) -> (r: bool)
    ensures
        r == precedes(mode, *a, *b),
{
    let ka = key_of(mode, a);
    let kb = key_of(mode, b);
    ka > kb || (ka == kb && a.pid > b.pid)
}

/// Merges two runs in display order with no index in common into one run in
/// display order.
fn merge_rows(mode: SortBy, procs: &Vec<ProcessRecord>, a: Vec<usize>, b: Vec<usize>) -> (r: Vec<
    usize,
>)
    requires
        pids_unique(procs@),
        rows_in_range(procs@, a@),
        rows_in_range(procs@, b@),
        ordered(mode, procs@, a@),
        ordered(mode, procs@, b@),
        forall|x: usize| !(#[trigger] a@.contains(x) && b@.contains(x)),
    ensures
        rows_in_range(procs@, r@),
        ordered(mode, procs@, r@),
        forall|x: usize| #[trigger] r@.contains(x) <==> (a@.contains(x) || b@.contains(x)),
{
    let mut out: Vec<usize> = Vec::new();
    let mut i: usize = 0;
    let mut j: usize = 0;
    while i < a.len() || j < b.len()
        invariant
            pids_unique(procs@),
            rows_in_range(procs@, a@),
            rows_in_range(procs@, b@),
            ordered(mode, procs@, a@),
            ordered(mode, procs@, b@),
            forall|x: usize| !(#[trigger] a@.contains(x) && b@.contains(x)),
            i <= a@.len(),
            j <= b@.len(),
            rows_in_range(procs@, out@),
            ordered(mode, procs@, out@),
            forall|x: usize| #[trigger]
                out@.contains(x) <==> (a@.subrange(0, i as int).contains(x) || b@.subrange(
                    0,
                    j as int,
                ).contains(x)),
            forall|k: int, t: int|
                0 <= k < out@.len() && i <= t < a@.len() ==> #[trigger] precedes(
                    mode,
                    procs@[out@[k] as int],
                    procs@[a@[t] as int],
                ),
            forall|k: int, t: int|
                0 <= k < out@.len() && j <= t < b@.len() ==> #[trigger] precedes(
                    mode,
                    procs@[out@[k] as int],
                    procs@[b@[t] as int],
                ),
        decreases a@.len() + b@.len() - i - j,
    {
        let take_a = if i < a.len() && j < b.len() {
            goes_before(mode, &procs[a[i]], &procs[b[j]])
        } else {
            i < a.len()
        };
        let ghost old_out = out@;
        let ghost oi = i as int;
        let ghost oj = j as int;
        let e = if take_a {
            a[i]
        } else {
            b[j]
        };
        proof {
            let pe = procs@[e as int];
            if take_a {
                assert forall|t: int| j <= t < b@.len() implies #[trigger] precedes(
                    mode,
                    pe,
                    procs@[b@[t] as int],
                ) by {
                    assert(a@.contains(e));
                    let q = b@[j as int];
                    if q == e {
                        assert(b@.contains(e));
                    }
                    assert(procs@[q as int].pid != pe.pid);
                    if t > j {
                        assert(precedes(mode, procs@[q as int], procs@[b@[t] as int]));
                        lemma_precedes_transitive(mode, pe, procs@[q as int], procs@[b@[t] as int]);
                    }
                }
                assert forall|t: int| i < t < a@.len() implies #[trigger] precedes(
                    mode,
                    pe,
                    procs@[a@[t] as int],
                ) by {
                    assert(precedes(mode, procs@[a@[i as int] as int], procs@[a@[t] as int]));
                }
            } else {
                assert forall|t: int| i <= t < a@.len() implies #[trigger] precedes(
                    mode,
                    pe,
                    procs@[a@[t] as int],
                ) by {
                    assert(b@.contains(e));
                    let q = a@[i as int];
                    if q == e {
                        assert(a@.contains(e));
                    }
                    assert(procs@[q as int].pid != pe.pid);
                    lemma_precedes_total(mode, pe, procs@[q as int]);
                    if t > i {
                        assert(precedes(mode, procs@[q as int], procs@[a@[t] as int]));
                        lemma_precedes_transitive(mode, pe, procs@[q as int], procs@[a@[t] as int]);
                    }
                }
                assert forall|t: int| j < t < b@.len() implies #[trigger] precedes(
                    mode,
                    pe,
                    procs@[b@[t] as int],
                ) by {
                    assert(precedes(mode, procs@[b@[j as int] as int], procs@[b@[t] as int]));
                }
            }
        }
        out.push(e);
        if take_a {
            i = i + 1;
        } else {
            j = j + 1;
        }
        proof {
            let n = old_out.len();
            assert(out@ == old_out.push(e));
            assert forall|x: int, y: int| 0 <= x < y < out@.len() implies #[trigger] precedes(
                mode,
                procs@[out@[x] as int],
                procs@[out@[y] as int],
            ) by {
                if y < n {
                    assert(precedes(mode, procs@[old_out[x] as int], procs@[old_out[y] as int]));
                } else if take_a {
                    assert(precedes(mode, procs@[old_out[x] as int], procs@[a@[i - 1] as int]));
                } else {
                    assert(precedes(mode, procs@[old_out[x] as int], procs@[b@[j - 1] as int]));
                }
            }
            assert forall|k: int| 0 <= k < out@.len() implies #[trigger] out@[k] < procs@.len() by {
                if k < n {
                    assert(old_out[k] < procs@.len());
                } else if take_a {
                    assert(a@[i - 1] < procs@.len());
                } else {
                    assert(b@[j - 1] < procs@.len());
                }
            }
            let sa = a@.subrange(0, i as int);
            let sb = b@.subrange(0, j as int);
            assert forall|x: usize| #[trigger]
                out@.contains(x) <==> (sa.contains(x) || sb.contains(x)) by {
                let pa = a@.subrange(0, oi);
                let pb = b@.subrange(0, oj);
                if out@.contains(x) {
                    let k = choose|k: int| 0 <= k < out@.len() && out@[k] == x;
                    if k < n {
                        assert(old_out[k] == x);
                        assert(old_out.contains(x));
                        if pa.contains(x) {
                            let m = choose|m: int| 0 <= m < pa.len() && pa[m] == x;
                            assert(sa[m] == x);
                        } else {
                            let m = choose|m: int| 0 <= m < pb.len() && pb[m] == x;
                            assert(sb[m] == x);
                        }
                    } else if take_a {
                        assert(sa[oi] == x);
                    } else {
                        assert(sb[oj] == x);
                    }
                }
                if sa.contains(x) {
                    let m = choose|m: int| 0 <= m < sa.len() && sa[m] == x;
                    if m == oi {
                        assert(out@[n as int] == x);
                    } else {
                        assert(pa[m] == x);
                        assert(old_out.contains(x));
                        let k = choose|k: int| 0 <= k < n && old_out[k] == x;
                        assert(out@[k] == x);
                    }
                }
                if sb.contains(x) {
                    let m = choose|m: int| 0 <= m < sb.len() && sb[m] == x;
                    if m == oj {
                        assert(out@[n as int] == x);
                    } else {
                        assert(pb[m] == x);
                        assert(old_out.contains(x));
                        let k = choose|k: int| 0 <= k < n && old_out[k] == x;
                        assert(out@[k] == x);
                    }
                }
            }
        }
    }
    proof {
        assert(a@.subrange(0, i as int) =~= a@);
        assert(b@.subrange(0, j as int) =~= b@);
    }
    out
}

/// The indices `v[lo..hi]`, sorted into display order.
fn sort_rows(mode: SortBy, procs: &Vec<ProcessRecord>, v: &Vec<usize>, lo: usize, hi: usize) -> (r:
    Vec<usize>)
    requires
        pids_unique(procs@),
        lo <= hi <= v@.len(),
        rows_in_range(procs@, v@),
        v@.no_duplicates(),
    ensures
        rows_in_range(procs@, r@),
        ordered(mode, procs@, r@),
        forall|x: usize| #[trigger] r@.contains(x) <==> v@.subrange(lo as int, hi as int).contains(x),
    decreases hi - lo,
{
    if hi - lo <= 1 {
        let mut r: Vec<usize> = Vec::new();
        if hi - lo == 1 {
            r.push(v[lo]);
        }
        proof {
            let s = v@.subrange(lo as int, hi as int);
            assert forall|x: usize| #[trigger] r@.contains(x) <==> s.contains(x) by {
                if s.contains(x) {
                    let m = choose|m: int| 0 <= m < s.len() && s[m] == x;
                    assert(r@[0] == x);
                }
                if r@.contains(x) {
                    assert(s[0] == x);
                }
            }
        }
        return r;
    }
    let mid = lo + (hi - lo) / 2;
    let a = sort_rows(mode, procs, v, lo, mid);
    let b = sort_rows(mode, procs, v, mid, hi);
    proof {
        assert forall|x: usize| !(#[trigger] a@.contains(x) && b@.contains(x)) by {
            if a@.contains(x) && b@.contains(x) {
                let sa = v@.subrange(lo as int, mid as int);
                let sb = v@.subrange(mid as int, hi as int);
                assert(sa.contains(x));
                assert(sb.contains(x));
                let m1 = choose|m: int| 0 <= m < sa.len() && sa[m] == x;
                let m2 = choose|m: int| 0 <= m < sb.len() && sb[m] == x;
                assert(v@[lo + m1] == x);
                assert(v@[mid + m2] == x);
            }
        }
    }
    let r = merge_rows(mode, procs, a, b);
    proof {
        let s = v@.subrange(lo as int, hi as int);
        let sa = v@.subrange(lo as int, mid as int);
        let sb = v@.subrange(mid as int, hi as int);
        assert forall|x: usize| #[trigger] r@.contains(x) <==> s.contains(x) by {
            if s.contains(x) {
                let m = choose|m: int| 0 <= m < s.len() && s[m] == x;
                if lo + m < mid {
                    assert(sa[m] == x);
                } else {
                    assert(sb[lo + m - mid] == x);
                }
            }
            if sa.contains(x) {
                let m = choose|m: int| 0 <= m < sa.len() && sa[m] == x;
                assert(s[m] == x);
            }
            if sb.contains(x) {
                let m = choose|m: int| 0 <= m < sb.len() && sb[m] == x;
                assert(s[mid - lo + m] == x);
            }
        }
    }
    r
}

/// Position of the row that holds process `pid`, if any.
fn find_pid(procs: &Vec<ProcessRecord>, rows: &Vec<usize>, pid: u32) -> (r: Option<usize>)
    requires
        rows_in_range(procs@, rows@),
    ensures
        match r {
            Some(k) => row_has_pid(procs@, rows@, k as int, pid),
            None => !pid_in_rows(procs@, rows@, pid),
        },
{
    let mut k: usize = 0;
    while k < rows.len()
        invariant
            k <= rows@.len(),
            rows_in_range(procs@, rows@),
            forall|j: int| 0 <= j < k ==> !#[trigger] row_has_pid(procs@, rows@, j, pid),
        decreases rows@.len() - k,
    {
        if procs[rows[k]].pid == pid {
            return Some(k);
        }
        k = k + 1;
    }
    None
}

/// Settles the selection on `rows`: keeps the selected process where it is
/// still shown, else clamps the index and selects the process found there.
fn resolve_selection(procs: &Vec<ProcessRecord>, rows: &Vec<usize>, app: &mut App) -> (selected:
    Option<usize>)
    requires
        rows_in_range(procs@, rows@),
    ensures
        resolved_selection(
            procs@,
            rows@,
            old(app).selected_index,
            old(app).selected_pid,
            final(app).selected_index,
            final(app).selected_pid,
        ),
        final(app)@.same_choices(old(app)@),
        selected == (if rows@.len() == 0 {
            None
        } else {
            Some(final(app).selected_index)
        }),
{
    if let Some(p) = app.selected_pid {
        if let Some(k) = find_pid(procs, rows, p) {
            app.selected_index = k;
            return Some(k);
        }
    }
    if rows.len() == 0 {
        app.selected_index = 0;
        return None;
    }
    if app.selected_index >= rows.len() {
        app.selected_index = rows.len() - 1;
    }
    app.selected_pid = Some(procs[rows[app.selected_index]].pid);
    Some(app.selected_index)
}

/// Projects a snapshot whose names and filter have already been lowercased:
/// keeps the processes whose lowercase name contains `lowered_filter`, orders
/// them by the session's sort mode and settles the selection on the result.
pub fn project_lowered(
    snap: &Snapshot,
    lowered_names: &Vec<String>,
    lowered_filter: &str,
    app: &mut App,
) -> (view: OrderedView)
    requires
        snap.wf(),
        lowered_names@.len() == snap.processes@.len(),
    ensures
        rows_in_range(snap.processes@, view.rows@),
        ordered(old(app).sort_by, snap.processes@, view.rows@),
        forall|i: int|
            0 <= i < snap.processes@.len() ==> (#[trigger] view.rows@.contains(i as usize)
                <==> is_substring(lowered_filter@, lowered_names@[i]@)),
        resolved_selection(
            snap.processes@,
            view.rows@,
            old(app).selected_index,
            old(app).selected_pid,
            final(app).selected_index,
            final(app).selected_pid,
        ),
        final(app)@.same_choices(old(app)@),
        view.selected == (if view.rows@.len() == 0 {
            None
        } else {
            Some(final(app).selected_index)
        }),
{
    let procs = &snap.processes;
    let mode = app.sort_by;
    let mut kept: Vec<usize> = Vec::new();
    let mut i: usize = 0;
    while i < procs.len()
        invariant
            i <= procs@.len(),
            lowered_names@.len() == procs@.len(),
            kept@.no_duplicates(),
            forall|k: int| 0 <= k < kept@.len() ==> #[trigger] kept@[k] < i,
            forall|x: usize| #[trigger]
                kept@.contains(x) <==> (x < i && is_substring(
                    lowered_filter@,
                    lowered_names@[x as int]@,
                )),
        decreases procs@.len() - i,
    {
        if contains_str(lowered_names[i].as_str(), lowered_filter) {
            let ghost before = kept@;
            kept.push(i);
            proof {
                assert forall|x: usize| #[trigger] kept@.contains(x) <==> (before.contains(x) || x
                    == i) by {
                    if kept@.contains(x) {
                        let k = choose|k: int| 0 <= k < kept@.len() && kept@[k] == x;
                        if k < before.len() {
                            assert(before[k] == x);
                        }
                    }
                    if before.contains(x) {
                        let k = choose|k: int| 0 <= k < before.len() && before[k] == x;
                        assert(kept@[k] == x);
                    }
                    if x == i {
                        assert(kept@[before.len() as int] == x);
                    }
                }
                assert forall|a: int, b: int|
                    0 <= a < kept@.len() && 0 <= b < kept@.len() && a != b implies kept@[a]
                    != kept@[b] by {
                    if a < before.len() && b < before.len() {
                        assert(before[a] != before[b]);
                    } else if a < before.len() {
                        assert(before[a] < i);
                    } else if b < before.len() {
                        assert(before[b] < i);
                    }
                }
            }
        }
        i = i + 1;
    }
    let rows = sort_rows(mode, procs, &kept, 0, kept.len());
    proof {
        assert(kept@.subrange(0, kept@.len() as int) =~= kept@);
    }
    let selected = resolve_selection(procs, &rows, app);
    OrderedView { rows, selected }
}

/// One refresh's projection: filters the snapshot's processes by the session's
/// filter, case-insensitively, orders them by its sort mode, and settles the
/// selection. Only the selection in the session changes.
pub fn project(snap: &Snapshot, app: &mut App) -> (view: OrderedView)
    requires
        snap.wf(),
    ensures
        is_projection(old(app).sort_by, snap.processes@, old(app).filter@, view.rows@),
        resolved_selection(
            snap.processes@,
            view.rows@,
            old(app).selected_index,
            old(app).selected_pid,
            final(app).selected_index,
            final(app).selected_pid,
        ),
        final(app)@.same_choices(old(app)@),
        view.selected == (if view.rows@.len() == 0 {
            None
        } else {
            Some(final(app).selected_index)
        }),
{
    let procs = &snap.processes;
    let lowered_filter = lowercase(app.filter.as_str());
    let mut names: Vec<String> = Vec::new();
    let mut i: usize = 0;
    while i < procs.len()
        invariant
            i <= procs@.len(),
            names@.len() == i,
            forall|k: int| 0 <= k < i ==> #[trigger] names@[k]@ == lower_of(procs@[k].name@),
        decreases procs@.len() - i,
    {
        names.push(lowercase(procs[i].name.as_str()));
        i = i + 1;
    }
    let ghost filter = app.filter@;
    let view = project_lowered(snap, &names, lowered_filter.as_str(), app);
    proof {
        if filter.len() == 0 {
            assert(lowered_filter@ =~= Seq::<char>::empty());
            assert forall|i: int| 0 <= i < procs@.len() implies is_substring(
                lowered_filter@,
                names@[i]@,
            ) by {
                lemma_empty_is_substring(names@[i]@);
            }
        }
    }
    view
}

} // verus!
