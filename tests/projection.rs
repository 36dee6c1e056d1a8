use rust_top::{cpu_rank, project, project_lowered, App, OrderedView, ProcessRecord, Snapshot, SortBy, MAX_ROWS};

fn rec(pid: u32, name: &str, cpu: f32, memory: u64) -> ProcessRecord {
    ProcessRecord { pid, name: name.to_string(), cpu_bits: cpu.to_bits(), memory }
}

fn snapshot(recs: Vec<ProcessRecord>) -> Snapshot {
    let mut s = Snapshot::empty();
    for r in recs {
        assert!(s.add_process(r));
    }
    s
}

fn pids(snap: &Snapshot, view: &OrderedView) -> Vec<u32> {
    view.rows.iter().map(|&i| snap.processes[i].pid).collect()
}

fn two() -> Snapshot {
    snapshot(vec![rec(1, "a", 10.0, 100), rec(2, "b", 90.0, 50)])
}

#[test]
fn cpu_sort_puts_busiest_first() {
    let snap = two();
    let mut app = App::new();
    let view = project(&snap, &mut app);
    assert_eq!(pids(&snap, &view), vec![2, 1]);
}

#[test]
fn filter_a_keeps_only_first_in_every_mode() {
    let snap = two();
    for mode in [SortBy::Cpu, SortBy::Mem, SortBy::Pid] {
        let mut app = App::new();
        app.sort_by = mode;
        app.filter = "a".to_string();
        let view = project(&snap, &mut app);
        assert_eq!(pids(&snap, &view), vec![1]);
    }
}

#[test]
fn selection_follows_pid_across_sort_change() {
    let snap = two();
    let mut app = App::new();
    app.selected_pid = Some(2);
    let view = project(&snap, &mut app);
    assert_eq!(view.selected, Some(0));
    app.sort_by = SortBy::Mem;
    let view = project(&snap, &mut app);
    assert_eq!(pids(&snap, &view), vec![1, 2]);
    assert_eq!(app.selected_index, 1);
    assert_eq!(app.selected_pid, Some(2));
    assert_eq!(view.selected, Some(1));
}

#[test]
fn filter_is_case_insensitive_and_complete() {
    let snap = snapshot(vec![
        rec(10, "Firefox", 5.0, 10),
        rec(11, "bash", 1.0, 20),
        rec(12, "FIREWALL", 2.0, 30),
        rec(13, "cargo", 3.0, 40),
    ]);
    let mut app = App::new();
    app.filter = "fIrE".to_string();
    let view = project(&snap, &mut app);
    assert_eq!(pids(&snap, &view), vec![10, 12]);
}

#[test]
fn empty_filter_keeps_every_process() {
    let snap = snapshot(vec![rec(3, "x", 1.0, 1), rec(9, "y", 2.0, 2), rec(5, "z", 3.0, 3)]);
    let mut app = App::new();
    app.sort_by = SortBy::Pid;
    let view = project(&snap, &mut app);
    assert_eq!(pids(&snap, &view), vec![9, 5, 3]);
}

#[test]
fn memory_sort_breaks_ties_by_pid() {
    let snap = snapshot(vec![rec(4, "a", 0.0, 7), rec(8, "b", 0.0, 7), rec(6, "c", 0.0, 9)]);
    let mut app = App::new();
    app.sort_by = SortBy::Mem;
    let view = project(&snap, &mut app);
    assert_eq!(pids(&snap, &view), vec![6, 8, 4]);
}

#[test]
fn nan_cpu_sorts_last() {
    let snap = snapshot(vec![
        rec(1, "nan", f32::NAN, 0),
        rec(2, "neg", -1.0, 0),
        rec(3, "zero", 0.0, 0),
        rec(4, "big", 50.0, 0),
        rec(5, "inf", f32::INFINITY, 0),
    ]);
    let mut app = App::new();
    let view = project(&snap, &mut app);
    assert_eq!(pids(&snap, &view), vec![5, 4, 3, 2, 1]);
}

#[test]
fn cpu_rank_values() {
    assert_eq!(cpu_rank(0.0f32.to_bits()), 0x8000_0001);
    assert_eq!(cpu_rank((-0.0f32).to_bits()), 0x8000_0000);
    assert_eq!(cpu_rank(1.0f32.to_bits()), 0x8000_0001 + 0x3f80_0000);
    assert_eq!(cpu_rank(f32::NAN.to_bits()), 0);
    assert_eq!(cpu_rank((-f32::NAN).to_bits()), 0);
    assert!(cpu_rank(f32::NEG_INFINITY.to_bits()) > 0);
    assert!(cpu_rank((-2.0f32).to_bits()) < cpu_rank((-1.0f32).to_bits()));
}

#[test]
fn empty_snapshot_gives_empty_view() {
    let snap = Snapshot::empty();
    let mut app = App::new();
    app.selected_index = 7;
    app.selected_pid = Some(3);
    app.filter = "q".to_string();
    let view = project(&snap, &mut app);
    assert!(view.rows.is_empty());
    assert_eq!(view.selected, None);
    assert_eq!(view.shown_len(), 0);
    assert_eq!(app.selected_index, 0);
    assert_eq!(app.selected_pid, Some(3));
}

#[test]
fn vanished_selection_falls_back_to_clamped_index() {
    let snap1 = snapshot(vec![rec(1, "a", 1.0, 0), rec(2, "b", 2.0, 0), rec(3, "c", 3.0, 0)]);
    let mut app = App::new();
    app.selected_index = 2;
    let _ = project(&snap1, &mut app);
    assert_eq!(app.selected_pid, Some(1));
    let snap2 = snapshot(vec![rec(2, "b", 2.0, 0), rec(3, "c", 3.0, 0)]);
    let view = project(&snap2, &mut app);
    assert_eq!(app.selected_index, 1);
    assert_eq!(app.selected_pid, Some(2));
    assert_eq!(view.selected, Some(1));
}

#[test]
fn selection_kept_when_process_moves() {
    let snap1 = snapshot(vec![rec(1, "a", 1.0, 0), rec(2, "b", 2.0, 0), rec(3, "c", 3.0, 0)]);
    let mut app = App::new();
    app.selected_pid = Some(1);
    let _ = project(&snap1, &mut app);
    assert_eq!(app.selected_index, 2);
    let snap2 = snapshot(vec![rec(1, "a", 99.0, 0), rec(2, "b", 2.0, 0), rec(3, "c", 3.0, 0)]);
    let _ = project(&snap2, &mut app);
    assert_eq!(app.selected_index, 0);
    assert_eq!(app.selected_pid, Some(1));
}

#[test]
fn add_process_refuses_duplicate_pid() {
    let mut s = Snapshot::empty();
    assert!(s.add_process(rec(5, "a", 0.0, 0)));
    assert!(!s.add_process(rec(5, "b", 0.0, 0)));
    assert_eq!(s.processes.len(), 1);
    assert_eq!(s.processes[0].name, "a");
    assert!(s.contains_pid(5));
    assert!(!s.contains_pid(6));
}

#[test]
fn display_is_capped_but_selection_is_not() {
    let recs: Vec<ProcessRecord> = (0..250u32).map(|p| rec(p, "w", 0.0, 0)).collect();
    let snap = snapshot(recs);
    let mut app = App::new();
    app.sort_by = SortBy::Pid;
    app.selected_pid = Some(5);
    let view = project(&snap, &mut app);
    assert_eq!(view.rows.len(), 250);
    assert_eq!(view.shown_len(), MAX_ROWS);
    assert_eq!(app.selected_index, 244);
    assert_eq!(app.selected_pid, Some(5));
    assert!(!view.is_highlighted(244));
    app.selected_pid = Some(249);
    let view = project(&snap, &mut app);
    assert!(view.is_highlighted(0));
    assert!(!view.is_highlighted(1));
}

#[test]
fn lowered_projection_uses_given_forms() {
    let snap = snapshot(vec![rec(1, "ONE", 0.0, 0), rec(2, "two", 0.0, 0)]);
    let names = vec!["xone".to_string(), "two".to_string()];
    let mut app = App::new();
    let view = project_lowered(&snap, &names, "one", &mut app);
    assert_eq!(pids(&snap, &view), vec![1]);
    let view = project_lowered(&snap, &names, "", &mut app);
    assert_eq!(view.rows.len(), 2);
}
