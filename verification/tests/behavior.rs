use observe::control::{command_for_key, Application, Command};
use observe::entry::{Entry, EntryLayout, EntryState, Sample};
use observe::registry::Registry;
use observe::stats::{elapsed_seconds, series_last, series_max, split_duration};

fn sample(pid: u32, name: &str, run_time: u64, mem: u64) -> Sample {
    Sample {
        pid,
        name: name.to_string(),
        run_time,
        mem,
        cpu: 150,
        read: 10,
        write: 20,
    }
}

#[test]
fn new_entry_is_alive_and_expanded() {
    let e = Entry::new("bash".to_string(), "sh".to_string(), 7, 1000, 40);
    assert_eq!(e.state, EntryState::Alive);
    assert_eq!(e.layout, EntryLayout::Expanded);
    assert_eq!(e.pid, 7);
    assert_eq!(e.start, 960);
    assert!(e.mem.is_empty());
}

#[test]
fn start_time_clamps_instead_of_wrapping() {
    let e = Entry::new("a".to_string(), "a".to_string(), 1, 0, u64::MAX);
    assert_eq!(e.start, i64::MIN);
}

#[test]
fn header_split_finds_the_query() {
    let e = Entry::new("bash".to_string(), "sh".to_string(), 1, 0, 0);
    let (before, matched, after) = e.name_match();
    assert_eq!(before, "ba");
    assert_eq!(matched, "sh");
    assert_eq!(after, "");
}

#[test]
fn header_split_takes_the_first_occurrence() {
    let e = Entry::new("shshsh".to_string(), "sh".to_string(), 1, 0, 0);
    let (before, matched, after) = e.name_match();
    assert_eq!(before, "");
    assert_eq!(matched, "sh");
    assert_eq!(after, "shsh");
}

#[test]
fn header_split_falls_back_when_the_query_is_absent() {
    let e = Entry::new("zsh".to_string(), "fish".to_string(), 1, 0, 0);
    let (before, matched, after) = e.name_match();
    assert_eq!(before, "zsh");
    assert_eq!(matched, "");
    assert_eq!(after, "");
}

#[test]
fn header_split_with_empty_query() {
    let e = Entry::new("bash".to_string(), "".to_string(), 1, 0, 0);
    let (before, matched, after) = e.name_match();
    assert_eq!(before, "");
    assert_eq!(matched, "");
    assert_eq!(after, "bash");
}

#[test]
fn dying_once_records_the_time_and_condenses() {
    let mut e = Entry::new("bash".to_string(), "sh".to_string(), 1, 100, 0);
    assert!(!e.is_dead());
    e.die_at(105);
    assert!(e.is_dead());
    assert_eq!(e.state, EntryState::Dead(105));
    assert_eq!(e.layout, EntryLayout::Condensed);
}

#[test]
fn dying_twice_changes_nothing() {
    let mut e = Entry::new("bash".to_string(), "sh".to_string(), 1, 100, 0);
    e.die_at(105);
    e.layout = EntryLayout::Expanded;
    e.die_at(200);
    assert_eq!(e.state, EntryState::Dead(105));
    assert_eq!(e.layout, EntryLayout::Expanded);
}

#[test]
fn each_cycle_appends_one_sample_while_alive() {
    let mut r = Registry::new("sh".to_string());
    r.apply_at(&vec![sample(1, "bash", 5, 100)], 1000);
    r.apply_at(&vec![sample(1, "bash", 6, 110)], 1001);
    r.apply_at(&vec![sample(1, "bash", 7, 120)], 1002);
    assert_eq!(r.len(), 1);
    let e = r.get(0);
    assert_eq!(e.mem, vec![100, 110, 120]);
    assert_eq!(e.cpu.len(), 3);
    assert_eq!(e.read.len(), 3);
    assert_eq!(e.write.len(), 3);
    assert_eq!(e.state, EntryState::Alive);
    assert_eq!(e.start, 995);
}

#[test]
fn absence_kills_and_freezes_the_series() {
    let mut r = Registry::new("sh".to_string());
    r.apply_at(&vec![sample(1, "bash", 5, 100)], 1000);
    r.apply_at(&vec![sample(1, "bash", 6, 110)], 1001);
    r.apply_at(&vec![sample(1, "bash", 7, 120)], 1002);
    r.apply_at(&vec![], 1003);
    let e = r.get(0);
    assert_eq!(e.state, EntryState::Dead(1003));
    assert_eq!(e.layout, EntryLayout::Condensed);
    assert_eq!(e.mem, vec![100, 110, 120]);
    // Another empty cycle leaves the dead record untouched.
    r.apply_at(&vec![], 1004);
    let e = r.get(0);
    assert_eq!(e.state, EntryState::Dead(1003));
    assert_eq!(e.mem.len(), 3);
}

#[test]
fn detail_override_still_applies_to_the_dead() {
    let mut r = Registry::new("sh".to_string());
    r.apply_at(&vec![sample(1, "bash", 5, 100)], 1000);
    r.apply_at(&vec![sample(1, "bash", 6, 110)], 1001);
    r.apply_at(&vec![sample(1, "bash", 7, 120)], 1002);
    r.apply_at(&vec![], 1003);
    assert_eq!(r.get(0).layout, EntryLayout::Condensed);
    r.set_detail_all(EntryLayout::Expanded);
    assert_eq!(r.get(0).layout, EntryLayout::Expanded);
    assert_eq!(r.get(0).state, EntryState::Dead(1003));
}

#[test]
fn set_detail_all_is_idempotent() {
    let mut r = Registry::new("sh".to_string());
    r.apply_at(&vec![sample(1, "bash", 5, 100), sample(2, "fish", 1, 50)], 1000);
    r.apply_at(&vec![sample(2, "fish", 2, 60)], 1001);
    r.set_detail_all(EntryLayout::Condensed);
    let once: Vec<(u32, EntryLayout, EntryState)> =
        (0..r.len()).map(|i| (r.get(i).pid, r.get(i).layout, r.get(i).state)).collect();
    r.set_detail_all(EntryLayout::Condensed);
    let twice: Vec<(u32, EntryLayout, EntryState)> =
        (0..r.len()).map(|i| (r.get(i).pid, r.get(i).layout, r.get(i).state)).collect();
    assert_eq!(once, twice);
}

#[test]
fn reset_empties_and_the_next_apply_rebuilds_fresh() {
    let mut r = Registry::new("sh".to_string());
    r.apply_at(&vec![sample(1, "bash", 5, 100)], 1000);
    assert_eq!(r.get(0).start, 995);
    r.reset();
    assert_eq!(r.len(), 0);
    r.apply_at(&vec![sample(1, "bash", 105, 130)], 2000);
    assert_eq!(r.len(), 1);
    let e = r.get(0);
    assert_eq!(e.start, 1895);
    assert_eq!(e.mem, vec![130]);
    assert_eq!(e.state, EntryState::Alive);
}

#[test]
fn records_are_ordered_by_identity() {
    let mut r = Registry::new("sh".to_string());
    r.apply_at(&vec![sample(50, "bash", 1, 1), sample(2, "zsh", 1, 2)], 1000);
    r.apply_at(
        &vec![sample(50, "bash", 2, 1), sample(2, "zsh", 2, 2), sample(7, "fish", 1, 3)],
        1001,
    );
    assert_eq!(r.len(), 3);
    assert_eq!(r.get(0).pid, 2);
    assert_eq!(r.get(1).pid, 7);
    assert_eq!(r.get(2).pid, 50);
}

#[test]
fn a_reused_identity_starts_a_fresh_record() {
    let mut r = Registry::new("sh".to_string());
    r.apply_at(&vec![sample(1, "bash", 5, 100)], 1000);
    r.apply_at(&vec![sample(1, "bash", 6, 110)], 1001);
    r.apply_at(&vec![], 1002);
    assert_eq!(r.get(0).state, EntryState::Dead(1002));
    r.apply_at(&vec![sample(1, "ssh", 1, 30)], 1010);
    assert_eq!(r.len(), 1);
    let e = r.get(0);
    assert_eq!(e.state, EntryState::Alive);
    assert_eq!(e.name, "ssh");
    assert_eq!(e.start, 1009);
    assert_eq!(e.mem, vec![30]);
}

#[test]
fn planner_fits_two_of_four_expanded_records_in_ten_rows() {
    let mut r = Registry::new("sh".to_string());
    r.apply_at(
        &vec![
            sample(1, "bash", 1, 1),
            sample(2, "bash", 1, 1),
            sample(3, "bash", 1, 1),
            sample(4, "bash", 1, 1),
        ],
        1000,
    );
    let plan = r.plan_layout(10);
    assert_eq!(plan.len(), 2);
    assert_eq!((plan[0].y, plan[0].height), (0, 4));
    assert_eq!((plan[1].y, plan[1].height), (4, 4));
}

#[test]
fn planner_shows_nothing_when_the_first_record_does_not_fit() {
    let mut r = Registry::new("sh".to_string());
    r.apply_at(&vec![sample(1, "bash", 1, 1)], 1000);
    let plan = r.plan_layout(3);
    assert_eq!(plan.len(), 0);
}

#[test]
fn planner_uses_condensed_heights() {
    let mut r = Registry::new("sh".to_string());
    r.apply_at(
        &vec![sample(1, "bash", 1, 1), sample(2, "bash", 1, 1), sample(3, "bash", 1, 1)],
        1000,
    );
    r.set_detail_all(EntryLayout::Condensed);
    let plan = r.plan_layout(10);
    assert_eq!(plan.len(), 3);
    assert_eq!((plan[0].y, plan[0].height), (0, 2));
    assert_eq!((plan[1].y, plan[1].height), (2, 2));
    assert_eq!((plan[2].y, plan[2].height), (4, 2));
}

#[test]
fn planner_of_an_empty_registry_is_empty() {
    let r = Registry::new("sh".to_string());
    assert_eq!(r.plan_layout(100).len(), 0);
}

#[test]
fn chart_heights() {
    assert_eq!(EntryLayout::Expanded.chart_height(), 3);
    assert_eq!(EntryLayout::Condensed.chart_height(), 1);
    let e = Entry::new("a".to_string(), "a".to_string(), 1, 0, 0);
    assert_eq!(e.required_height(), 4);
}

#[test]
fn key_bindings() {
    assert_eq!(command_for_key('q', false), Command::Quit);
    assert_eq!(command_for_key('q', true), Command::Quit);
    assert_eq!(command_for_key('c', true), Command::Quit);
    assert_eq!(command_for_key('c', false), Command::Nop);
    assert_eq!(command_for_key('r', false), Command::Reset);
    assert_eq!(command_for_key('E', false), Command::ExpandAll);
    assert_eq!(command_for_key('C', false), Command::CondenseAll);
    assert_eq!(command_for_key('x', false), Command::Nop);
}

#[test]
fn commands_drive_the_application() {
    let mut app = Application::new("sh".to_string());
    assert!(app.is_running);
    app.registry.apply_at(&vec![sample(1, "bash", 1, 1)], 1000);
    app.handle_command(Command::CondenseAll);
    assert_eq!(app.registry.get(0).layout, EntryLayout::Condensed);
    app.handle_command(Command::ExpandAll);
    assert_eq!(app.registry.get(0).layout, EntryLayout::Expanded);
    app.handle_command(Command::Nop);
    assert!(app.is_running);
    assert_eq!(app.registry.len(), 1);
    app.handle_command(Command::Reset);
    assert_eq!(app.registry.len(), 0);
    app.handle_command(Command::Quit);
    assert!(!app.is_running);
}

#[test]
fn series_stats() {
    let empty: Vec<u64> = vec![];
    assert_eq!(series_last(&empty), 0);
    assert_eq!(series_max(&empty), 0);
    let v: Vec<u64> = vec![3, 9, 2, 9, 1];
    assert_eq!(series_last(&v), 1);
    assert_eq!(series_max(&v), 9);
}

#[test]
fn elapsed_runs_while_alive_and_freezes_at_death() {
    let mut e = Entry::new("bash".to_string(), "sh".to_string(), 1, 1000, 40);
    assert_eq!(e.start, 960);
    assert_eq!(elapsed_seconds(&e, 1100), 140);
    e.die_at(1050);
    assert_eq!(elapsed_seconds(&e, 1100), 90);
    // A clock that moved backwards never yields a negative duration.
    let f = Entry::new("bash".to_string(), "sh".to_string(), 1, 1000, 0);
    assert_eq!(elapsed_seconds(&f, 900), 0);
}

#[test]
fn duration_breakdown() {
    assert_eq!(split_duration(3), (0, 0, 0, 3));
    assert_eq!(split_duration(125), (0, 0, 2, 5));
    assert_eq!(split_duration(7384), (0, 2, 3, 4));
    assert_eq!(split_duration(90061), (1, 1, 1, 1));
    assert_eq!(split_duration(0), (0, 0, 0, 0));
}

#[test]
fn applying_the_live_clock_still_updates_the_registry() {
    let mut r = Registry::new("sh".to_string());
    r.apply(&vec![sample(1, "bash", 5, 100)]);
    assert_eq!(r.len(), 1);
    assert_eq!(r.get(0).mem, vec![100]);
}
