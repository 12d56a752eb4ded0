use sysguard::controller::{filter_and_sort, SysGuard, TickAction, ITEMS_PER_PAGE};
use sysguard::filter::{apply_filter, normalize_snapshot, record_matches};
use sysguard::paging::{
    clamp_page_index, list_pagination, next_page_index, page_slice, prev_page_index, total_pages,
};
use sysguard::record::{Page, ProcessRecord, SortColumn, SortDirection};
use sysguard::sort::{sort_order, sort_records};
use sysguard::text::{chars_lt, chars_of, contains_chars, decimal_chars};

fn rec(pid: u32, name: &str, cpu: u32, memory: u64) -> ProcessRecord {
    ProcessRecord { pid, name: name.to_string(), cpu, memory }
}

fn pids(records: &[ProcessRecord]) -> Vec<u32> {
    records.iter().map(|r| r.pid).collect()
}

fn chars(s: &str) -> Vec<char> {
    s.chars().collect()
}

fn sample() -> Vec<ProcessRecord> {
    vec![
        rec(300, "Firefox", 1250, 800),
        rec(12, "bash", 0, 40),
        rec(4512, "cargo", 9900, 1200),
        rec(77, "BASH", 0, 40),
        rec(1001, "init", 10, 10),
    ]
}

#[test]
fn paginate_five_by_two() {
    let pages = list_pagination(vec![1, 2, 3, 4, 5], 2);
    assert_eq!(pages, vec![vec![1, 2], vec![3, 4], vec![5]]);
}

#[test]
fn paginate_with_zero_page_size_is_empty() {
    let pages = list_pagination(vec![1, 2, 3], 0);
    assert!(pages.is_empty());
}

#[test]
fn paginate_empty_and_exact() {
    assert!(list_pagination(Vec::<u8>::new(), 3).is_empty());
    let pages = list_pagination(vec![1, 2, 3, 4], 2);
    assert_eq!(pages, vec![vec![1, 2], vec![3, 4]]);
}

#[test]
fn total_pages_values() {
    assert_eq!(total_pages(0, 50), 0);
    assert_eq!(total_pages(120, 50), 3);
    assert_eq!(total_pages(100, 50), 2);
    assert_eq!(total_pages(1, 50), 1);
    assert_eq!(total_pages(usize::MAX, 1), usize::MAX);
}

#[test]
fn last_page_of_120_holds_20() {
    let records: Vec<ProcessRecord> = (0..120).map(|i| rec(i, "p", 0, 0)).collect();
    let last = page_slice(&records, 2, 50);
    assert_eq!(last.len(), 20);
    assert_eq!(last[0].pid, 100);
    assert_eq!(last[19].pid, 119);
    assert!(page_slice(&records, 3, 50).is_empty());
    assert_eq!(page_slice(&records, 0, 50).len(), 50);
}

#[test]
fn page_index_navigation_and_clamping() {
    assert_eq!(clamp_page_index(5, 120, 50), 2);
    assert_eq!(clamp_page_index(1, 120, 50), 1);
    assert_eq!(clamp_page_index(3, 0, 50), 0);
    assert_eq!(next_page_index(1, 120, 50), 2);
    assert_eq!(next_page_index(2, 120, 50), 2);
    assert_eq!(next_page_index(0, 0, 50), 0);
    assert_eq!(prev_page_index(2), 1);
    assert_eq!(prev_page_index(0), 0);
}

#[test]
fn decimal_and_substring_helpers() {
    assert_eq!(decimal_chars(0), chars("0"));
    assert_eq!(decimal_chars(4512), chars("4512"));
    assert_eq!(decimal_chars(u32::MAX), chars("4294967295"));
    assert!(contains_chars(&chars("4512"), &chars("51")));
    assert!(!contains_chars(&chars("4512"), &chars("15")));
    assert!(contains_chars(&chars("abc"), &chars("")));
    assert!(!contains_chars(&chars("ab"), &chars("abc")));
    assert!(chars_lt(&chars("abc"), &chars("abd")));
    assert!(chars_lt(&chars("ab"), &chars("abc")));
    assert!(!chars_lt(&chars("abc"), &chars("abc")));
    assert!(!chars_lt(&chars("b"), &chars("abc")));
}

#[test]
fn filter_matches_name_case_insensitively() {
    let out = apply_filter(&sample(), "BaSh");
    assert_eq!(pids(&out), vec![12, 77]);
    let out = apply_filter(&sample(), "FOX");
    assert_eq!(pids(&out), vec![300]);
}

#[test]
fn filter_matches_pid_digits() {
    let out = apply_filter(&sample(), "1");
    assert_eq!(pids(&out), vec![12, 4512, 1001]);
    let out = apply_filter(&sample(), "zzz");
    assert!(out.is_empty());
}

#[test]
fn empty_query_keeps_everything_in_order() {
    let out = apply_filter(&sample(), "");
    assert_eq!(pids(&out), pids(&sample()));
    assert_eq!(out[0].name, "Firefox");
}

#[test]
fn collector_drops_own_process() {
    let out = normalize_snapshot(&sample(), 4512);
    assert_eq!(pids(&out), vec![300, 12, 77, 1001]);
    let out = normalize_snapshot(&sample(), 9);
    assert_eq!(out.len(), 5);
}

#[test]
fn sort_by_each_column() {
    let s = sample();
    let asc = sort_records(&s, SortColumn::Pid, SortDirection::Ascending);
    assert_eq!(pids(&asc), vec![12, 77, 300, 1001, 4512]);
    let desc = sort_records(&s, SortColumn::Memory, SortDirection::Descending);
    assert_eq!(pids(&desc), vec![4512, 300, 12, 77, 1001]);
    let cpu = sort_records(&s, SortColumn::Cpu, SortDirection::Descending);
    assert_eq!(pids(&cpu), vec![4512, 300, 1001, 12, 77]);
    let name = sort_records(&s, SortColumn::Name, SortDirection::Ascending);
    assert_eq!(pids(&name), vec![12, 77, 4512, 300, 1001]);
}

#[test]
fn sort_is_stable_on_ties() {
    let s = sample();
    let asc = sort_records(&s, SortColumn::Cpu, SortDirection::Ascending);
    assert_eq!(pids(&asc), vec![12, 77, 1001, 300, 4512]);
    let desc = sort_records(&s, SortColumn::Name, SortDirection::Descending);
    assert_eq!(pids(&desc), vec![1001, 300, 4512, 12, 77]);
    assert_eq!(sort_order(&s, SortColumn::Memory, SortDirection::Ascending), vec![4, 1, 3, 0, 2]);
}

#[test]
fn opposite_direction_reverses_distinct_keys() {
    let s = sample();
    let asc = sort_records(&s, SortColumn::Pid, SortDirection::Ascending);
    let mut desc = pids(&sort_records(&s, SortColumn::Pid, SortDirection::Descending));
    desc.reverse();
    assert_eq!(pids(&asc), desc);
}

#[test]
fn direction_toggle_and_symbol() {
    assert_eq!(SortDirection::Ascending.toggle(), SortDirection::Descending);
    assert_eq!(SortDirection::Descending.toggle(), SortDirection::Ascending);
    assert_eq!(SortDirection::Ascending.symbol(), "\u{25B2}");
    assert_eq!(SortDirection::Descending.symbol(), "\u{25BC}");
    assert_eq!(Page::Home.page_idx(), 0);
    assert_eq!(Page::ProcessManager.page_idx(), 1);
    assert_eq!(Page::Settings.page_idx(), 2);
    assert_eq!(Page::Test1.page_idx(), 3);
}

fn loaded(records: &Vec<ProcessRecord>) -> SysGuard {
    let mut g = SysGuard::new(4512);
    let t = g.nav_to(Page::ProcessManager).unwrap();
    assert!(g.apply_snapshot(t, records));
    g
}

#[test]
fn controller_sort_selection() {
    let mut g = loaded(&sample());
    assert_eq!(g.sort_column, SortColumn::Cpu);
    assert_eq!(g.sort_direction, SortDirection::Descending);
    assert_eq!(pids(&g.filtered_processes), vec![300, 1001, 12, 77]);
    g.sort_by(SortColumn::Cpu);
    assert_eq!(g.sort_direction, SortDirection::Ascending);
    assert_eq!(pids(&g.filtered_processes), vec![12, 77, 1001, 300]);
    g.sort_by(SortColumn::Pid);
    assert_eq!(g.sort_column, SortColumn::Pid);
    assert_eq!(g.sort_direction, SortDirection::Descending);
    assert_eq!(pids(&g.filtered_processes), vec![1001, 300, 77, 12]);
    g.sort_by(SortColumn::Pid);
    assert_eq!(pids(&g.filtered_processes), vec![12, 77, 300, 1001]);
}

#[test]
fn controller_query_resets_page() {
    let records: Vec<ProcessRecord> = (0..120).map(|i| rec(i + 5, "svc", 0, 0)).collect();
    let mut g = loaded(&records);
    g.next_page();
    g.next_page();
    assert_eq!(g.current_display_page, 2);
    g.next_page();
    assert_eq!(g.current_display_page, 2);
    g.set_query("svc".to_string());
    assert_eq!(g.current_display_page, 0);
    assert_eq!(g.filtered_processes.len(), 120);
    g.prev_page();
    assert_eq!(g.current_display_page, 0);
}

#[test]
fn refresh_clamps_page_index() {
    let records: Vec<ProcessRecord> = (0..120).map(|i| rec(i + 5, "svc", 0, 0)).collect();
    let mut g = loaded(&records);
    g.next_page();
    g.next_page();
    let t = g.manual_refresh().unwrap();
    let fewer: Vec<ProcessRecord> = (0..60).map(|i| rec(i + 5, "svc", 0, 0)).collect();
    assert!(g.apply_snapshot(t, &fewer));
    assert_eq!(g.current_display_page, 1);
    let m = g.display_model();
    assert_eq!(m.total_pages, 2);
    assert_eq!(m.visible_records.len(), 10);
}

#[test]
fn stale_ticket_is_discarded() {
    let mut g = SysGuard::new(1);
    let mut tickets = Vec::new();
    for _ in 0..6 {
        tickets.push(g.manual_refresh().unwrap());
    }
    assert_eq!(tickets[4], 5);
    assert_eq!(tickets[5], 6);
    let older = vec![rec(10, "old", 0, 0)];
    let newer = vec![rec(20, "new", 0, 0), rec(21, "newer", 0, 0)];
    assert!(g.apply_snapshot(6, &newer));
    assert!(!g.apply_snapshot(5, &older));
    assert_eq!(g.applied_ticket, 6);
    let m = g.display_model();
    assert_eq!(m.total_filtered_count, 2);
    assert_eq!(pids(&m.visible_records), vec![20, 21]);
    assert!(!g.apply_snapshot(6, &older));
    assert!(!g.apply_snapshot(7, &older));
}

#[test]
fn timer_ticks_rearm_and_collect_only_when_shown() {
    let mut g = SysGuard::new(1);
    let a = g.on_tick();
    assert_eq!(a, TickAction { collect: None, rearm: true });
    g.nav_to(Page::ProcessManager);
    let a = g.on_tick();
    assert!(a.rearm);
    assert!(a.collect.is_some());
    g.nav_to(Page::Settings);
    let a = g.on_tick();
    assert_eq!(a, TickAction { collect: None, rearm: true });
    g.shutdown();
    let a = g.on_tick();
    assert_eq!(a, TickAction { collect: None, rearm: false });
    assert_eq!(g.manual_refresh(), None);
}

#[test]
fn result_after_shutdown_is_discarded() {
    let mut g = SysGuard::new(1);
    let t = g.manual_refresh().unwrap();
    g.shutdown();
    assert!(!g.apply_snapshot(t, &sample()));
    assert!(g.processes.is_empty());
}

#[test]
fn end_to_end_query_sort_page() {
    let records: Vec<ProcessRecord> =
        (0..120u32).map(|i| rec(i + 5, "svc", i, (i as u64 + 1) * 1000)).collect();
    let mut g = loaded(&records);
    g.set_query("1".to_string());
    g.sort_by(SortColumn::Memory);
    assert_eq!(g.sort_direction, SortDirection::Descending);
    let m = g.display_model();
    assert_eq!(m.total_filtered_count, 43);
    assert_eq!(m.total_pages, 1);
    assert_eq!(m.current_page_index, 0);
    assert_eq!(m.visible_records.len(), 43);
    assert_eq!(m.visible_records[0].pid, 124);
    assert!(m.visible_records.windows(2).all(|w| w[0].memory >= w[1].memory));
    g.next_page();
    assert_eq!(g.current_display_page, 0);
    assert_eq!(ITEMS_PER_PAGE, 50);
}

#[test]
fn filter_and_sort_combined() {
    let out = filter_and_sort(&sample(), "b", SortColumn::Pid, SortDirection::Descending);
    assert_eq!(pids(&out), vec![77, 12]);
}

#[test]
fn query_characters_and_single_record_match() {
    assert_eq!(chars_of("Fö1"), vec!['F', 'ö', '1']);
    assert!(chars_of("").is_empty());
    let r = rec(4512, "Firefox", 0, 0);
    assert!(record_matches(&r, &chars("FOX"), &chars("fox")));
    assert!(record_matches(&r, &chars("51"), &chars("51")));
    assert!(!record_matches(&r, &chars("FOX"), &chars("FOX")));
    assert!(!record_matches(&r, &chars("99"), &chars("99")));
}
