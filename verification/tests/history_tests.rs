use rust_myscript::history::{
    clean_line, increment_command_count, trim_fits_exec, trim_history, trim_history_checked, Entry, Statistics,
};
use rust_myscript::ranking::{rank_entries, top_entries};

fn strings(v: &[&str]) -> Vec<String> {
    v.iter().map(|s| s.to_string()).collect()
}

fn view(stats: &Statistics) -> Vec<(String, i32)> {
    stats.entries.iter().map(|e| (e.command.clone(), e.count)).collect()
}

fn entry(c: &str, n: i32) -> Entry {
    Entry { command: c.to_string(), count: n }
}

#[test]
fn entry_and_statistics_start_empty() {
    let e = Entry::new("ls");
    assert_eq!(e.command, "ls");
    assert_eq!(e.count, 1);
    assert!(Statistics::new().entries.is_empty());
}

#[test]
fn lines_are_cleaned() {
    assert_eq!(clean_line("  ls -l \r\n"), "ls -l");
    assert_eq!(clean_line("cd\n"), "cd");
    assert_eq!(clean_line("\t\u{3000}git status\u{a0}"), "git status");
    assert_eq!(clean_line("   \n"), "");
    assert_eq!(clean_line("a\r"), "a");
}

#[test]
fn find_command_gives_the_first_entry() {
    let stats = Statistics { entries: vec![entry("a", 1), entry("b", 2), entry("a", 3)] };
    assert_eq!(stats.find_command("a"), Some(0));
    assert_eq!(stats.find_command("b"), Some(1));
    assert_eq!(stats.find_command("c"), None);
}

#[test]
fn increment_counts_or_appends() {
    let mut stats = Statistics { entries: vec![entry("a", 1), entry("b", 2)] };
    increment_command_count(&mut stats, "b");
    assert_eq!(view(&stats), vec![("a".to_string(), 1), ("b".to_string(), 3)]);
    increment_command_count(&mut stats, "c");
    assert_eq!(view(&stats), vec![("a".to_string(), 1), ("b".to_string(), 3), ("c".to_string(), 1)]);
}

#[test]
fn repeated_commands_move_to_their_last_use() {
    let mut stats = Statistics::new();
    let lines = strings(&["ls\n", "cd /tmp\n", " ls \n", "make\n", "cd /tmp\r\n", "ls\n"]);
    let out = trim_history(&lines, &mut stats);
    assert_eq!(out.lines, strings(&["make", "cd /tmp", "ls"]));
    assert_eq!(out.trim_count, 3);
    assert_eq!(view(&stats), vec![("ls".to_string(), 2), ("cd /tmp".to_string(), 1)]);
    // each line is kept or counted
    assert_eq!(out.lines.len() + out.trim_count, lines.len());
}

#[test]
fn trimming_twice_changes_nothing() {
    let mut stats = Statistics { entries: vec![entry("x", 5)] };
    let lines = strings(&["x\n", "y\n", "x\n", "z\n", "y\n"]);
    let first = trim_history(&lines, &mut stats);
    let counts = view(&stats);
    let again = trim_history(&first.lines, &mut stats);
    assert_eq!(again.lines, first.lines);
    assert_eq!(again.trim_count, 0);
    assert_eq!(view(&stats), counts);
    // the total rose by the number of repetitions
    assert_eq!(counts.iter().map(|c| c.1).sum::<i32>(), 5 + first.trim_count as i32);
}

#[test]
fn empty_history() {
    let mut stats = Statistics::new();
    let out = trim_history(&Vec::new(), &mut stats);
    assert!(out.lines.is_empty());
    assert_eq!(out.trim_count, 0);
}

#[test]
fn counts_that_would_overflow_are_refused() {
    let lines = strings(&["a\n", "a\n", "b\n", "a\n"]);
    let near = Statistics { entries: vec![entry("a", i32::MAX - 2)] };
    assert!(trim_fits_exec(&lines, &near));
    let full = Statistics { entries: vec![entry("a", i32::MAX - 1)] };
    assert!(!trim_fits_exec(&lines, &full));
    let mut s = full.duplicate();
    assert!(trim_history_checked(&lines, &mut s).is_none());
    assert_eq!(view(&s), view(&full));
    let mut t = near.duplicate();
    let out = trim_history_checked(&lines, &mut t).unwrap();
    assert_eq!(out.lines, strings(&["b", "a"]));
    assert_eq!(view(&t), vec![("a".to_string(), i32::MAX)]);
    // a command seen once only is never counted
    let other = Statistics { entries: vec![entry("z", i32::MAX)] };
    assert!(trim_fits_exec(&lines, &other));
}

#[test]
fn ranking_is_stable_and_descending() {
    let entries = vec![entry("a", 1), entry("b", 3), entry("c", 1), entry("d", 3), entry("e", 2)];
    let ranked: Vec<(String, i32)> = rank_entries(entries).into_iter().map(|e| (e.command, e.count)).collect();
    let names: Vec<&str> = ranked.iter().map(|e| e.0.as_str()).collect();
    assert_eq!(names, vec!["b", "d", "e", "a", "c"]);
}

#[test]
fn ranking_agrees_with_std_stable_sort() {
    let counts = [4, 1, 4, 2, 2, 9, 1, 0, -3, 4];
    let entries: Vec<Entry> = counts.iter().enumerate().map(|(i, c)| entry(&i.to_string(), *c)).collect();
    let mut expected: Vec<(String, i32)> = entries.iter().map(|e| (e.command.clone(), e.count)).collect();
    expected.sort_by(|l, r| r.1.cmp(&l.1));
    let ranked: Vec<(String, i32)> = rank_entries(entries).into_iter().map(|e| (e.command, e.count)).collect();
    assert_eq!(ranked, expected);
}

fn top(num: Option<i32>) -> Vec<String> {
    let stats = Statistics { entries: vec![entry("a", 1), entry("b", 5), entry("c", 3)] };
    top_entries(stats, num).into_iter().map(|e| e.command).collect()
}

#[test]
fn top_entries_limits() {
    assert_eq!(top(None), strings(&["b", "c", "a"]));
    assert_eq!(top(Some(2)), strings(&["b", "c"]));
    assert_eq!(top(Some(0)), Vec::<String>::new());
    assert_eq!(top(Some(3)), strings(&["b", "c", "a"]));
    assert_eq!(top(Some(10)), strings(&["b", "c", "a"]));
    assert_eq!(top(Some(-1)), strings(&["b", "c", "a"]));
}

#[test]
fn cleaning_twice_is_cleaning_once() {
    for raw in ["  ls -l \r\n", "\u{a0}x\u{3000}\n", "", "\n\n", "a b"] {
        let once = clean_line(raw);
        assert_eq!(clean_line(&once), once);
    }
}
