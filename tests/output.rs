use discord_callsign_bot::output::{dedupe, render, sort_entries, OutputEntry};

fn entry(callsign: &str, name: &str, suffix: &str) -> OutputEntry {
    OutputEntry {
        callsign: callsign.to_string(),
        name: name.to_string(),
        suffix: suffix.to_string(),
        emoji_separator: "|".to_string(),
    }
}

#[test]
fn render_orders_by_callsign() {
    let text = render(
        vec![entry("KI7QCF", "Forrest", "x"), entry("AA1AA", "Al", "x")],
        None,
    );
    assert_eq!(text, "AA1AA | Al x\nKI7QCF | Forrest x\n");
}

#[test]
fn render_starts_with_title() {
    let text = render(vec![entry("W6JSV", "Jay", "73")], Some("Roster"));
    assert!(text.starts_with("# TITLE: Roster\n"));
    assert_eq!(text, "# TITLE: Roster\nW6JSV | Jay 73\n");
}

#[test]
fn render_keeps_trailing_space_for_empty_suffix() {
    let text = render(vec![entry("W6JSV", "Jay", "")], None);
    assert_eq!(text, "W6JSV | Jay \n");
}

#[test]
fn render_empty_list() {
    assert_eq!(render(Vec::new(), None), "");
    assert_eq!(render(Vec::new(), Some("T")), "# TITLE: T\n");
}

#[test]
fn sort_is_bytewise_and_stable() {
    let sorted = sort_entries(vec![
        entry("b", "1", ""),
        entry("B", "2", ""),
        entry("a", "3", ""),
        entry("B", "4", ""),
        entry("AB", "5", ""),
        entry("A", "6", ""),
    ]);
    let got: Vec<(String, String)> = sorted
        .into_iter()
        .map(|e| (e.callsign, e.name))
        .collect();
    let want = vec![
        ("A", "6"),
        ("AB", "5"),
        ("B", "2"),
        ("B", "4"),
        ("a", "3"),
        ("b", "1"),
    ];
    let want: Vec<(String, String)> = want
        .into_iter()
        .map(|(c, n)| (c.to_string(), n.to_string()))
        .collect();
    assert_eq!(got, want);
}

#[test]
fn dedupe_keeps_first_and_counts_dropped() {
    let (unique, dropped) = dedupe(vec![
        entry("W6JSV", "first", ""),
        entry("KI7QCF", "Forrest", ""),
        entry("W6JSV", "second", ""),
        entry("w6jsv", "lower", ""),
        entry("W6JSV", "third", ""),
    ]);
    assert_eq!(dropped, 2);
    let names: Vec<String> = unique.into_iter().map(|e| e.name).collect();
    assert_eq!(names, vec!["first", "Forrest", "lower"]);
}

#[test]
fn dedupe_of_empty_list() {
    let (unique, dropped) = dedupe(Vec::new());
    assert!(unique.is_empty());
    assert_eq!(dropped, 0);
}
