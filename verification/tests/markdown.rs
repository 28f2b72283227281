use dingtalk_channel::outbound::markdown::ensure_table_blank_lines;
use dingtalk_channel::outbound::normalize_for_card;

#[test]
fn single_line_stays() {
    assert_eq!(normalize_for_card("hello"), "hello");
    assert_eq!(normalize_for_card(""), "");
}

#[test]
fn code_block_keeps_its_lines() {
    let got = normalize_for_card("```rust\nlet a = 1;\nlet b = 2;\n```");
    assert!(got.contains("let a = 1;\nlet b = 2;"), "{got:?}");
}

#[test]
fn tables_are_spaced_once() {
    let spaced = |s: &str| -> String {
        let v: Vec<char> = s.chars().collect();
        ensure_table_blank_lines(&v).iter().collect()
    };
    let table = "intro\r\n| a | b |\n| --- | --- |\n| 1 | 2 |\nend";
    let once = spaced(table);
    assert_eq!(once, "intro\n\n| a | b |\n| --- | --- |\n| 1 | 2 |\nend");
    assert_eq!(spaced(&once), once);
    let first = "| a | b |\n| --- | --- |";
    assert_eq!(spaced(first), first);
}

#[test]
fn carriage_returns_are_gone() {
    let got = normalize_for_card("a\r\nb\rc");
    assert!(!got.contains('\r'));
}

#[test]
fn table_gets_a_blank_line_before_it() {
    let got = normalize_for_card("intro\n| a | b |\n| --- | --- |\n| 1 | 2 |");
    assert!(got.contains("\n\n| a | b |"), "{got:?}");
}
