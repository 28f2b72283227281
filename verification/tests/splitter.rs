use dingtalk_channel::outbound::split_with_code_fences;
use dingtalk_channel::outbound::splitter::chunk_text;

#[test]
fn chunk_short_text_single() {
    assert_eq!(chunk_text("hello", 100), vec!["hello"]);
}

#[test]
fn chunk_splits_and_keeps_content() {
    let s = "a\nb\nc\nd";
    let got = chunk_text(s, 4);
    // No content lost: concatenation equals the text.
    let joined: String = got.concat();
    assert_eq!(joined, s);
    assert!(got.iter().all(|c| c.chars().count() <= 4));
}

#[test]
fn splitter_reopens_fences() {
    let s = "intro\n```rust\nfn a(){}\nfn b(){}\n```\ntail text here\nmore tail text";
    let parts = split_with_code_fences(s, 12);
    assert!(parts.len() >= 2);
    // Every chunk must have balanced fences.
    for p in &parts {
        let opens = p.matches("```").count();
        assert_eq!(opens % 2, 0, "unbalanced fences in {p:?}");
    }
    // Content preserved across chunks (modulo reopened fence markers).
    let stripped: String = parts
        .iter()
        .map(|p| p.replace("```rust\n", "").replace("\n```", ""))
        .collect::<Vec<_>>()
        .join("");
    assert!(stripped.contains("intro"));
    assert!(stripped.contains("tail"));
}

#[test]
fn chunks_without_limit_are_the_text() {
    let s = "x".repeat(50);
    assert_eq!(chunk_text(&s, 0), vec![s.clone()]);
}

#[test]
fn long_line_is_cut_at_the_limit() {
    let s = "x".repeat(35);
    let got = chunk_text(&s, 10);
    let sizes: Vec<usize> = got.iter().map(|c| c.len()).collect();
    assert_eq!(sizes, vec![10, 10, 10, 5]);
    assert_eq!(got.concat(), s);
}

#[test]
fn cut_falls_behind_a_line_feed() {
    let got = chunk_text("aaa\nbbbbbb", 5);
    assert_eq!(got.concat(), "aaa\nbbbbbb");
    assert_eq!(got[0], "aaa\n");
}

#[test]
fn cut_never_goes_beyond_the_limit() {
    let got = chunk_text("abcd\nefgh", 4);
    assert_eq!(got.concat(), "abcd\nefgh");
    assert!(got.iter().all(|c| c.chars().count() <= 4));
    assert_eq!(got[0], "abcd");
    assert_eq!(chunk_text("abc\nefgh", 4), vec!["abc\n", "efgh"]);
    assert_eq!(chunk_text("a\nb", 1), vec!["a", "\n", "b"]);
}

#[test]
fn long_line_without_a_fence_is_cut() {
    assert_eq!(split_with_code_fences("abcdef", 4), vec!["abcd", "ef"]);
    assert_eq!(
        split_with_code_fences("x\nabcdefghi\ny", 4),
        vec!["x", "abcd", "efgh", "i\ny"]
    );
    assert_eq!(
        split_with_code_fences("abcd\n\nefgh", 4),
        vec!["abcd", "", "efgh"]
    );
    let wide = "\u{4f60}\u{597d}\u{4f60}\u{597d}\u{4f60}";
    let parts = split_with_code_fences(wide, 3);
    assert_eq!(parts.concat(), wide);
    assert!(parts.iter().all(|p| p.chars().count() <= 3));
}

#[test]
fn lines_around_a_fence_stay_whole() {
    let parts = split_with_code_fences("a long line in front\n```\ncode\n```", 8);
    assert_eq!(parts[0], "a long line in front");
}

#[test]
fn plain_fence_is_closed_and_opened_again() {
    let parts = split_with_code_fences("```\naaaa\nbbbb\n```", 8);
    for p in &parts {
        assert_eq!(p.matches("```").count() % 2, 0, "{p:?}");
    }
    assert!(parts[0].contains("aaaa"));
}
