use zerostack::edit_match::{find_best_match, levenshtein, normalize_whitespace, MatchResult};
use zerostack::edit::{
    compute_byte_range, count_exact_matches, edit_content, parse_blocks, EditTool, ParseError,
};

fn block(search: &str, replace: &str) -> String {
    format!("<<<<<<< SEARCH\n{search}\n=======\n{replace}\n>>>>>>> REPLACE\n")
}

#[test]
fn parse_reads_one_block() {
    let blocks = parse_blocks(&block("fn a() {}", "fn b() {}")).unwrap();
    assert_eq!(blocks.len(), 1);
    assert_eq!(blocks[0].search, "fn a() {}");
    assert_eq!(blocks[0].replace, "fn b() {}");
}

#[test]
fn parse_keeps_multi_line_text_and_indentation() {
    let raw = "intro\n<<<<<<< SEARCH\n  one\n  two\n=======\n  three\n>>>>>>> REPLACE\ntrailer\n";
    let blocks = parse_blocks(raw).unwrap();
    assert_eq!(blocks.len(), 1);
    assert_eq!(blocks[0].search, "  one\n  two");
    assert_eq!(blocks[0].replace, "  three");
}

#[test]
fn parse_accepts_markers_with_surrounding_space_and_empty_replacement() {
    let raw = "  <<<<<<< SEARCH  \nold\n =======\n>>>>>>> REPLACE \r\n";
    let blocks = parse_blocks(raw).unwrap();
    assert_eq!(blocks[0].search, "old");
    assert_eq!(blocks[0].replace, "");
}

#[test]
fn parse_reads_several_blocks() {
    let raw = format!("{}{}", block("a", "b"), block("c", "d"));
    let blocks = parse_blocks(&raw).unwrap();
    assert_eq!(blocks.len(), 2);
    assert_eq!(blocks[1].search, "c");
    assert_eq!(blocks[1].replace, "d");
}

#[test]
fn parse_refuses_nested_blocks() {
    let raw = "<<<<<<< SEARCH\na\n<<<<<<< SEARCH\n";
    assert_eq!(parse_blocks(raw).unwrap_err(), ParseError::Nested);
    assert_eq!(
        ParseError::Nested.message(),
        "Nested SEARCH/REPLACE block detected. Close each block with >>>>>>> REPLACE before starting a new one."
    );
}

#[test]
fn parse_refuses_an_empty_search() {
    let raw = format!("{}<<<<<<< SEARCH\n=======\nx\n>>>>>>> REPLACE\n", block("a", "b"));
    let e = parse_blocks(&raw).unwrap_err();
    assert_eq!(e, ParseError::EmptySearch(2));
    assert_eq!(
        e.message(),
        "Block 2 has empty search text. Each block must have a non-empty SEARCH section."
    );
}

#[test]
fn parse_refuses_text_without_blocks() {
    let e = parse_blocks("just text\n=======\n").unwrap_err();
    assert_eq!(e, ParseError::NoBlocks);
    assert!(e.message().starts_with("No SEARCH/REPLACE blocks found. Use format:\n<<<<<<< SEARCH\n"));
}

#[test]
fn parse_drops_an_unclosed_block() {
    let raw = format!("{}<<<<<<< SEARCH\nx\n=======\ny\n", block("a", "b"));
    let blocks = parse_blocks(&raw).unwrap();
    assert_eq!(blocks.len(), 1);
}

#[test]
fn counting_matches_does_not_overlap() {
    assert_eq!(count_exact_matches("aaaa", "aa"), 2);
    assert_eq!(count_exact_matches("abcabc", "abc"), 2);
    assert_eq!(count_exact_matches("abc", "x"), 0);
    assert_eq!(count_exact_matches("héllo héllo", "é"), 2);
    assert_eq!(count_exact_matches("ab", ""), 3);
}

#[test]
fn edit_replaces_an_exact_match() {
    let out = edit_content(&block("world", "there"), "greet.txt", b"hello world\n").unwrap();
    assert_eq!(out.output, "hello there\n");
    assert_eq!(out.message, "Applied 1 edit(s) to greet.txt");
}

#[test]
fn edit_applies_several_blocks() {
    let raw = format!("{}{}", block("one", "1"), block("three", "3"));
    let out = edit_content(&raw, "f.txt", b"one\ntwo\nthree\n").unwrap();
    assert_eq!(out.output, "1\ntwo\n3\n");
    assert_eq!(out.message, "Applied 2 edit(s) to f.txt");
}

#[test]
fn edit_keeps_crlf_line_endings() {
    let raw = block("b", "B");
    let out = edit_content(&raw, "f.txt", b"a\r\nb\r\nc\r\n").unwrap();
    assert_eq!(out.output, "a\r\nB\r\nc\r\n");
}

#[test]
fn edit_reports_an_ambiguous_search() {
    let raw = block("x = 1", "x = 2");
    let err = edit_content(&raw, "m.py", b"x = 1\ny = 0\nx = 1\n").unwrap_err();
    assert_eq!(
        err,
        "search text matched 2 times in m.py:\n  Line 1: x = 1\n  Line 3: x = 1\n\nAdd more surrounding context to the SEARCH block to make it unique."
    );
}

#[test]
fn edit_labels_blocks_when_there_are_several() {
    let raw = format!("{}{}", block("a", "b"), block("zzz", "y"));
    let err = edit_content(&raw, "f.txt", b"a\n").unwrap_err();
    assert_eq!(
        err,
        "Block 2: search text not found in 'f.txt'.\nRead the file and copy the exact text for the SEARCH block, ensuring whitespace and indentation match."
    );
}

#[test]
fn edit_reports_a_parse_error() {
    let err = edit_content("nothing here", "f.txt", b"abc").unwrap_err();
    assert!(err.starts_with("No SEARCH/REPLACE blocks found."));
}

#[test]
fn edit_is_all_or_nothing() {
    let raw = format!("{}{}", block("a", "A"), block("missing", "M"));
    assert!(edit_content(&raw, "f.txt", b"a b c").is_err());
}

#[test]
fn edit_decodes_invalid_utf8_lossily() {
    let out = edit_content(&block("b", "c"), "f.bin", &[0x61, 0xff, 0x62]).unwrap();
    assert_eq!(out.output, "a\u{fffd}c");
}

#[test]
fn byte_range_maps_back_to_whole_lines() {
    // Lines "  a" (norm "a") and "b  c" (norm "b c"): normalized text "a\nb c".
    let lines = [(3usize, 1usize), (4, 3)];
    assert_eq!(compute_byte_range(&lines, 8, 5, 2, 3), (4, 8));
    assert_eq!(compute_byte_range(&lines, 8, 5, 0, 1), (0, 3));
    assert_eq!(compute_byte_range(&[], 0, 0, 0, 0), (0, 0));
}

#[test]
fn edit_tool_keeps_its_permission_parts() {
    let t: EditTool<u8, u16> = EditTool::new(Some(3), None);
    assert_eq!(t.permission, Some(3));
    assert_eq!(t.ask_tx, None);
}

#[test]
fn edit_falls_back_to_normalized_whitespace() {
    let out = edit_content(&block("let x = 1;", "let x = 2;"), "f.rs", b"fn a() {\n    let  x = 1;\n}\n").unwrap();
    assert_eq!(out.output, "fn a() {\nlet x = 2;\n}\n");
    assert_eq!(out.message, "Applied 1 edit(s) to f.rs\n  Note: matched after whitespace normalization");
}

#[test]
fn edit_falls_back_to_a_fuzzy_match() {
    let out = edit_content(&block("beta gamma delte", "X"), "f.txt", b"alpha\nbeta gamma delta\nomega\n").unwrap();
    assert_eq!(out.output, "alpha\nX\nomega\n");
    assert_eq!(out.message, "Applied 1 edit(s) to f.txt\n  Note: fuzzy match, 94% similarity");
}

#[test]
fn edit_suggests_a_closest_match() {
    let err = edit_content(&block("abcdefxyzq", "X"), "f.txt", b"abcdefghij\n").unwrap_err();
    assert_eq!(
        err,
        "search text not found in 'f.txt'. Closest match at line 1, 60% similar:\n  abcdefxyzq\n\nRead the file around that area, copy the exact text, and retry the edit."
    );
}

#[test]
fn best_match_steps() {
    let chars = |s: &str| s.chars().collect::<Vec<char>>();
    assert!(matches!(find_best_match(&chars("a b"), &chars("b")), MatchResult::Exact(2)));
    assert!(matches!(find_best_match(&chars("x\n  a   b\n"), &chars("a b")), MatchResult::Normalized(2, 9)));
    assert!(matches!(find_best_match(&chars("zzz\n"), &chars("abc")), MatchResult::NotFound));
    assert_eq!(levenshtein(&chars("kitten"), &chars("sitting")), 3);
    assert_eq!(normalize_whitespace(&chars("  a\t b \n\n c  ")), chars("a b\n\nc"));
}
