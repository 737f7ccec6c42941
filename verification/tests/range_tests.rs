use codegraph_server::index::IndexRange;
use codegraph_server::protocol::Position;
use codegraph_server::protocol::Range;

#[test]
fn test_range_contains() {
    let range = IndexRange { start_line: 10, start_col: 5, end_line: 15, end_col: 10 };

    // Inside range
    assert!(range.contains(12, 0));
    assert!(range.contains(10, 5));
    assert!(range.contains(15, 10));

    // Outside range
    assert!(!range.contains(9, 0));
    assert!(!range.contains(16, 0));
    assert!(!range.contains(10, 4)); // Before start col on start line
    assert!(!range.contains(15, 11)); // After end col on end line
}

#[test]
fn test_to_lsp_range_shifts_lines() {
    let range = IndexRange { start_line: 1, start_col: 4, end_line: 1, end_col: 7 };
    let lsp = range.to_lsp_range();
    assert_eq!(lsp.start.line, 0);
    assert_eq!(lsp.start.character, 4);
    assert_eq!(lsp.end.line, 0);
    assert_eq!(lsp.end.character, 7);
}

#[test]
fn test_lsp_round_trip() {
    let range = IndexRange { start_line: 10, start_col: 5, end_line: 15, end_col: 10 };
    let back = IndexRange::from_lsp_range(range.to_lsp_range());
    assert_eq!(back, range);
}

#[test]
fn test_from_lsp_range() {
    let editor = Range {
        start: Position { line: 0, character: 4 },
        end: Position { line: 3, character: 0 },
    };
    let internal = IndexRange::from_lsp_range(editor);
    assert_eq!(internal.start_line, 1);
    assert_eq!(internal.start_col, 4);
    assert_eq!(internal.end_line, 4);
    assert_eq!(internal.end_col, 0);
}

#[test]
fn test_range_size() {
    let range = IndexRange { start_line: 1, start_col: 0, end_line: 3, end_col: 5 };
    assert_eq!(range.size(), 2 * 10000 + 5);
}
