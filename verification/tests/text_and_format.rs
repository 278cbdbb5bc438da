use neocmakelsp::format::{format_range_outcome, getformat_outcome, range_source};
use neocmakelsp::grammar::{parse_line, LineParse};
use neocmakelsp::protocol::{DocPosition, DocRange};
use neocmakelsp::strutil::{last_path_segment, parent_path, split_string};
use neocmakelsp::utils::{get_node_content, get_range_content, FileType, SrcPoint, SrcSpan};

fn lines(src: &[&str]) -> Vec<String> {
    src.iter().map(|s| s.to_string()).collect()
}

#[test]
fn range_content_joins_rows_with_newlines() {
    let doc = lines(&["first line", "middle", "last line"]);
    assert_eq!(get_range_content(&doc, 0, 6, 0, 10), "line");
    assert_eq!(get_range_content(&doc, 0, 6, 2, 4), "line\nmiddle\nlast");
    assert_eq!(get_range_content(&doc, 1, 0, 1, 0), "");
}

#[test]
fn node_content_reads_its_span() {
    let doc = lines(&["set(ABC 1)"]);
    let node = SrcSpan {
        start: SrcPoint { row: 0, column: 4 },
        end: SrcPoint { row: 0, column: 7 },
    };
    assert_eq!(get_node_content(&doc, &node), "ABC");
}

#[test]
fn line_parsing_splits_name_and_arguments() {
    match parse_line("  set(A B)", 3) {
        LineParse::Command(inv) => {
            assert_eq!(inv.name, "set");
            assert_eq!(inv.row, 3);
            assert_eq!(inv.args.len(), 2);
            assert_eq!(inv.args[0].text, "A");
            assert_eq!(inv.args[1].text, "B");
            assert_eq!(inv.args[0].span.start.column, 6);
            assert_eq!(inv.open_column, 5);
            assert_eq!(inv.close_column, 9);
        }
        _ => panic!("expected an invocation"),
    }
    assert!(matches!(parse_line("# comment", 0), LineParse::NoCommand));
    assert!(matches!(parse_line("", 0), LineParse::NoCommand));
    assert!(matches!(parse_line("broken(A B", 0), LineParse::Unclosed));
}

#[test]
fn format_outcomes_follow_the_exit_code() {
    let range = DocRange {
        start: DocPosition { line: 1, character: 0 },
        end: DocPosition { line: 2, character: 5 },
    };
    match format_range_outcome(0, String::from("tidy()\n"), String::from(""), range) {
        Ok(Some(edits)) => {
            assert_eq!(edits.len(), 1);
            assert_eq!(edits[0].range, range);
            assert_eq!(edits[0].new_text, "tidy()\n");
        }
        _ => panic!("a zero exit replaces the range"),
    }
    match format_range_outcome(1, String::from(""), String::from("bad input"), range) {
        Err(e) => assert_eq!(e, "bad input"),
        _ => panic!("a nonzero exit surfaces the error"),
    }

    match getformat_outcome(0, String::from("whole()\n"), String::from("")) {
        Ok(Some(edits)) => {
            assert_eq!(edits[0].range.start.line, 0);
            assert_eq!(edits[0].range.end.line, 8);
            assert_eq!(edits[0].new_text, "whole()\n");
        }
        _ => panic!("a zero exit replaces the document"),
    }
    match getformat_outcome(3, String::from(""), String::from("no such file")) {
        Err(e) => assert_eq!(e, "no such file"),
        _ => panic!("a nonzero exit surfaces the error"),
    }
}

#[test]
fn range_source_rejects_out_of_bounds_requests() {
    let content = "abc\ndef";
    let good = DocRange {
        start: DocPosition { line: 0, character: 1 },
        end: DocPosition { line: 1, character: 2 },
    };
    assert_eq!(range_source(content, good).unwrap(), "bc\nde");
    let bad = DocRange {
        start: DocPosition { line: 0, character: 0 },
        end: DocPosition { line: 5, character: 0 },
    };
    assert!(range_source(content, bad).is_none());
}

#[test]
fn path_helpers_split_on_the_last_separator() {
    assert_eq!(last_path_segment("/a/b/CMakeLists.txt"), "CMakeLists.txt");
    assert_eq!(last_path_segment("plain"), "plain");
    assert_eq!(parent_path("/a/b/CMakeLists.txt"), "/a/b");
    assert_eq!(parent_path("plain"), "");
    let pieces = split_string("a\nb\n", '\n');
    assert_eq!(pieces, vec!["a", "b", ""]);
}

#[test]
fn file_type_names() {
    assert_eq!(FileType::Dir.name(), "Dir");
    assert_eq!(FileType::File.name(), "File");
}
