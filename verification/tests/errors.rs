//! Rejected inputs: unbalanced blocks, unrecognized lines, malformed
//! input-call declarations.  Each error names the 1-based offending line.

use forge::encode;
use forge::TranspileError;

#[test]
fn lone_closer_is_unbalanced_at_line_one() {
    assert_eq!(
        encode("}"),
        Err(TranspileError::UnbalancedBlock { line: 1 })
    );
}

#[test]
fn extra_closer_is_unbalanced_at_its_own_line() {
    assert_eq!(
        encode("if a {\nx = 1--\n}\n}"),
        Err(TranspileError::UnbalancedBlock { line: 4 })
    );
}

#[test]
fn unbalanced_error_counts_blank_and_comment_lines() {
    assert_eq!(
        encode("\n// remark\n}"),
        Err(TranspileError::UnbalancedBlock { line: 3 })
    );
}

#[test]
fn else_joint_with_no_open_block_is_unbalanced() {
    assert_eq!(
        encode("} else {"),
        Err(TranspileError::UnbalancedBlock { line: 1 })
    );
}

#[test]
fn standalone_else_with_no_open_block_is_unbalanced() {
    assert_eq!(
        encode("else {"),
        Err(TranspileError::UnbalancedBlock { line: 1 })
    );
}

#[test]
fn unterminated_line_is_unrecognized() {
    assert_eq!(
        encode("print(\"ok\")--\nbogus line"),
        Err(TranspileError::UnrecognizedLine { line: 2, text: String::from("bogus line") })
    );
}

#[test]
fn unrecognized_text_is_reported_trimmed() {
    assert_eq!(
        encode("   what is this   "),
        Err(TranspileError::UnrecognizedLine { line: 1, text: String::from("what is this") })
    );
}

#[test]
fn input_call_without_split_marker_is_malformed() {
    assert_eq!(
        encode("var data input(\"hm\")--"),
        Err(TranspileError::MalformedInputPrompt { line: 1 })
    );
}

#[test]
fn input_token_inside_another_name_still_needs_the_marker() {
    // Recognition is textual, like every token of the dialect: the
    // input-call token inside a longer name still asks for the marker.
    assert_eq!(
        encode("var x = getinput(3)--"),
        Err(TranspileError::MalformedInputPrompt { line: 1 })
    );
}

#[test]
fn input_call_without_spaces_around_equals_is_malformed() {
    // The split marker is the literal `= input(`; without it the
    // declaration would otherwise come out as broken target code.
    assert_eq!(
        encode("var x=input(\"Q\")--"),
        Err(TranspileError::MalformedInputPrompt { line: 1 })
    );
}

#[test]
fn error_stops_the_scan_before_later_lines() {
    // The line after the offending one would itself be an error; the
    // first one wins and nothing is emitted at all.
    assert_eq!(
        encode("x = 1--\n}\nbogus"),
        Err(TranspileError::UnbalancedBlock { line: 2 })
    );
}

#[test]
fn comment_markers_inside_block_comment_do_not_close_blocks() {
    // A closer inside a block comment span is not a closer.
    let out = encode("if a {\n/* opened\n} still comment\n*/\n}").unwrap();
    assert!(out.contains("    if a {\n    }\n"));
}
