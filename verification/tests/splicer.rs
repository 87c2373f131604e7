use zaz::xtask::splicer::{format_body, splice};

#[test]
fn splice_replaces_block_body() {
    let text = "intro\n<!-- BEGIN: foo -->\nold\n<!-- END: foo -->\noutro\n";
    let out = splice("foo", "new", text).unwrap();
    assert_eq!(
        out,
        "intro\n<!-- BEGIN: foo -->\nnew\n\n<!-- END: foo -->\noutro\n"
    );
}

#[test]
fn splice_preserves_hand_written_prose_around_markers() {
    let text = "\
# Heading

Hand-written intro.

<!-- BEGIN: zaz -->
old generated
<!-- END: zaz -->

Hand-written outro.
";
    let out = splice("zaz", "new generated", text).unwrap();
    assert!(out.contains("# Heading"));
    assert!(out.contains("Hand-written intro."));
    assert!(out.contains("Hand-written outro."));
    assert!(out.contains("\nnew generated\n"));
    assert!(!out.contains("old generated"));
}

#[test]
fn splice_handles_multiple_marker_pairs_independently() {
    let text = "\
<!-- BEGIN: a -->
old a
<!-- END: a -->

<!-- BEGIN: b -->
old b
<!-- END: b -->
";
    let out = splice("a", "new a", text).unwrap();
    assert!(out.contains("\nnew a\n"));
    assert!(out.contains("old b"));
    let out2 = splice("b", "new b", &out).unwrap();
    assert!(out2.contains("\nnew a\n"));
    assert!(out2.contains("\nnew b\n"));
}

#[test]
fn splice_does_not_mistake_other_markers_for_target() {
    let text = "\
<!-- BEGIN: zaz -->
old
<!-- END: zaz -->

<!-- BEGIN: zaz task -->
keep me
<!-- END: zaz task -->
";
    let out = splice("zaz", "new", text).unwrap();
    assert!(out.contains("\nnew\n"));
    assert!(out.contains("keep me"));
}

#[test]
fn splice_errors_on_missing_begin_marker() {
    let text = "no markers here\n";
    let err = splice("zaz", "x", text).unwrap_err();
    assert!(err.contains("missing begin marker"));
}

#[test]
fn splice_errors_on_missing_end_marker() {
    let text = "<!-- BEGIN: zaz -->\nbody\nno end\n";
    let err = splice("zaz", "x", text).unwrap_err();
    assert!(err.contains("missing end marker"));
}

#[test]
fn splice_errors_on_duplicate_begin_marker_in_block() {
    let text = "\
<!-- BEGIN: zaz -->
<!-- BEGIN: zaz -->
<!-- END: zaz -->
";
    let err = splice("zaz", "x", text).unwrap_err();
    assert!(err.contains("duplicate begin marker"));
}

#[test]
fn splice_normalizes_empty_content_to_blank_block() {
    let text = "<!-- BEGIN: zaz -->\nold\n<!-- END: zaz -->\n";
    let out = splice("zaz", "", text).unwrap();
    assert_eq!(out, "<!-- BEGIN: zaz -->\n<!-- END: zaz -->\n");
}

#[test]
fn splice_preserves_html_comments_outside_markers() {
    let text = "\
<!-- a stray comment -->
<!-- BEGIN: zaz -->
old
<!-- END: zaz -->
<!-- another stray -->
";
    let out = splice("zaz", "new", text).unwrap();
    assert!(out.contains("<!-- a stray comment -->"));
    assert!(out.contains("<!-- another stray -->"));
    assert!(out.contains("\nnew\n"));
}

#[test]
fn splice_of_the_same_content_again_changes_nothing() {
    let text = "intro\n<!-- BEGIN: foo -->\nold\n<!-- END: foo -->\noutro\n";
    let once = splice("foo", "a\nb\n", text).unwrap();
    let twice = splice("foo", "a\nb\n", &once).unwrap();
    assert_eq!(once, twice);
}

#[test]
fn splice_counts_the_offset_of_a_duplicate_in_bytes() {
    let text = "\u{e9}<!-- BEGIN: x --><!-- BEGIN: x --><!-- END: x -->";
    let err = splice("x", "y", text).unwrap_err();
    assert_eq!(err, "duplicate begin marker for x at offset 19");
}

#[test]
fn splice_names_the_missing_markers() {
    assert_eq!(
        splice("x", "y", "").unwrap_err(),
        "missing begin marker: <!-- BEGIN: x -->"
    );
    assert_eq!(
        splice("x", "y", "<!-- END: x --><!-- BEGIN: x -->").unwrap_err(),
        "missing end marker: <!-- END: x --> (after begin)"
    );
}

#[test]
fn format_body_strips_line_feeds_only() {
    assert_eq!(format_body("\n\n a \n"), "\n a \n\n");
    assert_eq!(format_body("\n\n"), "\n");
}
