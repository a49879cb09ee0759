use tablegrid::style::parse_directives;

#[test]
fn hue_directive_on_header_cell() {
    let st = parse_directives("h=30:Label");
    assert_eq!(st.hue.as_deref(), Some("30"));
    assert_eq!(st.saturation, None);
    assert_eq!(st.lightness, None);
    assert!(!st.rotate);
    assert_eq!(st.display, "Label");
}

#[test]
fn repeated_rotation_prefix() {
    let st = parse_directives("rot:rot:Vertical");
    assert!(st.rotate);
    assert_eq!(st.hue, None);
    assert_eq!(st.saturation, None);
    assert_eq!(st.lightness, None);
    assert_eq!(st.display, "Vertical");
}

#[test]
fn malformed_payload_keeps_literal_rest() {
    let st = parse_directives("h=notanumber:Label");
    assert_eq!(st.hue, None);
    assert!(!st.rotate);
    assert_eq!(st.display, "notanumber:Label");
}

#[test]
fn missing_colon_keeps_literal_rest() {
    let st = parse_directives("l=notanum");
    assert_eq!(st.lightness, None);
    assert_eq!(st.display, "notanum");
}

#[test]
fn hue_then_rotation() {
    let st = parse_directives("h=10:rot:text");
    assert_eq!(st.hue.as_deref(), Some("10"));
    assert!(st.rotate);
    assert_eq!(st.display, "text");
}

#[test]
fn later_payload_wins() {
    let st = parse_directives("h=1:h=2:x");
    assert_eq!(st.hue.as_deref(), Some("2"));
    assert_eq!(st.display, "x");
}

#[test]
fn all_fields_together() {
    let st = parse_directives("rot:h=120:s=50:l=40:Cell");
    assert!(st.rotate);
    assert_eq!(st.hue.as_deref(), Some("120"));
    assert_eq!(st.saturation.as_deref(), Some("50"));
    assert_eq!(st.lightness.as_deref(), Some("40"));
    assert_eq!(st.display, "Cell");
}

#[test]
fn plain_text_untouched() {
    let st = parse_directives("Just a label");
    assert!(!st.rotate);
    assert_eq!(st.hue, None);
    assert_eq!(st.display, "Just a label");
}

#[test]
fn rotation_prefix_alone() {
    let st = parse_directives("rot:");
    assert!(st.rotate);
    assert_eq!(st.display, "");
}

#[test]
fn reparsing_display_changes_nothing() {
    for input in ["h=30:Label", "rot:rot:Vertical", "plain", "s=bad payload", ""] {
        let st = parse_directives(input);
        let again = parse_directives(&st.display);
        assert_eq!(again.display, st.display);
        assert!(!again.rotate);
        assert_eq!(again.hue, None);
        assert_eq!(again.saturation, None);
        assert_eq!(again.lightness, None);
    }
}

#[test]
fn malformed_payload_can_leave_a_prefix() {
    // The literal fallback keeps the text after "h=" verbatim, and that text
    // may itself start with a directive; a second pass then strips it.
    let st = parse_directives("h=rot:x");
    assert_eq!(st.display, "rot:x");
    let again = parse_directives(&st.display);
    assert!(again.rotate);
    assert_eq!(again.display, "x");
}
