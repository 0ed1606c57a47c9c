use clin::frontmatter::{extract_raw, frame, Frontmatter};

#[test]
fn no_frontmatter_without_an_opening_delimiter() {
    assert_eq!(extract_raw("Just some text"), None);
    assert_eq!(extract_raw("--- not a delimiter\n---\n"), None);
}

#[test]
fn frontmatter_needs_a_closing_delimiter() {
    assert_eq!(extract_raw("---\ntags: [a]\nno end\n"), None);
}

#[test]
fn frontmatter_and_body_are_split() {
    assert_eq!(
        extract_raw("---\ntags:\n  - work\n  - urgent\n---\nHere is the content."),
        Some(("\ntags:\n  - work\n  - urgent".to_string(), "Here is the content.".to_string()))
    );
    assert_eq!(
        extract_raw("---\r\ntitle: x\r\n---\r\nbody"),
        Some(("\r\ntitle: x\r".to_string(), "body".to_string()))
    );
    assert_eq!(extract_raw("---\n---"), Some((String::new(), String::new())));
}

#[test]
fn empty_frontmatter_carries_nothing() {
    let fm = Frontmatter::default();
    assert!(fm.carries_nothing());
    let mut tagged = Frontmatter::default();
    tagged.tags.push("work".into());
    assert!(!tagged.carries_nothing());
    let mut pinned = Frontmatter::default();
    pinned.pinned = true;
    assert!(!pinned.carries_nothing());
}

#[test]
fn framing_trims_the_yaml() {
    assert_eq!(frame("tags:\n- work\n", "My note"), "---\ntags:\n- work\n---\nMy note");
    assert_eq!(frame("  a: 1  \n\n", ""), "---\na: 1\n---\n");
}

#[test]
fn framed_note_splits_back_into_yaml_and_body() {
    let note = frame("tags:\n- work", "My note\n");
    assert_eq!(
        extract_raw(&note),
        Some(("\ntags:\n- work".to_string(), "My note\n".to_string()))
    );
}
