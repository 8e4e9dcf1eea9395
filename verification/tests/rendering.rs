//! Render-pipeline behaviour, exercised through the public planner so the
//! real markdown renderer runs underneath.

use wiki_core::coordinator::plan_create;

fn rendered(markup: &str) -> String {
    plan_create(&b"page".to_vec(), markup).rendered
}

#[test]
fn render_bold_exact() {
    assert_eq!(rendered("**bold**"), "<p><strong>bold</strong></p>\n");
}

#[test]
fn render_is_deterministic() {
    let first = rendered("**bold**");
    let second = rendered("**bold**");
    assert_eq!(first, second);
    let third = rendered("# A [link](x) ~~s~~");
    let fourth = rendered("# A [link](x) ~~s~~");
    assert_eq!(third, fourth);
}

#[test]
fn render_strikethrough_extension_enabled() {
    assert!(rendered("~~strike~~").contains("<del>"));
    assert!(rendered("~~strike~~").contains("</del>"));
}

#[test]
fn render_plain_text_adds_no_spurious_tags() {
    assert_eq!(rendered("plain text"), "<p>plain text</p>\n");
}

#[test]
fn render_table_extension_enabled() {
    let html = rendered("| a | b |\n| - | - |\n| 1 | 2 |");
    assert!(html.contains("<table>"));
}

#[test]
fn render_tasklist_extension_enabled() {
    let html = rendered("- [x] done\n- [ ] open");
    assert!(html.contains("type=\"checkbox\""));
}

#[test]
fn render_smart_punctuation_enabled() {
    let html = rendered("\"quoted\"");
    assert!(html.contains("\u{201c}quoted\u{201d}"));
}

#[test]
fn plan_keeps_source_and_names() {
    let plan = plan_create(&b"notes/todo".to_vec(), "body **text**");
    assert_eq!(plan.source, "body **text**");
    assert_eq!(plan.edit_name, b"notes%2Ftodo".to_vec());
    assert_eq!(plan.pages_name, b"notes%2Ftodo".to_vec());
    assert_ne!(plan.rendered, plan.source);
}
