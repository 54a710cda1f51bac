use model_repair::html::{code_to_html, HtmlError, Repair, RepairKind, RepairOutput, RepairedSpan};
use model_repair::prism::expression::Span;

#[test]
fn code_lines_become_paragraphs() {
    assert_eq!(code_to_html("a b\n\n<x y>z w"), "<p>a&nbsp;b</p>\n<p>&nbsp;</p>\n<p><x y>z&nbsp;w</p>");
    assert_eq!(code_to_html(""), "");
}

#[test]
fn tabs_mark_the_repaired_places() {
    let mut output = RepairOutput::new("x < 3;".to_string());
    output.add_repair(Repair::new_base());
    let mut r = Repair::new_repair("1.50".to_string());
    r.add_span(RepairedSpan::new(Span::new(0, 1), "y".to_string(), RepairKind::Unchanged));
    r.add_span(RepairedSpan::new(Span::new(4, 5), "7".to_string(), RepairKind::Fix));
    output.add_repair(r);
    assert_eq!(output.tab_html(0).unwrap(), "<p>x&nbsp;&lt;&nbsp;3;</p>");
    assert_eq!(
        output.tab_html(1).unwrap(),
        "<p><span class=\"\">y</span>&nbsp;&lt;&nbsp;<span class=\"repair\">7</span>;</p>"
    );
    let page = output.to_html("<h/><!-- insert tab headers here --><t/><!-- insert tabs here -->").unwrap();
    assert_eq!(
        page,
        "<h/><span class=\"repair-tab active\" onclick=\"show(0);\" id=\"tab-header-0\">base</span>\n\
<span class=\"repair-tab\" onclick=\"show(1);\" id=\"tab-header-1\">repair (cost: 1.50)</span><t/>\
<div class=\"tab\" id=\"tab-0\">\n<p>x&nbsp;&lt;&nbsp;3;</p>\n</div>\n\
<div class=\"tab\" id=\"tab-1\" style=\"display: none;\">\n<p><span class=\"\">y</span>&nbsp;&lt;&nbsp;<span class=\"repair\">7</span>;</p>\n</div>"
    );
}

#[test]
fn places_outside_the_text_are_refused() {
    let mut output = RepairOutput::new("ab".to_string());
    let mut r = Repair::new_repair("0.00".to_string());
    r.add_span(RepairedSpan::new(Span::new(1, 9), "q".to_string(), RepairKind::ToRepair));
    output.add_repair(Repair::new_base());
    output.add_repair(r);
    assert!(output.tab_html(1).is_none());
    assert_eq!(output.to_html("").err(), Some(HtmlError::SpanOutOfRange { repair: 1 }));
}

#[test]
fn placeholders_are_replaced_everywhere() {
    let output = RepairOutput::new(String::new());
    assert_eq!(output.to_html("<!-- insert tabs here -->|<!-- insert tabs here -->").unwrap(), "|");
}
