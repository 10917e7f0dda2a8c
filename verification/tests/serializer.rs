use dexgen::dom::{Attr, Node};
use dexgen::xhtml::{XhtmlEscaped, serialize};
use dexgen::xhtml::inner_xhtml;
use kuchikiki::traits::TendrilSink;

const NS: &str = "http://www.w3.org/1999/xhtml";

fn chars(s: &str) -> Vec<char> {
    s.chars().collect()
}

fn attr(name: &str, value: &str) -> Attr {
    Attr { ns: Vec::new(), name: chars(name), value: chars(value) }
}

fn el(name: &str, attrs: Vec<Attr>, children: Vec<Node>) -> Node {
    Node::Element { ns: chars(NS), name: chars(name), attrs, children }
}

fn txt(s: &str) -> Node {
    Node::Text { text: chars(s) }
}

#[test]
fn text_mode_escaping() {
    assert_eq!(XhtmlEscaped("a & b < c > d \" e", false).render(), "a &amp; b &lt; c &gt; d \" e");
}

#[test]
fn attr_mode_escaping() {
    assert_eq!(XhtmlEscaped("a & b < c > d \" e", true).render(), "a &amp; b < c > d &quot; e");
}

#[test]
fn serialize_element_with_attrs_and_text() {
    let n = el(
        "p",
        vec![attr("title", "a\"b&c")],
        vec![txt("x < y & z"), el("br", Vec::new(), Vec::new())],
    );
    assert_eq!(serialize(&n), "<p title=\"a&quot;b&amp;c\">x &lt; y &amp; z<br></br></p>");
}

#[test]
fn serialize_comment_and_pi_pass_through() {
    assert_eq!(serialize(&Node::Comment { text: chars(" note ") }), "<!-- note -->");
    assert_eq!(serialize(&Node::Doctype { name: chars("html") }), "<!DOCTYPE html>");
    assert_eq!(
        serialize(&Node::Pi { target: chars("xml"), data: chars("version=\"1.0\"") }),
        "<?xml version=\"1.0\">",
    );
}

#[test]
fn inner_serializes_children_only() {
    let n = el("small", Vec::new(), vec![txt("cap "), el("i", Vec::new(), vec![txt("tion")])]);
    assert_eq!(inner_xhtml(&n), "cap <i>tion</i>");
    assert_eq!(serialize(&n), "<small>cap <i>tion</i></small>");
}

#[test]
fn escaping_round_trips_through_a_parser() {
    let original_text = "a & b < c > d \" e";
    let original_attr = "x \"quoted\" & <kept>";
    let n = el("p", vec![attr("title", original_attr)], vec![txt(original_text)]);
    let markup = serialize(&n);
    let doc = kuchikiki::parse_html().one(format!("<html><body>{markup}</body></html>"));
    let p = doc.select_first("p").unwrap();
    assert_eq!(p.text_contents(), original_text);
    let attrs = p.attributes.borrow();
    assert_eq!(attrs.get("title"), Some(original_attr));
}
