use dexgen::dom::{Attr, Node};
use dexgen::{get_highest_quality_src, get_image_thumbnail_origin};

const NS: &str = "http://www.w3.org/1999/xhtml";

fn chars(s: &str) -> Vec<char> {
    s.chars().collect()
}

fn string_of(v: &[char]) -> String {
    v.iter().collect()
}

fn attr(name: &str, value: &str) -> Attr {
    Attr { ns: Vec::new(), name: chars(name), value: chars(value) }
}

fn img(attrs: Vec<Attr>) -> Node {
    Node::Element { ns: chars(NS), name: chars("img"), attrs, children: Vec::new() }
}

#[test]
fn resolver_prefers_2x() {
    let node = img(vec![attr("srcset", "x.png 1x, y.png 2x")]);
    let base = chars("https://example.org/wiki/Page");
    let got = get_highest_quality_src(&node, &base, false).map(|v| string_of(&v));
    assert_eq!(got, Some("https://example.org/wiki/y.png".to_string()));
}

#[test]
fn resolver_prefers_1_5x_over_1x() {
    let node = img(vec![attr("srcset", "x.png 1x, m.png 1.5x")]);
    let base = chars("https://example.org/wiki/Page");
    let got = get_highest_quality_src(&node, &base, false).map(|v| string_of(&v));
    assert_eq!(got, Some("https://example.org/wiki/m.png".to_string()));
}

#[test]
fn resolver_falls_back_to_src() {
    let node = img(vec![attr("src", "plain.png")]);
    let base = chars("https://example.org/wiki/Page");
    let got = get_highest_quality_src(&node, &base, false).map(|v| string_of(&v));
    assert_eq!(got, Some("https://example.org/wiki/plain.png".to_string()));

    let node2 = img(vec![attr("srcset", "only.png 1x"), attr("src", "ignored.png")]);
    let got2 = get_highest_quality_src(&node2, &base, false).map(|v| string_of(&v));
    assert_eq!(got2, Some("https://example.org/wiki/only.png".to_string()));
}

#[test]
fn resolver_none_when_unresolvable() {
    // no srcset and no src: the synthesized 1x candidate is empty, and
    // resolving "" against the base yields the base itself
    let node = img(vec![]);
    let base = chars("https://example.org/wiki/Page");
    let got = get_highest_quality_src(&node, &base, false).map(|v| string_of(&v));
    assert_eq!(got, Some("https://example.org/wiki/Page".to_string()));

    // an unparseable base makes resolution fail
    let bad_base = chars("not a url");
    assert_eq!(get_highest_quality_src(&node, &bad_base, false), None);
}

#[test]
fn thumbnail_reconstruction() {
    let u = chars(
        "https://archives.bulbagarden.net/media/upload/thumb/a/ab/File.png/200px-File.png",
    );
    let got = get_image_thumbnail_origin(&u).map(|v| string_of(&v));
    assert_eq!(
        got,
        Some("https://archives.bulbagarden.net/media/upload/a/ab/File.png".to_string()),
    );
}

#[test]
fn thumbnail_other_domain_is_none() {
    let u = chars("https://example.org/media/upload/thumb/a/ab/File.png/200px-File.png");
    assert_eq!(get_image_thumbnail_origin(&u), None);
}

#[test]
fn thumbnail_without_thumb_segment_is_none() {
    let u = chars("https://archives.bulbagarden.net/media/upload/a/ab/File.png");
    assert_eq!(get_image_thumbnail_origin(&u), None);
    let short = chars("https://archives.bulbagarden.net/media/upload/thumb");
    assert_eq!(get_image_thumbnail_origin(&short), None);
}

#[test]
fn thumbnail_preserves_query() {
    let u = chars(
        "https://archives.bulbagarden.net/media/upload/thumb/a/ab/File.png/200px-File.png?x=1",
    );
    let got = get_image_thumbnail_origin(&u).map(|v| string_of(&v));
    assert_eq!(
        got,
        Some("https://archives.bulbagarden.net/media/upload/a/ab/File.png?x=1".to_string()),
    );
}

#[test]
fn resolver_rewrites_thumbnail_when_asked() {
    let node = img(vec![attr(
        "srcset",
        "//archives.bulbagarden.net/media/upload/thumb/a/ab/F.png/100px-F.png 1x, //archives.bulbagarden.net/media/upload/thumb/a/ab/F.png/200px-F.png 2x",
    )]);
    let base = chars("https://bulbapedia.bulbagarden.net/wiki/Bulbasaur_(Pok%C3%A9mon)");
    let got = get_highest_quality_src(&node, &base, true).map(|v| string_of(&v));
    assert_eq!(
        got,
        Some("https://archives.bulbagarden.net/media/upload/a/ab/F.png".to_string()),
    );
    // without the flag the resolved thumbnail stays
    let got2 = get_highest_quality_src(&node, &base, false).map(|v| string_of(&v));
    assert_eq!(
        got2,
        Some(
            "https://archives.bulbagarden.net/media/upload/thumb/a/ab/F.png/200px-F.png"
                .to_string(),
        ),
    );
}
