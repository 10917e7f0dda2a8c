use dexgen::dom::{Attr, Node};
use dexgen::err::ErrKind;
use dexgen::{image_id_ext, Config, DexId, ImageMap, Index, read_mon};

const NS: &str = "http://www.w3.org/1999/xhtml";
const BASE: &str = "https://bulbapedia.example.org/wiki/Pikachu_(Pok%C3%A9mon)";

fn chars(s: &str) -> Vec<char> {
    s.chars().collect()
}

fn attr(name: &str, value: &str) -> Attr {
    Attr { ns: Vec::new(), name: chars(name), value: chars(value) }
}

fn el(name: &str, attrs: Vec<Attr>, children: Vec<Node>) -> Node {
    Node::Element { ns: chars(NS), name: chars(name), attrs, children }
}

fn txt(s: &str) -> Node {
    Node::Text { text: chars(s) }
}

fn config() -> Config {
    Config { hq_pokemon_images: false, hq_body_images: false, max_body_sections: 1 }
}

fn index() -> Index {
    Index { pokemon_pages: vec![(DexId(25), BASE.to_string())], pokemon_gens: Vec::new() }
}

fn doc_of(info_box: Node) -> Node {
    let mw = el(
        "div",
        vec![attr("class", "mw-parser-output")],
        vec![info_box, el("table", Vec::new(), Vec::new()), el("p", Vec::new(), vec![txt("s")])],
    );
    Node::Document { children: vec![el("html", Vec::new(), vec![el("body", Vec::new(), vec![mw])])] }
}

fn kind_of(doc: &Node, images: &ImageMap) -> ErrKind {
    match read_mon(doc, &index(), images, &config(), BASE) {
        Err(e) => e.kind,
        Ok(_) => panic!("extraction should fail"),
    }
}

#[test]
fn empty_info_box_reports_missing_tbody() {
    let doc = doc_of(el("table", vec![attr("class", "roundy")], Vec::new()));
    match kind_of(&doc, &ImageMap::new()) {
        ErrKind::MissingElement { what } => assert_eq!(what, "no info box tbody"),
        other => panic!("unexpected error kind: {other:?}"),
    }
}

#[test]
fn header_tr_count_is_checked() {
    // the header row's inner table offers three rows where exactly two are owed
    let inner_rows: Vec<Node> =
        (0..3).map(|_| el("tr", Vec::new(), Vec::new())).collect();
    let header_row = el(
        "tr",
        Vec::new(),
        vec![el(
            "td",
            Vec::new(),
            vec![el("table", Vec::new(), vec![el("tbody", Vec::new(), inner_rows)])],
        )],
    );
    let doc = doc_of(el(
        "table",
        vec![attr("class", "roundy")],
        vec![el("tbody", Vec::new(), vec![header_row])],
    ));
    match kind_of(&doc, &ImageMap::new()) {
        ErrKind::UnexpectedShape { what } => assert_eq!(what, "unexpected header box tr count"),
        other => panic!("unexpected error kind: {other:?}"),
    }
}

fn header_with_gallery(gallery_rows: Vec<Node>) -> Node {
    let english = el(
        "td",
        Vec::new(),
        vec![
            el("big", Vec::new(), vec![txt("Pikachu")]),
            el(
                "a",
                vec![attr("title", "Category")],
                vec![el("span", Vec::new(), vec![txt("Mouse")])],
            ),
        ],
    );
    let jp = el(
        "td",
        Vec::new(),
        vec![
            el("span", vec![attr("lang", "ja")], vec![txt("ピカチュウ")]),
            el("i", Vec::new(), vec![txt("Pikachu")]),
        ],
    );
    let name_box = el(
        "td",
        Vec::new(),
        vec![el(
            "table",
            Vec::new(),
            vec![el("tbody", Vec::new(), vec![el("tr", Vec::new(), vec![english, jp])])],
        )],
    );
    let dex_cell = el("td", Vec::new(), vec![el("a", Vec::new(), vec![txt("#0025")])]);
    let gallery_td = el(
        "td",
        Vec::new(),
        vec![el(
            "table",
            Vec::new(),
            vec![el("tbody", Vec::new(), gallery_rows)],
        )],
    );
    el(
        "table",
        vec![attr("class", "roundy")],
        vec![el(
            "tbody",
            Vec::new(),
            vec![el(
                "tr",
                Vec::new(),
                vec![el(
                    "td",
                    Vec::new(),
                    vec![el(
                        "table",
                        Vec::new(),
                        vec![el(
                            "tbody",
                            Vec::new(),
                            vec![
                                el("tr", Vec::new(), vec![name_box, dex_cell]),
                                el("tr", Vec::new(), vec![gallery_td]),
                            ],
                        )],
                    )],
                )],
            )],
        )],
    )
}

#[test]
fn imageless_gallery_cell_is_a_shape_error() {
    let row = el("tr", Vec::new(), vec![el("td", Vec::new(), vec![txt("stray content")])]);
    let doc = doc_of(header_with_gallery(vec![row]));
    match kind_of(&doc, &ImageMap::new()) {
        ErrKind::UnexpectedShape { what } => assert_eq!(what, "unexpected img box child"),
        other => panic!("unexpected error kind: {other:?}"),
    }
}

#[test]
fn archive_note_cell_is_tolerated() {
    let row = el(
        "tr",
        Vec::new(),
        vec![el("td", Vec::new(), vec![txt("See the Archives for more images")])],
    );
    let doc = doc_of(header_with_gallery(vec![row]));
    let entry = read_mon(&doc, &index(), &ImageMap::new(), &config(), BASE)
        .expect("the archive note is an accepted imageless cell");
    assert!(entry.images.is_empty());
}

fn image_cell(width: &str) -> Node {
    el(
        "td",
        Vec::new(),
        vec![el(
            "a",
            vec![attr("href", "/wiki/File:P.png")],
            vec![el(
                "img",
                vec![attr("src", "/img/p.png"), attr("alt", "P"), attr("width", width)],
                Vec::new(),
            )],
        )],
    )
}

#[test]
fn bad_image_width_is_a_parse_failure() {
    let row = el("tr", Vec::new(), vec![image_cell("wide")]);
    let doc = doc_of(header_with_gallery(vec![row]));
    let mut images = ImageMap::new();
    images.insert(
        "https://bulbapedia.example.org/img/p.png".to_string(),
        "p.png".to_string(),
    );
    match kind_of(&doc, &images) {
        ErrKind::ParseFailure { field, raw } => {
            assert_eq!(field, "img width");
            assert_eq!(raw, "wide");
        },
        other => panic!("unexpected error kind: {other:?}"),
    }
}

#[test]
fn foreign_namespace_is_rejected_up_front() {
    let svg = Node::Element {
        ns: chars("http://www.w3.org/2000/svg"),
        name: chars("svg"),
        attrs: Vec::new(),
        children: Vec::new(),
    };
    let doc = Node::Document { children: vec![el("html", Vec::new(), vec![svg])] };
    match kind_of(&doc, &ImageMap::new()) {
        ErrKind::BadNamespace => {},
        other => panic!("unexpected error kind: {other:?}"),
    }
}

#[test]
fn cache_identifiers_are_percent_encoded_in_src() {
    let row = el("tr", Vec::new(), vec![image_cell("64")]);
    let doc = doc_of(header_with_gallery(vec![row]));
    let mut images = ImageMap::new();
    images.insert(
        "https://bulbapedia.example.org/img/p.png".to_string(),
        "a b&c.png".to_string(),
    );
    let entry = read_mon(&doc, &index(), &images, &config(), BASE).expect("should extract");
    assert_eq!(entry.images[0].src, "images/a%20b%26c.png");
}

#[test]
fn image_id_from_canonical_path() {
    let got = image_id_ext(&chars("/media/upload/a/ab/File.png"));
    assert_eq!(got, Some(("File-ab-a".to_string(), "png".to_string())));
}

#[test]
fn image_id_from_thumbnail_path() {
    let got = image_id_ext(&chars("/media/upload/thumb/a/ab/File.png/200px-File.png"));
    assert_eq!(
        got,
        Some(("200px-File-File.png-ab-a-thumb".to_string(), "png".to_string())),
    );
}

#[test]
fn image_id_requires_an_extension() {
    assert_eq!(image_id_ext(&chars("/media/upload/a/ab/File")), None);
}
