use dexgen::dom::{Attr, Node};
use dexgen::err::ErrKind;
use dexgen::{Config, DexId, ImageMap, Index, flex_groups, read_mon};
use dexgen::mon::MonImage;

const NS: &str = "http://www.w3.org/1999/xhtml";
const BASE: &str = "https://bulbapedia.example.org/wiki/Squirtle_(Pok%C3%A9mon)";

fn chars(s: &str) -> Vec<char> {
    s.chars().collect()
}

fn attr(name: &str, value: &str) -> Attr {
    Attr { ns: Vec::new(), name: chars(name), value: chars(value) }
}

fn el(name: &str, attrs: Vec<Attr>, children: Vec<Node>) -> Node {
    Node::Element { ns: chars(NS), name: chars(name), attrs, children }
}

fn txt(s: &str) -> Node {
    Node::Text { text: chars(s) }
}

fn config() -> Config {
    Config { hq_pokemon_images: false, hq_body_images: false, max_body_sections: 1 }
}

fn index() -> Index {
    Index {
        pokemon_pages: vec![
            (DexId(7), BASE.to_string()),
            (
                DexId(8),
                "https://bulbapedia.example.org/wiki/Wartortle_(Pok%C3%A9mon)".to_string(),
            ),
        ],
        pokemon_gens: vec![vec![DexId(7), DexId(8)]],
    }
}

/// The name box: display name, categories, native name, transliteration.
fn name_box() -> Node {
    let english = el(
        "td",
        Vec::new(),
        vec![
            el("big", Vec::new(), vec![txt(" Squirtle ")]),
            el(
                "a",
                vec![attr("title", "Category")],
                vec![el("span", Vec::new(), vec![txt("Tiny Turtle"), el("br", Vec::new(), Vec::new()), txt("Pokémon")])],
            ),
        ],
    );
    let jp = el(
        "td",
        Vec::new(),
        vec![
            el("span", vec![attr("lang", "ja")], vec![txt("ゼニガメ")]),
            el("i", Vec::new(), vec![txt("Zenigame")]),
        ],
    );
    el(
        "td",
        Vec::new(),
        vec![el(
            "table",
            Vec::new(),
            vec![el("tbody", Vec::new(), vec![el("tr", Vec::new(), vec![english, jp])])],
        )],
    )
}

fn gallery(img_src: &str) -> Node {
    let cell = el(
        "td",
        Vec::new(),
        vec![
            el(
                "a",
                vec![attr("href", "/wiki/File:Squirtle.png")],
                vec![el(
                    "img",
                    vec![attr("src", img_src), attr("alt", "Squirtle"), attr("width", "70")],
                    Vec::new(),
                )],
            ),
            el("small", Vec::new(), vec![txt("Squirtle")]),
        ],
    );
    el(
        "td",
        Vec::new(),
        vec![el(
            "table",
            Vec::new(),
            vec![el("tbody", Vec::new(), vec![el("tr", Vec::new(), vec![cell])])],
        )],
    )
}

fn info_box(img_src: &str) -> Node {
    let dex_cell = el(
        "td",
        Vec::new(),
        vec![el("a", vec![attr("href", "/wiki/List")], vec![txt("#0007")])],
    );
    let header_inner = el(
        "td",
        Vec::new(),
        vec![el(
            "table",
            Vec::new(),
            vec![el(
                "tbody",
                Vec::new(),
                vec![
                    el("tr", Vec::new(), vec![name_box(), dex_cell]),
                    gallery_row(img_src),
                ],
            )],
        )],
    );
    let header_row = el("tr", Vec::new(), vec![header_inner]);
    let top_row = el("tr", Vec::new(), vec![el("td", Vec::new(), vec![txt("Type: Water")])]);
    let extra_row = el(
        "tr",
        Vec::new(),
        vec![el("td", Vec::new(), vec![txt("Gender ratio: mixed")])],
    );
    el(
        "table",
        vec![
            attr("class", "roundy"),
            attr("style", "background:#fff;border:1px;color:red"),
        ],
        vec![el("tbody", Vec::new(), vec![header_row, top_row, extra_row])],
    )
}

fn gallery_row(img_src: &str) -> Node {
    el("tr", Vec::new(), vec![gallery(img_src)])
}

fn document(with_info_box: bool, img_src: &str) -> Node {
    let mut mw_children: Vec<Node> = Vec::new();
    if with_info_box {
        mw_children.push(info_box(img_src));
    }
    mw_children.push(el("table", Vec::new(), vec![txt("breadcrumbs")]));
    mw_children.push(el(
        "p",
        Vec::new(),
        vec![
            txt("Squirtle is a Pokémon"),
            el(
                "sup",
                vec![attr("class", "reference")],
                vec![txt("[1]")],
            ),
            txt("."),
            el(
                "a",
                vec![
                    attr("href", "/wiki/Wartortle_(Pok%C3%A9mon)"),
                    attr("title", "Wartortle"),
                ],
                vec![txt("Wartortle")],
            ),
        ],
    ));
    mw_children.push(el("div", vec![attr("id", "toc")], vec![txt("contents")]));
    mw_children.push(el("h2", Vec::new(), vec![txt("Biology")]));
    mw_children.push(el("p", Vec::new(), vec![txt("It is a turtle.")]));
    mw_children.push(el("h2", Vec::new(), vec![txt("In the anime")]));
    mw_children.push(el("p", Vec::new(), vec![txt("never reached")]));
    let mw = el("div", vec![attr("class", "mw-parser-output")], mw_children);
    let body = el("body", Vec::new(), vec![mw]);
    let html = el("html", Vec::new(), vec![body]);
    Node::Document { children: vec![html] }
}

const IMG_SRC: &str = "//archives.example.org/img/squirtle.png";
const IMG_RESOLVED: &str = "https://archives.example.org/img/squirtle.png";

#[test]
fn missing_image_is_reported_and_retried() {
    let doc = document(true, IMG_SRC);
    let mut images = ImageMap::new();
    match read_mon(&doc, &index(), &images, &config(), BASE) {
        Err(e) => match e.kind {
            ErrKind::ImageNotCached { url } => assert_eq!(url, IMG_RESOLVED),
            other => panic!("unexpected error kind: {other:?}"),
        },
        Ok(_) => panic!("expected a missing-image report"),
    }
    images.insert(IMG_RESOLVED.to_string(), "squirtle.png".to_string());
    assert!(read_mon(&doc, &index(), &images, &config(), BASE).is_ok());
}

fn extract_ok() -> dexgen::MonEntry {
    let doc = document(true, IMG_SRC);
    let mut images = ImageMap::new();
    images.insert(IMG_RESOLVED.to_string(), "squirtle.png".to_string());
    read_mon(&doc, &index(), &images, &config(), BASE).expect("extraction should succeed")
}

#[test]
fn end_to_end_record() {
    let entry = extract_ok();
    assert_eq!(entry.dex_id, DexId(7));
    let formatted: String = entry.dex_id.format_chars().iter().collect();
    assert_eq!(formatted, "#0007");
    assert_eq!(entry.name, "Squirtle");
    assert_eq!(entry.categories_html, vec!["Tiny Turtle".to_string(), "Pokémon".to_string()]);
    assert_eq!(entry.name_jp_text, "ゼニガメ");
    assert_eq!(entry.name_jp_html, "<span lang=\"ja\">ゼニガメ</span>");
    assert_eq!(entry.name_jp_translit_html, "<i>Zenigame</i>");
    assert_eq!(entry.images.len(), 1);
    let img = &entry.images[0];
    assert!(!img.flex);
    assert_eq!(img.alt, "Squirtle");
    assert_eq!(img.width, 70);
    assert_eq!(img.src, "images/squirtle.png");
    assert_eq!(img.href, "https://bulbapedia.example.org/wiki/File:Squirtle.png");
    assert_eq!(img.caption_text.as_deref(), Some("Squirtle"));
    assert_eq!(img.caption_html.as_deref(), Some("Squirtle"));
    assert!(!entry.summary_html.is_empty());
    assert_eq!(entry.url, BASE);
}

#[test]
fn info_box_style_keeps_allow_listed_properties() {
    let entry = extract_ok();
    assert_eq!(
        entry.info_box_style,
        vec![
            ("background".to_string(), "#fff".to_string()),
            ("border".to_string(), "1px".to_string()),
        ],
    );
}

#[test]
fn rows_split_at_marker_label() {
    let entry = extract_ok();
    assert_eq!(entry.top_info_boxes_html.len(), 1);
    assert!(entry.top_info_boxes_html[0].contains("Type: Water"));
    assert_eq!(entry.extra_info_boxes_html.len(), 1);
    assert!(entry.extra_info_boxes_html[0].contains("Gender ratio"));
}

#[test]
fn summary_and_body_split_and_truncate() {
    let entry = extract_ok();
    assert!(entry.summary_html.contains("Squirtle is a Pokémon"));
    // the footnote marker is gone
    assert!(!entry.summary_html.contains("[1]"));
    // the internal link became a cross-reference token, the title went
    assert!(entry.summary_html.contains("x-dictionary:r:pokemon-8"));
    assert!(!entry.summary_html.contains("title="));
    // the body holds the first section and stops before the second
    assert!(entry.body_html.contains("Biology"));
    assert!(entry.body_html.contains("It is a turtle."));
    assert!(!entry.body_html.contains("In the anime"));
    assert!(!entry.body_html.contains("never reached"));
}

#[test]
fn missing_info_box_fails_loudly() {
    let doc = document(false, IMG_SRC);
    let images = ImageMap::new();
    match read_mon(&doc, &index(), &images, &config(), BASE) {
        Err(e) => match e.kind {
            ErrKind::MissingElement { what } => assert_eq!(what, "could not find info box"),
            other => panic!("unexpected error kind: {other:?}"),
        },
        Ok(_) => panic!("extraction should fail without the info box"),
    }
}

#[test]
fn two_visible_cells_mark_both_images_flex() {
    // a gallery row with two visible image cells, one hidden row skipped
    let cell = |src: &str| {
        el(
            "td",
            Vec::new(),
            vec![el(
                "a",
                vec![attr("href", "/wiki/File:X.png")],
                vec![el(
                    "img",
                    vec![attr("src", src), attr("alt", "x"), attr("width", "70")],
                    Vec::new(),
                )],
            )],
        )
    };
    let hidden_row = el(
        "tr",
        vec![attr("style", "display:none")],
        vec![cell("//archives.example.org/img/hidden.png")],
    );
    let flex_row = el(
        "tr",
        Vec::new(),
        vec![
            cell("//archives.example.org/img/a.png"),
            cell("//archives.example.org/img/b.png"),
        ],
    );
    let solo_row = el("tr", Vec::new(), vec![cell("//archives.example.org/img/c.png")]);
    let gallery_td = el(
        "td",
        Vec::new(),
        vec![el(
            "table",
            Vec::new(),
            vec![el("tbody", Vec::new(), vec![hidden_row, flex_row, solo_row])],
        )],
    );
    // rebuild the info box with this gallery
    let dex_cell = el(
        "td",
        Vec::new(),
        vec![el("a", vec![attr("href", "/wiki/List")], vec![txt("#0007")])],
    );
    let header_inner = el(
        "td",
        Vec::new(),
        vec![el(
            "table",
            Vec::new(),
            vec![el(
                "tbody",
                Vec::new(),
                vec![
                    el("tr", Vec::new(), vec![name_box(), dex_cell]),
                    el("tr", Vec::new(), vec![gallery_td]),
                ],
            )],
        )],
    );
    let table = el(
        "table",
        vec![attr("class", "roundy")],
        vec![el(
            "tbody",
            Vec::new(),
            vec![el("tr", Vec::new(), vec![header_inner])],
        )],
    );
    let mw = el(
        "div",
        vec![attr("class", "mw-parser-output")],
        vec![table, el("table", Vec::new(), Vec::new()), el("p", Vec::new(), vec![txt("s")])],
    );
    let doc = Node::Document { children: vec![el("html", Vec::new(), vec![el("body", Vec::new(), vec![mw])])] };
    let mut images = ImageMap::new();
    for name in ["a", "b", "c"] {
        images.insert(
            format!("https://archives.example.org/img/{name}.png"),
            format!("{name}.png"),
        );
    }
    let entry = read_mon(&doc, &index(), &images, &config(), BASE).expect("should extract");
    assert_eq!(entry.images.len(), 3);
    assert!(entry.images[0].flex);
    assert!(entry.images[1].flex);
    assert!(!entry.images[2].flex);
}

#[test]
fn info_row_images_are_rewritten_to_cache_paths() {
    // an image inside an info row: srcset dropped, src repointed at the
    // cache, height dropped because a width is present
    let row_img = el(
        "img",
        vec![
            attr("src", "//archives.example.org/img/row.png"),
            attr("srcset", "//archives.example.org/img/row2.png 2x"),
            attr("width", "40"),
            attr("height", "40"),
        ],
        Vec::new(),
    );
    let top_row = el("tr", Vec::new(), vec![el("td", Vec::new(), vec![row_img])]);
    let dex_cell = el(
        "td",
        Vec::new(),
        vec![el("a", vec![attr("href", "/wiki/List")], vec![txt("#0007")])],
    );
    let header_inner = el(
        "td",
        Vec::new(),
        vec![el(
            "table",
            Vec::new(),
            vec![el(
                "tbody",
                Vec::new(),
                vec![
                    el("tr", Vec::new(), vec![name_box(), dex_cell]),
                    gallery_row(IMG_SRC),
                ],
            )],
        )],
    );
    let table = el(
        "table",
        vec![attr("class", "roundy")],
        vec![el(
            "tbody",
            Vec::new(),
            vec![el("tr", Vec::new(), vec![header_inner]), top_row],
        )],
    );
    let mw = el(
        "div",
        vec![attr("class", "mw-parser-output")],
        vec![table, el("table", Vec::new(), Vec::new()), el("p", Vec::new(), vec![txt("s")])],
    );
    let doc = Node::Document {
        children: vec![el("html", Vec::new(), vec![el("body", Vec::new(), vec![mw])])],
    };
    let mut images = ImageMap::new();
    images.insert(IMG_RESOLVED.to_string(), "squirtle.png".to_string());
    // the info-row image prefers its 2x candidate
    images.insert(
        "https://archives.example.org/img/row2.png".to_string(),
        "row pic.png".to_string(),
    );
    let entry = read_mon(&doc, &index(), &images, &config(), BASE).expect("should extract");
    assert_eq!(
        entry.top_info_boxes_html,
        vec!["<tr><td><img src=\"images/row%20pic.png\" width=\"40\"></img></td></tr>".to_string()],
    );
}

fn fake_image(flex: bool) -> MonImage {
    MonImage {
        href: String::new(),
        alt: String::new(),
        width: 1,
        src: String::new(),
        caption_text: None,
        caption_html: None,
        flex,
    }
}

#[test]
fn flex_groups_never_split_or_merge() {
    let images: Vec<MonImage> =
        [false, true, true, true, false, true, false].iter().map(|f| fake_image(*f)).collect();
    let groups = flex_groups(&images);
    // the maximal flex run 1..4 is one group; the lone flex image at 5 and
    // every non-flex image stand alone
    assert_eq!(groups, vec![(0, 1), (1, 4), (4, 5), (5, 6), (6, 7)]);

    let pair: Vec<MonImage> = [true, true].iter().map(|f| fake_image(*f)).collect();
    assert_eq!(flex_groups(&pair), vec![(0, 2)]);

    let empty: Vec<MonImage> = Vec::new();
    assert_eq!(flex_groups(&empty), Vec::<(usize, usize)>::new());
}
