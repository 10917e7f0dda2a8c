//! The structural extractor: walks a parsed article under rigid layout
//! assumptions and produces a complete entry record, or fails naming the
//! structural expectation that did not hold.

use vstd::prelude::*;
use vstd::string::StrSliceExecFns;
use crate::dom::{self, Matcher, Node};
use crate::err::{ErrKind, ErrV, ExtractError, KindV, bare, err_view};
use crate::index::{self, DexId, Index};
use crate::rewrite::{self, ImageMap};
use crate::text;
use crate::weburl;
use crate::xhtml;

verus! {

/// Extraction options: whether to prefer canonical-origin images in the
/// gallery and in the running text, and how many sectioned body parts to
/// keep.
#[derive(Debug)]
pub struct Config {
    pub hq_pokemon_images: bool,
    pub hq_body_images: bool,
    pub max_body_sections: usize,
}

/// One gallery image of an entry.
#[derive(Debug)]
pub struct MonImage {
    pub href: String,
    pub alt: String,
    pub width: u32,
    pub src: String,
    pub caption_text: Option<String>,
    pub caption_html: Option<String>,
    pub flex: bool,
}

/// The structured extraction result for one source page.
#[derive(Debug)]
pub struct MonEntry {
    pub url: String,
    pub info_box_style: Vec<(String, String)>,
    pub dex_id: DexId,
    pub name: String,
    pub categories_html: Vec<String>,
    pub name_jp_text: String,
    pub name_jp_html: String,
    pub name_jp_translit_html: String,
    pub images: Vec<MonImage>,
    pub top_info_boxes_html: Vec<String>,
    pub extra_info_boxes_html: Vec<String>,
    pub summary_html: String,
    pub body_html: String,
}

/// The ghost form of `MonImage`.
pub struct ImgV {
    pub href: Seq<char>,
    pub alt: Seq<char>,
    pub width: u32,
    pub src: Seq<char>,
    pub caption_text: Option<Seq<char>>,
    pub caption_html: Option<Seq<char>>,
    pub flex: bool,
}

/// The ghost form of `MonEntry`.
pub struct MonV {
    pub url: Seq<char>,
    pub info_box_style: Seq<(Seq<char>, Seq<char>)>,
    pub dex_id: DexId,
    pub name: Seq<char>,
    pub categories_html: Seq<Seq<char>>,
    pub name_jp_text: Seq<char>,
    pub name_jp_html: Seq<char>,
    pub name_jp_translit_html: Seq<char>,
    pub images: Seq<ImgV>,
    pub top_info_boxes_html: Seq<Seq<char>>,
    pub extra_info_boxes_html: Seq<Seq<char>>,
    pub summary_html: Seq<char>,
    pub body_html: Seq<char>,
}

pub open spec fn opt_str_view(s: Option<String>) -> Option<Seq<char>> {
    match s {
        Some(x) => Some(x@),
        None => None,
    }
}

pub open spec fn str_views(ss: Seq<String>) -> Seq<Seq<char>> {
    ss.map_values(|s: String| s@)
}

pub open spec fn str_pair_views(ss: Seq<(String, String)>) -> Seq<(Seq<char>, Seq<char>)> {
    ss.map_values(|p: (String, String)| (p.0@, p.1@))
}

impl View for MonImage {
    type V = ImgV;

    open spec fn view(&self) -> ImgV {
        ImgV {
            href: self.href@,
            alt: self.alt@,
            width: self.width,
            src: self.src@,
            caption_text: opt_str_view(self.caption_text),
            caption_html: opt_str_view(self.caption_html),
            flex: self.flex,
        }
    }
}

pub open spec fn img_views(is: Seq<MonImage>) -> Seq<ImgV> {
    is.map_values(|i: MonImage| i@)
}

impl View for MonEntry {
    type V = MonV;

    open spec fn view(&self) -> MonV {
        MonV {
            url: self.url@,
            info_box_style: str_pair_views(self.info_box_style@),
            dex_id: self.dex_id,
            name: self.name@,
            categories_html: str_views(self.categories_html@),
            name_jp_text: self.name_jp_text@,
            name_jp_html: self.name_jp_html@,
            name_jp_translit_html: self.name_jp_translit_html@,
            images: img_views(self.images@),
            top_info_boxes_html: str_views(self.top_info_boxes_html@),
            extra_info_boxes_html: str_views(self.extra_info_boxes_html@),
            summary_html: self.summary_html@,
            body_html: self.body_html@,
        }
    }
}

/// The element children of a node sequence, in order.
pub open spec fn el_children(s: Seq<Node>) -> Seq<Node>
    decreases s.len(),
{
    if s.len() == 0 {
        Seq::<Node>::empty()
    } else if s.last() is Element {
        el_children(s.drop_last()).push(s.last())
    } else {
        el_children(s.drop_last())
    }
}

/// Collect a node's element children.
#[verifier::loop_isolation(false)]
pub fn el_children_of<'a>(n: &'a Node) -> (r: Vec<&'a Node>)
    ensures
        r@.len() == el_children(dom::kids(*n)).len(),
        forall|j: int| 0 <= j < r@.len() ==> *(#[trigger] r@[j]) == el_children(dom::kids(*n))[j],
{
    let children: &Vec<Node> = match n {
        Node::Element { ns: _e_ns, name: _e_name, attrs: _e_attrs, children } => children,
        Node::Document { children } => children,
        _ => {
            let r: Vec<&'a Node> = Vec::new();
            proof {
                assert(dom::kids(*n) =~= Seq::<Node>::empty());
            }
            return r;
        },
    };
    let mut out: Vec<&'a Node> = Vec::new();
    let mut i: usize = 0;
    proof {
        assert(children@.subrange(0, 0) =~= Seq::<Node>::empty());
    }
    while i < children.len()
        invariant
            i <= children@.len(),
            out@.len() == el_children(children@.subrange(0, i as int)).len(),
            forall|j: int|
                0 <= j < out@.len() ==> *(#[trigger] out@[j]) == el_children(
                    children@.subrange(0, i as int),
                )[j],
        decreases children@.len() - i,
    {
        let ghost pre = children@.subrange(0, (i + 1) as int);
        proof {
            assert(pre.drop_last() =~= children@.subrange(0, i as int));
            assert(pre.last() == children@[i as int]);
        }
        if dom::is_element(&children[i]) {
            out.push(&children[i]);
        }
        i += 1;
    }
    proof {
        assert(children@.subrange(0, children@.len() as int) =~= children@);
    }
    out
}

/// The style properties an info box keeps: the allow-listed four, in fixed
/// order, each at its last-given value.
pub open spec fn filtered_style_spec(ib: Node) -> Seq<(Seq<char>, Seq<char>)> {
    let es = match dom::attr_spec(ib, "style"@) {
        Some(v) => dom::style_entries_spec(v),
        None => Seq::<(Seq<char>, Seq<char>)>::empty(),
    };
    allow_pair(es, "background"@) + allow_pair(es, "border"@) + allow_pair(es, "padding"@)
        + allow_pair(es, "text-align"@)
}

pub open spec fn allow_pair(es: Seq<(Seq<char>, Seq<char>)>, k: Seq<char>) -> Seq<
    (Seq<char>, Seq<char>),
> {
    match dom::style_lookup(es, k) {
        Some(v) => seq![(k, v)],
        None => Seq::<(Seq<char>, Seq<char>)>::empty(),
    }
}

#[verifier::loop_isolation(false)]
fn filtered_style(ib: &Node) -> (r: Vec<(String, String)>)
    ensures
        str_pair_views(r@) == filtered_style_spec(*ib),
{
    let style_name = text::str_to_chars("style");
    let es: Vec<(Vec<char>, Vec<char>)> = match dom::get_attr(ib, &style_name) {
        Some(v) => dom::parse_style(&v),
        None => Vec::new(),
    };
    proof {
        if dom::attr_spec(*ib, "style"@) is None {
            assert(dom::entry_views(es@) =~= Seq::<(Seq<char>, Seq<char>)>::empty());
        }
    }
    let mut out: Vec<(String, String)> = Vec::new();
    push_allowed(&mut out, &es, "background");
    push_allowed(&mut out, &es, "border");
    push_allowed(&mut out, &es, "padding");
    push_allowed(&mut out, &es, "text-align");
    proof {
        assert(str_pair_views(out@) =~= filtered_style_spec(*ib));
    }
    out
}

#[verifier::loop_isolation(false)]
fn push_allowed(out: &mut Vec<(String, String)>, es: &Vec<(Vec<char>, Vec<char>)>, k: &str)
    ensures
        str_pair_views(final(out)@) == str_pair_views(old(out)@) + allow_pair(
            dom::entry_views(es@),
            k@,
        ),
{
    let kv = text::str_to_chars(k);
    match dom::style_get(es, &kv) {
        Some(v) => {
            let ks = text::chars_to_string(&kv);
            let vs = text::chars_to_string(&v);
            out.push((ks, vs));
            proof {
                assert(str_pair_views(out@) =~= str_pair_views(old(out)@) + allow_pair(
                    dom::entry_views(es@),
                    k@,
                ));
            }
        },
        None => {
            proof {
                assert(str_pair_views(out@) =~= str_pair_views(old(out)@) + allow_pair(
                    dom::entry_views(es@),
                    k@,
                ));
            }
        },
    }
}

/// The marker label that flips rows from the "top" to the "extra" info box.
pub open spec fn extra_marker() -> Seq<char> {
    "Gender ratio"@
}

/// True of a row whose trimmed text begins with the marker label.
pub open spec fn is_marker_row(r: Node) -> bool {
    text::starts_with_spec(text::trim_spec(dom::text_of(r)), extra_marker())
}

/// The index of the first marker row at or after `i`, or the row count.
pub open spec fn marker_idx_from(rows: Seq<Node>, i: int) -> int
    decreases rows.len() - i,
{
    if i < 0 || i >= rows.len() {
        rows.len() as int
    } else if is_marker_row(rows[i]) {
        i
    } else {
        marker_idx_from(rows, i + 1)
    }
}

fn is_marker_row_exec(r: &Node) -> (b: bool)
    ensures
        b == is_marker_row(*r),
{
    let t = dom::text_contents(r);
    let trimmed = text::trim(&t);
    let marker = text::str_to_chars("Gender ratio");
    text::starts_with(&trimmed, &marker)
}

/// The category fragments after processing one more child: an explicit
/// line break starts a new empty fragment; any other node's serialization
/// appends to the last fragment, or starts the first.
pub open spec fn cat_step(acc: Seq<Seq<char>>, n: Node) -> Seq<Seq<char>> {
    if n is Element && dom::el_name(n) == "br"@ {
        acc.push(Seq::<char>::empty())
    } else if acc.len() > 0 {
        acc.update(acc.len() - 1, acc.last() + xhtml::ser_node(n))
    } else {
        acc.push(xhtml::ser_node(n))
    }
}

pub open spec fn cat_fold(s: Seq<Node>) -> Seq<Seq<char>>
    decreases s.len(),
{
    if s.len() == 0 {
        Seq::<Seq<char>>::empty()
    } else {
        cat_step(cat_fold(s.drop_last()), s.last())
    }
}

/// The category fragments of the enumerating element: the fold above, with
/// a trailing empty fragment discarded.
pub open spec fn categories_spec(holder: Node) -> Seq<Seq<char>> {
    let acc = cat_fold(dom::kids(holder));
    if acc.len() > 0 && acc.last().len() == 0 {
        acc.drop_last()
    } else {
        acc
    }
}

#[verifier::loop_isolation(false)]
fn categories_of(holder: &Node) -> (r: Vec<String>)
    ensures
        str_views(r@) == categories_spec(*holder),
{
    let children: &Vec<Node> = match holder {
        Node::Element { ns: _e_ns, name: _e_name, attrs: _e_attrs, children } => children,
        Node::Document { children } => children,
        _ => {
            let r: Vec<String> = Vec::new();
            proof {
                assert(dom::kids(*holder) =~= Seq::<Node>::empty());
                assert(str_views(r@) =~= categories_spec(*holder));
            }
            return r;
        },
    };
    let br = text::str_to_chars("br");
    let mut acc: Vec<Vec<char>> = Vec::new();
    let mut i: usize = 0;
    proof {
        assert(children@.subrange(0, 0) =~= Seq::<Node>::empty());
        assert(text::views_of(acc@) =~= cat_fold(children@.subrange(0, 0)));
    }
    while i < children.len()
        invariant
            i <= children@.len(),
            text::views_of(acc@) == cat_fold(children@.subrange(0, i as int)),
        decreases children@.len() - i,
    {
        let ghost pre = children@.subrange(0, (i + 1) as int);
        proof {
            assert(pre.drop_last() =~= children@.subrange(0, i as int));
            assert(pre.last() == children@[i as int]);
        }
        let c = &children[i];
        let is_br: bool = match c {
            Node::Element { name, .. } => text::chars_eq(name, &br),
            _ => false,
        };
        if is_br {
            acc.push(Vec::new());
            proof {
                assert(text::views_of(acc@) =~= cat_fold(pre));
            }
        } else {
            let html = xhtml::serialize_node(c);
            if acc.len() > 0 {
                let mut last = match acc.pop() {
                    Some(v) => v,
                    None => Vec::new(),
                };
                xhtml::push_all_chars(&mut last, &html);
                acc.push(last);
                proof {
                    assert(text::views_of(acc@) =~= cat_fold(pre));
                }
            } else {
                acc.push(html);
                proof {
                    assert(text::views_of(acc@) =~= cat_fold(pre));
                }
            }
        }
        i += 1;
    }
    proof {
        assert(children@.subrange(0, children@.len() as int) =~= children@);
    }
    if acc.len() > 0 && acc[acc.len() - 1].len() == 0 {
        let _ = acc.pop();
        proof {
            assert(text::views_of(acc@) =~= categories_spec(*holder));
        }
    } else {
        proof {
            assert(text::views_of(acc@) =~= categories_spec(*holder));
        }
    }
    let mut out: Vec<String> = Vec::new();
    let mut j: usize = 0;
    proof {
        assert(str_views(out@) =~= text::views_of(acc@).subrange(0, 0));
    }
    while j < acc.len()
        invariant
            j <= acc@.len(),
            text::views_of(acc@) == categories_spec(*holder),
            str_views(out@) == text::views_of(acc@).subrange(0, j as int),
        decreases acc@.len() - j,
    {
        let s = text::chars_to_string(&acc[j]);
        out.push(s);
        proof {
            assert(str_views(out@) =~= text::views_of(acc@).subrange(0, (j + 1) as int));
        }
        j += 1;
    }
    proof {
        assert(text::views_of(acc@).subrange(0, acc@.len() as int) =~= text::views_of(acc@));
    }
    out
}

/// True of a node whose inline style sets `display` to `none`.
pub open spec fn is_hidden(n: Node) -> bool {
    match dom::attr_spec(n, "style"@) {
        Some(v) => dom::style_lookup(dom::style_entries_spec(v), "display"@) == Some("none"@),
        None => false,
    }
}

fn is_hidden_exec(n: &Node) -> (b: bool)
    ensures
        b == is_hidden(*n),
{
    let style_name = text::str_to_chars("style");
    match dom::get_attr(n, &style_name) {
        Some(v) => {
            let es = dom::parse_style(&v);
            let display = text::str_to_chars("display");
            match dom::style_get(&es, &display) {
                Some(d) => {
                    let none_lit = text::str_to_chars("none");
                    text::chars_eq(&d, &none_lit)
                },
                None => false,
            }
        },
        None => false,
    }
}

/// How many of the cells are not hidden.
pub open spec fn visible_count(cells: Seq<Node>) -> int
    decreases cells.len(),
{
    if cells.len() == 0 {
        0
    } else {
        visible_count(cells.drop_last()) + (if is_hidden(cells.last()) {
            0int
        } else {
            1int
        })
    }
}

/// The image reference one gallery cell contributes.
pub open spec fn img_ref_spec(
    img: Node,
    parent: Node,
    cell: Node,
    base: Seq<char>,
    images: Seq<(String, String)>,
    hq: bool,
    flex: bool,
) -> Result<ImgV, KindV> {
    match weburl::best_src_spec(img, base, hq) {
        None => Err(KindV::MissingElement { what: "no img src"@ }),
        Some(u) => match rewrite::image_lookup_spec(images, u) {
            None => Err(KindV::ImageNotCached { url: u }),
            Some(cid) => {
                let href_raw = match dom::attr_spec(parent, "href"@) {
                    Some(h) => h,
                    None => Seq::<char>::empty(),
                };
                match weburl::url_resolve(base, href_raw) {
                    None => Err(KindV::ParseFailure { field: "img href"@, raw: href_raw }),
                    Some(href) => {
                        let alt = match dom::attr_spec(img, "alt"@) {
                            Some(a) => a,
                            None => Seq::<char>::empty(),
                        };
                        let width_raw = match dom::attr_spec(img, "width"@) {
                            Some(w) => w,
                            None => Seq::<char>::empty(),
                        };
                        match text::parse_u32_spec(width_raw) {
                            None => Err(
                                KindV::ParseFailure { field: "img width"@, raw: width_raw },
                            ),
                            Some(w) => {
                                let caption = dom::select_first_spec(cell, dom::m_tag("small"@));
                                Ok(
                                    ImgV {
                                        href,
                                        alt,
                                        width: w,
                                        src: "images/"@ + weburl::percent_enc(cid),
                                        caption_text: match caption {
                                            Some(c) => Some(dom::text_of(c)),
                                            None => None,
                                        },
                                        caption_html: match caption {
                                            Some(c) => Some(xhtml::ser_seq(dom::kids(c))),
                                            None => None,
                                        },
                                        flex,
                                    },
                                )
                            },
                        }
                    },
                }
            },
        },
    }
}

/// What one visible cell contributes: its first image's reference, nothing
/// when the row text cites the external archive, a fatal shape error
/// otherwise.
pub open spec fn cell_images_spec(
    cell: Node,
    row: Node,
    base: Seq<char>,
    images: Seq<(String, String)>,
    hq: bool,
    flex: bool,
) -> Result<Seq<ImgV>, KindV> {
    match dom::find_tag_parent_spec(cell, "img"@) {
        Some(pi) => match img_ref_spec(pi.1, pi.0, cell, base, images, hq, flex) {
            Err(k) => Err(k),
            Ok(v) => Ok(seq![v]),
        },
        None => if !text::contains_spec(dom::text_of(row), "Archives"@) {
            Err(KindV::UnexpectedShape { what: "unexpected img box child"@ })
        } else {
            Ok(Seq::<ImgV>::empty())
        },
    }
}

pub open spec fn cells_fold(
    cells: Seq<Node>,
    row: Node,
    base: Seq<char>,
    images: Seq<(String, String)>,
    hq: bool,
    flex: bool,
) -> Result<Seq<ImgV>, KindV>
    decreases cells.len(),
{
    if cells.len() == 0 {
        Ok(Seq::<ImgV>::empty())
    } else {
        match cells_fold(cells.drop_last(), row, base, images, hq, flex) {
            Err(k) => Err(k),
            Ok(pre) => if is_hidden(cells.last()) {
                Ok(pre)
            } else {
                match cell_images_spec(cells.last(), row, base, images, hq, flex) {
                    Err(k) => Err(k),
                    Ok(v) => Ok(pre + v),
                }
            },
        }
    }
}

/// What one gallery row contributes: nothing when hidden; otherwise each
/// visible cell's image, every one flex-marked exactly when the row shows
/// more than one visible cell.
pub open spec fn row_images_spec(
    row: Node,
    base: Seq<char>,
    images: Seq<(String, String)>,
    hq: bool,
) -> Result<Seq<ImgV>, KindV> {
    if is_hidden(row) {
        Ok(Seq::<ImgV>::empty())
    } else {
        let cells = el_children(dom::kids(row));
        cells_fold(cells, row, base, images, hq, visible_count(cells) > 1)
    }
}

pub open spec fn gallery_rows_fold(
    rows: Seq<Node>,
    base: Seq<char>,
    images: Seq<(String, String)>,
    hq: bool,
) -> Result<Seq<ImgV>, KindV>
    decreases rows.len(),
{
    if rows.len() == 0 {
        Ok(Seq::<ImgV>::empty())
    } else {
        match gallery_rows_fold(rows.drop_last(), base, images, hq) {
            Err(k) => Err(k),
            Ok(pre) => match row_images_spec(rows.last(), base, images, hq) {
                Err(k) => Err(k),
                Ok(v) => Ok(pre + v),
            },
        }
    }
}

#[verifier::loop_isolation(false)]
fn extract_cell(
    cell: &Node,
    row: &Node,
    base: &Vec<char>,
    images: &ImageMap,
    hq: bool,
    flex: bool,
) -> (r: Result<Option<MonImage>, ExtractError>)
    ensures
        match r {
            Ok(o) => match o {
                Some(img) => cell_images_spec(*cell, *row, base@, images.entries@, hq, flex)
                    == Ok::<Seq<ImgV>, KindV>(seq![img@]),
                None => cell_images_spec(*cell, *row, base@, images.entries@, hq, flex) == Ok::<
                    Seq<ImgV>,
                    KindV,
                >(Seq::<ImgV>::empty()),
            },
            Err(e) => err_view(e).context is None && cell_images_spec(
                *cell,
                *row,
                base@,
                images.entries@,
                hq,
                flex,
            ) == Err::<Seq<ImgV>, KindV>(err_view(e).kind),
        },
{
    let img_tag = text::str_to_chars("img");
    let (parent, img) = match dom::find_tag_parent(cell, &img_tag) {
        Some(pi) => pi,
        None => {
            let row_text = dom::text_contents(row);
            let archives = text::str_to_chars("Archives");
            if !text::contains_sub(&row_text, &archives) {
                return Err(ExtractError {
                    context: None,
                    kind: ErrKind::UnexpectedShape { what: "unexpected img box child".to_owned() },
                });
            }
            return Ok(None);
        },
    };
    let u = match weburl::get_highest_quality_src(img, base, hq) {
        Some(u) => u,
        None => {
            return Err(ExtractError {
                context: None,
                kind: ErrKind::MissingElement { what: "no img src".to_owned() },
            });
        },
    };
    let cid = match images.get(&u) {
        Some(c) => c,
        None => {
            return Err(ExtractError {
                context: None,
                kind: ErrKind::ImageNotCached { url: text::chars_to_string(&u) },
            });
        },
    };
    let href_name = text::str_to_chars("href");
    let href_raw = match dom::get_attr(parent, &href_name) {
        Some(h) => h,
        None => Vec::new(),
    };
    let base_s = text::chars_to_string(base);
    let href_s = text::chars_to_string(&href_raw);
    let href = match weburl::resolve_url(base_s.as_str(), href_s.as_str()) {
        Some(h) => h,
        None => {
            return Err(ExtractError {
                context: None,
                kind: ErrKind::ParseFailure {
                    field: "img href".to_owned(),
                    raw: text::chars_to_string(&href_raw),
                },
            });
        },
    };
    let alt_name = text::str_to_chars("alt");
    let alt = match dom::get_attr(img, &alt_name) {
        Some(a) => a,
        None => Vec::new(),
    };
    let width_name = text::str_to_chars("width");
    let width_raw = match dom::get_attr(img, &width_name) {
        Some(w) => w,
        None => Vec::new(),
    };
    let width = match text::parse_u32(&width_raw) {
        Some(w) => w,
        None => {
            return Err(ExtractError {
                context: None,
                kind: ErrKind::ParseFailure {
                    field: "img width".to_owned(),
                    raw: text::chars_to_string(&width_raw),
                },
            });
        },
    };
    let cid_s = text::chars_to_string(&cid);
    let enc = weburl::urlencode(cid_s.as_str());
    let mut src = text::str_to_chars("images/");
    let mut encv = text::str_to_chars(enc.as_str());
    src.append(&mut encv);
    proof {
        assert(src@ =~= "images/"@ + weburl::percent_enc(cid@));
    }
    let small = Matcher::by_tag("small");
    let (caption_text, caption_html) = match dom::select_first(cell, &small) {
        Some(c) => {
            let t = dom::text_contents(c);
            let h = xhtml::inner_xhtml(c);
            (Some(text::chars_to_string(&t)), Some(h))
        },
        None => (None, None),
    };
    Ok(
        Some(
            MonImage {
                href,
                alt: text::chars_to_string(&alt),
                width,
                src: text::chars_to_string(&src),
                caption_text,
                caption_html,
                flex,
            },
        ),
    )
}

proof fn lemma_cells_fold_err(
    cells: Seq<Node>,
    i: int,
    row: Node,
    base: Seq<char>,
    images: Seq<(String, String)>,
    hq: bool,
    flex: bool,
    k: KindV,
)
    requires
        0 <= i < cells.len(),
        cells_fold(cells.subrange(0, i), row, base, images, hq, flex) is Ok,
        !is_hidden(cells[i]),
        cell_images_spec(cells[i], row, base, images, hq, flex) == Err::<Seq<ImgV>, KindV>(k),
    ensures
        cells_fold(cells, row, base, images, hq, flex) == Err::<Seq<ImgV>, KindV>(k),
    decreases cells.len(),
{
    if i == cells.len() - 1 {
        assert(cells.drop_last() =~= cells.subrange(0, i));
        assert(cells.last() == cells[i]);
    } else {
        assert(cells.drop_last().subrange(0, i) =~= cells.subrange(0, i));
        assert(cells.drop_last()[i] == cells[i]);
        lemma_cells_fold_err(cells.drop_last(), i, row, base, images, hq, flex, k);
    }
}

#[verifier::loop_isolation(false)]
fn extract_row(row: &Node, base: &Vec<char>, images: &ImageMap, hq: bool) -> (r: Result<
    Vec<MonImage>,
    ExtractError,
>)
    ensures
        match r {
            Ok(v) => row_images_spec(*row, base@, images.entries@, hq) == Ok::<Seq<ImgV>, KindV>(
                img_views(v@),
            ),
            Err(e) => err_view(e).context is None && row_images_spec(
                *row,
                base@,
                images.entries@,
                hq,
            ) == Err::<Seq<ImgV>, KindV>(err_view(e).kind),
        },
{
    let mut out: Vec<MonImage> = Vec::new();
    if is_hidden_exec(row) {
        proof {
            assert(img_views(out@) =~= Seq::<ImgV>::empty());
        }
        return Ok(out);
    }
    let cells = el_children_of(row);
    let ghost cells_spec = el_children(dom::kids(*row));
    let mut vc: usize = 0;
    let mut i: usize = 0;
    proof {
        assert(cells_spec.subrange(0, 0) =~= Seq::<Node>::empty());
    }
    while i < cells.len()
        invariant
            i <= cells@.len(),
            cells@.len() == cells_spec.len(),
            forall|j: int| 0 <= j < cells@.len() ==> *(#[trigger] cells@[j]) == cells_spec[j],
            vc == visible_count(cells_spec.subrange(0, i as int)),
            vc <= i,
        decreases cells@.len() - i,
    {
        let ghost pre = cells_spec.subrange(0, (i + 1) as int);
        proof {
            assert(pre.drop_last() =~= cells_spec.subrange(0, i as int));
            assert(pre.last() == cells_spec[i as int]);
        }
        if !is_hidden_exec(cells[i]) {
            vc += 1;
        }
        i += 1;
    }
    proof {
        assert(cells_spec.subrange(0, cells_spec.len() as int) =~= cells_spec);
    }
    let flex: bool = vc > 1;
    let mut j: usize = 0;
    proof {
        assert(cells_spec.subrange(0, 0) =~= Seq::<Node>::empty());
        assert(img_views(out@) =~= Seq::<ImgV>::empty());
    }
    while j < cells.len()
        invariant
            j <= cells@.len(),
            cells@.len() == cells_spec.len(),
            forall|jj: int| 0 <= jj < cells@.len() ==> *(#[trigger] cells@[jj]) == cells_spec[jj],
            flex == (visible_count(cells_spec) > 1),
            cells_fold(cells_spec.subrange(0, j as int), *row, base@, images.entries@, hq, flex)
                == Ok::<Seq<ImgV>, KindV>(img_views(out@)),
        decreases cells@.len() - j,
    {
        let ghost pre = cells_spec.subrange(0, (j + 1) as int);
        proof {
            assert(pre.drop_last() =~= cells_spec.subrange(0, j as int));
            assert(pre.last() == cells_spec[j as int]);
        }
        if !is_hidden_exec(cells[j]) {
            let ghost prev = img_views(out@);
            match extract_cell(cells[j], row, base, images, hq, flex) {
                Ok(Some(img)) => {
                    let ghost imgv = img@;
                    out.push(img);
                    proof {
                        assert(img_views(out@) =~= prev + seq![imgv]);
                        assert(cells_fold(pre, *row, base@, images.entries@, hq, flex) == Ok::<
                            Seq<ImgV>,
                            KindV,
                        >(prev + seq![imgv]));
                    }
                },
                Ok(None) => {
                    proof {
                        assert(prev + Seq::<ImgV>::empty() =~= prev);
                        assert(cells_fold(pre, *row, base@, images.entries@, hq, flex) == Ok::<
                            Seq<ImgV>,
                            KindV,
                        >(prev));
                    }
                },
                Err(e) => {
                    proof {
                        lemma_cells_fold_err(
                            cells_spec,
                            j as int,
                            *row,
                            base@,
                            images.entries@,
                            hq,
                            flex,
                            err_view(e).kind,
                        );
                    }
                    return Err(e);
                },
            }
        }
        j += 1;
    }
    proof {
        assert(cells_spec.subrange(0, cells_spec.len() as int) =~= cells_spec);
    }
    Ok(out)
}

/// The gallery images of an entry: the rows of the gallery table, hidden
/// rows skipped, visible cells' images collected in document order.
pub open spec fn gallery_spec(
    gal_tr: Node,
    base: Seq<char>,
    images: Seq<(String, String)>,
    hq: bool,
) -> Result<Seq<ImgV>, KindV> {
    match dom::first_el_child_spec(gal_tr, "td"@) {
        None => Err(KindV::MissingElement { what: "no img box > td"@ }),
        Some(td) => match dom::first_el_child_spec(td, "table"@) {
            None => Err(KindV::MissingElement { what: "no img box > td > table"@ }),
            Some(table) => match dom::first_el_child_spec(table, "tbody"@) {
                None => Err(KindV::MissingElement { what: "no img box > td > table > tbody"@ }),
                Some(tbody) => gallery_rows_fold(
                    el_children(dom::kids(tbody)),
                    base,
                    images,
                    hq,
                ),
            },
        },
    }
}

proof fn lemma_rows_fold_err(
    rows: Seq<Node>,
    i: int,
    base: Seq<char>,
    images: Seq<(String, String)>,
    hq: bool,
    k: KindV,
)
    requires
        0 <= i < rows.len(),
        gallery_rows_fold(rows.subrange(0, i), base, images, hq) is Ok,
        row_images_spec(rows[i], base, images, hq) == Err::<Seq<ImgV>, KindV>(k),
    ensures
        gallery_rows_fold(rows, base, images, hq) == Err::<Seq<ImgV>, KindV>(k),
    decreases rows.len(),
{
    if i == rows.len() - 1 {
        assert(rows.drop_last() =~= rows.subrange(0, i));
        assert(rows.last() == rows[i]);
    } else {
        assert(rows.drop_last().subrange(0, i) =~= rows.subrange(0, i));
        assert(rows.drop_last()[i] == rows[i]);
        lemma_rows_fold_err(rows.drop_last(), i, base, images, hq, k);
    }
}

#[verifier::loop_isolation(false)]
fn extract_gallery(gal_tr: &Node, base: &Vec<char>, images: &ImageMap, hq: bool) -> (r: Result<
    Vec<MonImage>,
    ExtractError,
>)
    ensures
        match r {
            Ok(v) => gallery_spec(*gal_tr, base@, images.entries@, hq) == Ok::<Seq<ImgV>, KindV>(
                img_views(v@),
            ),
            Err(e) => err_view(e).context is None && gallery_spec(
                *gal_tr,
                base@,
                images.entries@,
                hq,
            ) == Err::<Seq<ImgV>, KindV>(err_view(e).kind),
        },
{
    let td_tag = text::str_to_chars("td");
    let table_tag = text::str_to_chars("table");
    let tbody_tag = text::str_to_chars("tbody");
    let td = match dom::first_el_child(gal_tr, &td_tag) {
        Some(x) => x,
        None => {
            return Err(ExtractError {
                context: None,
                kind: ErrKind::MissingElement { what: "no img box > td".to_owned() },
            });
        },
    };
    let table = match dom::first_el_child(td, &table_tag) {
        Some(x) => x,
        None => {
            return Err(ExtractError {
                context: None,
                kind: ErrKind::MissingElement { what: "no img box > td > table".to_owned() },
            });
        },
    };
    let tbody = match dom::first_el_child(table, &tbody_tag) {
        Some(x) => x,
        None => {
            return Err(ExtractError {
                context: None,
                kind: ErrKind::MissingElement {
                    what: "no img box > td > table > tbody".to_owned(),
                },
            });
        },
    };
    let rows = el_children_of(tbody);
    let ghost rows_spec = el_children(dom::kids(*tbody));
    let mut out: Vec<MonImage> = Vec::new();
    let mut i: usize = 0;
    proof {
        assert(rows_spec.subrange(0, 0) =~= Seq::<Node>::empty());
        assert(img_views(out@) =~= Seq::<ImgV>::empty());
    }
    while i < rows.len()
        invariant
            i <= rows@.len(),
            rows@.len() == rows_spec.len(),
            forall|j: int| 0 <= j < rows@.len() ==> *(#[trigger] rows@[j]) == rows_spec[j],
            gallery_rows_fold(rows_spec.subrange(0, i as int), base@, images.entries@, hq) == Ok::<
                Seq<ImgV>,
                KindV,
            >(img_views(out@)),
        decreases rows@.len() - i,
    {
        let ghost pre = rows_spec.subrange(0, (i + 1) as int);
        proof {
            assert(pre.drop_last() =~= rows_spec.subrange(0, i as int));
            assert(pre.last() == rows_spec[i as int]);
        }
        let ghost prev = img_views(out@);
        match extract_row(rows[i], base, images, hq) {
            Ok(mut part) => {
                let ghost partv = img_views(part@);
                out.append(&mut part);
                proof {
                    assert(img_views(out@) =~= prev + partv);
                    assert(gallery_rows_fold(pre, base@, images.entries@, hq) == Ok::<
                        Seq<ImgV>,
                        KindV,
                    >(prev + partv));
                }
            },
            Err(e) => {
                proof {
                    lemma_rows_fold_err(
                        rows_spec,
                        i as int,
                        base@,
                        images.entries@,
                        hq,
                        err_view(e).kind,
                    );
                }
                return Err(e);
            },
        }
        i += 1;
    }
    proof {
        assert(rows_spec.subrange(0, rows_spec.len() as int) =~= rows_spec);
    }
    Ok(out)
}

/// What the name box yields: display name, category fragments, native-script
/// name as text and markup, and the transliteration fragment.
pub struct NameBoxV {
    pub name: Seq<char>,
    pub categories: Seq<Seq<char>>,
    pub jp_text: Seq<char>,
    pub jp_html: Seq<char>,
    pub jp_translit: Seq<char>,
}

pub open spec fn name_box_spec(name_box: Node) -> Result<NameBoxV, KindV> {
    match dom::first_el_child_spec(name_box, "table"@) {
        None => Err(KindV::MissingElement { what: "no name box > table"@ }),
        Some(table) => match dom::first_el_child_spec(table, "tbody"@) {
            None => Err(KindV::MissingElement { what: "no name box > table > tbody"@ }),
            Some(tbody) => match dom::first_el_child_spec(tbody, "tr"@) {
                None => Err(KindV::MissingElement { what: "no name box > table > tbody > tr"@ }),
                Some(tr) => {
                    let tds = el_children(dom::kids(tr));
                    if tds.len() != 2 {
                        Err(KindV::UnexpectedShape { what: "unexpected name box td count"@ })
                    } else {
                        let english = tds[0];
                        match dom::select_first_spec(english, dom::m_tag("big"@)) {
                            None => Err(KindV::MissingElement { what: "missing name box <big>"@ }),
                            Some(big) => {
                                match dom::select_first_spec(
                                    english,
                                    dom::m_tag_attr_present("a"@, "title"@),
                                ) {
                                    None => Err(
                                        KindV::MissingElement {
                                            what: "missing name box categories"@,
                                        },
                                    ),
                                    Some(holder) => {
                                        let cat_items = el_children(dom::kids(holder));
                                        if cat_items.len() != 1 {
                                            Err(
                                                KindV::UnexpectedShape {
                                                    what: "unexpected name box category item count"@,
                                                },
                                            )
                                        } else {
                                            let jp = tds[1];
                                            match dom::select_first_spec(
                                                jp,
                                                dom::m_attr_eq("lang"@, "ja"@),
                                            ) {
                                                None => Err(
                                                    KindV::MissingElement {
                                                        what: "could not find jp name"@,
                                                    },
                                                ),
                                                Some(jp_el) => {
                                                    match dom::select_first_spec(
                                                        jp,
                                                        dom::m_tag("i"@),
                                                    ) {
                                                        None => Err(
                                                            KindV::MissingElement {
                                                                what: "could not find jp translit"@,
                                                            },
                                                        ),
                                                        Some(tl) => Ok(
                                                            NameBoxV {
                                                                name: text::trim_spec(
                                                                    dom::text_of(big),
                                                                ),
                                                                categories: categories_spec(
                                                                    cat_items[0],
                                                                ),
                                                                jp_text: text::trim_spec(
                                                                    dom::text_of(jp_el),
                                                                ),
                                                                jp_html: xhtml::ser_node(jp_el),
                                                                jp_translit: xhtml::ser_node(tl),
                                                            },
                                                        ),
                                                    }
                                                },
                                            }
                                        }
                                    },
                                }
                            },
                        }
                    }
                },
            },
        },
    }
}

/// What the header row yields: the name box contents, the catalog
/// identifier, and the gallery images.
pub struct HeaderV {
    pub namebox: NameBoxV,
    pub dex_id: DexId,
    pub images: Seq<ImgV>,
}

pub open spec fn header_spec(
    header: Node,
    base: Seq<char>,
    images: Seq<(String, String)>,
    hq_mon: bool,
) -> Result<HeaderV, KindV> {
    match dom::first_el_child_spec(header, "td"@) {
        None => Err(KindV::MissingElement { what: "no header box > td"@ }),
        Some(td) => match dom::first_el_child_spec(td, "table"@) {
            None => Err(KindV::MissingElement { what: "no header box > td > table"@ }),
            Some(table) => match dom::first_el_child_spec(table, "tbody"@) {
                None => Err(KindV::MissingElement { what: "no header box > td > table > tbody"@ }),
                Some(tbody) => {
                    let trs = el_children(dom::kids(tbody));
                    if trs.len() != 2 {
                        Err(KindV::UnexpectedShape { what: "unexpected header box tr count"@ })
                    } else {
                        let items = el_children(dom::kids(trs[0]));
                        if items.len() != 2 {
                            Err(
                                KindV::UnexpectedShape {
                                    what: "unexpected header box tr > td count"@,
                                },
                            )
                        } else {
                            match name_box_spec(items[0]) {
                                Err(k) => Err(k),
                                Ok(nb) => match dom::select_first_spec(items[1], dom::m_tag("a"@)) {
                                    None => Err(
                                        KindV::MissingElement { what: "could not find dex id"@ },
                                    ),
                                    Some(a_el) => {
                                        let raw = text::trim_spec(dom::text_of(a_el));
                                        match index::parse_dex_spec(raw) {
                                            None => Err(
                                                KindV::ParseFailure { field: "dex id"@, raw },
                                            ),
                                            Some(id) => match gallery_spec(
                                                trs[1],
                                                base,
                                                images,
                                                hq_mon,
                                            ) {
                                                Err(k) => Err(k),
                                                Ok(imgs) => Ok(
                                                    HeaderV { namebox: nb, dex_id: id, images: imgs },
                                                ),
                                            },
                                        }
                                    },
                                },
                            }
                        }
                    }
                },
            },
        },
    }
}

/// The serialized rewritten rows, first failure first.
pub open spec fn rows_ser_fold(
    rows: Seq<Node>,
    index: Index,
    images: Seq<(String, String)>,
    base: Seq<char>,
    hq_body: bool,
) -> Result<Seq<Seq<char>>, KindV>
    decreases rows.len(),
{
    if rows.len() == 0 {
        Ok(Seq::<Seq<char>>::empty())
    } else {
        match rows_ser_fold(rows.drop_last(), index, images, base, hq_body) {
            Err(k) => Err(k),
            Ok(pre) => match rewrite::rw_ser(rows.last(), index, images, base, hq_body) {
                Err(k) => Err(k),
                Ok(h) => Ok(pre.push(h)),
            },
        }
    }
}

proof fn lemma_rows_ser_fold_err(
    rows: Seq<Node>,
    i: int,
    index: Index,
    images: Seq<(String, String)>,
    base: Seq<char>,
    hq_body: bool,
    k: KindV,
)
    requires
        0 <= i < rows.len(),
        rows_ser_fold(rows.subrange(0, i), index, images, base, hq_body) is Ok,
        rewrite::rw_ser(rows[i], index, images, base, hq_body) == Err::<Seq<char>, KindV>(k),
    ensures
        rows_ser_fold(rows, index, images, base, hq_body) == Err::<Seq<Seq<char>>, KindV>(k),
    decreases rows.len(),
{
    if i == rows.len() - 1 {
        assert(rows.drop_last() =~= rows.subrange(0, i));
        assert(rows.last() == rows[i]);
    } else {
        assert(rows.drop_last().subrange(0, i) =~= rows.subrange(0, i));
        assert(rows.drop_last()[i] == rows[i]);
        lemma_rows_ser_fold_err(rows.drop_last(), i, index, images, base, hq_body, k);
    }
}

/// The walking state of body extraction.
pub struct WalkSt {
    pub sum: Seq<char>,
    pub body: Seq<char>,
    pub tables: int,
    pub h2s: int,
    pub in_body: bool,
    pub stopped: bool,
}

/// One step of the body walk: the table-of-contents node flips everything
/// after it into the body; the first two tables (the already-extracted
/// header and info boxes) are skipped; a second-level heading beyond the
/// configured count stops the walk; every other node is rewritten and
/// appended to the summary or the body.
pub open spec fn walk_step(
    st: WalkSt,
    n: Node,
    index: Index,
    images: Seq<(String, String)>,
    base: Seq<char>,
    hq_body: bool,
    max: int,
) -> Result<WalkSt, KindV> {
    if st.stopped {
        Ok(st)
    } else if dom::attr_spec(n, "id"@) == Some("toc"@) {
        Ok(WalkSt { in_body: true, ..st })
    } else {
        let is_table = n is Element && dom::el_name(n) == "table"@;
        let tables2 = st.tables + if is_table {
            1int
        } else {
            0int
        };
        if is_table && tables2 < 3 {
            Ok(WalkSt { tables: tables2, ..st })
        } else {
            let is_h2 = n is Element && dom::el_name(n) == "h2"@;
            let h2s2 = st.h2s + if is_h2 {
                1int
            } else {
                0int
            };
            if h2s2 > max {
                Ok(WalkSt { stopped: true, ..st })
            } else {
                match rewrite::rw_ser(n, index, images, base, hq_body) {
                    Err(k) => Err(k),
                    Ok(h) => if st.in_body {
                        Ok(WalkSt { tables: tables2, h2s: h2s2, body: st.body + h, ..st })
                    } else {
                        Ok(WalkSt { tables: tables2, h2s: h2s2, sum: st.sum + h, ..st })
                    },
                }
            }
        }
    }
}

pub open spec fn walk_init() -> WalkSt {
    WalkSt {
        sum: Seq::<char>::empty(),
        body: Seq::<char>::empty(),
        tables: 0,
        h2s: 0,
        in_body: false,
        stopped: false,
    }
}

pub open spec fn walk_fold(
    s: Seq<Node>,
    index: Index,
    images: Seq<(String, String)>,
    base: Seq<char>,
    hq_body: bool,
    max: int,
) -> Result<WalkSt, KindV>
    decreases s.len(),
{
    if s.len() == 0 {
        Ok(walk_init())
    } else {
        match walk_fold(s.drop_last(), index, images, base, hq_body, max) {
            Err(k) => Err(k),
            Ok(st) => walk_step(st, s.last(), index, images, base, hq_body, max),
        }
    }
}

proof fn lemma_walk_fold_err(
    s: Seq<Node>,
    i: int,
    index: Index,
    images: Seq<(String, String)>,
    base: Seq<char>,
    hq_body: bool,
    max: int,
    st: WalkSt,
    k: KindV,
)
    requires
        0 <= i < s.len(),
        walk_fold(s.subrange(0, i), index, images, base, hq_body, max) == Ok::<WalkSt, KindV>(st),
        walk_step(st, s[i], index, images, base, hq_body, max) == Err::<WalkSt, KindV>(k),
    ensures
        walk_fold(s, index, images, base, hq_body, max) == Err::<WalkSt, KindV>(k),
    decreases s.len(),
{
    if i == s.len() - 1 {
        assert(s.drop_last() =~= s.subrange(0, i));
        assert(s.last() == s[i]);
    } else {
        assert(s.drop_last().subrange(0, i) =~= s.subrange(0, i));
        assert(s.drop_last()[i] == s[i]);
        lemma_walk_fold_err(s.drop_last(), i, index, images, base, hq_body, max, st, k);
    }
}

/// Once the walk has stopped, the remaining nodes change nothing.
proof fn lemma_walk_fold_stopped(
    s: Seq<Node>,
    i: int,
    index: Index,
    images: Seq<(String, String)>,
    base: Seq<char>,
    hq_body: bool,
    max: int,
    st: WalkSt,
)
    requires
        0 <= i <= s.len(),
        walk_fold(s.subrange(0, i), index, images, base, hq_body, max) == Ok::<WalkSt, KindV>(st),
        st.stopped,
    ensures
        walk_fold(s, index, images, base, hq_body, max) == Ok::<WalkSt, KindV>(st),
    decreases s.len() - i,
{
    if i == s.len() {
        assert(s.subrange(0, i) =~= s);
    } else {
        let pre = s.subrange(0, i + 1);
        assert(pre.drop_last() =~= s.subrange(0, i));
        assert(pre.last() == s[i]);
        assert(walk_fold(pre, index, images, base, hq_body, max) == Ok::<WalkSt, KindV>(st));
        lemma_walk_fold_stopped(s, i + 1, index, images, base, hq_body, max, st);
    }
}

#[verifier::loop_isolation(false)]
fn walk_body(
    mw: &Node,
    index: &Index,
    images: &ImageMap,
    base: &Vec<char>,
    hq_body: bool,
    max: usize,
) -> (r: Result<(Vec<char>, Vec<char>), ExtractError>)
    ensures
        match r {
            Ok(p) => walk_fold(
                dom::kids(*mw),
                *index,
                images.entries@,
                base@,
                hq_body,
                max as int,
            ) matches Ok(st) && st.sum == p.0@ && st.body == p.1@,
            Err(e) => err_view(e).context is None && walk_fold(
                dom::kids(*mw),
                *index,
                images.entries@,
                base@,
                hq_body,
                max as int,
            ) == Err::<WalkSt, KindV>(err_view(e).kind),
        },
{
    let children: &Vec<Node> = match mw {
        Node::Element { ns: _e_ns, name: _e_name, attrs: _e_attrs, children } => children,
        Node::Document { children } => children,
        _ => {
            proof {
                assert(dom::kids(*mw) =~= Seq::<Node>::empty());
            }
            let empty_sum: Vec<char> = Vec::new();
            let empty_body: Vec<char> = Vec::new();
            return Ok((empty_sum, empty_body));
        },
    };
    let id_name = text::str_to_chars("id");
    let toc_lit = text::str_to_chars("toc");
    let table_tag = text::str_to_chars("table");
    let h2_tag = text::str_to_chars("h2");
    let mut sum: Vec<char> = Vec::new();
    let mut body: Vec<char> = Vec::new();
    let mut tables: usize = 0;
    let mut h2s: usize = 0;
    let mut in_body: bool = false;
    let mut i: usize = 0;
    proof {
        assert(children@.subrange(0, 0) =~= Seq::<Node>::empty());
    }
    while i < children.len()
        invariant
            i <= children@.len(),
            tables <= i,
            h2s <= i,
            walk_fold(
                children@.subrange(0, i as int),
                *index,
                images.entries@,
                base@,
                hq_body,
                max as int,
            ) == Ok::<WalkSt, KindV>(
                WalkSt {
                    sum: sum@,
                    body: body@,
                    tables: tables as int,
                    h2s: h2s as int,
                    in_body,
                    stopped: false,
                },
            ),
        decreases children@.len() - i,
    {
        let ghost pre = children@.subrange(0, (i + 1) as int);
        let ghost st = WalkSt {
            sum: sum@,
            body: body@,
            tables: tables as int,
            h2s: h2s as int,
            in_body,
            stopped: false,
        };
        proof {
            assert(pre.drop_last() =~= children@.subrange(0, i as int));
            assert(pre.last() == children@[i as int]);
        }
        let n = &children[i];
        let is_toc: bool = match dom::get_attr(n, &id_name) {
            Some(v) => text::chars_eq(&v, &toc_lit),
            None => false,
        };
        if is_toc {
            in_body = true;
        } else {
            let is_table: bool = match n {
                Node::Element { name, .. } => text::chars_eq(name, &table_tag),
                _ => false,
            };
            let tables2: usize = if is_table {
                tables + 1
            } else {
                tables
            };
            if is_table && tables2 < 3 {
                tables = tables2;
            } else {
                let is_h2: bool = match n {
                    Node::Element { name, .. } => text::chars_eq(name, &h2_tag),
                    _ => false,
                };
                let h2s2: usize = if is_h2 {
                    h2s + 1
                } else {
                    h2s
                };
                if h2s2 > max {
                    proof {
                        let stopped_st = WalkSt { stopped: true, ..st };
                        assert(walk_fold(
                            pre,
                            *index,
                            images.entries@,
                            base@,
                            hq_body,
                            max as int,
                        ) == Ok::<WalkSt, KindV>(stopped_st));
                        lemma_walk_fold_stopped(
                            children@,
                            i + 1,
                            *index,
                            images.entries@,
                            base@,
                            hq_body,
                            max as int,
                            stopped_st,
                        );
                    }
                    return Ok((sum, body));
                }
                match rewrite::fix_links_ser(n, index, images, base, hq_body) {
                    Ok(h) => {
                        if in_body {
                            xhtml::push_all_chars(&mut body, &h);
                        } else {
                            xhtml::push_all_chars(&mut sum, &h);
                        }
                        tables = tables2;
                        h2s = h2s2;
                    },
                    Err(e) => {
                        proof {
                            lemma_walk_fold_err(
                                children@,
                                i as int,
                                *index,
                                images.entries@,
                                base@,
                                hq_body,
                                max as int,
                                st,
                                err_view(e).kind,
                            );
                        }
                        return Err(e);
                    },
                }
            }
        }
        i += 1;
    }
    proof {
        assert(children@.subrange(0, children@.len() as int) =~= children@);
    }
    Ok((sum, body))
}

proof fn lemma_marker_idx_bounds(rows: Seq<Node>, i: int)
    requires
        0 <= i <= rows.len(),
    ensures
        i <= marker_idx_from(rows, i) <= rows.len(),
    decreases rows.len() - i,
{
    if i < rows.len() && !is_marker_row(rows[i]) {
        lemma_marker_idx_bounds(rows, i + 1);
    }
}

#[verifier::loop_isolation(false)]
fn rows_ser_range(
    rows: &Vec<&Node>,
    Ghost(rows_spec): Ghost<Seq<Node>>,
    from: usize,
    to: usize,
    index: &Index,
    images: &ImageMap,
    base: &Vec<char>,
    hq_body: bool,
) -> (r: Result<Vec<String>, ExtractError>)
    requires
        rows@.len() == rows_spec.len(),
        forall|j: int| 0 <= j < rows@.len() ==> *(#[trigger] rows@[j]) == rows_spec[j],
        from <= to <= rows_spec.len(),
    ensures
        match r {
            Ok(v) => rows_ser_fold(
                rows_spec.subrange(from as int, to as int),
                *index,
                images.entries@,
                base@,
                hq_body,
            ) == Ok::<Seq<Seq<char>>, KindV>(str_views(v@)),
            Err(e) => err_view(e).context is None && rows_ser_fold(
                rows_spec.subrange(from as int, to as int),
                *index,
                images.entries@,
                base@,
                hq_body,
            ) == Err::<Seq<Seq<char>>, KindV>(err_view(e).kind),
        },
{
    let ghost range = rows_spec.subrange(from as int, to as int);
    let mut out: Vec<String> = Vec::new();
    let mut i: usize = from;
    proof {
        assert(range.subrange(0, 0) =~= Seq::<Node>::empty());
        assert(str_views(out@) =~= Seq::<Seq<char>>::empty());
    }
    while i < to
        invariant
            from <= i <= to,
            rows_ser_fold(
                range.subrange(0, i - from),
                *index,
                images.entries@,
                base@,
                hq_body,
            ) == Ok::<Seq<Seq<char>>, KindV>(str_views(out@)),
        decreases to - i,
    {
        let ghost pre = range.subrange(0, i + 1 - from);
        proof {
            assert(pre.drop_last() =~= range.subrange(0, i - from));
            assert(pre.last() == range[i - from] && range[i - from] == rows_spec[i as int]);
        }
        match rewrite::fix_links_ser(rows[i], index, images, base, hq_body) {
            Ok(h) => {
                let hs = text::chars_to_string(&h);
                let ghost prev = out@;
                out.push(hs);
                proof {
                    assert(str_views(out@) =~= str_views(prev).push(h@));
                    assert(rows_ser_fold(pre, *index, images.entries@, base@, hq_body) == Ok::<
                        Seq<Seq<char>>,
                        KindV,
                    >(str_views(prev).push(h@)));
                }
            },
            Err(e) => {
                proof {
                    assert(range[i - from] == rows_spec[i as int]);
                    lemma_rows_ser_fold_err(
                        range,
                        i - from,
                        *index,
                        images.entries@,
                        base@,
                        hq_body,
                        err_view(e).kind,
                    );
                }
                return Err(e);
            },
        }
        i += 1;
    }
    proof {
        assert(range.subrange(0, to - from) =~= range);
    }
    Ok(out)
}

/// What extraction yields on the whole document: the complete record, or
/// the first structural failure, each stage in the fixed order and each
/// fatal.
pub open spec fn extract_spec(
    doc: Node,
    index: Index,
    images: Seq<(String, String)>,
    config: Config,
    url: Seq<char>,
) -> Result<MonV, ErrV> {
    if !xhtml::ns_ok(doc) {
        Err(bare(KindV::BadNamespace))
    } else {
        match dom::select_first_spec(doc, dom::m_tag_class("table"@, "roundy"@)) {
            None => Err(bare(KindV::MissingElement { what: "could not find info box"@ })),
            Some(ib) => match dom::first_el_child_spec(ib, "tbody"@) {
                None => Err(bare(KindV::MissingElement { what: "no info box tbody"@ })),
                Some(tbody) => {
                    let rows = el_children(dom::kids(tbody));
                    if rows.len() == 0 {
                        Err(bare(KindV::MissingElement { what: "no header box"@ }))
                    } else {
                        let k = marker_idx_from(rows, 1);
                        match header_spec(rows[0], url, images, config.hq_pokemon_images) {
                            Err(k2) => Err(bare(k2)),
                            Ok(h) => match rows_ser_fold(
                                rows.subrange(1, k),
                                index,
                                images,
                                url,
                                config.hq_body_images,
                            ) {
                                Err(k2) => Err(
                                    ErrV {
                                        context: Some("error fixing info box links"@),
                                        kind: k2,
                                    },
                                ),
                                Ok(tops) => match rows_ser_fold(
                                    rows.subrange(k, rows.len() as int),
                                    index,
                                    images,
                                    url,
                                    config.hq_body_images,
                                ) {
                                    Err(k2) => Err(
                                        ErrV {
                                            context: Some("error fixing info box links"@),
                                            kind: k2,
                                        },
                                    ),
                                    Ok(extras) => match dom::select_first_spec(
                                        doc,
                                        dom::m_class("mw-parser-output"@),
                                    ) {
                                        None => Err(
                                            bare(
                                                KindV::MissingElement {
                                                    what: "no mw-parser-output"@,
                                                },
                                            ),
                                        ),
                                        Some(mw) => match walk_fold(
                                            dom::kids(mw),
                                            index,
                                            images,
                                            url,
                                            config.hq_body_images,
                                            config.max_body_sections as int,
                                        ) {
                                            Err(k2) => Err(
                                                ErrV {
                                                    context: Some("error fixing summary links"@),
                                                    kind: k2,
                                                },
                                            ),
                                            Ok(st) => Ok(
                                                MonV {
                                                    url,
                                                    info_box_style: filtered_style_spec(ib),
                                                    dex_id: h.dex_id,
                                                    name: h.namebox.name,
                                                    categories_html: h.namebox.categories,
                                                    name_jp_text: h.namebox.jp_text,
                                                    name_jp_html: h.namebox.jp_html,
                                                    name_jp_translit_html: h.namebox.jp_translit,
                                                    images: h.images,
                                                    top_info_boxes_html: tops,
                                                    extra_info_boxes_html: extras,
                                                    summary_html: st.sum,
                                                    body_html: st.body,
                                                },
                                            ),
                                        },
                                    },
                                },
                            },
                        }
                    }
                },
            },
        }
    }
}

#[verifier::loop_isolation(false)]
fn extract_name_box(name_box: &Node) -> (r: Result<
    (String, Vec<String>, String, String, String),
    ExtractError,
>)
    ensures
        match r {
            Ok(t) => name_box_spec(*name_box) matches Ok(nb) && nb.name == t.0@ && nb.categories
                == str_views(t.1@) && nb.jp_text == t.2@ && nb.jp_html == t.3@ && nb.jp_translit
                == t.4@,
            Err(e) => err_view(e).context is None && name_box_spec(*name_box) == Err::<
                NameBoxV,
                KindV,
            >(err_view(e).kind),
        },
{
    let table_tag = text::str_to_chars("table");
    let tbody_tag = text::str_to_chars("tbody");
    let tr_tag = text::str_to_chars("tr");
    let table = match dom::first_el_child(name_box, &table_tag) {
        Some(x) => x,
        None => {
            return Err(ExtractError {
                context: None,
                kind: ErrKind::MissingElement { what: "no name box > table".to_owned() },
            });
        },
    };
    let tbody = match dom::first_el_child(table, &tbody_tag) {
        Some(x) => x,
        None => {
            return Err(ExtractError {
                context: None,
                kind: ErrKind::MissingElement { what: "no name box > table > tbody".to_owned() },
            });
        },
    };
    let tr = match dom::first_el_child(tbody, &tr_tag) {
        Some(x) => x,
        None => {
            return Err(ExtractError {
                context: None,
                kind: ErrKind::MissingElement {
                    what: "no name box > table > tbody > tr".to_owned(),
                },
            });
        },
    };
    let tds = el_children_of(tr);
    if tds.len() != 2 {
        return Err(ExtractError {
            context: None,
            kind: ErrKind::UnexpectedShape { what: "unexpected name box td count".to_owned() },
        });
    }
    let english = tds[0];
    let big_m = Matcher::by_tag("big");
    let big = match dom::select_first(english, &big_m) {
        Some(x) => x,
        None => {
            return Err(ExtractError {
                context: None,
                kind: ErrKind::MissingElement { what: "missing name box <big>".to_owned() },
            });
        },
    };
    let name_raw = dom::text_contents(big);
    let name_trimmed = text::trim(&name_raw);
    let name = text::chars_to_string(&name_trimmed);
    let holder_m = Matcher::by_tag_attr_present("a", "title");
    let holder = match dom::select_first(english, &holder_m) {
        Some(x) => x,
        None => {
            return Err(ExtractError {
                context: None,
                kind: ErrKind::MissingElement { what: "missing name box categories".to_owned() },
            });
        },
    };
    let cat_items = el_children_of(holder);
    if cat_items.len() != 1 {
        return Err(ExtractError {
            context: None,
            kind: ErrKind::UnexpectedShape {
                what: "unexpected name box category item count".to_owned(),
            },
        });
    }
    let categories = categories_of(cat_items[0]);
    let jp = tds[1];
    let jp_m = Matcher::by_attr_eq("lang", "ja");
    let jp_el = match dom::select_first(jp, &jp_m) {
        Some(x) => x,
        None => {
            return Err(ExtractError {
                context: None,
                kind: ErrKind::MissingElement { what: "could not find jp name".to_owned() },
            });
        },
    };
    let jp_raw = dom::text_contents(jp_el);
    let jp_trimmed = text::trim(&jp_raw);
    let jp_text = text::chars_to_string(&jp_trimmed);
    let jp_html = xhtml::serialize(jp_el);
    let i_m = Matcher::by_tag("i");
    let tl = match dom::select_first(jp, &i_m) {
        Some(x) => x,
        None => {
            return Err(ExtractError {
                context: None,
                kind: ErrKind::MissingElement { what: "could not find jp translit".to_owned() },
            });
        },
    };
    let jp_translit = xhtml::serialize(tl);
    Ok((name, categories, jp_text, jp_html, jp_translit))
}

/// Extract one entry from a parsed document.
///
/// The record is exactly what `extract_spec` assigns to the document, the
/// index, the collected image identifiers, the options and the source URL;
/// on any violated layout expectation, the error that names it.
pub fn read_mon(
    doc: &Node,
    index: &Index,
    images: &ImageMap,
    config: &Config,
    url: &str,
) -> (r: Result<MonEntry, ExtractError>)
    ensures
        match r {
            Ok(m) => extract_spec(*doc, *index, images.entries@, *config, url@) == Ok::<
                MonV,
                ErrV,
            >(m@),
            Err(e) => extract_spec(*doc, *index, images.entries@, *config, url@) == Err::<
                MonV,
                ErrV,
            >(err_view(e)),
        },
{
    let base = text::str_to_chars(url);
    if !xhtml::check_ns_ok(doc) {
        return Err(ExtractError { context: None, kind: ErrKind::BadNamespace });
    }
    let ib_m = Matcher::by_tag_class("table", "roundy");
    let ib = match dom::select_first(doc, &ib_m) {
        Some(x) => x,
        None => {
            return Err(ExtractError {
                context: None,
                kind: ErrKind::MissingElement { what: "could not find info box".to_owned() },
            });
        },
    };
    let style = filtered_style(ib);
    let tbody_tag = text::str_to_chars("tbody");
    let tbody = match dom::first_el_child(ib, &tbody_tag) {
        Some(x) => x,
        None => {
            return Err(ExtractError {
                context: None,
                kind: ErrKind::MissingElement { what: "no info box tbody".to_owned() },
            });
        },
    };
    let rows = el_children_of(tbody);
    let ghost rows_spec = el_children(dom::kids(*tbody));
    if rows.len() == 0 {
        return Err(ExtractError {
            context: None,
            kind: ErrKind::MissingElement { what: "no header box".to_owned() },
        });
    }
    let mut k: usize = 1;
    while k < rows.len() && !is_marker_row_exec(rows[k])
        invariant
            1 <= k <= rows@.len(),
            rows@.len() == rows_spec.len(),
            forall|j: int| 0 <= j < rows@.len() ==> *(#[trigger] rows@[j]) == rows_spec[j],
            marker_idx_from(rows_spec, 1) == marker_idx_from(rows_spec, k as int),
        decreases rows@.len() - k,
    {
        k += 1;
    }
    proof {
        assert(marker_idx_from(rows_spec, 1) == k as int);
    }
    let header = rows[0];
    let (name, categories_html, name_jp_text, name_jp_html, name_jp_translit_html, dex_id, imgs) = {
        let td_tag = text::str_to_chars("td");
        let table_tag = text::str_to_chars("table");
        let td = match dom::first_el_child(header, &td_tag) {
            Some(x) => x,
            None => {
                return Err(ExtractError {
                    context: None,
                    kind: ErrKind::MissingElement { what: "no header box > td".to_owned() },
                });
            },
        };
        let table = match dom::first_el_child(td, &table_tag) {
            Some(x) => x,
            None => {
                return Err(ExtractError {
                    context: None,
                    kind: ErrKind::MissingElement {
                        what: "no header box > td > table".to_owned(),
                    },
                });
            },
        };
        let htbody = match dom::first_el_child(table, &tbody_tag) {
            Some(x) => x,
            None => {
                return Err(ExtractError {
                    context: None,
                    kind: ErrKind::MissingElement {
                        what: "no header box > td > table > tbody".to_owned(),
                    },
                });
            },
        };
        let trs = el_children_of(htbody);
        if trs.len() != 2 {
            return Err(ExtractError {
                context: None,
                kind: ErrKind::UnexpectedShape {
                    what: "unexpected header box tr count".to_owned(),
                },
            });
        }
        let items = el_children_of(trs[0]);
        if items.len() != 2 {
            return Err(ExtractError {
                context: None,
                kind: ErrKind::UnexpectedShape {
                    what: "unexpected header box tr > td count".to_owned(),
                },
            });
        }
        let (name, categories_html, name_jp_text, name_jp_html, name_jp_translit_html) =
            match extract_name_box(items[0]) {
            Ok(t) => t,
            Err(e) => {
                return Err(e);
            },
        };
        let a_m = Matcher::by_tag("a");
        let a_el = match dom::select_first(items[1], &a_m) {
            Some(x) => x,
            None => {
                return Err(ExtractError {
                    context: None,
                    kind: ErrKind::MissingElement { what: "could not find dex id".to_owned() },
                });
            },
        };
        let raw = dom::text_contents(a_el);
        let raw_trimmed = text::trim(&raw);
        let dex_id = match DexId::parse_chars(&raw_trimmed) {
            Some(id) => id,
            None => {
                return Err(ExtractError {
                    context: None,
                    kind: ErrKind::ParseFailure {
                        field: "dex id".to_owned(),
                        raw: text::chars_to_string(&raw_trimmed),
                    },
                });
            },
        };
        let imgs = match extract_gallery(trs[1], &base, images, config.hq_pokemon_images) {
            Ok(v) => v,
            Err(e) => {
                return Err(e);
            },
        };
        (name, categories_html, name_jp_text, name_jp_html, name_jp_translit_html, dex_id, imgs)
    };
    let top_info_boxes_html = match rows_ser_range(
        &rows,
        Ghost(rows_spec),
        1,
        k,
        index,
        images,
        &base,
        config.hq_body_images,
    ) {
        Ok(v) => v,
        Err(e) => {
            return Err(e.with_context("error fixing info box links".to_owned()));
        },
    };
    let extra_info_boxes_html = match rows_ser_range(
        &rows,
        Ghost(rows_spec),
        k,
        rows.len(),
        index,
        images,
        &base,
        config.hq_body_images,
    ) {
        Ok(v) => v,
        Err(e) => {
            return Err(e.with_context("error fixing info box links".to_owned()));
        },
    };
    let mw_m = Matcher::by_class("mw-parser-output");
    let mw = match dom::select_first(doc, &mw_m) {
        Some(x) => x,
        None => {
            return Err(ExtractError {
                context: None,
                kind: ErrKind::MissingElement { what: "no mw-parser-output".to_owned() },
            });
        },
    };
    let (summary_chars, body_chars) = match walk_body(
        mw,
        index,
        images,
        &base,
        config.hq_body_images,
        config.max_body_sections,
    ) {
        Ok(p) => p,
        Err(e) => {
            return Err(e.with_context("error fixing summary links".to_owned()));
        },
    };
    let entry = MonEntry {
        url: url.to_owned(),
        info_box_style: style,
        dex_id,
        name,
        categories_html,
        name_jp_text,
        name_jp_html,
        name_jp_translit_html,
        images: imgs,
        top_info_boxes_html,
        extra_info_boxes_html,
        summary_html: text::chars_to_string(&summary_chars),
        body_html: text::chars_to_string(&body_chars),
    };
    Ok(entry)
}

proof fn lemma_cells_fold_flex(
    cells: Seq<Node>,
    row: Node,
    base: Seq<char>,
    images: Seq<(String, String)>,
    hq: bool,
    flex: bool,
)
    ensures
        cells_fold(cells, row, base, images, hq, flex) matches Ok(v) ==> forall|j: int|
            0 <= j < v.len() ==> (#[trigger] v[j]).flex == flex,
    decreases cells.len(),
{
    if cells.len() > 0 {
        lemma_cells_fold_flex(cells.drop_last(), row, base, images, hq, flex);
    }
}

/// Every image a gallery row yields carries the row's flex mark: true
/// exactly when the row shows more than one visible cell, so two visible
/// image cells mark both images and a solitary image stays unmarked.
pub proof fn lemma_row_images_flex(
    row: Node,
    base: Seq<char>,
    images: Seq<(String, String)>,
    hq: bool,
)
    ensures
        row_images_spec(row, base, images, hq) matches Ok(v) ==> forall|j: int|
            0 <= j < v.len() ==> (#[trigger] v[j]).flex == (visible_count(
                el_children(dom::kids(row)),
            ) > 1),
{
    if !is_hidden(row) {
        let cells = el_children(dom::kids(row));
        lemma_cells_fold_flex(cells, row, base, images, hq, visible_count(cells) > 1);
    }
}

} // verus!
