//! The link/image rewriter: serializes a subtree while dropping footnote
//! markers, turning internal article links into cross-reference tokens, and
//! pointing image references at cache-relative paths.

use vstd::prelude::*;
use crate::dom::{self, Attr, Node};
use crate::err::{ErrKind, ExtractError, KindV, err_view};
use crate::index::{DexId, Index};
use crate::text;
use crate::weburl;
use crate::xhtml;

verus! {

/// The resolved-URL-to-cache-identifier pairs the caller has collected so
/// far. Extraction looks cache identifiers up here; a missing one surfaces
/// as `ImageNotCached`, and the caller fetches it and retries.
#[derive(Debug)]
pub struct ImageMap {
    pub entries: Vec<(String, String)>,
}

/// The cache identifier of the first pair whose URL equals `u`.
pub open spec fn image_lookup_spec(es: Seq<(String, String)>, u: Seq<char>) -> Option<Seq<char>>
    decreases es.len(),
{
    if es.len() == 0 {
        None
    } else if es[0].0@ == u {
        Some(es[0].1@)
    } else {
        image_lookup_spec(es.drop_first(), u)
    }
}

impl ImageMap {
    pub fn new() -> (r: ImageMap)
        ensures
            r.entries@.len() == 0,
    {
        ImageMap { entries: Vec::new() }
    }

    /// Record the cache identifier of a resolved image URL.
    pub fn insert(&mut self, url: String, id: String)
        ensures
            final(self).entries@ == old(self).entries@.push((url, id)),
    {
        self.entries.push((url, id));
    }

    /// The cache identifier recorded for `url`, if any.
    #[verifier::loop_isolation(false)]
    pub fn get(&self, url: &Vec<char>) -> (r: Option<Vec<char>>)
        ensures
            match r {
                Some(v) => image_lookup_spec(self.entries@, url@) == Some(v@),
                None => image_lookup_spec(self.entries@, url@) is None,
            },
    {
        let mut i: usize = 0;
        proof {
            assert(self.entries@.subrange(0, self.entries@.len() as int) =~= self.entries@);
        }
        while i < self.entries.len()
            invariant
                i <= self.entries@.len(),
                image_lookup_spec(self.entries@, url@) == image_lookup_spec(
                    self.entries@.subrange(i as int, self.entries@.len() as int),
                    url@,
                ),
            decreases self.entries@.len() - i,
        {
            let ghost rest = self.entries@.subrange(i as int, self.entries@.len() as int);
            proof {
                assert(rest[0] == self.entries@[i as int]);
            }
            let uv = text::str_to_chars(self.entries[i].0.as_str());
            if text::chars_eq(&uv, url) {
                let idv = text::str_to_chars(self.entries[i].1.as_str());
                return Some(idv);
            }
            proof {
                assert(rest.drop_first() =~= self.entries@.subrange(
                    (i + 1) as int,
                    self.entries@.len() as int,
                ));
            }
            i += 1;
        }
        proof {
            assert(self.entries@.subrange(self.entries@.len() as int, self.entries@.len() as int)
                =~= Seq::<(String, String)>::empty());
        }
        None
    }
}

/// A footnote marker: a `sup` element with the `reference` class. These are
/// dropped wholesale, the output format having no footnote section.
pub open spec fn is_sup_ref(n: Node) -> bool {
    n is Element && dom::el_name(n) == "sup"@ && (dom::attr_spec(n, "class"@) matches Some(v)
        && dom::has_token_spec(v, "reference"@))
}

fn is_sup_ref_exec(n: &Node) -> (r: bool)
    ensures
        r == is_sup_ref(*n),
{
    let sup = text::str_to_chars("sup");
    let named: bool = match n {
        Node::Element { name, .. } => text::chars_eq(name, &sup),
        _ => false,
    };
    if !named {
        return false;
    }
    let class_name = text::str_to_chars("class");
    match dom::get_attr(n, &class_name) {
        Some(v) => {
            let reference = text::str_to_chars("reference");
            dom::has_token_exec(&v, &reference)
        },
        None => false,
    }
}

/// The cross-reference token for a cataloged entry.
pub open spec fn xref_token(id: DexId) -> Seq<char> {
    "x-dictionary:r:pokemon-"@ + text::dec_digits(id.0 as nat)
}

/// What a hyperlink's `href` becomes, and whether its `title` is dropped:
/// the href resolves against the base (failure to resolve is fatal); when
/// the raw href has the internal-article shape and the resolved URL is a
/// cataloged page, the href becomes that entry's cross-reference token and
/// the stale `title` goes; otherwise it becomes the resolved URL.
pub open spec fn link_target_spec(index: Index, base: Seq<char>, href: Seq<char>) -> Result<
    (Seq<char>, bool),
    KindV,
> {
    match weburl::url_resolve(base, href) {
        None => Err(KindV::ParseFailure { field: "a href"@, raw: href }),
        Some(resolved) => {
            if text::starts_with_spec(href, "/wiki/"@) && text::ends_with_spec(
                href,
                "_(Pok%C3%A9mon)"@,
            ) {
                match index.spec_lookup_by_url(resolved) {
                    Some(id) => Ok((xref_token(id), true)),
                    None => Ok((resolved, false)),
                }
            } else {
                Ok((resolved, false))
            }
        },
    }
}

/// The serialized attributes of a rewritten hyperlink: `href` carries the
/// new target, `title` is dropped when asked, everything else is unchanged.
pub open spec fn ser_attrs_link(attrs: Seq<Attr>, newhref: Seq<char>, drop_title: bool) -> Seq<
    char,
>
    decreases attrs.len(),
{
    if attrs.len() == 0 {
        Seq::<char>::empty()
    } else {
        ser_attrs_link(attrs.drop_last(), newhref, drop_title) + link_attr_piece(
            attrs.last(),
            newhref,
            drop_title,
        )
    }
}

pub open spec fn link_attr_piece(a: Attr, newhref: Seq<char>, drop_title: bool) -> Seq<char> {
    if a.ns@.len() == 0 && a.name@ == "href"@ {
        seq![' '] + a.name@ + seq!['=', '"'] + xhtml::escape_spec(newhref, true) + seq!['"']
    } else if drop_title && a.ns@.len() == 0 && a.name@ == "title"@ {
        Seq::<char>::empty()
    } else {
        seq![' '] + a.name@ + seq!['=', '"'] + xhtml::escape_spec(a.value@, true) + seq!['"']
    }
}

/// The serialized attributes of a rewritten image: `srcset` is dropped,
/// `src` carries the cache-relative path (appended when the image had no
/// `src`), and `height` is dropped when a `width` is present, so the viewer
/// keeps the aspect ratio from the width alone.
pub open spec fn ser_attrs_img(attrs: Seq<Attr>, newsrc: Seq<char>) -> Seq<char> {
    let drop_height = dom::attr_in_spec(attrs, "width"@) is Some;
    let base = ser_attrs_img_go(attrs, newsrc, drop_height);
    if dom::attr_in_spec(attrs, "src"@) is Some {
        base
    } else {
        base + seq![' '] + "src"@ + seq!['=', '"'] + xhtml::escape_spec(newsrc, true) + seq!['"']
    }
}

pub open spec fn ser_attrs_img_go(attrs: Seq<Attr>, newsrc: Seq<char>, drop_height: bool) -> Seq<
    char,
>
    decreases attrs.len(),
{
    if attrs.len() == 0 {
        Seq::<char>::empty()
    } else {
        ser_attrs_img_go(attrs.drop_last(), newsrc, drop_height) + img_attr_piece(
            attrs.last(),
            newsrc,
            drop_height,
        )
    }
}

pub open spec fn img_attr_piece(a: Attr, newsrc: Seq<char>, drop_height: bool) -> Seq<char> {
    if a.ns@.len() == 0 && a.name@ == "srcset"@ {
        Seq::<char>::empty()
    } else if a.ns@.len() == 0 && a.name@ == "src"@ {
        seq![' '] + a.name@ + seq!['=', '"'] + xhtml::escape_spec(newsrc, true) + seq!['"']
    } else if drop_height && a.ns@.len() == 0 && a.name@ == "height"@ {
        Seq::<char>::empty()
    } else {
        seq![' '] + a.name@ + seq!['=', '"'] + xhtml::escape_spec(a.value@, true) + seq!['"']
    }
}

/// The rewritten serialization of a subtree, or the first failure, leftmost
/// first, an element's own rewrite before its children's.
pub open spec fn rw_ser(
    n: Node,
    index: Index,
    images: Seq<(String, String)>,
    base: Seq<char>,
    hq: bool,
) -> Result<Seq<char>, KindV>
    decreases n,
{
    match n {
        Node::Element { ns: _ns, name, attrs, children } => {
            let attrs_r: Result<Seq<char>, KindV> = if name@ == "a"@ && dom::attr_in_spec(
                attrs@,
                "href"@,
            ) is Some {
                match dom::attr_in_spec(attrs@, "href"@) {
                    Some(h) => match link_target_spec(index, base, h) {
                        Err(k) => Err(k),
                        Ok(nh) => Ok(ser_attrs_link(attrs@, nh.0, nh.1)),
                    },
                    None => Ok(xhtml::ser_attrs(attrs@)),
                }
            } else if name@ == "img"@ {
                match weburl::best_src_spec(n, base, hq) {
                    None => Err(KindV::MissingElement { what: "<img> without src"@ }),
                    Some(u) => match image_lookup_spec(images, u) {
                        None => Err(KindV::ImageNotCached { url: u }),
                        Some(cid) => Ok(
                            ser_attrs_img(attrs@, "images/"@ + weburl::percent_enc(cid)),
                        ),
                    },
                }
            } else {
                Ok(xhtml::ser_attrs(attrs@))
            };
            match attrs_r {
                Err(k) => Err(k),
                Ok(a) => match rw_ser_seq(children@, index, images, base, hq) {
                    Err(k) => Err(k),
                    Ok(body) => Ok(
                        seq!['<'] + name@ + a + seq!['>'] + body + seq!['<', '/'] + name@
                            + seq!['>'],
                    ),
                },
            }
        },
        Node::Document { children } => rw_ser_seq(children@, index, images, base, hq),
        _ => Ok(xhtml::ser_node(n)),
    }
}

pub open spec fn rw_ser_seq(
    s: Seq<Node>,
    index: Index,
    images: Seq<(String, String)>,
    base: Seq<char>,
    hq: bool,
) -> Result<Seq<char>, KindV>
    decreases s,
{
    if s.len() == 0 {
        Ok(Seq::<char>::empty())
    } else {
        match rw_ser_seq(s.drop_last(), index, images, base, hq) {
            Err(k) => Err(k),
            Ok(pre) => if is_sup_ref(s.last()) {
                Ok(pre)
            } else {
                match rw_ser(s.last(), index, images, base, hq) {
                    Err(k) => Err(k),
                    Ok(x) => Ok(pre + x),
                }
            },
        }
    }
}

#[verifier::loop_isolation(false)]
fn ser_attrs_link_exec(attrs: &Vec<Attr>, newhref: &Vec<char>, drop_title: bool) -> (r: Vec<char>)
    ensures
        r@ == ser_attrs_link(attrs@, newhref@, drop_title),
{
    let href_name = text::str_to_chars("href");
    let title_name = text::str_to_chars("title");
    let mut out: Vec<char> = Vec::new();
    let mut i: usize = 0;
    proof {
        assert(attrs@.subrange(0, 0) =~= Seq::<Attr>::empty());
    }
    while i < attrs.len()
        invariant
            i <= attrs@.len(),
            out@ == ser_attrs_link(attrs@.subrange(0, i as int), newhref@, drop_title),
        decreases attrs@.len() - i,
    {
        let ghost pre = attrs@.subrange(0, (i + 1) as int);
        proof {
            assert(pre.drop_last() =~= attrs@.subrange(0, i as int));
            assert(pre.last() == attrs@[i as int]);
        }
        let a = &attrs[i];
        if a.ns.len() == 0 && text::chars_eq(&a.name, &href_name) {
            out.push(' ');
            xhtml::push_all_chars(&mut out, &a.name);
            out.push('=');
            out.push('"');
            let ev = xhtml::escape_chars(newhref, true);
            xhtml::push_all_chars(&mut out, &ev);
            out.push('"');
        } else if drop_title && a.ns.len() == 0 && text::chars_eq(&a.name, &title_name) {
        } else {
            out.push(' ');
            xhtml::push_all_chars(&mut out, &a.name);
            out.push('=');
            out.push('"');
            let ev = xhtml::escape_chars(&a.value, true);
            xhtml::push_all_chars(&mut out, &ev);
            out.push('"');
        }
        proof {
            assert(out@ =~= ser_attrs_link(pre, newhref@, drop_title));
        }
        i += 1;
    }
    proof {
        assert(attrs@.subrange(0, attrs@.len() as int) =~= attrs@);
    }
    out
}

#[verifier::loop_isolation(false)]
#[verifier::rlimit(60)]
fn ser_attrs_img_exec(attrs: &Vec<Attr>, newsrc: &Vec<char>) -> (r: Vec<char>)
    ensures
        r@ == ser_attrs_img(attrs@, newsrc@),
{
    let width_name = text::str_to_chars("width");
    let src_name = text::str_to_chars("src");
    let srcset_name = text::str_to_chars("srcset");
    let height_name = text::str_to_chars("height");
    let drop_height: bool = match dom::attr_in_lookup(attrs, &width_name) {
        Some(_) => true,
        None => false,
    };
    let has_src: bool = match dom::attr_in_lookup(attrs, &src_name) {
        Some(_) => true,
        None => false,
    };
    let mut out: Vec<char> = Vec::new();
    let mut i: usize = 0;
    proof {
        assert(attrs@.subrange(0, 0) =~= Seq::<Attr>::empty());
    }
    while i < attrs.len()
        invariant
            i <= attrs@.len(),
            out@ == ser_attrs_img_go(attrs@.subrange(0, i as int), newsrc@, drop_height),
        decreases attrs@.len() - i,
    {
        let ghost pre = attrs@.subrange(0, (i + 1) as int);
        proof {
            assert(pre.drop_last() =~= attrs@.subrange(0, i as int));
            assert(pre.last() == attrs@[i as int]);
        }
        let a = &attrs[i];
        if a.ns.len() == 0 && text::chars_eq(&a.name, &srcset_name) {
        } else if a.ns.len() == 0 && text::chars_eq(&a.name, &src_name) {
            out.push(' ');
            xhtml::push_all_chars(&mut out, &a.name);
            out.push('=');
            out.push('"');
            let ev = xhtml::escape_chars(newsrc, true);
            xhtml::push_all_chars(&mut out, &ev);
            out.push('"');
        } else if drop_height && a.ns.len() == 0 && text::chars_eq(&a.name, &height_name) {
        } else {
            out.push(' ');
            xhtml::push_all_chars(&mut out, &a.name);
            out.push('=');
            out.push('"');
            let ev = xhtml::escape_chars(&a.value, true);
            xhtml::push_all_chars(&mut out, &ev);
            out.push('"');
        }
        proof {
            assert(out@ =~= ser_attrs_img_go(pre, newsrc@, drop_height));
        }
        i += 1;
    }
    proof {
        assert(attrs@.subrange(0, attrs@.len() as int) =~= attrs@);
    }
    if !has_src {
        out.push(' ');
        out.push('s');
        out.push('r');
        out.push('c');
        out.push('=');
        out.push('"');
        let ev = xhtml::escape_chars(newsrc, true);
        xhtml::push_all_chars(&mut out, &ev);
        out.push('"');
        proof {
            assert(out@ =~= ser_attrs_img_go(attrs@, newsrc@, drop_height) + seq![' '] + "src"@
                + seq!['=', '"'] + xhtml::escape_spec(newsrc@, true) + seq!['"']) by {
                reveal_strlit("src");
            }
        }
    }
    out
}

/// Serialize the subtree under rewriting: footnote markers dropped,
/// hyperlinks retargeted, image references cache-relative.
pub fn fix_links_ser(
    n: &Node,
    index: &Index,
    images: &ImageMap,
    base: &Vec<char>,
    hq: bool,
) -> (r: Result<Vec<char>, ExtractError>)
    ensures
        match r {
            Ok(v) => rw_ser(*n, *index, images.entries@, base@, hq) == Ok::<Seq<char>, KindV>(v@),
            Err(e) => err_view(e).context is None && rw_ser(*n, *index, images.entries@, base@, hq)
                == Err::<Seq<char>, KindV>(err_view(e).kind),
        },
    decreases *n,
{
    match n {
        Node::Element { ns: _e_ns, name, attrs, children } => {
            let a_name = text::str_to_chars("a");
            let img_name = text::str_to_chars("img");
            let href_name = text::str_to_chars("href");
            let attrs_ser: Vec<char>;
            let is_a = text::chars_eq(name, &a_name);
            let href_opt: Option<Vec<char>> = if is_a {
                dom::attr_in_lookup(attrs, &href_name)
            } else {
                None
            };
            match href_opt {
                Some(h) => {
                    let base_s = text::chars_to_string(base);
                    let h_s = text::chars_to_string(&h);
                    match weburl::resolve_url(base_s.as_str(), h_s.as_str()) {
                        None => {
                            return Err(ExtractError {
                                context: None,
                                kind: ErrKind::ParseFailure {
                                    field: "a href".to_owned(),
                                    raw: text::chars_to_string(&h),
                                },
                            });
                        },
                        Some(resolved_s) => {
                            let resolved = text::str_to_chars(resolved_s.as_str());
                            let wiki_prefix = text::str_to_chars("/wiki/");
                            let mon_suffix = text::str_to_chars("_(Pok%C3%A9mon)");
                            let internal = text::starts_with(&h, &wiki_prefix) && text::ends_with(
                                &h,
                                &mon_suffix,
                            );
                            let looked: Option<DexId> = if internal {
                                index.lookup_by_url(&resolved)
                            } else {
                                None
                            };
                            match looked {
                                Some(id) => {
                                    let mut token = text::str_to_chars("x-dictionary:r:pokemon-");
                                    let mut digits = text::u32_digits(id.0);
                                    token.append(&mut digits);
                                    proof {
                                        assert(token@ =~= xref_token(id));
                                        assert(link_target_spec(*index, base@, h@) == Ok::<
                                            (Seq<char>, bool),
                                            KindV,
                                        >((xref_token(id), true)));
                                    }
                                    attrs_ser = ser_attrs_link_exec(attrs, &token, true);
                                },
                                None => {
                                    proof {
                                        assert(link_target_spec(*index, base@, h@) == Ok::<
                                            (Seq<char>, bool),
                                            KindV,
                                        >((resolved@, false)));
                                    }
                                    attrs_ser = ser_attrs_link_exec(attrs, &resolved, false);
                                },
                            }
                        },
                    }
                },
                None => {
                    if text::chars_eq(name, &img_name) {
                        match weburl::get_highest_quality_src(n, base, hq) {
                            None => {
                                return Err(ExtractError {
                                    context: None,
                                    kind: ErrKind::MissingElement {
                                        what: "<img> without src".to_owned(),
                                    },
                                });
                            },
                            Some(u) => {
                                match images.get(&u) {
                                    None => {
                                        return Err(ExtractError {
                                            context: None,
                                            kind: ErrKind::ImageNotCached {
                                                url: text::chars_to_string(&u),
                                            },
                                        });
                                    },
                                    Some(cid) => {
                                        let cid_s = text::chars_to_string(&cid);
                                        let enc = weburl::urlencode(cid_s.as_str());
                                        let mut newsrc = text::str_to_chars("images/");
                                        let mut encv = text::str_to_chars(enc.as_str());
                                        newsrc.append(&mut encv);
                                        proof {
                                            assert(newsrc@ =~= "images/"@ + weburl::percent_enc(
                                                cid@,
                                            ));
                                        }
                                        attrs_ser = ser_attrs_img_exec(attrs, &newsrc);
                                    },
                                }
                            },
                        }
                    } else {
                        proof {
                            if is_a {
                                assert(dom::attr_spec(*n, "href"@) is None);
                            }
                        }
                        attrs_ser = xhtml::serialize_attrs_pub(attrs);
                    }
                },
            }
            let body = match fix_links_seq(children, index, images, base, hq) {
                Ok(b) => b,
                Err(e) => {
                    return Err(e);
                },
            };
            let mut out: Vec<char> = Vec::new();
            out.push('<');
            xhtml::push_all_chars(&mut out, name);
            xhtml::push_all_chars(&mut out, &attrs_ser);
            out.push('>');
            xhtml::push_all_chars(&mut out, &body);
            out.push('<');
            out.push('/');
            xhtml::push_all_chars(&mut out, name);
            out.push('>');
            proof {
                assert(out@ =~= seq!['<'] + name@ + attrs_ser@ + seq!['>'] + body@ + seq![
                    '<',
                    '/',
                ] + name@ + seq!['>']);
            }
            Ok(out)
        },
        Node::Document { children } => fix_links_seq(children, index, images, base, hq),
        _ => {
            let v = xhtml::serialize_node(n);
            Ok(v)
        },
    }
}

#[verifier::loop_isolation(false)]
fn fix_links_seq(
    children: &Vec<Node>,
    index: &Index,
    images: &ImageMap,
    base: &Vec<char>,
    hq: bool,
) -> (r: Result<Vec<char>, ExtractError>)
    ensures
        match r {
            Ok(v) => rw_ser_seq(children@, *index, images.entries@, base@, hq) == Ok::<
                Seq<char>,
                KindV,
            >(v@),
            Err(e) => err_view(e).context is None && rw_ser_seq(
                children@,
                *index,
                images.entries@,
                base@,
                hq,
            ) == Err::<Seq<char>, KindV>(err_view(e).kind),
        },
    decreases children@,
{
    let mut out: Vec<char> = Vec::new();
    let mut i: usize = 0;
    proof {
        assert(children@.subrange(0, 0) =~= Seq::<Node>::empty());
    }
    while i < children.len()
        invariant
            i <= children@.len(),
            rw_ser_seq(children@.subrange(0, i as int), *index, images.entries@, base@, hq)
                == Ok::<Seq<char>, KindV>(out@),
        decreases children@.len() - i,
    {
        let ghost pre = children@.subrange(0, (i + 1) as int);
        proof {
            assert(pre.drop_last() =~= children@.subrange(0, i as int));
            assert(pre.last() == children@[i as int]);
            assert(decreases_to!(children@ => children@[i as int]));
        }
        let c = &children[i];
        if is_sup_ref_exec(c) {
            proof {
                assert(rw_ser_seq(pre, *index, images.entries@, base@, hq) == Ok::<
                    Seq<char>,
                    KindV,
                >(out@));
            }
        } else {
            match fix_links_ser(c, index, images, base, hq) {
                Ok(part) => {
                    xhtml::push_all_chars(&mut out, &part);
                },
                Err(e) => {
                    proof {
                        lemma_rw_ser_seq_err(
                            children@,
                            i as int,
                            *index,
                            images.entries@,
                            base@,
                            hq,
                            err_view(e).kind,
                        );
                    }
                    return Err(e);
                },
            }
        }
        i += 1;
    }
    proof {
        assert(children@.subrange(0, children@.len() as int) =~= children@);
    }
    Ok(out)
}

/// If the first `i` children rewrite cleanly and child `i` fails with `k`,
/// the whole sequence fails with `k`.
proof fn lemma_rw_ser_seq_err(
    s: Seq<Node>,
    i: int,
    index: Index,
    images: Seq<(String, String)>,
    base: Seq<char>,
    hq: bool,
    k: KindV,
)
    requires
        0 <= i < s.len(),
        rw_ser_seq(s.subrange(0, i), index, images, base, hq) is Ok,
        !is_sup_ref(s[i]),
        rw_ser(s[i], index, images, base, hq) == Err::<Seq<char>, KindV>(k),
    ensures
        rw_ser_seq(s, index, images, base, hq) == Err::<Seq<char>, KindV>(k),
    decreases s.len(),
{
    if i == s.len() - 1 {
        assert(s.drop_last() =~= s.subrange(0, i));
        assert(s.last() == s[i]);
    } else {
        assert(s.drop_last().subrange(0, i) =~= s.subrange(0, i));
        assert(s.drop_last()[i] == s[i]);
        lemma_rw_ser_seq_err(s.drop_last(), i, index, images, base, hq, k);
    }
}

} // verus!
