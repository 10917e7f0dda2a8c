//! URL plumbing and the image-source resolver. Resolution against a base,
//! domain and path extraction, path replacement and percent-encoding are
//! outside computations, named and trusted; the choice of the best source
//! and the thumbnail-origin rewrite are verified against those names.

use vstd::prelude::*;
use crate::dom::{self, Node};
use crate::xhtml;
use crate::text;

verus! {

/// What resolving `rel` against the absolute URL `base` yields, if both
/// parse; a function of the two strings alone.
pub uninterp spec fn url_resolve(base: Seq<char>, rel: Seq<char>) -> Option<Seq<char>>;

/// The domain of an absolute URL string, if it parses and has one.
pub uninterp spec fn url_domain(u: Seq<char>) -> Option<Seq<char>>;

/// The path component of an absolute URL string, if it parses.
pub uninterp spec fn url_path(u: Seq<char>) -> Option<Seq<char>>;

/// The URL with its path replaced by `p`, other components kept, if `u`
/// parses.
pub uninterp spec fn url_with_path(u: Seq<char>, p: Seq<char>) -> Option<Seq<char>>;

/// The percent-encoded form of a string: every byte of its UTF-8 form except
/// alphanumerics and `-`, `_`, `.`, `~` becomes `%XX`.
pub uninterp spec fn percent_enc(s: Seq<char>) -> Seq<char>;

/// Relies on `url::Url::parse`, `url::Url::join` and the `Display`-based
/// serialization of `url::Url`: RFC 3986 resolution of a possibly relative
/// reference against an absolute base, `None` when either fails to parse.
#[verifier::external_body]
pub(crate) fn resolve_url(base: &str, rel: &str) -> (r: Option<String>)
    ensures
        match r {
            Some(u) => url_resolve(base@, rel@) == Some(u@),
            None => url_resolve(base@, rel@) is None,
        },
{
    match url::Url::parse(base) {
        Ok(b) => match b.join(rel) {
            Ok(u) => Some(u.to_string()),
            Err(_) => None,
        },
        Err(_) => None,
    }
}

/// Relies on `url::Url::parse` and `url::Url::domain`: the domain of the
/// URL's host, `None` for hostless URLs, IP hosts, or an unparseable string.
#[verifier::external_body]
fn domain_of(u: &str) -> (r: Option<String>)
    ensures
        match r {
            Some(d) => url_domain(u@) == Some(d@),
            None => url_domain(u@) is None,
        },
{
    match url::Url::parse(u) {
        Ok(p) => p.domain().map(|d| d.to_string()),
        Err(_) => None,
    }
}

/// Relies on `url::Url::parse` and `url::Url::path`: the percent-encoded
/// path component, `None` for an unparseable string.
#[verifier::external_body]
fn path_of(u: &str) -> (r: Option<String>)
    ensures
        match r {
            Some(p) => url_path(u@) == Some(p@),
            None => url_path(u@) is None,
        },
{
    match url::Url::parse(u) {
        Ok(p) => Some(p.path().to_string()),
        Err(_) => None,
    }
}

/// Relies on `url::Url::parse`, `url::Url::set_path` and the
/// `Display`-based serialization of `url::Url`: replaces the path and keeps
/// scheme, host, query and fragment; `None` for an unparseable string.
#[verifier::external_body]
fn with_path(u: &str, p: &str) -> (r: Option<String>)
    ensures
        match r {
            Some(v) => url_with_path(u@, p@) == Some(v@),
            None => url_with_path(u@, p@) is None,
        },
{
    match url::Url::parse(u) {
        Ok(mut x) => {
            x.set_path(p);
            Some(x.to_string())
        },
        Err(_) => None,
    }
}

/// Relies on `urlencoding::encode`: percent-encodes every byte except
/// alphanumerics and `-`, `_`, `.`, `~`.
#[verifier::external_body]
pub(crate) fn urlencode(s: &str) -> (r: String)
    ensures
        r@ == percent_enc(s@),
{
    urlencoding::encode(s).into_owned()
}

/// The media-archive host whose resized thumbnails can be undone.
pub open spec fn archive_domain() -> Seq<char> {
    "archives.bulbagarden.net"@
}

/// The path segments of a URL path: the text after the leading slash, split
/// at every slash.
pub open spec fn path_segments_spec(p: Seq<char>) -> Seq<Seq<char>> {
    if p.len() > 0 && p[0] == '/' {
        text::split_spec(p.skip(1), '/')
    } else {
        text::split_spec(p, '/')
    }
}

/// The rewritten path, when the path has the exact resized-thumbnail shape
/// `/media/upload/thumb/<a>/<b>/<file>[/...]`: `/media/upload/<a>/<b>/<file>`.
pub open spec fn thumb_path_rewrite(p: Seq<char>) -> Option<Seq<char>> {
    let segs = path_segments_spec(p);
    if segs.len() >= 6 && segs[0] == "media"@ && segs[1] == "upload"@ && segs[2] == "thumb"@ {
        Some(
            "/media/upload/"@ + segs[3] + seq!['/'] + segs[4] + seq!['/'] + segs[5],
        )
    } else {
        None
    }
}

/// The canonical origin of a resized-thumbnail URL: defined exactly when the
/// URL's domain is the media archive and its path has the thumbnail shape.
pub open spec fn thumb_origin_spec(u: Seq<char>) -> Option<Seq<char>> {
    if url_domain(u) == Some(archive_domain()) {
        match url_path(u) {
            Some(p) => match thumb_path_rewrite(p) {
                Some(np) => url_with_path(u, np),
                None => None,
            },
            None => None,
        }
    } else {
        None
    }
}

/// Reconstruct the canonical (non-thumbnailed) asset URL, when `u` points at
/// a resized thumbnail on the media archive; `None` otherwise.
pub fn get_image_thumbnail_origin(u: &Vec<char>) -> (r: Option<Vec<char>>)
    ensures
        match r {
            Some(v) => thumb_origin_spec(u@) == Some(v@),
            None => thumb_origin_spec(u@) is None,
        },
{
    let us = text::chars_to_string(u);
    let archive = text::str_to_chars("archives.bulbagarden.net");
    match domain_of(us.as_str()) {
        Some(d) => {
            let dv = text::str_to_chars(d.as_str());
            if !text::chars_eq(&dv, &archive) {
                return None;
            }
        },
        None => {
            return None;
        },
    }
    let p = match path_of(us.as_str()) {
        Some(p) => text::str_to_chars(p.as_str()),
        None => {
            return None;
        },
    };
    let stripped = if p.len() > 0 && p[0] == '/' {
        text::sub_vec(&p, 1, p.len())
    } else {
        text::sub_vec(&p, 0, p.len())
    };
    proof {
        if p@.len() > 0 && p@[0] == '/' {
            assert(stripped@ =~= p@.skip(1));
        } else {
            assert(stripped@ =~= p@);
        }
    }
    let segs = text::split_vec(&stripped, '/');
    if segs.len() < 6 {
        return None;
    }
    let m_media = text::str_to_chars("media");
    let m_upload = text::str_to_chars("upload");
    let m_thumb = text::str_to_chars("thumb");
    if !text::chars_eq(&segs[0], &m_media) || !text::chars_eq(&segs[1], &m_upload)
        || !text::chars_eq(&segs[2], &m_thumb) {
        return None;
    }
    proof {
        assert(path_segments_spec(p@)[0] == segs@[0]@);
        assert(path_segments_spec(p@)[1] == segs@[1]@);
        assert(path_segments_spec(p@)[2] == segs@[2]@);
        assert(path_segments_spec(p@)[3] == segs@[3]@);
        assert(path_segments_spec(p@)[4] == segs@[4]@);
        assert(path_segments_spec(p@)[5] == segs@[5]@);
    }
    let mut np = text::str_to_chars("/media/upload/");
    let mut tmp = text::sub_vec(&segs[3], 0, segs[3].len());
    np.append(&mut tmp);
    np.push('/');
    let mut tmp2 = text::sub_vec(&segs[4], 0, segs[4].len());
    np.append(&mut tmp2);
    np.push('/');
    let mut tmp3 = text::sub_vec(&segs[5], 0, segs[5].len());
    np.append(&mut tmp3);
    proof {
        assert(np@ =~= "/media/upload/"@ + segs@[3]@ + seq!['/'] + segs@[4]@ + seq!['/']
            + segs@[5]@);
        assert(thumb_path_rewrite(p@) == Some(np@));
    }
    let nps = text::chars_to_string(&np);
    match with_path(us.as_str(), nps.as_str()) {
        Some(v) => {
            let vv = text::str_to_chars(v.as_str());
            Some(vv)
        },
        None => None,
    }
}

/// The size-to-source entries a `srcset` attribute value yields, in order,
/// duplicates kept: each comma-separated piece is split at its last space
/// into source and size, the size trimmed; pieces without a space contribute
/// nothing.
pub open spec fn srcset_entries_spec(s: Seq<char>) -> Seq<(Seq<char>, Seq<char>)> {
    srcset_entries_of_parts(text::split_spec(s, ','))
}

pub open spec fn srcset_entry_of(part: Seq<char>) -> Option<(Seq<char>, Seq<char>)> {
    match text::rsplit_once_spec(part, ' ') {
        Some(kv) => Some((text::trim_spec(kv.1), kv.0)),
        None => None,
    }
}

pub open spec fn srcset_entries_of_parts(ps: Seq<Seq<char>>) -> Seq<(Seq<char>, Seq<char>)>
    decreases ps.len(),
{
    if ps.len() == 0 {
        Seq::<(Seq<char>, Seq<char>)>::empty()
    } else {
        srcset_entries_of_parts(ps.drop_last()) + dom::opt_entry_seq(srcset_entry_of(ps.last()))
    }
}

#[verifier::loop_isolation(false)]
fn parse_srcset(s: &Vec<char>) -> (r: Vec<(Vec<char>, Vec<char>)>)
    ensures
        dom::entry_views(r@) == srcset_entries_spec(s@),
{
    let parts = text::split_vec(s, ',');
    let mut out: Vec<(Vec<char>, Vec<char>)> = Vec::new();
    let mut i: usize = 0;
    proof {
        assert(text::views_of(parts@).subrange(0, 0) =~= Seq::<Seq<char>>::empty());
        assert(dom::entry_views(out@) =~= srcset_entries_of_parts(
            text::views_of(parts@).subrange(0, 0),
        ));
    }
    while i < parts.len()
        invariant
            i <= parts@.len(),
            text::views_of(parts@) == text::split_spec(s@, ','),
            dom::entry_views(out@) == srcset_entries_of_parts(
                text::views_of(parts@).subrange(0, i as int),
            ),
        decreases parts@.len() - i,
    {
        let ghost pre = text::views_of(parts@).subrange(0, (i + 1) as int);
        proof {
            assert(pre.drop_last() =~= text::views_of(parts@).subrange(0, i as int));
            assert(pre.last() == parts@[i as int]@);
        }
        match text::rsplit_once(&parts[i], ' ') {
            Some(kv) => {
                let size = text::trim(&kv.1);
                out.push((size, kv.0));
                proof {
                    assert(dom::entry_views(out@) =~= srcset_entries_of_parts(pre));
                }
            },
            None => {
                proof {
                    assert(dom::entry_views(out@) =~= srcset_entries_of_parts(pre));
                }
            },
        }
        i += 1;
    }
    proof {
        assert(text::views_of(parts@).subrange(0, parts@.len() as int) =~= text::views_of(parts@));
    }
    out
}

/// The candidate map an image node offers: its `srcset` entries, with a
/// `1x` entry synthesized from the plain `src` attribute (empty if absent)
/// when none is present.
pub open spec fn candidates_spec(img: Node) -> Seq<(Seq<char>, Seq<char>)> {
    let raw = match dom::attr_spec(img, "srcset"@) {
        Some(v) => v,
        None => Seq::<char>::empty(),
    };
    let es = srcset_entries_spec(raw);
    if dom::style_lookup(es, "1x"@) is None {
        es + seq![
            (
                "1x"@,
                match dom::attr_spec(img, "src"@) {
                    Some(v) => v,
                    None => Seq::<char>::empty(),
                },
            ),
        ]
    } else {
        es
    }
}

/// The chosen source text: the `2x` candidate, else `1.5x`, else `1x`.
pub open spec fn chosen_src_spec(img: Node) -> Option<Seq<char>> {
    let es = candidates_spec(img);
    match dom::style_lookup(es, "2x"@) {
        Some(v) => Some(v),
        None => match dom::style_lookup(es, "1.5x"@) {
            Some(v) => Some(v),
            None => dom::style_lookup(es, "1x"@),
        },
    }
}

/// The best available source of an image node, resolved against `base`; with
/// `find_thumb_origin`, rewritten to its canonical origin when the thumbnail
/// shape applies, the resolved URL otherwise.
pub open spec fn best_src_spec(img: Node, base: Seq<char>, find_thumb_origin: bool) -> Option<
    Seq<char>,
> {
    match chosen_src_spec(img) {
        None => None,
        Some(src) => match url_resolve(base, src) {
            None => None,
            Some(u) => if find_thumb_origin {
                match thumb_origin_spec(u) {
                    Some(o) => Some(o),
                    None => Some(u),
                }
            } else {
                Some(u)
            },
        },
    }
}

/// Select the best-quality image source: prefer the `2x`, then `1.5x`, then
/// `1x` candidate, resolve it against the base URL, and optionally undo the
/// thumbnail convention.
pub fn get_highest_quality_src(img: &Node, base: &Vec<char>, find_thumb_origin: bool) -> (r:
    Option<Vec<char>>)
    ensures
        match r {
            Some(v) => best_src_spec(*img, base@, find_thumb_origin) == Some(v@),
            None => best_src_spec(*img, base@, find_thumb_origin) is None,
        },
{
    let srcset_name = text::str_to_chars("srcset");
    let raw = match dom::get_attr(img, &srcset_name) {
        Some(v) => v,
        None => Vec::new(),
    };
    let mut es = parse_srcset(&raw);
    let one_x = text::str_to_chars("1x");
    let has_one: bool = match dom::style_get(&es, &one_x) {
        Some(_) => true,
        None => false,
    };
    if !has_one {
        let src_name = text::str_to_chars("src");
        let plain = match dom::get_attr(img, &src_name) {
            Some(v) => v,
            None => Vec::new(),
        };
        let key = text::str_to_chars("1x");
        es.push((key, plain));
        proof {
            assert(dom::entry_views(es@) =~= candidates_spec(*img));
        }
    } else {
        proof {
            assert(dom::entry_views(es@) =~= candidates_spec(*img));
        }
    }
    let two_x = text::str_to_chars("2x");
    let mid_x = text::str_to_chars("1.5x");
    let chosen: Option<Vec<char>> = match dom::style_get(&es, &two_x) {
        Some(v) => Some(v),
        None => match dom::style_get(&es, &mid_x) {
            Some(v) => Some(v),
            None => match dom::style_get(&es, &one_x) {
                Some(v) => Some(v),
                None => None,
            },
        },
    };
    let src = match chosen {
        Some(v) => v,
        None => {
            return None;
        },
    };
    let base_s = text::chars_to_string(base);
    let src_s = text::chars_to_string(&src);
    let resolved = match resolve_url(base_s.as_str(), src_s.as_str()) {
        Some(u) => text::str_to_chars(u.as_str()),
        None => {
            return None;
        },
    };
    if find_thumb_origin {
        match get_image_thumbnail_origin(&resolved) {
            Some(o) => Some(o),
            None => Some(resolved),
        }
    } else {
        Some(resolved)
    }
}

/// What remains after stripping every leading repetition of `p`.
pub open spec fn strip_prefix_rep(s: Seq<char>, p: Seq<char>) -> Seq<char>
    decreases s.len(),
{
    if p.len() > 0 && text::starts_with_spec(s, p) {
        strip_prefix_rep(s.skip(p.len() as int), p)
    } else {
        s
    }
}

/// The parts joined with `-` in reverse order.
pub open spec fn join_rev(parts: Seq<Seq<char>>) -> Seq<char>
    decreases parts.len(),
{
    if parts.len() == 0 {
        Seq::<char>::empty()
    } else if parts.len() == 1 {
        parts[0]
    } else {
        parts.last() + seq!['-'] + join_rev(parts.drop_last())
    }
}

/// The cache identifier and extension a cached image takes from its URL
/// path: the path below the media-upload prefix, its slash-separated parts
/// reversed and joined with dashes, split off from the extension after the
/// last dot; nothing when the path has no dot.
pub open spec fn image_id_ext_spec(path: Seq<char>) -> Option<(Seq<char>, Seq<char>)> {
    let p1 = strip_prefix_rep(path, "/media/upload"@);
    let p2 = strip_prefix_rep(p1, "/"@);
    match text::rsplit_once_spec(p2, '.') {
        None => None,
        Some(kv) => Some((join_rev(text::split_spec(kv.0, '/')), kv.1)),
    }
}

#[verifier::loop_isolation(false)]
fn strip_prefix_rep_exec(s: &Vec<char>, p: &Vec<char>) -> (r: Vec<char>)
    requires
        p@.len() > 0,
    ensures
        r@ == strip_prefix_rep(s@, p@),
    decreases s@.len(),
{
    if text::starts_with(s, p) {
        let rest = text::sub_vec(s, p.len(), s.len());
        proof {
            assert(rest@ =~= s@.skip(p@.len() as int));
        }
        strip_prefix_rep_exec(&rest, p)
    } else {
        text::sub_vec(s, 0, s.len())
    }
}

/// Derive a cached image's identifier and extension from its URL path.
#[verifier::loop_isolation(false)]
pub fn image_id_ext(path: &Vec<char>) -> (r: Option<(String, String)>)
    ensures
        match r {
            Some(p) => image_id_ext_spec(path@) == Some((p.0@, p.1@)),
            None => image_id_ext_spec(path@) is None,
        },
{
    let prefix = text::str_to_chars("/media/upload");
    let slash = text::str_to_chars("/");
    proof {
        reveal_strlit("/media/upload");
        reveal_strlit("/");
    }
    let p1 = strip_prefix_rep_exec(path, &prefix);
    let p2 = strip_prefix_rep_exec(&p1, &slash);
    let (name, ext) = match text::rsplit_once(&p2, '.') {
        Some(kv) => kv,
        None => {
            return None;
        },
    };
    let parts = text::split_vec(&name, '/');
    let ghost parts_spec = text::split_spec(name@, '/');
    let mut id: Vec<char> = Vec::new();
    let n = parts.len();
    let mut i: usize = 0;
    while i < n
        invariant
            i <= n,
            n == parts@.len(),
            text::views_of(parts@) == parts_spec,
            id@ == join_rev(parts_spec.subrange(0, i as int)),
        decreases n - i,
    {
        let ghost range = parts_spec.subrange(0, (i + 1) as int);
        proof {
            assert(range.drop_last() =~= parts_spec.subrange(0, i as int));
            assert(range.last() == parts_spec[i as int]);
        }
        let mut next = text::sub_vec(&parts[i], 0, parts[i].len());
        proof {
            assert(next@ =~= parts@[i as int]@);
        }
        if i > 0 {
            next.push('-');
            xhtml::push_all_chars(&mut next, &id);
            proof {
                assert(next@ =~= range.last() + seq!['-'] + join_rev(range.drop_last()));
            }
        } else {
            proof {
                assert(range.len() == 1);
                assert(next@ =~= join_rev(range));
            }
        }
        id = next;
        i += 1;
    }
    proof {
        assert(parts_spec.subrange(0, n as int) =~= parts_spec);
    }
    Some((text::chars_to_string(&id), text::chars_to_string(&ext)))
}

} // verus!
