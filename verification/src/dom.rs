//! An owned document tree and the small accessors the extractor needs:
//! attribute lookup, first-matching-child lookup, text contents, a fixed-shape
//! selector matcher and inline style parsing.

use vstd::prelude::*;
use crate::text;

verus! {

/// One attribute of an element, with its namespace (empty for ordinary
/// HTML attributes).
#[derive(Debug)]
pub struct Attr {
    pub ns: Vec<char>,
    pub name: Vec<char>,
    pub value: Vec<char>,
}

/// One node of a parsed document.
#[derive(Debug)]
pub enum Node {
    Element { ns: Vec<char>, name: Vec<char>, attrs: Vec<Attr>, children: Vec<Node> },
    Document { children: Vec<Node> },
    Text { text: Vec<char> },
    Comment { text: Vec<char> },
    Doctype { name: Vec<char> },
    Pi { target: Vec<char>, data: Vec<char> },
}

/// The children of a node; leaves have none.
pub open spec fn kids(n: Node) -> Seq<Node> {
    match n {
        Node::Element { children, .. } => children@,
        Node::Document { children } => children@,
        _ => Seq::<Node>::empty(),
    }
}

pub open spec fn is_element_spec(n: Node) -> bool {
    n is Element
}

pub fn is_element(n: &Node) -> (r: bool)
    ensures
        r == is_element_spec(*n),
{
    match n {
        Node::Element { .. } => true,
        _ => false,
    }
}

/// The value of the first namespace-less attribute called `name`.
pub open spec fn attr_in_spec(attrs: Seq<Attr>, name: Seq<char>) -> Option<Seq<char>>
    decreases attrs.len(),
{
    if attrs.len() == 0 {
        None
    } else if attrs[0].ns@.len() == 0 && attrs[0].name@ == name {
        Some(attrs[0].value@)
    } else {
        attr_in_spec(attrs.drop_first(), name)
    }
}

/// The attribute `name` of `n`, if `n` is an element carrying it.
pub open spec fn attr_spec(n: Node, name: Seq<char>) -> Option<Seq<char>> {
    match n {
        Node::Element { attrs, .. } => attr_in_spec(attrs@, name),
        _ => None,
    }
}

/// Look `name` up in an attribute list.
#[verifier::loop_isolation(false)]
pub fn attr_in_lookup(attrs: &Vec<Attr>, name: &Vec<char>) -> (r: Option<Vec<char>>)
    ensures
        match r {
            Some(v) => attr_in_spec(attrs@, name@) == Some(v@),
            None => attr_in_spec(attrs@, name@) is None,
        },
{
    let mut i: usize = 0;
    proof {
        assert(attrs@.subrange(0, attrs@.len() as int) =~= attrs@);
    }
    while i < attrs.len()
        invariant
            i <= attrs@.len(),
            attr_in_spec(attrs@, name@) == attr_in_spec(
                attrs@.subrange(i as int, attrs@.len() as int),
                name@,
            ),
        decreases attrs@.len() - i,
    {
        let ghost rest = attrs@.subrange(i as int, attrs@.len() as int);
        if attrs[i].ns.len() == 0 && text::chars_eq(&attrs[i].name, name) {
            let v = text::sub_vec(&attrs[i].value, 0, attrs[i].value.len());
            proof {
                assert(v@ =~= attrs@[i as int].value@);
                assert(rest[0] == attrs@[i as int]);
                assert(attr_in_spec(rest, name@) == Some(rest[0].value@));
            }
            return Some(v);
        }
        proof {
            assert(rest.drop_first() =~= attrs@.subrange((i + 1) as int, attrs@.len() as int));
        }
        i += 1;
    }
    proof {
        assert(attrs@.subrange(attrs@.len() as int, attrs@.len() as int) =~= Seq::<Attr>::empty());
    }
    None
}

/// Attribute lookup; `None` when the node has no attributes or lacks the one
/// asked for.
#[verifier::loop_isolation(false)]
pub fn get_attr(n: &Node, name: &Vec<char>) -> (r: Option<Vec<char>>)
    ensures
        match r {
            Some(v) => attr_spec(*n, name@) == Some(v@),
            None => attr_spec(*n, name@) is None,
        },
{
    match n {
        Node::Element { ns: _e_ns, name: _e_name, attrs, children: _e_children } => {
            let mut i: usize = 0;
            proof {
                assert(attrs@.subrange(0, attrs@.len() as int) =~= attrs@);
            }
            while i < attrs.len()
                invariant
                    i <= attrs@.len(),
                    attr_in_spec(attrs@, name@) == attr_in_spec(
                        attrs@.subrange(i as int, attrs@.len() as int),
                        name@,
                    ),
                decreases attrs@.len() - i,
            {
                let ghost rest = attrs@.subrange(i as int, attrs@.len() as int);
                if attrs[i].ns.len() == 0 && text::chars_eq(&attrs[i].name, name) {
                    let v = text::sub_vec(&attrs[i].value, 0, attrs[i].value.len());
                    proof {
                        assert(v@ =~= attrs@[i as int].value@);
                        assert(rest[0] == attrs@[i as int]);
                        assert(attr_in_spec(rest, name@) == Some(rest[0].value@));
                        assert(attr_spec(*n, name@) == attr_in_spec(attrs@, name@));
                    }
                    return Some(v);
                }
                proof {
                    assert(rest.drop_first() =~= attrs@.subrange(
                        (i + 1) as int,
                        attrs@.len() as int,
                    ));
                }
                i += 1;
            }
            proof {
                assert(attrs@.subrange(attrs@.len() as int, attrs@.len() as int)
                    =~= Seq::<Attr>::empty());
            }
            None
        },
        _ => None,
    }
}

/// The first child element named `tag`, in document order.
pub open spec fn first_el_child_in_spec(s: Seq<Node>, tag: Seq<char>) -> Option<Node>
    decreases s.len(),
{
    if s.len() == 0 {
        None
    } else if s[0] matches Node::Element { name, .. } && name@ == tag {
        Some(s[0])
    } else {
        first_el_child_in_spec(s.drop_first(), tag)
    }
}

pub open spec fn first_el_child_spec(n: Node, tag: Seq<char>) -> Option<Node> {
    first_el_child_in_spec(kids(n), tag)
}

#[verifier::loop_isolation(false)]
pub fn first_el_child<'a>(n: &'a Node, tag: &Vec<char>) -> (r: Option<&'a Node>)
    ensures
        match r {
            Some(c) => first_el_child_spec(*n, tag@) == Some(*c),
            None => first_el_child_spec(*n, tag@) is None,
        },
{
    let children: &Vec<Node> = match n {
        Node::Element { ns: _e_ns, name: _e_name, attrs: _e_attrs, children } => children,
        Node::Document { children } => children,
        _ => {
            return None;
        },
    };
    let mut i: usize = 0;
    proof {
        assert(children@.subrange(0, children@.len() as int) =~= children@);
    }
    while i < children.len()
        invariant
            i <= children@.len(),
            first_el_child_in_spec(children@, tag@) == first_el_child_in_spec(
                children@.subrange(i as int, children@.len() as int),
                tag@,
            ),
        decreases children@.len() - i,
    {
        let ghost rest = children@.subrange(i as int, children@.len() as int);
        let c = &children[i];
        let matched: bool = match c {
            Node::Element { name, .. } => text::chars_eq(name, tag),
            _ => false,
        };
        if matched {
            proof {
                assert(rest[0] == children@[i as int]);
                assert(first_el_child_in_spec(rest, tag@) == Some(rest[0]));
                assert(first_el_child_spec(*n, tag@) == first_el_child_in_spec(children@, tag@));
            }
            return Some(c);
        }
        proof {
            assert(rest.drop_first() =~= children@.subrange((i + 1) as int, children@.len() as int));
        }
        i += 1;
    }
    proof {
        assert(children@.subrange(children@.len() as int, children@.len() as int)
            =~= Seq::<Node>::empty());
    }
    None
}

/// The concatenated contents of every text descendant, in document order.
pub open spec fn text_of(n: Node) -> Seq<char>
    decreases n,
{
    match n {
        Node::Text { text } => text@,
        Node::Element { children, .. } => text_of_seq(children@),
        Node::Document { children } => text_of_seq(children@),
        _ => Seq::<char>::empty(),
    }
}

pub open spec fn text_of_seq(s: Seq<Node>) -> Seq<char>
    decreases s,
{
    if s.len() == 0 {
        Seq::<char>::empty()
    } else {
        text_of_seq(s.drop_last()) + text_of(s.last())
    }
}

pub fn text_contents(n: &Node) -> (r: Vec<char>)
    ensures
        r@ == text_of(*n),
    decreases *n,
{
    match n {
        Node::Text { text } => {
            let t = text::sub_vec(text, 0, text.len());
            proof {
                assert(t@ =~= text@);
            }
            t
        },
        Node::Element { children, .. } => text_contents_seq(children),
        Node::Document { children } => text_contents_seq(children),
        _ => Vec::new(),
    }
}

fn text_contents_seq(children: &Vec<Node>) -> (r: Vec<char>)
    ensures
        r@ == text_of_seq(children@),
    decreases children@,
{
    let mut out: Vec<char> = Vec::new();
    let mut i: usize = 0;
    proof {
        assert(children@.subrange(0, 0) =~= Seq::<Node>::empty());
    }
    while i < children.len()
        invariant
            i <= children@.len(),
            out@ == text_of_seq(children@.subrange(0, i as int)),
        decreases children@.len() - i,
    {
        proof {
            assert(decreases_to!(children@ => children@[i as int]));
        }
        let mut part = text_contents(&children[i]);
        out.append(&mut part);
        proof {
            let pre = children@.subrange(0, (i + 1) as int);
            assert(pre.drop_last() =~= children@.subrange(0, i as int));
            assert(pre.last() == children@[i as int]);
        }
        i += 1;
    }
    proof {
        assert(children@.subrange(0, children@.len() as int) =~= children@);
    }
    out
}

/// The whitespace set that separates class tokens in a `class` attribute.
pub open spec fn is_sel_ws(c: char) -> bool {
    c == ' ' || c == '\t' || c == '\n' || c == '\r' || c == '\u{c}'
}

fn is_sel_ws_exec(c: char) -> (r: bool)
    ensures
        r == is_sel_ws(c),
{
    c == ' ' || c == '\t' || c == '\n' || c == '\r' || c == '\u{c}'
}

pub open spec fn find_sel_ws_spec(s: Seq<char>) -> Option<int>
    decreases s.len(),
{
    if s.len() == 0 {
        None
    } else if is_sel_ws(s[0]) {
        Some(0)
    } else {
        match find_sel_ws_spec(s.drop_first()) {
            Some(i) => Some(i + 1),
            None => None,
        }
    }
}

proof fn lemma_find_sel_ws_bounds(s: Seq<char>)
    ensures
        match find_sel_ws_spec(s) {
            Some(i) => 0 <= i < s.len() && is_sel_ws(s[i]),
            None => true,
        },
    decreases s.len(),
{
    if s.len() > 0 && !is_sel_ws(s[0]) {
        lemma_find_sel_ws_bounds(s.drop_first());
    }
}

proof fn lemma_find_sel_ws_at(s: Seq<char>, i: int)
    requires
        0 <= i <= s.len(),
        forall|j: int| 0 <= j < i ==> !is_sel_ws(s[j]),
        i < s.len() ==> is_sel_ws(s[i]),
    ensures
        i < s.len() ==> find_sel_ws_spec(s) == Some(i),
        i == s.len() ==> find_sel_ws_spec(s) is None,
    decreases i,
{
    if i > 0 {
        let t = s.drop_first();
        assert(forall|j: int| 0 <= j < i - 1 ==> !is_sel_ws(t[j]));
        lemma_find_sel_ws_at(t, i - 1);
    }
}

/// The parts of `s` split at every selector-whitespace character, empty
/// parts included.
pub open spec fn ws_split_spec(s: Seq<char>) -> Seq<Seq<char>>
    decreases s.len(),
    via ws_split_spec_decreases
{
    match find_sel_ws_spec(s) {
        Some(i) => seq![s.subrange(0, i)] + ws_split_spec(s.subrange(i + 1, s.len() as int)),
        None => seq![s],
    }
}

#[via_fn]
proof fn ws_split_spec_decreases(s: Seq<char>) {
    lemma_find_sel_ws_bounds(s);
}

fn find_sel_ws(s: &Vec<char>) -> (r: Option<usize>)
    ensures
        match r {
            Some(i) => find_sel_ws_spec(s@) == Some(i as int),
            None => find_sel_ws_spec(s@) is None,
        },
{
    let mut i: usize = 0;
    while i < s.len()
        invariant
            i <= s@.len(),
            forall|j: int| 0 <= j < i ==> !is_sel_ws(s@[j]),
        decreases s@.len() - i,
    {
        if is_sel_ws_exec(s[i]) {
            proof {
                lemma_find_sel_ws_at(s@, i as int);
            }
            return Some(i);
        }
        i += 1;
    }
    proof {
        lemma_find_sel_ws_at(s@, s@.len() as int);
    }
    None
}

fn ws_split_vec(s: &Vec<char>) -> (r: Vec<Vec<char>>)
    ensures
        text::views_of(r@) == ws_split_spec(s@),
    decreases s@.len(),
{
    let mut out: Vec<Vec<char>> = Vec::new();
    match find_sel_ws(s) {
        Some(i) => {
            proof {
                lemma_find_sel_ws_bounds(s@);
            }
            let n: usize = s.len();
            let head = text::sub_vec(s, 0, i);
            let rest = text::sub_vec(s, i + 1, n);
            let mut tail = ws_split_vec(&rest);
            out.push(head);
            out.append(&mut tail);
            proof {
                assert(text::views_of(out@) =~= ws_split_spec(s@));
            }
        },
        None => {
            let whole = text::sub_vec(s, 0, s.len());
            proof {
                assert(whole@ =~= s@);
            }
            out.push(whole);
            proof {
                assert(text::views_of(out@) =~= ws_split_spec(s@));
            }
        },
    }
    out
}

/// True iff one whitespace-separated token of `s` is exactly `t`: how a
/// `class` attribute is matched against a class name.
pub open spec fn has_token_spec(s: Seq<char>, t: Seq<char>) -> bool {
    exists|k: int| 0 <= k < ws_split_spec(s).len() && #[trigger] ws_split_spec(s)[k] == t
}

pub fn has_token_exec(s: &Vec<char>, t: &Vec<char>) -> (r: bool)
    ensures
        r == has_token_spec(s@, t@),
{
    let parts = ws_split_vec(s);
    let mut i: usize = 0;
    while i < parts.len()
        invariant
            i <= parts@.len(),
            text::views_of(parts@) == ws_split_spec(s@),
            forall|k: int| 0 <= k < i ==> #[trigger] ws_split_spec(s@)[k] != t@,
        decreases parts@.len() - i,
    {
        if text::chars_eq(&parts[i], t) {
            proof {
                assert(ws_split_spec(s@)[i as int] == t@);
            }
            return true;
        }
        proof {
            assert(ws_split_spec(s@)[i as int] == parts@[i as int]@);
        }
        i += 1;
    }
    false
}

/// The few selector shapes the extractor needs: a tag name, a class, an
/// attribute's presence, and an attribute's exact value, each optional.
pub struct Matcher {
    pub tag: Option<Vec<char>>,
    pub class: Option<Vec<char>>,
    pub attr_present: Option<Vec<char>>,
    pub attr_eq: Option<(Vec<char>, Vec<char>)>,
}

/// The ghost form of a `Matcher`, over character sequences.
pub struct MatcherV {
    pub tag: Option<Seq<char>>,
    pub class: Option<Seq<char>>,
    pub attr_present: Option<Seq<char>>,
    pub attr_eq: Option<(Seq<char>, Seq<char>)>,
}

impl View for Matcher {
    type V = MatcherV;

    open spec fn view(&self) -> MatcherV {
        MatcherV {
            tag: match self.tag {
                Some(t) => Some(t@),
                None => None,
            },
            class: match self.class {
                Some(c) => Some(c@),
                None => None,
            },
            attr_present: match self.attr_present {
                Some(a) => Some(a@),
                None => None,
            },
            attr_eq: match self.attr_eq {
                Some(p) => Some((p.0@, p.1@)),
                None => None,
            },
        }
    }
}

/// A matcher over one plain component, all others absent.
pub open spec fn m_tag(t: Seq<char>) -> MatcherV {
    MatcherV { tag: Some(t), class: None, attr_present: None, attr_eq: None }
}

pub open spec fn m_class(c: Seq<char>) -> MatcherV {
    MatcherV { tag: None, class: Some(c), attr_present: None, attr_eq: None }
}

pub open spec fn m_tag_class(t: Seq<char>, c: Seq<char>) -> MatcherV {
    MatcherV { tag: Some(t), class: Some(c), attr_present: None, attr_eq: None }
}

pub open spec fn m_tag_attr_present(t: Seq<char>, a: Seq<char>) -> MatcherV {
    MatcherV { tag: Some(t), class: None, attr_present: Some(a), attr_eq: None }
}

pub open spec fn m_attr_eq(a: Seq<char>, v: Seq<char>) -> MatcherV {
    MatcherV { tag: None, class: None, attr_present: None, attr_eq: Some((a, v)) }
}

impl Matcher {
    /// Match elements by tag name.
    pub fn by_tag(t: &str) -> (r: Matcher)
        ensures
            r@ == m_tag(t@),
    {
        Matcher {
            tag: Some(crate::text::str_to_chars(t)),
            class: None,
            attr_present: None,
            attr_eq: None,
        }
    }

    /// Match elements by class token.
    pub fn by_class(c: &str) -> (r: Matcher)
        ensures
            r@ == m_class(c@),
    {
        Matcher {
            tag: None,
            class: Some(crate::text::str_to_chars(c)),
            attr_present: None,
            attr_eq: None,
        }
    }

    /// Match elements by tag name and class token.
    pub fn by_tag_class(t: &str, c: &str) -> (r: Matcher)
        ensures
            r@ == m_tag_class(t@, c@),
    {
        Matcher {
            tag: Some(crate::text::str_to_chars(t)),
            class: Some(crate::text::str_to_chars(c)),
            attr_present: None,
            attr_eq: None,
        }
    }

    /// Match elements by tag name carrying an attribute.
    pub fn by_tag_attr_present(t: &str, a: &str) -> (r: Matcher)
        ensures
            r@ == m_tag_attr_present(t@, a@),
    {
        Matcher {
            tag: Some(crate::text::str_to_chars(t)),
            class: None,
            attr_present: Some(crate::text::str_to_chars(a)),
            attr_eq: None,
        }
    }

    /// Match elements by an attribute's exact value.
    pub fn by_attr_eq(a: &str, v: &str) -> (r: Matcher)
        ensures
            r@ == m_attr_eq(a@, v@),
    {
        Matcher {
            tag: None,
            class: None,
            attr_present: None,
            attr_eq: Some((crate::text::str_to_chars(a), crate::text::str_to_chars(v))),
        }
    }
}

/// The tag name of an element; empty for other nodes.
pub open spec fn el_name(n: Node) -> Seq<char> {
    match n {
        Node::Element { name, .. } => name@,
        _ => Seq::<char>::empty(),
    }
}

pub open spec fn sel_match(m: MatcherV, n: Node) -> bool {
    &&& n is Element
    &&& (m.tag matches Some(t) ==> el_name(n) == t)
    &&& (m.class matches Some(c) ==> attr_spec(n, "class"@) matches Some(v) && has_token_spec(
        v,
        c,
    ))
    &&& (m.attr_present matches Some(a) ==> attr_spec(n, a) is Some)
    &&& (m.attr_eq matches Some(p) ==> attr_spec(n, p.0) == Some(p.1))
}

pub fn sel_match_exec(m: &Matcher, n: &Node) -> (r: bool)
    ensures
        r == sel_match(m@, *n),
{
    if !is_element(n) {
        return false;
    }
    match &m.tag {
        Some(t) => {
            let name_ok: bool = match n {
                Node::Element { name, .. } => text::chars_eq(name, t),
                _ => false,
            };
            if !name_ok {
                return false;
            }
        },
        None => {},
    }
    match &m.class {
        Some(c) => {
            let class_name = text::str_to_chars("class");
            match get_attr(n, &class_name) {
                Some(v) => {
                    if !has_token_exec(&v, c) {
                        return false;
                    }
                },
                None => {
                    return false;
                },
            }
        },
        None => {},
    }
    match &m.attr_present {
        Some(a) => {
            match get_attr(n, a) {
                Some(_) => {},
                None => {
                    return false;
                },
            }
        },
        None => {},
    }
    match &m.attr_eq {
        Some(p) => {
            match get_attr(n, &p.0) {
                Some(v) => {
                    if !text::chars_eq(&v, &p.1) {
                        return false;
                    }
                },
                None => {
                    return false;
                },
            }
        },
        None => {},
    }
    true
}

/// The first node of the subtree rooted at `n` (the node itself included)
/// matching `m`, in document pre-order.
pub open spec fn select_first_spec(n: Node, m: MatcherV) -> Option<Node>
    decreases n,
{
    if sel_match(m, n) {
        Some(n)
    } else {
        match n {
            Node::Element { children, .. } => select_first_in_seq(children@, m),
            Node::Document { children } => select_first_in_seq(children@, m),
            _ => None,
        }
    }
}

pub open spec fn select_first_in_seq(s: Seq<Node>, m: MatcherV) -> Option<Node>
    decreases s,
{
    if s.len() == 0 {
        None
    } else {
        match select_first_spec(s[0], m) {
            Some(x) => Some(x),
            None => select_first_in_seq(s.drop_first(), m),
        }
    }
}

#[verifier::loop_isolation(false)]
pub fn select_first<'a>(n: &'a Node, m: &Matcher) -> (r: Option<&'a Node>)
    ensures
        match r {
            Some(x) => select_first_spec(*n, m@) == Some(*x),
            None => select_first_spec(*n, m@) is None,
        },
    decreases *n,
{
    if sel_match_exec(m, n) {
        return Some(n);
    }
    let children: &Vec<Node> = match n {
        Node::Element { ns: _e_ns, name: _e_name, attrs: _e_attrs, children } => children,
        Node::Document { children } => children,
        _ => {
            return None;
        },
    };
    let mut i: usize = 0;
    proof {
        assert(children@.subrange(0, children@.len() as int) =~= children@);
    }
    while i < children.len()
        invariant
            i <= children@.len(),
            select_first_in_seq(children@, m@) == select_first_in_seq(
                children@.subrange(i as int, children@.len() as int),
                m@,
            ),
        decreases children@.len() - i,
    {
        let ghost rest = children@.subrange(i as int, children@.len() as int);
        proof {
            assert(decreases_to!(children@ => children@[i as int]));
        }
        match select_first(&children[i], m) {
            Some(x) => {
                proof {
                    assert(rest[0] == children@[i as int]);
                }
                return Some(x);
            },
            None => {},
        }
        proof {
            assert(rest.drop_first() =~= children@.subrange((i + 1) as int, children@.len() as int));
        }
        i += 1;
    }
    proof {
        assert(children@.subrange(children@.len() as int, children@.len() as int)
            =~= Seq::<Node>::empty());
    }
    None
}

/// The first strict-descendant element named `tag`, paired with its
/// immediate parent.
pub open spec fn find_tag_parent_spec(n: Node, tag: Seq<char>) -> Option<(Node, Node)>
    decreases n,
{
    match n {
        Node::Element { children, .. } => find_tag_parent_in_seq(n, children@, tag),
        Node::Document { children } => find_tag_parent_in_seq(n, children@, tag),
        _ => None,
    }
}

pub open spec fn find_tag_parent_in_seq(parent: Node, s: Seq<Node>, tag: Seq<char>) -> Option<
    (Node, Node),
>
    decreases s,
{
    if s.len() == 0 {
        None
    } else if s[0] is Element && el_name(s[0]) == tag {
        Some((parent, s[0]))
    } else {
        match find_tag_parent_spec(s[0], tag) {
            Some(p) => Some(p),
            None => find_tag_parent_in_seq(parent, s.drop_first(), tag),
        }
    }
}

#[verifier::loop_isolation(false)]
pub fn find_tag_parent<'a>(n: &'a Node, tag: &Vec<char>) -> (r: Option<(&'a Node, &'a Node)>)
    ensures
        match r {
            Some(p) => find_tag_parent_spec(*n, tag@) == Some((*p.0, *p.1)),
            None => find_tag_parent_spec(*n, tag@) is None,
        },
    decreases *n,
{
    let children: &Vec<Node> = match n {
        Node::Element { ns: _e_ns, name: _e_name, attrs: _e_attrs, children } => children,
        Node::Document { children } => children,
        _ => {
            return None;
        },
    };
    let mut i: usize = 0;
    proof {
        assert(children@.subrange(0, children@.len() as int) =~= children@);
    }
    while i < children.len()
        invariant
            i <= children@.len(),
            find_tag_parent_in_seq(*n, children@, tag@) == find_tag_parent_in_seq(
                *n,
                children@.subrange(i as int, children@.len() as int),
                tag@,
            ),
        decreases children@.len() - i,
    {
        let ghost rest = children@.subrange(i as int, children@.len() as int);
        proof {
            assert(rest[0] == children@[i as int]);
        }
        let c = &children[i];
        let named: bool = match c {
            Node::Element { name, .. } => text::chars_eq(name, tag),
            _ => false,
        };
        if named {
            return Some((n, c));
        }
        proof {
            assert(decreases_to!(children@ => children@[i as int]));
        }
        match find_tag_parent(c, tag) {
            Some(p) => {
                return Some(p);
            },
            None => {},
        }
        proof {
            assert(rest.drop_first() =~= children@.subrange((i + 1) as int, children@.len() as int));
        }
        i += 1;
    }
    proof {
        assert(children@.subrange(children@.len() as int, children@.len() as int)
            =~= Seq::<Node>::empty());
    }
    None
}

/// The key/value pair a single `;`-separated piece contributes: the piece is
/// trimmed, split at the first `:`, and both halves trimmed; a piece without
/// `:` contributes nothing.
pub open spec fn style_entry_of(part: Seq<char>) -> Option<(Seq<char>, Seq<char>)> {
    match text::split_once_spec(text::trim_spec(part), ':') {
        Some(kv) => Some((text::trim_spec(kv.0), text::trim_spec(kv.1))),
        None => None,
    }
}

pub open spec fn opt_entry_seq(e: Option<(Seq<char>, Seq<char>)>) -> Seq<(Seq<char>, Seq<char>)> {
    match e {
        Some(x) => seq![x],
        None => Seq::<(Seq<char>, Seq<char>)>::empty(),
    }
}

pub open spec fn style_entries_of_parts(ps: Seq<Seq<char>>) -> Seq<(Seq<char>, Seq<char>)>
    decreases ps.len(),
{
    if ps.len() == 0 {
        Seq::<(Seq<char>, Seq<char>)>::empty()
    } else {
        style_entries_of_parts(ps.drop_last()) + opt_entry_seq(style_entry_of(ps.last()))
    }
}

/// All key/value entries of an inline style string, in source order,
/// duplicates kept.
pub open spec fn style_entries_spec(s: Seq<char>) -> Seq<(Seq<char>, Seq<char>)> {
    style_entries_of_parts(text::split_spec(s, ';'))
}

/// The views of owned style entries.
pub open spec fn entry_views(es: Seq<(Vec<char>, Vec<char>)>) -> Seq<(Seq<char>, Seq<char>)> {
    es.map_values(|e: (Vec<char>, Vec<char>)| (e.0@, e.1@))
}

/// The value of the last entry for `k`: later duplicates win, as repeated
/// inserts into a mapping would make them.
pub open spec fn style_lookup(es: Seq<(Seq<char>, Seq<char>)>, k: Seq<char>) -> Option<Seq<char>>
    decreases es.len(),
{
    if es.len() == 0 {
        None
    } else if es.last().0 == k {
        Some(es.last().1)
    } else {
        style_lookup(es.drop_last(), k)
    }
}

/// Parse an inline CSS-like `key:value;` attribute string into its entries.
#[verifier::loop_isolation(false)]
pub fn parse_style(s: &Vec<char>) -> (r: Vec<(Vec<char>, Vec<char>)>)
    ensures
        entry_views(r@) == style_entries_spec(s@),
{
    let parts = text::split_vec(s, ';');
    let mut out: Vec<(Vec<char>, Vec<char>)> = Vec::new();
    let mut i: usize = 0;
    proof {
        assert(text::views_of(parts@).subrange(0, 0) =~= Seq::<Seq<char>>::empty());
        assert(entry_views(out@) =~= style_entries_of_parts(text::views_of(parts@).subrange(0, 0)));
    }
    while i < parts.len()
        invariant
            i <= parts@.len(),
            text::views_of(parts@) == text::split_spec(s@, ';'),
            entry_views(out@) == style_entries_of_parts(
                text::views_of(parts@).subrange(0, i as int),
            ),
        decreases parts@.len() - i,
    {
        let ghost pre = text::views_of(parts@).subrange(0, (i + 1) as int);
        proof {
            assert(pre.drop_last() =~= text::views_of(parts@).subrange(0, i as int));
            assert(pre.last() == parts@[i as int]@);
        }
        let trimmed = text::trim(&parts[i]);
        match text::split_once(&trimmed, ':') {
            Some(kv) => {
                let key = text::trim(&kv.0);
                let val = text::trim(&kv.1);
                out.push((key, val));
                proof {
                    assert(entry_views(out@) =~= style_entries_of_parts(pre));
                }
            },
            None => {
                proof {
                    assert(entry_views(out@) =~= style_entries_of_parts(pre));
                }
            },
        }
        i += 1;
    }
    proof {
        assert(text::views_of(parts@).subrange(0, parts@.len() as int) =~= text::views_of(parts@));
    }
    out
}

/// Look a property up among parsed style entries; the last entry wins.
#[verifier::loop_isolation(false)]
pub fn style_get(es: &Vec<(Vec<char>, Vec<char>)>, k: &Vec<char>) -> (r: Option<Vec<char>>)
    ensures
        match r {
            Some(v) => style_lookup(entry_views(es@), k@) == Some(v@),
            None => style_lookup(entry_views(es@), k@) is None,
        },
{
    let mut i: usize = es.len();
    proof {
        assert(entry_views(es@).subrange(0, es@.len() as int) =~= entry_views(es@));
    }
    while i > 0
        invariant
            i <= es@.len(),
            style_lookup(entry_views(es@), k@) == style_lookup(
                entry_views(es@).subrange(0, i as int),
                k@,
            ),
        decreases i,
    {
        let ghost cur = entry_views(es@).subrange(0, i as int);
        proof {
            assert(cur.last() == (es@[i - 1].0@, es@[i - 1].1@));
            assert(cur.drop_last() =~= entry_views(es@).subrange(0, i - 1));
        }
        if text::chars_eq(&es[i - 1].0, k) {
            let v = text::sub_vec(&es[i - 1].1, 0, es[i - 1].1.len());
            proof {
                assert(v@ =~= es@[i - 1].1@);
            }
            return Some(v);
        }
        i -= 1;
    }
    proof {
        assert(entry_views(es@).subrange(0, 0) =~= Seq::<(Seq<char>, Seq<char>)>::empty());
    }
    None
}

/// The views of owned string style entries.
pub open spec fn string_entry_views(es: Seq<(String, String)>) -> Seq<(Seq<char>, Seq<char>)> {
    es.map_values(|p: (String, String)| (p.0@, p.1@))
}

/// Parse an inline CSS-like `key:value;` attribute string: entries separated
/// by `;`, key and value separated by the first `:` and trimmed; pieces
/// without `:` are dropped; duplicates are kept, a lookup taking the last.
#[verifier::loop_isolation(false)]
pub fn parse_simple_style_attr(style: &str) -> (r: Vec<(String, String)>)
    ensures
        string_entry_views(r@) == style_entries_spec(style@),
{
    let sv = text::str_to_chars(style);
    let es = parse_style(&sv);
    let mut out: Vec<(String, String)> = Vec::new();
    let mut i: usize = 0;
    proof {
        assert(string_entry_views(out@) =~= entry_views(es@).subrange(0, 0));
    }
    while i < es.len()
        invariant
            i <= es@.len(),
            string_entry_views(out@) == entry_views(es@).subrange(0, i as int),
        decreases es@.len() - i,
    {
        let k = text::chars_to_string(&es[i].0);
        let v = text::chars_to_string(&es[i].1);
        out.push((k, v));
        proof {
            assert(string_entry_views(out@) =~= entry_views(es@).subrange(0, (i + 1) as int));
        }
        i += 1;
    }
    proof {
        assert(entry_views(es@).subrange(0, es@.len() as int) =~= entry_views(es@));
    }
    out
}

/// A well-formed style entry: the key holds no separator and no colon, the
/// value no separator, and both are their own trimmings.
pub open spec fn style_entry_ok(k: Seq<char>, v: Seq<char>) -> bool {
    &&& forall|i: int| 0 <= i < k.len() ==> k[i] != ';' && k[i] != ':'
    &&& forall|i: int| 0 <= i < v.len() ==> v[i] != ';'
    &&& text::trim_spec(k) == k
    &&& text::trim_spec(v) == v
}

/// The `key:value;` rendering of style entries.
pub open spec fn render_style(es: Seq<(Seq<char>, Seq<char>)>) -> Seq<char>
    decreases es.len(),
{
    if es.len() == 0 {
        Seq::<char>::empty()
    } else {
        es[0].0 + seq![':'] + es[0].1 + seq![';'] + render_style(es.drop_first())
    }
}

proof fn lemma_trim_start_len(s: Seq<char>)
    ensures
        text::trim_start_spec(s).len() <= s.len(),
        s.len() > 0 && text::is_ws(s[0]) ==> text::trim_start_spec(s).len() < s.len(),
    decreases s.len(),
{
    if s.len() > 0 && text::is_ws(s[0]) {
        lemma_trim_start_len(s.drop_first());
    }
}

proof fn lemma_trim_end_len(s: Seq<char>)
    ensures
        text::trim_end_spec(s).len() <= s.len(),
        s.len() > 0 && text::is_ws(s[s.len() - 1]) ==> text::trim_end_spec(s).len() < s.len(),
    decreases s.len(),
{
    if s.len() > 0 && text::is_ws(s[s.len() - 1]) {
        lemma_trim_end_len(s.drop_last());
    }
}

/// A trim-stable non-empty sequence neither starts nor ends in whitespace.
proof fn lemma_trim_stable_ends(s: Seq<char>)
    requires
        text::trim_spec(s) == s,
        s.len() > 0,
    ensures
        !text::is_ws(s[0]),
        !text::is_ws(s[s.len() - 1]),
{
    lemma_trim_start_len(s);
    lemma_trim_end_len(text::trim_start_spec(s));
    if text::is_ws(s[0]) {
        assert(text::trim_spec(s).len() < s.len());
    }
    assert(text::trim_start_spec(s) == s);
    if text::is_ws(s[s.len() - 1]) {
        assert(text::trim_spec(s).len() < s.len());
    }
}

/// A sequence that neither starts nor ends in whitespace is its own trimming.
proof fn lemma_trim_of_nonws_ends(s: Seq<char>)
    requires
        s.len() > 0,
        !text::is_ws(s[0]),
        !text::is_ws(s[s.len() - 1]),
    ensures
        text::trim_spec(s) == s,
{
    assert(text::trim_start_spec(s) == s);
    assert(text::trim_end_spec(s) == s);
}

proof fn lemma_entries_of_parts_append(a: Seq<Seq<char>>, b: Seq<Seq<char>>)
    ensures
        style_entries_of_parts(a + b) == style_entries_of_parts(a) + style_entries_of_parts(b),
    decreases b.len(),
{
    if b.len() == 0 {
        assert(a + b =~= a);
        assert(style_entries_of_parts(a) + style_entries_of_parts(b) =~= style_entries_of_parts(
            a,
        ));
    } else {
        lemma_entries_of_parts_append(a, b.drop_last());
        assert((a + b).drop_last() =~= a + b.drop_last());
        assert((a + b).last() == b.last());
        assert(style_entries_of_parts(a) + style_entries_of_parts(b) =~= style_entries_of_parts(a)
            + style_entries_of_parts(b.drop_last()) + opt_entry_seq(style_entry_of(b.last())));
    }
}

/// Parsing is the inverse of rendering: a `key:value;` rendering of
/// well-formed entries parses back to exactly those entries, in order,
/// duplicates included; with a last-wins lookup, a later duplicate therefore
/// overrides an earlier one.
pub proof fn lemma_style_roundtrip(es: Seq<(Seq<char>, Seq<char>)>)
    requires
        forall|i: int| 0 <= i < es.len() ==> style_entry_ok((#[trigger] es[i]).0, es[i].1),
    ensures
        style_entries_spec(render_style(es)) == es,
    decreases es.len(),
{
    if es.len() == 0 {
        let s = render_style(es);
        assert(s =~= Seq::<char>::empty());
        assert(text::find_char_spec(s, ';') is None);
        assert(text::split_spec(s, ';') == seq![s]);
        assert(text::trim_spec(s) =~= s);
        assert(text::find_char_spec(s, ':') is None);
        assert(style_entry_of(s) is None);
        assert((seq![s]).drop_last() =~= Seq::<Seq<char>>::empty());
        assert((seq![s]).last() == s);
        assert(style_entries_of_parts(Seq::<Seq<char>>::empty())
            =~= Seq::<(Seq<char>, Seq<char>)>::empty());
        assert(style_entries_of_parts(seq![s]) =~= es);
    } else {
        let k = es[0].0;
        let v = es[0].1;
        assert(style_entry_ok(k, v));
        let head = k + seq![':'] + v + seq![';'];
        let rest = render_style(es.drop_first());
        let s = render_style(es);
        assert(s =~= head + rest);
        let pos = k.len() + v.len() + 1;
        assert(forall|j: int| 0 <= j < pos ==> s[j] != ';') by {
            assert(forall|j: int| 0 <= j < k.len() ==> s[j] == k[j]);
            assert(s[k.len() as int] == ':');
            assert(forall|j: int|
                k.len() + 1 <= j < pos ==> s[j] == v[j - k.len() - 1]);
        }
        assert(s[pos as int] == ';');
        text::lemma_find_char_at_pub(s, ';', pos as int);
        assert(text::find_char_spec(s, ';') == Some(pos as int));
        let p0 = s.subrange(0, pos as int);
        assert(p0 =~= k + seq![':'] + v);
        assert(s.subrange(pos as int + 1, s.len() as int) =~= rest);
        assert(text::split_spec(s, ';') == seq![p0] + text::split_spec(rest, ';'));

        // the piece is its own trimming
        if k.len() > 0 {
            lemma_trim_stable_ends(k);
        }
        if v.len() > 0 {
            lemma_trim_stable_ends(v);
        }
        assert(!text::is_ws(p0[0]));
        assert(!text::is_ws(p0[p0.len() - 1]));
        lemma_trim_of_nonws_ends(p0);

        // it splits at the colon right after the key
        assert(forall|j: int| 0 <= j < k.len() ==> p0[j] != ':');
        assert(p0[k.len() as int] == ':');
        text::lemma_find_char_at_pub(p0, ':', k.len() as int);
        assert(p0.subrange(0, k.len() as int) =~= k);
        assert(p0.subrange(k.len() as int + 1, p0.len() as int) =~= v);
        assert(style_entry_of(p0) == Some((k, v)));

        lemma_style_roundtrip(es.drop_first());
        lemma_entries_of_parts_append(seq![p0], text::split_spec(rest, ';'));
        assert(style_entries_of_parts(seq![p0]) =~= seq![(k, v)]) by {
            assert((seq![p0]).drop_last() =~= Seq::<Seq<char>>::empty());
            assert((seq![p0]).last() == p0);
            assert(style_entries_of_parts(Seq::<Seq<char>>::empty())
                =~= Seq::<(Seq<char>, Seq<char>)>::empty());
        }
        assert(style_entries_spec(s) =~= es) by {
            assert(seq![(k, v)] + es.drop_first() =~= es);
        }
    }
}

} // verus!
