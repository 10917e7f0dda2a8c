//! The strict serializer: re-emits a document subtree as escaped,
//! explicitly-closed markup, with attribute values quoted. Text content
//! escapes `&`, `<` and `>`; attribute values escape `&` and `"`.

use vstd::prelude::*;
use crate::dom::{Attr, Node};
use crate::text;

verus! {

/// What one character becomes in serialized output.
pub open spec fn esc_char(c: char, attr_mode: bool) -> Seq<char> {
    if c == '&' {
        seq!['&', 'a', 'm', 'p', ';']
    } else if c == '"' && attr_mode {
        seq!['&', 'q', 'u', 'o', 't', ';']
    } else if c == '<' && !attr_mode {
        seq!['&', 'l', 't', ';']
    } else if c == '>' && !attr_mode {
        seq!['&', 'g', 't', ';']
    } else {
        seq![c]
    }
}

/// The escaped form of a whole sequence.
pub open spec fn escape_spec(s: Seq<char>, attr_mode: bool) -> Seq<char>
    decreases s.len(),
{
    if s.len() == 0 {
        Seq::<char>::empty()
    } else {
        escape_spec(s.drop_last(), attr_mode) + esc_char(s.last(), attr_mode)
    }
}

#[verifier::loop_isolation(false)]
pub fn escape_chars(s: &Vec<char>, attr_mode: bool) -> (r: Vec<char>)
    ensures
        r@ == escape_spec(s@, attr_mode),
{
    let mut out: Vec<char> = Vec::new();
    let mut i: usize = 0;
    proof {
        assert(s@.subrange(0, 0) =~= Seq::<char>::empty());
    }
    while i < s.len()
        invariant
            i <= s@.len(),
            out@ == escape_spec(s@.subrange(0, i as int), attr_mode),
        decreases s@.len() - i,
    {
        let ghost pre = s@.subrange(0, (i + 1) as int);
        proof {
            assert(pre.drop_last() =~= s@.subrange(0, i as int));
            assert(pre.last() == s@[i as int]);
        }
        let c = s[i];
        if c == '&' {
            out.push('&');
            out.push('a');
            out.push('m');
            out.push('p');
            out.push(';');
        } else if c == '"' && attr_mode {
            out.push('&');
            out.push('q');
            out.push('u');
            out.push('o');
            out.push('t');
            out.push(';');
        } else if c == '<' && !attr_mode {
            out.push('&');
            out.push('l');
            out.push('t');
            out.push(';');
        } else if c == '>' && !attr_mode {
            out.push('&');
            out.push('g');
            out.push('t');
            out.push(';');
        } else {
            out.push(c);
        }
        proof {
            assert(out@ =~= escape_spec(pre, attr_mode));
        }
        i += 1;
    }
    proof {
        assert(s@.subrange(0, s@.len() as int) =~= s@);
    }
    out
}

/// Serialized attributes: a space, the name, `="`, the escaped value, `"`,
/// for each attribute in order.
pub open spec fn ser_attrs(attrs: Seq<Attr>) -> Seq<char>
    decreases attrs.len(),
{
    if attrs.len() == 0 {
        Seq::<char>::empty()
    } else {
        ser_attrs(attrs.drop_last()) + seq![' '] + attrs.last().name@ + seq!['=', '"']
            + escape_spec(attrs.last().value@, true) + seq!['"']
    }
}

/// The serialized form of a node: elements open and close explicitly, text
/// is escaped, comments and processing instructions pass through in their
/// delimiters, and a document serializes as its children.
pub open spec fn ser_node(n: Node) -> Seq<char>
    decreases n,
{
    match n {
        Node::Text { text } => escape_spec(text@, false),
        Node::Comment { text } => seq!['<', '!', '-', '-'] + text@ + seq!['-', '-', '>'],
        Node::Doctype { name } => seq!['<', '!', 'D', 'O', 'C', 'T', 'Y', 'P', 'E', ' '] + name@
            + seq!['>'],
        Node::Pi { target, data } => seq!['<', '?'] + target@ + seq![' '] + data@ + seq!['>'],
        Node::Document { children } => ser_seq(children@),
        Node::Element { ns: _ens, name, attrs, children } => seq!['<'] + name@ + ser_attrs(attrs@)
            + seq!['>'] + ser_seq(children@) + seq!['<', '/'] + name@ + seq!['>'],
    }
}

pub open spec fn ser_seq(s: Seq<Node>) -> Seq<char>
    decreases s,
{
    if s.len() == 0 {
        Seq::<char>::empty()
    } else {
        ser_seq(s.drop_last()) + ser_node(s.last())
    }
}

#[verifier::loop_isolation(false)]
pub fn push_all_chars(out: &mut Vec<char>, s: &Vec<char>)
    ensures
        final(out)@ == old(out)@ + s@,
{
    let mut i: usize = 0;
    proof {
        assert(out@ =~= old(out)@ + s@.subrange(0, 0));
    }
    while i < s.len()
        invariant
            i <= s@.len(),
            out@ == old(out)@ + s@.subrange(0, i as int),
        decreases s@.len() - i,
    {
        out.push(s[i]);
        proof {
            assert(old(out)@ + s@.subrange(0, (i + 1) as int) =~= (old(out)@ + s@.subrange(
                0,
                i as int,
            )).push(s@[i as int]));
        }
        i += 1;
    }
    proof {
        assert(s@.subrange(0, s@.len() as int) =~= s@);
    }
}

#[verifier::loop_isolation(false)]
pub fn serialize_attrs_pub(attrs: &Vec<Attr>) -> (r: Vec<char>)
    ensures
        r@ == ser_attrs(attrs@),
{
    let mut out: Vec<char> = Vec::new();
    let mut i: usize = 0;
    proof {
        assert(attrs@.subrange(0, 0) =~= Seq::<Attr>::empty());
    }
    while i < attrs.len()
        invariant
            i <= attrs@.len(),
            out@ == ser_attrs(attrs@.subrange(0, i as int)),
        decreases attrs@.len() - i,
    {
        let ghost pre = attrs@.subrange(0, (i + 1) as int);
        proof {
            assert(pre.drop_last() =~= attrs@.subrange(0, i as int));
            assert(pre.last() == attrs@[i as int]);
        }
        out.push(' ');
        push_all_chars(&mut out, &attrs[i].name);
        out.push('=');
        out.push('"');
        let ev = escape_chars(&attrs[i].value, true);
        push_all_chars(&mut out, &ev);
        out.push('"');
        proof {
            assert(out@ =~= ser_attrs(pre));
        }
        i += 1;
    }
    proof {
        assert(attrs@.subrange(0, attrs@.len() as int) =~= attrs@);
    }
    out
}

/// Serialize a node, itself included.
pub fn serialize_node(n: &Node) -> (r: Vec<char>)
    ensures
        r@ == ser_node(*n),
    decreases *n,
{
    let mut out: Vec<char> = Vec::new();
    match n {
        Node::Text { text } => {
            let e = escape_chars(text, false);
            proof {
                assert(Seq::<char>::empty() + e@ =~= e@);
            }
            push_all_chars(&mut out, &e);
        },
        Node::Comment { text } => {
            out.push('<');
            out.push('!');
            out.push('-');
            out.push('-');
            push_all_chars(&mut out, text);
            out.push('-');
            out.push('-');
            out.push('>');
            proof {
                assert(out@ =~= seq!['<', '!', '-', '-'] + text@ + seq!['-', '-', '>']);
            }
        },
        Node::Doctype { name } => {
            out.push('<');
            out.push('!');
            out.push('D');
            out.push('O');
            out.push('C');
            out.push('T');
            out.push('Y');
            out.push('P');
            out.push('E');
            out.push(' ');
            push_all_chars(&mut out, name);
            out.push('>');
            proof {
                assert(out@ =~= seq!['<', '!', 'D', 'O', 'C', 'T', 'Y', 'P', 'E', ' '] + name@
                    + seq!['>']);
            }
        },
        Node::Pi { target, data } => {
            out.push('<');
            out.push('?');
            push_all_chars(&mut out, target);
            out.push(' ');
            push_all_chars(&mut out, data);
            out.push('>');
            proof {
                assert(out@ =~= seq!['<', '?'] + target@ + seq![' '] + data@ + seq!['>']);
            }
        },
        Node::Document { children } => {
            let mut body = serialize_seq(children);
            out.append(&mut body);
            proof {
                assert(out@ =~= ser_seq(children@));
            }
        },
        Node::Element { ns: _e_ns, name, attrs, children } => {
            out.push('<');
            push_all_chars(&mut out, name);
            let a = serialize_attrs_pub(attrs);
            push_all_chars(&mut out, &a);
            out.push('>');
            let mut body = serialize_seq(children);
            out.append(&mut body);
            out.push('<');
            out.push('/');
            push_all_chars(&mut out, name);
            out.push('>');
            proof {
                assert(out@ =~= seq!['<'] + name@ + ser_attrs(attrs@) + seq!['>'] + ser_seq(
                    children@,
                ) + seq!['<', '/'] + name@ + seq!['>']);
            }
        },
    }
    out
}

#[verifier::loop_isolation(false)]
fn serialize_seq(children: &Vec<Node>) -> (r: Vec<char>)
    ensures
        r@ == ser_seq(children@),
    decreases children@,
{
    let mut out: Vec<char> = Vec::new();
    let mut i: usize = 0;
    proof {
        assert(children@.subrange(0, 0) =~= Seq::<Node>::empty());
    }
    while i < children.len()
        invariant
            i <= children@.len(),
            out@ == ser_seq(children@.subrange(0, i as int)),
        decreases children@.len() - i,
    {
        let ghost pre = children@.subrange(0, (i + 1) as int);
        proof {
            assert(pre.drop_last() =~= children@.subrange(0, i as int));
            assert(pre.last() == children@[i as int]);
            assert(decreases_to!(children@ => children@[i as int]));
        }
        let mut part = serialize_node(&children[i]);
        out.append(&mut part);
        i += 1;
    }
    proof {
        assert(children@.subrange(0, children@.len() as int) =~= children@);
    }
    out
}

/// Serialize a node, itself included, to a `String`.
pub fn serialize(n: &Node) -> (r: String)
    ensures
        r@ == ser_node(*n),
{
    let v = serialize_node(n);
    text::chars_to_string(&v)
}

/// Serialize only a node's children, omitting its own tags.
pub fn inner_xhtml(n: &Node) -> (r: String)
    ensures
        r@ == ser_seq(crate::dom::kids(*n)),
{
    let v = match n {
        Node::Element { ns: _e_ns, name: _e_name, attrs: _e_attrs, children } => serialize_seq(
            children,
        ),
        Node::Document { children } => serialize_seq(children),
        _ => Vec::new(),
    };
    proof {
        if !(*n is Element) && !(*n is Document) {
            assert(crate::dom::kids(*n) =~= Seq::<Node>::empty());
        }
    }
    text::chars_to_string(&v)
}

/// A borrowed string together with the escaping mode to render it under:
/// attribute mode escapes `&` and `"`; text mode escapes `&`, `<` and `>`.
pub struct XhtmlEscaped<'a>(pub &'a str, pub bool);

impl<'a> XhtmlEscaped<'a> {
    /// The escaped rendering.
    pub fn render(&self) -> (r: String)
        ensures
            r@ == escape_spec(self.0@, self.1),
    {
        let v = text::str_to_chars(self.0);
        let e = escape_chars(&v, self.1);
        text::chars_to_string(&e)
    }
}

/// The expected element namespace of serialized markup.
pub open spec fn xhtml_ns() -> Seq<char> {
    "http://www.w3.org/1999/xhtml"@
}

/// Every element of the subtree carries the XHTML namespace and every
/// attribute an empty or XHTML namespace.
pub open spec fn ns_ok(n: Node) -> bool
    decreases n,
{
    match n {
        Node::Element { ns, name: _nm, attrs, children } => {
            &&& ns@ == xhtml_ns()
            &&& forall|i: int|
                0 <= i < attrs@.len() ==> (#[trigger] attrs@[i].ns)@.len() == 0 || attrs@[i].ns@
                    == xhtml_ns()
            &&& ns_ok_seq(children@)
        },
        Node::Document { children } => ns_ok_seq(children@),
        _ => true,
    }
}

pub open spec fn ns_ok_seq(s: Seq<Node>) -> bool
    decreases s,
{
    if s.len() == 0 {
        true
    } else {
        ns_ok_seq(s.drop_last()) && ns_ok(s.last())
    }
}

/// Check the namespace expectation over a whole subtree.
#[verifier::loop_isolation(false)]
pub fn check_ns_ok(n: &Node) -> (r: bool)
    ensures
        r == ns_ok(*n),
    decreases *n,
{
    match n {
        Node::Element { ns, name: _e_name, attrs, children } => {
            let expected = text::str_to_chars("http://www.w3.org/1999/xhtml");
            if !text::chars_eq(ns, &expected) {
                return false;
            }
            let mut i: usize = 0;
            while i < attrs.len()
                invariant
                    i <= attrs@.len(),
                    forall|j: int|
                        0 <= j < i ==> (#[trigger] attrs@[j].ns)@.len() == 0 || attrs@[j].ns@
                            == xhtml_ns(),
                decreases attrs@.len() - i,
            {
                if attrs[i].ns.len() > 0 && !text::chars_eq(&attrs[i].ns, &expected) {
                    return false;
                }
                i += 1;
            }
            check_ns_ok_seq(children)
        },
        Node::Document { children } => check_ns_ok_seq(children),
        _ => true,
    }
}

#[verifier::loop_isolation(false)]
fn check_ns_ok_seq(children: &Vec<Node>) -> (r: bool)
    ensures
        r == ns_ok_seq(children@),
    decreases children@,
{
    let mut i: usize = 0;
    proof {
        assert(children@.subrange(0, 0) =~= Seq::<Node>::empty());
    }
    while i < children.len()
        invariant
            i <= children@.len(),
            ns_ok_seq(children@.subrange(0, i as int)),
        decreases children@.len() - i,
    {
        let ghost pre = children@.subrange(0, (i + 1) as int);
        proof {
            assert(pre.drop_last() =~= children@.subrange(0, i as int));
            assert(pre.last() == children@[i as int]);
            assert(decreases_to!(children@ => children@[i as int]));
        }
        if !check_ns_ok(&children[i]) {
            proof {
                lemma_ns_ok_seq_prefix(children@, i as int);
            }
            return false;
        }
        i += 1;
    }
    proof {
        assert(children@.subrange(0, children@.len() as int) =~= children@);
    }
    true
}

/// If one member of the sequence fails the namespace check, the sequence does.
proof fn lemma_ns_ok_seq_prefix(s: Seq<Node>, i: int)
    requires
        0 <= i < s.len(),
        !ns_ok(s[i]),
    ensures
        !ns_ok_seq(s),
    decreases s.len(),
{
    if i == s.len() - 1 {
    } else {
        lemma_ns_ok_seq_prefix(s.drop_last(), i);
    }
}

/// Reading escaped output back: each entity the escaper can emit in the given
/// mode decodes to its character; everything else passes through.
pub open spec fn unescape_spec(s: Seq<char>, attr_mode: bool) -> Seq<char>
    decreases s.len(),
{
    if s.len() == 0 {
        Seq::<char>::empty()
    } else if s.len() >= 5 && s.subrange(0, 5) == seq!['&', 'a', 'm', 'p', ';'] {
        seq!['&'] + unescape_spec(s.skip(5), attr_mode)
    } else if attr_mode && s.len() >= 6 && s.subrange(0, 6) == seq!['&', 'q', 'u', 'o', 't', ';'] {
        seq!['"'] + unescape_spec(s.skip(6), attr_mode)
    } else if !attr_mode && s.len() >= 4 && s.subrange(0, 4) == seq!['&', 'l', 't', ';'] {
        seq!['<'] + unescape_spec(s.skip(4), attr_mode)
    } else if !attr_mode && s.len() >= 4 && s.subrange(0, 4) == seq!['&', 'g', 't', ';'] {
        seq!['>'] + unescape_spec(s.skip(4), attr_mode)
    } else {
        seq![s[0]] + unescape_spec(s.drop_first(), attr_mode)
    }
}

/// Escaping distributes over concatenation.
proof fn lemma_escape_append(a: Seq<char>, b: Seq<char>, attr_mode: bool)
    ensures
        escape_spec(a + b, attr_mode) == escape_spec(a, attr_mode) + escape_spec(b, attr_mode),
    decreases b.len(),
{
    if b.len() == 0 {
        assert(a + b =~= a);
        assert(escape_spec(b, attr_mode) == Seq::<char>::empty());
        assert(escape_spec(a, attr_mode) + Seq::<char>::empty() =~= escape_spec(a, attr_mode));
    } else {
        lemma_escape_append(a, b.drop_last(), attr_mode);
        assert((a + b).drop_last() =~= a + b.drop_last());
        assert((a + b).last() == b.last());
        assert(escape_spec(a, attr_mode) + escape_spec(b, attr_mode) =~= escape_spec(a, attr_mode)
            + escape_spec(b.drop_last(), attr_mode) + esc_char(b.last(), attr_mode));
    }
}

/// Escaping then unescaping in the same mode reproduces the original text:
/// the escaping the serializer applies is symmetric.
pub proof fn lemma_escape_roundtrip(s: Seq<char>, attr_mode: bool)
    ensures
        unescape_spec(escape_spec(s, attr_mode), attr_mode) == s,
    decreases s.len(),
{
    if s.len() == 0 {
    } else {
        let c = s[0];
        let rest = s.drop_first();
        lemma_escape_roundtrip(rest, attr_mode);
        assert(s =~= seq![c] + rest);
        lemma_escape_append(seq![c], rest, attr_mode);
        assert((seq![c]).drop_last() =~= Seq::<char>::empty());
        assert(escape_spec(Seq::<char>::empty(), attr_mode) == Seq::<char>::empty());
        assert((seq![c]).last() == c);
        assert(escape_spec(seq![c], attr_mode) =~= esc_char(c, attr_mode));
        let t = esc_char(c, attr_mode) + escape_spec(rest, attr_mode);
        assert(escape_spec(s, attr_mode) == t);
        let amp = seq!['&', 'a', 'm', 'p', ';'];
        let quot = seq!['&', 'q', 'u', 'o', 't', ';'];
        let lt = seq!['&', 'l', 't', ';'];
        let gt = seq!['&', 'g', 't', ';'];
        if c == '&' {
            assert(t.subrange(0, 5) =~= amp);
            assert(t.skip(5) =~= escape_spec(rest, attr_mode));
            assert(unescape_spec(t, attr_mode) == seq!['&'] + unescape_spec(t.skip(5), attr_mode));
            assert(unescape_spec(t, attr_mode) =~= s);
        } else if c == '"' && attr_mode {
            assert(t.subrange(0, 6) =~= quot);
            assert(t.len() >= 5 ==> t.subrange(0, 5)[1] == 'q');
            assert(t.len() >= 5 ==> t.subrange(0, 5) != amp);
            assert(t.skip(6) =~= escape_spec(rest, attr_mode));
            assert(unescape_spec(t, attr_mode) == seq!['"'] + unescape_spec(t.skip(6), attr_mode));
            assert(unescape_spec(t, attr_mode) =~= s);
        } else if c == '<' && !attr_mode {
            assert(t.subrange(0, 4) =~= lt);
            assert(t.len() >= 5 ==> t.subrange(0, 5)[1] == 'l');
            assert(t.len() >= 5 ==> t.subrange(0, 5) != amp);
            assert(t.skip(4) =~= escape_spec(rest, attr_mode));
            assert(unescape_spec(t, attr_mode) == seq!['<'] + unescape_spec(t.skip(4), attr_mode));
            assert(unescape_spec(t, attr_mode) =~= s);
        } else if c == '>' && !attr_mode {
            assert(t.subrange(0, 4) =~= gt);
            assert(t.len() >= 5 ==> t.subrange(0, 5)[1] == 'g');
            assert(t.len() >= 5 ==> t.subrange(0, 5) != amp);
            assert(t.subrange(0, 4)[1] == 'g');
            assert(t.subrange(0, 4) != lt);
            assert(t.skip(4) =~= escape_spec(rest, attr_mode));
            assert(unescape_spec(t, attr_mode) == seq!['>'] + unescape_spec(t.skip(4), attr_mode));
            assert(unescape_spec(t, attr_mode) =~= s);
        } else {
            assert(t[0] == c);
            assert(t.len() >= 5 ==> t.subrange(0, 5)[0] == c);
            assert(t.len() >= 5 ==> t.subrange(0, 5) != amp);
            assert(attr_mode && t.len() >= 6 ==> t.subrange(0, 6)[0] == c);
            assert(attr_mode && t.len() >= 6 ==> t.subrange(0, 6) != quot);
            assert(!attr_mode && t.len() >= 4 ==> t.subrange(0, 4)[0] == c);
            assert(!attr_mode && t.len() >= 4 ==> t.subrange(0, 4) != lt && t.subrange(0, 4) != gt);
            assert(t.drop_first() =~= escape_spec(rest, attr_mode));
            assert(unescape_spec(t, attr_mode) == seq![t[0]] + unescape_spec(
                t.drop_first(),
                attr_mode,
            ));
            assert(unescape_spec(t, attr_mode) =~= s);
        }
    }
}

} // verus!
