//! Reading the markup of running elements again.
//!
//! The reader here knows nothing of how markup is written. It reads a start tag with
//! its attributes, the text and the elements up to the end tag, and the end tag.

use crate::gcpm::escape::{
    escaped_attribute, escaped_text, law_escaped_html_has_no_markup, law_escaped_html_reads_back, read_html,
    text_char,
};
use crate::gcpm::running::{attributes_markup, children_markup, markup, DomAttribute, DomElement, DomNode};
use crate::limits::MAX_DOM_DEPTH;
use vstd::prelude::*;

verus! {

/// A node of a document: text, or an element with its attributes and children.
pub ghost enum Tree {
    Text(Seq<char>),
    Element { tag: Seq<char>, attributes: Seq<(Seq<char>, Seq<char>)>, children: Seq<Tree> },
}

/// How many characters stand before the first at which to stop.
pub open spec fn run_to(s: Seq<char>, stop: spec_fn(char) -> bool) -> int
    decreases s.len(),
{
    if s.len() == 0 || stop(s[0]) {
        0
    } else {
        1 + run_to(s.drop_first(), stop)
    }
}

/// The name at the start of a text ends at a space, a slash or the end of the tag.
pub open spec fn ends_name() -> spec_fn(char) -> bool {
    |c: char| c == ' ' || c == '/' || c == '>'
}

/// A given character.
pub open spec fn is_char(c: char) -> spec_fn(char) -> bool {
    |d: char| d == c
}

/// The attributes that a tag goes on with, each a name and a value in quotes whose
/// references are read, and the text after them.
pub open spec fn read_attributes(s: Seq<char>) -> (Seq<(Seq<char>, Seq<char>)>, Seq<char>)
    decreases s.len(),
{
    if s.len() >= 2 && s[0] == ' ' && s[1] != '/' {
        let n = run_to(s.skip(1), is_char('='));
        if 0 <= n && n + 3 <= s.len() && s[n + 2] == '"' {
            let v = s.skip(n + 3);
            let q = run_to(v, is_char('"'));
            if 0 <= q < v.len() {
                let (more, rest) = read_attributes(v.skip(q + 1));
                (seq![(s.subrange(1, n + 1), read_html(v.take(q)))] + more, rest)
            } else {
                (Seq::empty(), s)
            }
        } else {
            (Seq::empty(), s)
        }
    } else {
        (Seq::empty(), s)
    }
}

/// The elements of HTML that never have an end tag.
pub open spec fn void(tag: Seq<char>) -> bool {
    seq![
        "area"@, "base"@, "br"@, "col"@, "embed"@, "hr"@, "img"@, "input"@, "link"@, "meta"@, "source"@, "track"@,
        "wbr"@,
    ].contains(tag)
}

/// The elements of HTML whose text has no references.
pub open spec fn raw(tag: Seq<char>) -> bool {
    seq!["style"@, "script"@, "xmp"@, "iframe"@, "noembed"@, "noframes"@, "plaintext"@].contains(tag)
}

/// Whether a text starts with an end tag.
pub open spec fn at_end_tag(s: Seq<char>) -> bool {
    s.len() >= 2 && s[0] == '<' && s[1] == '/'
}

/// How many characters stand before the first end tag.
pub open spec fn run_to_end_tag(s: Seq<char>) -> int
    decreases s.len(),
{
    if s.len() == 0 || at_end_tag(s) {
        0
    } else {
        1 + run_to_end_tag(s.drop_first())
    }
}

/// The nodes at the start of a text up to an end tag or its end, and the text after
/// them. `foreign` are the tags of elements that are not HTML; in raw text there is
/// nothing but text. A tag that is not complete ends the nodes.
pub open spec fn read_nodes(s: Seq<char>, foreign: spec_fn(Seq<char>) -> bool, in_raw: bool) -> (Seq<Tree>, Seq<char>)
    decreases s.len(),
{
    if s.len() == 0 || at_end_tag(s) {
        (Seq::empty(), s)
    } else if in_raw {
        let t = run_to_end_tag(s);
        (seq![Tree::Text(s.take(t))], s.skip(t))
    } else if s[0] != '<' {
        let t = run_to(s, is_char('<'));
        if 0 < t <= s.len() {
            let (more, rest) = read_nodes(s.skip(t), foreign, false);
            (seq![Tree::Text(read_html(s.take(t)))] + more, rest)
        } else {
            (Seq::empty(), s)
        }
    } else {
        let n = run_to(s.skip(1), ends_name());
        let tag = s.subrange(1, n + 1);
        let (attributes, r) = read_attributes(s.skip(n + 1));
        if r.len() >= s.len() || r.len() == 0 {
            (Seq::empty(), s)
        } else if r.len() >= 3 && r[0] == ' ' && r[1] == '/' && r[2] == '>' && (foreign(tag) || void(tag)) {
            let (more, rest) = read_nodes(r.skip(3), foreign, false);
            (seq![Tree::Element { tag, attributes, children: Seq::empty() }] + more, rest)
        } else if r[0] == '>' {
            let (children, e) = read_nodes(r.skip(1), foreign, !foreign(tag) && raw(tag));
            if e.len() < s.len() && at_end_tag(e) {
                let m = run_to(e.skip(2), is_char('>'));
                if 0 <= m && m + 3 <= e.len() && e.subrange(2, m + 2) == tag {
                    let (more, rest) = read_nodes(e.skip(m + 3), foreign, false);
                    (seq![Tree::Element { tag, attributes, children }] + more, rest)
                } else {
                    (Seq::empty(), s)
                }
            } else {
                (Seq::empty(), s)
            }
        } else {
            (Seq::empty(), s)
        }
    }
}

/// The first `k` attributes of an element.
pub open spec fn pairs(attributes: Seq<DomAttribute>, k: int) -> Seq<(Seq<char>, Seq<char>)> {
    Seq::new(k as nat, |i: int| (attributes[i].name@, attributes[i].value@))
}

/// A node of a document as a tree. What has no markup of its own counts as empty
/// text.
pub open spec fn tree_of(node: DomNode) -> Tree
    decreases node, 0int,
{
    match node {
        DomNode::Text(t) => Tree::Text(t@),
        DomNode::Element(e) => Tree::Element {
            tag: e.tag@,
            attributes: pairs(e.attributes@, e.attributes@.len() as int),
            children: trees_of(e.children@, e.children@.len() as int),
        },
        DomNode::Other => Tree::Text(Seq::empty()),
    }
}

/// The first `k` of some nodes as trees.
pub open spec fn trees_of(nodes: Seq<DomNode>, k: int) -> Seq<Tree>
    decreases nodes, k,
{
    if k <= 0 || k > nodes.len() {
        Seq::empty()
    } else {
        trees_of(nodes, k - 1).push(tree_of(nodes[k - 1]))
    }
}

/// Whether a name can stand in a tag.
pub open spec fn proper_name(s: Seq<char>) -> bool {
    &&& s.len() > 0
    &&& forall|i: int|
        0 <= i < s.len() ==> (#[trigger] s[i]) != ' ' && s[i] != '/' && s[i] != '>' && s[i] != '=' && s[i] != '"'
            && s[i] != '<'
}

/// Whether the tags and attributes of an element have proper names, and HTML elements
/// other names than the rest.
pub open spec fn proper_tag(e: DomElement, foreign: spec_fn(Seq<char>) -> bool) -> bool {
    &&& proper_name(e.tag@)
    &&& foreign(e.tag@) == !e.html
    &&& forall|i: int| 0 <= i < e.attributes@.len() ==> proper_name((#[trigger] e.attributes@[i]).name@)
}

/// Whether a node is one that reading can give: text that is not empty, or an element
/// with such children, no two texts side by side; in raw text, text without an end
/// tag. No more than `room` nodes lie inside each other.
pub open spec fn readable(node: DomNode, room: int, foreign: spec_fn(Seq<char>) -> bool, in_raw: bool) -> bool
    decreases node, 0int,
{
    &&& room > 0
    &&& match node {
        DomNode::Text(t) => {
            &&& t@.len() > 0
            &&& in_raw ==> forall|i: int| 0 <= i < t@.len() - 1 ==> !((#[trigger] t@[i]) == '<' && t@[i + 1] == '/')
        },
        DomNode::Element(e) => {
            &&& !in_raw
            &&& proper_tag(e, foreign)
            &&& all_readable(e.children@, e.children@.len() as int, room - 1, foreign, e.html && raw(e.tag@))
            &&& e.html && raw(e.tag@) ==> e.children@.len() <= 1
        },
        DomNode::Other => false,
    }
}

/// Whether the first `k` of some nodes are readable and no two texts side by side.
pub open spec fn all_readable(
    nodes: Seq<DomNode>,
    k: int,
    room: int,
    foreign: spec_fn(Seq<char>) -> bool,
    in_raw: bool,
) -> bool
    decreases nodes, k,
{
    if k <= 0 || k > nodes.len() {
        true
    } else {
        &&& all_readable(nodes, k - 1, room, foreign, in_raw)
        &&& readable(nodes[k - 1], room, foreign, in_raw)
        &&& k >= 2 ==> !(nodes[k - 1] is Text && nodes[k - 2] is Text)
    }
}

proof fn lemma_run_to(a: Seq<char>, t: Seq<char>, stop: spec_fn(char) -> bool)
    requires
        forall|i: int| 0 <= i < a.len() ==> !stop(#[trigger] a[i]),
        t.len() == 0 || stop(t[0]),
    ensures
        run_to(a + t, stop) == a.len(),
    decreases a.len(),
{
    if a.len() == 0 {
        assert(a + t =~= t);
    } else {
        assert((a + t)[0] == a[0]);
        assert((a + t).drop_first() =~= a.drop_first() + t);
        assert forall|i: int| 0 <= i < a.drop_first().len() implies !stop(#[trigger] a.drop_first()[i]) by {
            assert(a.drop_first()[i] == a[i + 1]);
        }
        lemma_run_to(a.drop_first(), t, stop);
    }
}

proof fn lemma_run_to_end_tag(a: Seq<char>, t: Seq<char>)
    requires
        forall|i: int| 0 <= i < a.len() - 1 ==> !((#[trigger] a[i]) == '<' && a[i + 1] == '/'),
        at_end_tag(t),
    ensures
        run_to_end_tag(a + t) == a.len(),
    decreases a.len(),
{
    if a.len() == 0 {
        assert(a + t =~= t);
    } else {
        let s = a + t;
        assert(s[0] == a[0]);
        if a.len() > 1 {
            assert(s[1] == a[1]);
        } else {
            assert(s[1] == t[0]);
        }
        assert(s.drop_first() =~= a.drop_first() + t);
        assert forall|i: int| 0 <= i < a.drop_first().len() - 1 implies !((#[trigger] a.drop_first()[i]) == '<'
            && a.drop_first()[i + 1] == '/') by {
            assert(a.drop_first()[i] == a[i + 1]);
            assert(a.drop_first()[i + 1] == a[i + 2]);
        }
        lemma_run_to_end_tag(a.drop_first(), t);
    }
}

proof fn lemma_attribute(name: Seq<char>, value: Seq<char>, t: Seq<char>)
    requires
        proper_name(name),
    ensures
        ({
            let s = seq![' '] + name + seq!['=', '"'] + escaped_attribute(value) + seq!['"'] + t;
            read_attributes(s) == (seq![(name, value)] + read_attributes(t).0, read_attributes(t).1)
        }),
{
    let s = seq![' '] + name + seq!['=', '"'] + escaped_attribute(value) + seq!['"'] + t;
    let after = seq!['=', '"'] + escaped_attribute(value) + seq!['"'] + t;
    assert(s.skip(1) =~= name + after);
    assert(s[1] == name[0]);
    lemma_run_to(name, after, is_char('='));
    let n = name.len() as int;
    assert(s[n + 2] == '"');
    assert(s.subrange(1, n + 1) =~= name);
    let v = s.skip(n + 3);
    let closing = seq!['"'] + t;
    assert(v =~= escaped_attribute(value) + closing);
    law_escaped_html_has_no_markup(value);
    assert forall|i: int| 0 <= i < escaped_attribute(value).len() implies !is_char('"')(
        #[trigger] escaped_attribute(value)[i],
    ) by {
        assert(escaped_attribute(value).contains(escaped_attribute(value)[i]));
    }
    lemma_run_to(escaped_attribute(value), closing, is_char('"'));
    let q = escaped_attribute(value).len() as int;
    assert(v.take(q) =~= escaped_attribute(value));
    assert(v.skip(q + 1) =~= t);
    law_escaped_html_reads_back(value);
}

proof fn lemma_attributes(attributes: Seq<DomAttribute>, k: int, t: Seq<char>)
    requires
        0 <= k <= attributes.len(),
        forall|i: int| 0 <= i < attributes.len() ==> proper_name((#[trigger] attributes[i]).name@),
    ensures
        read_attributes(attributes_markup(attributes, k) + t) == (
            pairs(attributes, k) + read_attributes(t).0,
            read_attributes(t).1,
        ),
    decreases k,
{
    if k == 0 {
        assert(attributes_markup(attributes, k) + t =~= t);
        assert(pairs(attributes, k) + read_attributes(t).0 =~= read_attributes(t).0);
    } else {
        let a = attributes[k - 1];
        let one = seq![' '] + a.name@ + seq!['=', '"'] + escaped_attribute(a.value@) + seq!['"'] + t;
        assert(attributes_markup(attributes, k) + t =~= attributes_markup(attributes, k - 1) + one);
        lemma_attribute(a.name@, a.value@, t);
        lemma_attributes(attributes, k - 1, one);
        assert(pairs(attributes, k - 1) + (seq![(a.name@, a.value@)] + read_attributes(t).0) =~= pairs(attributes, k)
            + read_attributes(t).0);
    }
}

/// The start tag of an element, read as HTML, has the attributes of the element: as
/// many, in their order, each with its name and its value.
pub proof fn law_attributes_read_back(attributes: Seq<DomAttribute>, rest: Seq<char>)
    requires
        forall|i: int| 0 <= i < attributes.len() ==> proper_name((#[trigger] attributes[i]).name@),
        rest.len() == 0 || rest[0] != ' ' || (rest.len() > 1 && rest[1] == '/'),
    ensures
        ({
            let (read, left) = read_attributes(attributes_markup(attributes, attributes.len() as int) + rest);
            &&& left == rest
            &&& read.len() == attributes.len()
            &&& forall|i: int|
                0 <= i < attributes.len() ==> #[trigger] read[i] == (attributes[i].name@, attributes[i].value@)
        }),
{
    lemma_attributes(attributes, attributes.len() as int, rest);
    assert(pairs(attributes, attributes.len() as int) + read_attributes(rest).0 =~= pairs(
        attributes,
        attributes.len() as int,
    ));
}

proof fn lemma_lists(tag: Seq<char>, html: bool)
    ensures
        crate::gcpm::running::self_closing(tag, html) == (!html || void(tag)),
        crate::gcpm::running::raw_text_element(tag, html) == (html && raw(tag)),
{
    let v = seq![
        "area"@, "base"@, "br"@, "col"@, "embed"@, "hr"@, "img"@, "input"@, "link"@, "meta"@, "source"@, "track"@,
        "wbr"@,
    ];
    let r = seq!["style"@, "script"@, "xmp"@, "iframe"@, "noembed"@, "noframes"@, "plaintext"@];
    assert(v[0] == "area"@ && v[1] == "base"@ && v[2] == "br"@ && v[3] == "col"@ && v[4] == "embed"@ && v[5] == "hr"@
        && v[6] == "img"@ && v[7] == "input"@ && v[8] == "link"@ && v[9] == "meta"@ && v[10] == "source"@ && v[11]
        == "track"@ && v[12] == "wbr"@);
    assert(r[0] == "style"@ && r[1] == "script"@ && r[2] == "xmp"@ && r[3] == "iframe"@ && r[4] == "noembed"@ && r[5]
        == "noframes"@ && r[6] == "plaintext"@);
}

proof fn lemma_text(text: Seq<char>, t: Seq<char>, foreign: spec_fn(Seq<char>) -> bool)
    requires
        text.len() > 0,
        t.len() == 0 || t[0] == '<',
    ensures
        read_nodes(escaped_text(text) + t, foreign, false) == (
            seq![Tree::Text(text)] + read_nodes(t, foreign, false).0,
            read_nodes(t, foreign, false).1,
        ),
{
    let w = escaped_text(text);
    let s = w + t;
    law_escaped_html_has_no_markup(text);
    law_escaped_html_reads_back(text);
    assert forall|i: int| 0 <= i < w.len() implies !is_char('<')(#[trigger] w[i]) by {
        assert(w.contains(w[i]));
    }
    assert(w.len() > 0) by {
        assert(text_char(text.last()).len() > 0);
    }
    lemma_run_to(w, t, is_char('<'));
    assert(s[0] == w[0]);
    assert(s.take(w.len() as int) =~= w);
    assert(s.skip(w.len() as int) =~= t);
}

proof fn lemma_start_tag(e: DomElement, t: Seq<char>, foreign: spec_fn(Seq<char>) -> bool)
    requires
        proper_tag(e, foreign),
        t.len() > 0,
        t[0] == '>' || (t.len() > 1 && t[0] == ' ' && t[1] == '/'),
    ensures
        ({
            let s = seq!['<'] + e.tag@ + attributes_markup(e.attributes@, e.attributes@.len() as int) + t;
            let n = run_to(s.skip(1), ends_name());
            &&& n == e.tag@.len()
            &&& s.subrange(1, n + 1) == e.tag@
            &&& read_attributes(s.skip(n + 1)) == (pairs(e.attributes@, e.attributes@.len() as int), t)
        }),
{
    let k = e.attributes@.len() as int;
    let a = attributes_markup(e.attributes@, k);
    let s = seq!['<'] + e.tag@ + a + t;
    assert(s.skip(1) =~= e.tag@ + (a + t));
    assert((a + t).len() > 0 && ends_name()((a + t)[0])) by {
        if k > 0 {
            lemma_attributes_start(e.attributes@, k);
            assert((a + t)[0] == a[0]);
        } else {
            assert(a + t =~= t);
        }
    }
    lemma_run_to(e.tag@, a + t, ends_name());
    let n = e.tag@.len() as int;
    assert(s.subrange(1, n + 1) =~= e.tag@);
    assert(s.skip(n + 1) =~= a + t);
    lemma_attributes(e.attributes@, k, t);
    assert(pairs(e.attributes@, k) + read_attributes(t).0 =~= pairs(e.attributes@, k));
}

proof fn lemma_attributes_start(attributes: Seq<DomAttribute>, k: int)
    requires
        0 < k <= attributes.len(),
    ensures
        attributes_markup(attributes, k).len() > 0,
        attributes_markup(attributes, k)[0] == ' ',
    decreases k,
{
    let before = attributes_markup(attributes, k - 1);
    if k > 1 {
        lemma_attributes_start(attributes, k - 1);
        assert(attributes_markup(attributes, k)[0] == before[0]);
    } else {
        assert(before =~= Seq::<char>::empty());
        assert(attributes_markup(attributes, k)[0] == ' ');
    }
}

/// What is read of an element whose tag closes itself.
proof fn lemma_single_tag(e: DomElement, t: Seq<char>, foreign: spec_fn(Seq<char>) -> bool)
    requires
        proper_tag(e, foreign),
        !e.html || void(e.tag@),
    ensures
        ({
            let start = seq!['<'] + e.tag@ + attributes_markup(e.attributes@, e.attributes@.len() as int);
            let attributes = pairs(e.attributes@, e.attributes@.len() as int);
            read_nodes(start + (seq![' ', '/', '>'] + t), foreign, false) == (
                seq![Tree::Element { tag: e.tag@, attributes, children: Seq::empty() }] + read_nodes(t, foreign, false).0,
                read_nodes(t, foreign, false).1,
            )
        }),
{
    let start = seq!['<'] + e.tag@ + attributes_markup(e.attributes@, e.attributes@.len() as int);
    let r = seq![' ', '/', '>'] + t;
    let s = start + r;
    assert(s[0] == '<');
    assert(s[1] == e.tag@[0]);
    lemma_start_tag(e, r, foreign);
    assert(r.skip(3) =~= t);
}

/// What is read of an element with an end tag.
proof fn lemma_tags(
    e: DomElement,
    inner: Seq<char>,
    children: Seq<Tree>,
    t: Seq<char>,
    foreign: spec_fn(Seq<char>) -> bool,
)
    requires
        proper_tag(e, foreign),
        ({
            let end = seq!['<', '/'] + e.tag@ + seq!['>'] + t;
            read_nodes(inner + end, foreign, e.html && raw(e.tag@)) == (children, end)
        }),
    ensures
        ({
            let start = seq!['<'] + e.tag@ + attributes_markup(e.attributes@, e.attributes@.len() as int);
            let end = seq!['<', '/'] + e.tag@ + seq!['>'] + t;
            let attributes = pairs(e.attributes@, e.attributes@.len() as int);
            read_nodes(start + (seq!['>'] + inner + end), foreign, false) == (
                seq![Tree::Element { tag: e.tag@, attributes, children }] + read_nodes(t, foreign, false).0,
                read_nodes(t, foreign, false).1,
            )
        }),
{
    let n = e.tag@.len() as int;
    let start = seq!['<'] + e.tag@ + attributes_markup(e.attributes@, e.attributes@.len() as int);
    let end = seq!['<', '/'] + e.tag@ + seq!['>'] + t;
    let r = seq!['>'] + inner + end;
    let s = start + r;
    assert(s[0] == '<');
    assert(s[1] == e.tag@[0]);
    assert(r[0] == '>');
    lemma_start_tag(e, r, foreign);
    assert(r.skip(1) =~= inner + end);
    assert(at_end_tag(end));
    assert(end.skip(2) =~= e.tag@ + (seq!['>'] + t));
    lemma_run_to(e.tag@, seq!['>'] + t, is_char('>'));
    assert(end.subrange(2, n + 2) =~= e.tag@);
    assert(end.skip(n + 3) =~= t);
}

proof fn lemma_node(node: DomNode, depth: int, foreign: spec_fn(Seq<char>) -> bool, t: Seq<char>)
    requires
        0 <= depth,
        readable(node, MAX_DOM_DEPTH - depth, foreign, false),
        node is Text ==> t.len() == 0 || t[0] == '<',
    ensures
        read_nodes(markup(node, depth, false) + t, foreign, false) == (
            seq![tree_of(node)] + read_nodes(t, foreign, false).0,
            read_nodes(t, foreign, false).1,
        ),
        node is Element ==> markup(node, depth, false).len() > 0 && markup(node, depth, false)[0] == '<',
    decreases node, 0int,
{
    match node {
        DomNode::Text(text) => lemma_text(text@, t, foreign),
        DomNode::Element(e) => {
            lemma_lists(e.tag@, e.html);
            let start = seq!['<'] + e.tag@ + attributes_markup(e.attributes@, e.attributes@.len() as int);
            let s = markup(node, depth, false) + t;
            let count = e.children@.len() as int;
            assert(markup(node, depth, false)[0] == '<');
            if count == 0 && (!e.html || void(e.tag@)) {
                assert(s =~= start + (seq![' ', '/', '>'] + t));
                lemma_single_tag(e, t, foreign);
                assert(trees_of(e.children@, 0) =~= Seq::<Tree>::empty());
            } else {
                let in_raw = e.html && raw(e.tag@);
                let inner = children_markup(e.children@, count, depth + 1, in_raw);
                let end = seq!['<', '/'] + e.tag@ + seq!['>'] + t;
                assert(s =~= start + (seq!['>'] + inner + end));
                assert(at_end_tag(end));
                if in_raw {
                    lemma_raw(e.children@, depth + 1, foreign, end);
                } else {
                    lemma_nodes(e.children@, count, depth + 1, foreign, end);
                    assert(trees_of(e.children@, count) + Seq::<Tree>::empty() =~= trees_of(e.children@, count));
                }
                lemma_tags(e, inner, trees_of(e.children@, count), t, foreign);
            }
        },
        DomNode::Other => {},
    }
}

proof fn lemma_raw(nodes: Seq<DomNode>, depth: int, foreign: spec_fn(Seq<char>) -> bool, end: Seq<char>)
    requires
        0 <= depth,
        nodes.len() <= 1,
        all_readable(nodes, nodes.len() as int, MAX_DOM_DEPTH - depth, foreign, true),
        at_end_tag(end),
    ensures
        read_nodes(children_markup(nodes, nodes.len() as int, depth, true) + end, foreign, true) == (
            trees_of(nodes, nodes.len() as int),
            end,
        ),
{
    reveal_with_fuel(children_markup, 2);
    reveal_with_fuel(trees_of, 2);
    if nodes.len() == 0 {
        assert(children_markup(nodes, 0, depth, true) + end =~= end);
    } else {
        assert(readable(nodes[0], MAX_DOM_DEPTH - depth, foreign, true));
        let text = nodes[0]->Text_0@;
        let s = children_markup(nodes, 1, depth, true) + end;
        assert(s =~= text + end);
        lemma_run_to_end_tag(text, end);
        assert(s[0] == text[0]);
        if text.len() > 1 {
            assert(s[1] == text[1]);
            assert(!(text[0] == '<' && text[1] == '/'));
        } else {
            assert(s[1] == end[0]);
        }
        assert(s.take(text.len() as int) =~= text);
        assert(s.skip(text.len() as int) =~= end);
        assert(trees_of(nodes, 1) =~= seq![Tree::Text(text)]);
    }
}

proof fn lemma_nodes(nodes: Seq<DomNode>, k: int, depth: int, foreign: spec_fn(Seq<char>) -> bool, t: Seq<char>)
    requires
        0 <= depth,
        0 <= k <= nodes.len(),
        all_readable(nodes, k, MAX_DOM_DEPTH - depth, foreign, false),
        k > 0 && nodes[k - 1] is Text ==> t.len() == 0 || t[0] == '<',
    ensures
        read_nodes(children_markup(nodes, k, depth, false) + t, foreign, false) == (
            trees_of(nodes, k) + read_nodes(t, foreign, false).0,
            read_nodes(t, foreign, false).1,
        ),
    decreases nodes, k,
{
    let more = read_nodes(t, foreign, false).0;
    if k == 0 {
        assert(children_markup(nodes, k, depth, false) + t =~= t);
        assert(trees_of(nodes, k) + more =~= more);
    } else {
        let node = nodes[k - 1];
        let tail = markup(node, depth, false) + t;
        lemma_node(node, depth, foreign, t);
        assert(children_markup(nodes, k, depth, false) + t =~= children_markup(nodes, k - 1, depth, false) + tail);
        if k >= 2 && nodes[k - 2] is Text {
            assert(node is Element);
            assert(tail[0] == markup(node, depth, false)[0]);
        }
        lemma_nodes(nodes, k - 1, depth, foreign, tail);
        assert(trees_of(nodes, k - 1) + (seq![tree_of(node)] + more) =~= trees_of(nodes, k) + more);
    }
}

/// Serialising a node and reading the markup again gives the node: every element with
/// its tag, all its attributes and all its children in their order, and every text.
pub proof fn law_markup_reads_back(node: DomNode, foreign: spec_fn(Seq<char>) -> bool)
    requires
        readable(node, MAX_DOM_DEPTH as int, foreign, false),
    ensures
        read_nodes(markup(node, 0, false), foreign, false) == (seq![tree_of(node)], Seq::<char>::empty()),
{
    lemma_node(node, 0, foreign, Seq::empty());
    assert(markup(node, 0, false) + Seq::<char>::empty() =~= markup(node, 0, false));
    assert(seq![tree_of(node)] + Seq::<Tree>::empty() =~= seq![tree_of(node)]);
}

} // verus!
