//! Running elements: elements taken out of the flow and shown in margin boxes.

use crate::gcpm::escape::{
    escape_attribute_value, escape_text_content, escaped_attribute, escaped_text, read_html,
    law_escaped_html_reads_back,
};
use crate::limits::MAX_DOM_DEPTH;
use std::collections::BTreeMap;
use vstd::prelude::*;

verus! {

broadcast use {vstd::std_specs::btree::group_btree_axioms, vstd::laws_cmp::group_laws_cmp};

/// An occurrence of a running element in the document.
#[derive(Debug, Clone)]
struct RunningInstance {
    name: String,
    html: String,
}

/// The running elements of a document, in the order in which they were registered.
pub struct RunningElementStore {
    instances: Vec<RunningInstance>,
    node_to_instance: BTreeMap<usize, usize>,
}

/// The model of a [`RunningElementStore`]: name and markup of each instance, and the
/// instance of each node.
#[verifier::ext_equal]
pub ghost struct StoreModel {
    pub instances: Seq<(Seq<char>, Seq<char>)>,
    pub nodes: Map<usize, usize>,
}

impl View for RunningElementStore {
    type V = StoreModel;

    closed spec fn view(&self) -> StoreModel {
        StoreModel {
            instances: Seq::new(
                self.instances@.len(),
                |i: int| (self.instances@[i].name@, self.instances@[i].html@),
            ),
            nodes: self.node_to_instance@,
        }
    }
}

/// A store with one more instance, which is from now on that of the node.
pub open spec fn registered(
    s: StoreModel,
    node_id: usize,
    name: Seq<char>,
    html: Seq<char>,
) -> StoreModel {
    StoreModel {
        instances: s.instances.push((name, html)),
        nodes: s.nodes.insert(node_id, s.instances.len() as usize),
    }
}

impl RunningElementStore {
    /// No running elements.
    pub fn new() -> (s: Self)
        ensures
            s@.instances.len() == 0,
            s@.nodes == Map::<usize, usize>::empty(),
    {
        RunningElementStore { instances: Vec::new(), node_to_instance: BTreeMap::new() }
    }

    /// Adds an instance of a running element, and hands out its id.
    pub fn register(&mut self, node_id: usize, name: String, html: String) -> (id: usize)
        ensures
            id == old(self)@.instances.len(),
            final(self)@ == registered(old(self)@, node_id, name@, html@),
    {
        let id = self.instances.len();
        self.instances.push(RunningInstance { name, html });
        let _ = self.node_to_instance.insert(node_id, id);
        assert(self@ =~= registered(old(self)@, node_id, name@, html@));
        id
    }

    /// The instance of a node.
    pub fn instance_for_node(&self, node_id: usize) -> (id: Option<usize>)
        ensures
            id == (if self@.nodes.dom().contains(node_id) {
                Some(self@.nodes[node_id])
            } else {
                None
            }),
    {
        match self.node_to_instance.get(&node_id) {
            Some(id) => Some(*id),
            None => None,
        }
    }

    /// The markup of an instance.
    pub fn get_html(&self, instance_id: usize) -> (html: Option<&str>)
        ensures
            match html {
                Some(s) => instance_id < self@.instances.len() && s@
                    == self@.instances[instance_id as int].1,
                None => instance_id >= self@.instances.len(),
            },
    {
        if instance_id < self.instances.len() {
            Some(self.instances[instance_id].html.as_str())
        } else {
            None
        }
    }

    /// The name of an instance.
    pub fn name_of(&self, instance_id: usize) -> (name: Option<&str>)
        ensures
            match name {
                Some(s) => instance_id < self@.instances.len() && s@
                    == self@.instances[instance_id as int].0,
                None => instance_id >= self@.instances.len(),
            },
    {
        if instance_id < self.instances.len() {
            Some(self.instances[instance_id].name.as_str())
        } else {
            None
        }
    }

    /// How many instances there are.
    pub fn instance_count(&self) -> (n: usize)
        ensures
            n == self@.instances.len(),
    {
        self.instances.len()
    }
}

impl Default for RunningElementStore {
    fn default() -> (s: Self)
        ensures
            s@.instances.len() == 0,
            s@.nodes == Map::<usize, usize>::empty(),
    {
        Self::new()
    }
}

/// A node of a document: text, an element, or anything that has no markup of its own
/// here, such as a comment.
pub enum DomNode {
    Text(String),
    Element(DomElement),
    Other,
}

/// An element of a document.
pub struct DomElement {
    pub tag: String,
    /// Whether the element is in the HTML namespace.
    pub html: bool,
    pub attributes: Vec<DomAttribute>,
    pub children: Vec<DomNode>,
}

/// An attribute of an element.
pub struct DomAttribute {
    pub name: String,
    pub value: String,
}

/// Whether the text of an element is read without references.
pub open spec fn raw_text_element(tag: Seq<char>, html: bool) -> bool {
    html && (tag == "style"@ || tag == "script"@ || tag == "xmp"@ || tag == "iframe"@ || tag
        == "noembed"@ || tag == "noframes"@ || tag == "plaintext"@)
}

/// Whether an element without children may be written as one tag: a void element of
/// HTML, or any element that is not HTML.
pub open spec fn self_closing(tag: Seq<char>, html: bool) -> bool {
    !html || tag == "area"@ || tag == "base"@ || tag == "br"@ || tag == "col"@ || tag == "embed"@
        || tag == "hr"@ || tag == "img"@ || tag == "input"@ || tag == "link"@ || tag == "meta"@
        || tag == "source"@ || tag == "track"@ || tag == "wbr"@
}

/// The first `k` attributes of an element as they stand in its tag.
pub open spec fn attributes_markup(attributes: Seq<DomAttribute>, k: int) -> Seq<char>
    decreases k,
{
    if k <= 0 {
        Seq::empty()
    } else {
        attributes_markup(attributes, k - 1) + seq![' '] + attributes[k - 1].name@ + seq!['=', '"']
            + escaped_attribute(attributes[k - 1].value@) + seq!['"']
    }
}

/// The markup of a node at a depth; `raw` where it stands in an element whose text is
/// read without references. What lies too deep is left out.
pub open spec fn markup(node: DomNode, depth: int, raw: bool) -> Seq<char>
    decreases MAX_DOM_DEPTH - depth, 0int,
{
    if depth >= MAX_DOM_DEPTH {
        Seq::empty()
    } else {
        match node {
            DomNode::Text(t) => if raw {
                t@
            } else {
                escaped_text(t@)
            },
            DomNode::Element(e) => {
                let start = seq!['<'] + e.tag@ + attributes_markup(
                    e.attributes@,
                    e.attributes@.len() as int,
                );
                if e.children@.len() == 0 && self_closing(e.tag@, e.html) {
                    start + seq![' ', '/', '>']
                } else {
                    start + seq!['>'] + children_markup(
                        e.children@,
                        e.children@.len() as int,
                        depth + 1,
                        raw_text_element(e.tag@, e.html),
                    ) + seq!['<', '/'] + e.tag@ + seq!['>']
                }
            },
            DomNode::Other => Seq::empty(),
        }
    }
}

/// The markup of the first `k` of some nodes at a depth.
pub open spec fn children_markup(nodes: Seq<DomNode>, k: int, depth: int, raw: bool) -> Seq<char>
    decreases MAX_DOM_DEPTH - depth, k + 1,
{
    if k <= 0 {
        Seq::empty()
    } else {
        children_markup(nodes, k - 1, depth, raw) + markup(nodes[k - 1], depth, raw)
    }
}

/// Whether the text of an element is read without references.
fn is_raw_text_element(e: &DomElement) -> (r: bool)
    ensures
        r == raw_text_element(e.tag@, e.html),
{
    let t = e.tag.as_str();
    e.html && (*t == *"style" || *t == *"script" || *t == *"xmp" || *t == *"iframe" || *t
        == *"noembed" || *t == *"noframes" || *t == *"plaintext")
}

/// Whether an element without children may be written as one tag.
fn accepts_self_closing(e: &DomElement) -> (r: bool)
    ensures
        r == self_closing(e.tag@, e.html),
{
    let t = e.tag.as_str();
    !e.html || *t == *"area" || *t == *"base" || *t == *"br" || *t == *"col" || *t == *"embed" || *t
        == *"hr" || *t == *"img" || *t == *"input" || *t == *"link" || *t == *"meta" || *t
        == *"source" || *t == *"track" || *t == *"wbr"
}

/// Appends the attributes of an element.
fn write_attributes(attributes: &Vec<DomAttribute>, writer: &mut String)
    ensures
        final(writer)@ == old(writer)@ + attributes_markup(
            attributes@,
            attributes@.len() as int,
        ),
{
    let ghost lead = writer@;
    assert(lead + attributes_markup(attributes@, 0) =~= lead);
    let mut k: usize = 0;
    while k < attributes.len()
        invariant
            k <= attributes.len(),
            writer@ == lead + attributes_markup(attributes@, k as int),
        decreases attributes.len() - k,
    {
        writer.push(' ');
        writer.append(attributes[k].name.as_str());
        writer.push('=');
        writer.push('"');
        escape_attribute_value(attributes[k].value.as_str(), writer);
        writer.push('"');
        k += 1;
        assert(writer@ =~= lead + attributes_markup(attributes@, k as int));
    }
}

/// Appends the markup of a node.
fn write_node(node: &DomNode, writer: &mut String, depth: usize, in_raw_text: bool)
    requires
        depth <= MAX_DOM_DEPTH,
    ensures
        final(writer)@ == old(writer)@ + markup(*node, depth as int, in_raw_text),
    decreases MAX_DOM_DEPTH - depth,
{
    let ghost lead = writer@;
    if depth >= MAX_DOM_DEPTH {
        assert(writer@ =~= lead + markup(*node, depth as int, in_raw_text));
        return;
    }
    match node {
        DomNode::Text(t) => {
            if in_raw_text {
                writer.append(t.as_str());
            } else {
                escape_text_content(t.as_str(), writer);
            }
        },
        DomNode::Element(e) => {
            writer.push('<');
            writer.append(e.tag.as_str());
            write_attributes(&e.attributes, writer);
            let ghost start = seq!['<'] + e.tag@ + attributes_markup(
                e.attributes@,
                e.attributes@.len() as int,
            );
            assert(writer@ =~= lead + start);
            if e.children.len() == 0 && accepts_self_closing(e) {
                writer.push(' ');
                writer.push('/');
                writer.push('>');
                assert(writer@ =~= lead + (start + seq![' ', '/', '>']));
            } else {
                writer.push('>');
                let raw = is_raw_text_element(e);
                let ghost opened = writer@;
                assert(opened + children_markup(e.children@, 0, depth + 1, raw) =~= opened);
                let mut k: usize = 0;
                while k < e.children.len()
                    invariant
                        k <= e.children.len(),
                        depth < MAX_DOM_DEPTH,
                        writer@ == opened + children_markup(
                            e.children@,
                            k as int,
                            depth + 1,
                            raw,
                        ),
                    decreases e.children.len() - k,
                {
                    write_node(&e.children[k], writer, depth + 1, raw);
                    k += 1;
                    assert(writer@ =~= opened + children_markup(
                        e.children@,
                        k as int,
                        depth + 1,
                        raw,
                    ));
                }
                writer.push('<');
                writer.push('/');
                writer.append(e.tag.as_str());
                writer.push('>');
                assert(writer@ =~= lead + markup(*node, depth as int, in_raw_text));
            }
        },
        DomNode::Other => {
            assert(writer@ =~= lead + markup(*node, depth as int, in_raw_text));
        },
    }
}

/// The markup of a node and its descendants. Text is escaped, so that what was text in
/// the document is text when the markup is read again.
pub fn serialize_node(node: &DomNode) -> (r: String)
    ensures
        r@ == markup(*node, 0, false),
{
    let mut output = String::new();
    write_node(node, &mut output, 0, false);
    assert(output@ =~= markup(*node, 0, false));
    output
}

/// The markup of a text node, read as HTML, is its text.
pub proof fn law_text_node_reads_back(text: String)
    ensures
        read_html(markup(DomNode::Text(text), 0, false)) == text@,
{
    law_escaped_html_reads_back(text@);
}

/// Registering an instance changes no earlier one, and its id then gives its name and
/// markup.
pub proof fn law_registering_is_append_only(
    s: StoreModel,
    node_id: usize,
    name: Seq<char>,
    html: Seq<char>,
)
    ensures
        forall|id: int|
            0 <= id < s.instances.len() ==> registered(s, node_id, name, html).instances[id]
                == #[trigger] s.instances[id],
        registered(s, node_id, name, html).instances[s.instances.len() as int] == (name, html),
        registered(s, node_id, name, html).nodes[node_id] == s.instances.len() as usize,
{
}

/// Registering an instance of a node leaves the instances of all other nodes.
pub proof fn law_registering_keeps_other_nodes(
    s: StoreModel,
    node_id: usize,
    other: usize,
    name: Seq<char>,
    html: Seq<char>,
)
    requires
        node_id != other,
    ensures
        ({
            let next = registered(s, node_id, name, html);
            &&& next.instances.len() == s.instances.len() + 1
            &&& next.nodes.contains_key(other) == s.nodes.contains_key(other)
            &&& s.nodes.contains_key(other) ==> next.nodes[other] == s.nodes[other]
            &&& next.nodes.contains_key(node_id)
        }),
{
}

/// What is neither text nor an element has no markup, and neither has what lies too deep.
pub proof fn law_the_rest_has_no_markup(node: DomNode, depth: int, raw: bool)
    requires
        node is Other || depth >= 512,
    ensures
        markup(node, depth, raw).len() == 0,
{
}

} // verus!
