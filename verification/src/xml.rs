//! The parse tree of a page, as far as the list logic reads it, and the list
//! templates that stand in it.

use vstd::prelude::*;
use vstd::string::*;
use crate::dict::Dict;
use crate::params::{text_of, Template};
use crate::text::{append_chars, chars_of, replace_char, replaced, str_eq, string_of, trim, trimmed};

verus! {

/// An attribute of an element: its local name and its value.
#[derive(Debug)]
pub struct XmlAttribute {
    pub name: String,
    pub value: String,
}

/// A node of a parse tree.
#[derive(Debug)]
pub struct XmlNode {
    /// Whether the node is an element; text and comments are none.
    pub is_element: bool,
    /// The name of the element; empty for other nodes.
    pub tag: String,
    /// The text of a text node; for an element, the text it begins with.
    pub text: Option<String>,
    /// The attributes of the element, in the order in which they stand.
    pub attributes: Vec<XmlAttribute>,
    pub children: Vec<XmlNode>,
}

/// `roxmltree::Node`, handed from the parser to the conversion.
#[verifier::external_type_specification]
#[verifier::external_body]
pub struct ExRoxmlNode<'a, 'input: 'a>(roxmltree::Node<'a, 'input>);

/// `roxmltree::Attribute`, handed from the parser to the conversion.
#[verifier::external_type_specification]
#[verifier::external_body]
pub struct ExRoxmlAttribute<'a, 'input: 'a>(roxmltree::Attribute<'a, 'input>);

/// The tree that an XML text stands for: its root node with everything below
/// it; none where the text is not well-formed.
pub uninterp spec fn parsed_tree(text: Seq<char>) -> Option<XmlNode>;

/// A `roxmltree::Attribute` as an attribute of this crate: its `name` and
/// its `value`. Nothing is claimed of the result.
#[verifier::external_body]
fn attribute_of(a: roxmltree::Attribute) -> XmlAttribute {
    XmlAttribute { name: a.name().to_string(), value: a.value().to_string() }
}

/// A `roxmltree::Node` with everything below it as a node of this crate:
/// `is_element`, the local name of `tag_name`, `text`, the `attributes` and
/// the `children`, each in order. Nothing is claimed of the result.
#[verifier::external_body]
fn node_of(n: roxmltree::Node) -> XmlNode {
    XmlNode {
        is_element: n.is_element(),
        tag: n.tag_name().name().to_string(),
        text: n.text().map(|t| t.to_string()),
        attributes: n.attributes().map(attribute_of).collect(),
        children: n.children().map(node_of).collect(),
    }
}

/// `roxmltree::Document::parse`: the tree under the root of the document, or
/// none where parsing fails. The result depends on the characters of the
/// text alone.
#[verifier::external_body]
pub(crate) fn parse_tree(text: &str) -> (r: Option<XmlNode>)
    ensures
        r == parsed_tree(text@),
{
    match roxmltree::Document::parse(text) {
        Ok(doc) => Some(node_of(doc.root())),
        Err(_) => None,
    }
}

/// The value of the first attribute at or after `from` that is named `name`.
pub open spec fn attribute_value(attributes: Seq<XmlAttribute>, name: Seq<char>, from: int) -> Option<
    Seq<char>,
>
    decreases attributes.len() - from,
{
    if from < 0 || from >= attributes.len() {
        None
    } else if attributes[from].name@ == name {
        Some(attributes[from].value@)
    } else {
        attribute_value(attributes, name, from + 1)
    }
}

impl XmlNode {
    /// The value of the attribute `index`, which numbers a parameter that
    /// has no name.
    pub open spec fn index(&self) -> Option<Seq<char>> {
        attribute_value(self.attributes@, "index"@, 0)
    }

    /// The value of the first attribute that is named `name`.
    pub fn attribute(&self, name: &str) -> (r: Option<String>)
        ensures
            text_of(r) == attribute_value(self.attributes@, name@, 0),
    {
        let mut i: usize = 0;
        while i < self.attributes.len()
            invariant
                i <= self.attributes.len(),
                attribute_value(self.attributes@, name@, 0) == attribute_value(
                    self.attributes@,
                    name@,
                    i as int,
                ),
            decreases self.attributes.len() - i,
        {
            if str_eq(self.attributes[i].name.as_str(), name) {
                return Some(self.attributes[i].value.clone());
            }
            i += 1;
        }
        None
    }
}

/// The text of a node; a node without text has the empty text.
pub open spec fn node_text(node: XmlNode) -> Seq<char> {
    match node.text {
        Some(t) => t@,
        None => Seq::empty(),
    }
}

/// The trimmed texts of the first `n` nodes, one after another.
pub open spec fn joint_text(nodes: Seq<XmlNode>, n: int) -> Seq<char>
    decreases n,
{
    if n <= 0 || n > nodes.len() {
        Seq::empty()
    } else {
        joint_text(nodes, n - 1) + trimmed(node_text(nodes[n - 1]))
    }
}

/// The title that a `title` element gives: the text of its last child, with
/// spaces for underscores, trimmed; none where it has no child.
pub open spec fn title_in(element: XmlNode) -> Option<Seq<char>> {
    if element.children@.len() == 0 {
        None
    } else {
        Some(trimmed(replaced(node_text(element.children@.last()), '_', ' ')))
    }
}

/// The title after the first `n` children of a template: that of the last
/// `title` element among them that gives one.
pub open spec fn title_after(children: Seq<XmlNode>, n: int) -> Option<Seq<char>>
    decreases n,
{
    if n <= 0 || n > children.len() {
        None
    } else {
        let c = children[n - 1];
        if c.is_element && c.tag@ == "title"@ && title_in(c) is Some {
            title_in(c)
        } else {
            title_after(children, n - 1)
        }
    }
}

/// The name of a parameter after the first `n` children of a `part`
/// element: the joint text of the last `name` child; where that is empty, the
/// index of the child, if it has one.
pub open spec fn part_name(children: Seq<XmlNode>, n: int) -> Option<Seq<char>>
    decreases n,
{
    if n <= 0 || n > children.len() {
        None
    } else {
        let c = children[n - 1];
        let before = part_name(children, n - 1);
        if c.tag@ == "name"@ {
            let text = joint_text(c.children@, c.children@.len() as int);
            if text.len() > 0 {
                Some(text)
            } else {
                match c.index() {
                    Some(i) => Some(i),
                    None => before,
                }
            }
        } else {
            before
        }
    }
}

/// The value of a parameter after the first `n` children of a `part`
/// element: the joint text of the last `value` child.
pub open spec fn part_value(children: Seq<XmlNode>, n: int) -> Option<Seq<char>>
    decreases n,
{
    if n <= 0 || n > children.len() {
        None
    } else {
        let c = children[n - 1];
        if c.tag@ == "value"@ {
            Some(joint_text(c.children@, c.children@.len() as int))
        } else {
            part_value(children, n - 1)
        }
    }
}

/// The parameters after the first `n` children of a template: each `part`
/// element with a name and a value sets one, a later one replacing an earlier
/// one of the same name.
pub open spec fn params_after(children: Seq<XmlNode>, n: int) -> Map<Seq<char>, Seq<char>>
    decreases n,
{
    if n <= 0 || n > children.len() {
        Map::empty()
    } else {
        let c = children[n - 1];
        let before = params_after(children, n - 1);
        let len = c.children@.len() as int;
        if c.is_element && c.tag@ == "part"@ {
            match (part_name(c.children@, len), part_value(c.children@, len)) {
                (Some(k), Some(v)) => before.insert(k, v),
                _ => before,
            }
        } else {
            before
        }
    }
}

/// The trimmed texts of the nodes, one after another.
pub fn join_texts(nodes: &Vec<XmlNode>) -> (r: String)
    ensures
        r@ == joint_text(nodes@, nodes@.len() as int),
{
    let mut out: Vec<char> = Vec::new();
    let mut i: usize = 0;
    while i < nodes.len()
        invariant
            i <= nodes.len(),
            out@ == joint_text(nodes@, i as int),
        decreases nodes.len() - i,
    {
        match &nodes[i].text {
            Some(t) => {
                let v = chars_of(t.as_str());
                append_chars(&mut out, &trim(&v));
            },
            None => {
                assert(trimmed(Seq::<char>::empty()) =~= Seq::<char>::empty());
                assert(out@ + Seq::<char>::empty() =~= out@);
            },
        }
        i += 1;
    }
    string_of(&out)
}

/// The texts of the parameters.
pub open spec fn param_texts(m: Map<Seq<char>, String>) -> Map<Seq<char>, Seq<char>> {
    Map::new(|k: Seq<char>| m.contains_key(k), |k: Seq<char>| m[k]@)
}

impl Template {
    /// Reads a template from its element in the parse tree: the title from
    /// its `title` child, one parameter from each `part` child that has a
    /// name and a value. Without a title there is no template.
    pub fn new_from_xml(node: &XmlNode) -> (r: Option<Self>)
        ensures
            match r {
                Some(t) => {
                    &&& title_after(node.children@, node.children@.len() as int) == Some(t.title@)
                    &&& param_texts(t.params@) == params_after(
                        node.children@,
                        node.children@.len() as int,
                    )
                    &&& t.params.wf()
                },
                None => title_after(node.children@, node.children@.len() as int) is None,
            },
    {
        let mut title: Option<String> = None;
        let mut params: Dict<String> = Dict::new();
        assert(param_texts(params@) =~= Map::<Seq<char>, Seq<char>>::empty());
        let mut i: usize = 0;
        while i < node.children.len()
            invariant
                i <= node.children.len(),
                params.wf(),
                text_of(title) == title_after(node.children@, i as int),
                param_texts(params@) == params_after(node.children@, i as int),
            decreases node.children.len() - i,
        {
            let n = &node.children[i];
            proof {
                reveal_strlit("title");
                reveal_strlit("part");
                assert("title"@ != "part"@) by {
                    assert("title"@[0] == 't');
                    assert("part"@[0] == 'p');
                }
            }
            if n.is_element {
                if str_eq(n.tag.as_str(), "title") {
                    if n.children.len() > 0 {
                        let last = &n.children[n.children.len() - 1];
                        let text = match &last.text {
                            Some(t) => chars_of(t.as_str()),
                            None => Vec::new(),
                        };
                        let t = trim(&replace_char(&text, '_', ' '));
                        title = Some(string_of(&t));
                    }
                } else if str_eq(n.tag.as_str(), "part") {
                    let key = Self::part_key(&n.children);
                    let value = Self::part_text(&n.children);
                    match key {
                        Some(k) => match value {
                            Some(v) => {
                                let ghost before = params@;
                                let ghost name = k@;
                                let ghost text = v@;
                                params.insert(k, v);
                                assert(param_texts(params@) =~= param_texts(before).insert(
                                    name,
                                    text,
                                ));
                            },
                            None => {},
                        },
                        None => {},
                    }
                }
            }
            i += 1;
        }
        match title {
            Some(t) => Some(Template { title: t, params }),
            None => None,
        }
    }

    /// The name of the parameter that the children of a `part` element give.
    pub fn part_key(children: &Vec<XmlNode>) -> (r: Option<String>)
        ensures
            text_of(r) == part_name(children@, children@.len() as int),
    {
        let mut k: Option<String> = None;
        let mut i: usize = 0;
        while i < children.len()
            invariant
                i <= children.len(),
                text_of(k) == part_name(children@, i as int),
            decreases children.len() - i,
        {
            let c = &children[i];
            if str_eq(c.tag.as_str(), "name") {
                let text = join_texts(&c.children);
                if text.as_str().unicode_len() > 0 {
                    k = Some(text);
                } else {
                    match c.attribute("index") {
                        Some(index) => {
                            k = Some(index);
                        },
                        None => {},
                    }
                }
            }
            i += 1;
        }
        k
    }

    /// The value of the parameter that the children of a `part` element give.
    pub fn part_text(children: &Vec<XmlNode>) -> (r: Option<String>)
        ensures
            text_of(r) == part_value(children@, children@.len() as int),
    {
        let mut v: Option<String> = None;
        let mut i: usize = 0;
        while i < children.len()
            invariant
                i <= children.len(),
                text_of(v) == part_value(children@, i as int),
            decreases children.len() - i,
        {
            let c = &children[i];
            if str_eq(c.tag.as_str(), "value") {
                v = Some(join_texts(&c.children));
            }
            i += 1;
        }
        v
    }
}

} // verus!
