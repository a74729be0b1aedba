//! The node tree that the parser builds: a document root, element nodes with
//! attributes, and text nodes, all owned values forming a proper tree.

use vstd::prelude::*;

verus! {

/// Mathematical model of one attribute: a name and a value.
pub struct AttrModel {
    pub name: Seq<char>,
    pub value: Seq<char>,
}

/// Mathematical model of a node of the tree.
pub enum NodeModel {
    Document { children: Seq<NodeModel> },
    Element { name: Seq<char>, attributes: Seq<AttrModel>, children: Seq<NodeModel> },
    Text { value: Seq<char> },
}

/// Mathematical model of an element: its name, attributes and children.
pub struct ElemModel {
    pub name: Seq<char>,
    pub attributes: Seq<AttrModel>,
    pub children: Seq<NodeModel>,
}

/// An attribute of an element: a name/value pair. Names are not deduplicated
/// and are kept in insertion order.
#[derive(Debug, Clone, PartialEq, PartialOrd)]
pub struct Attribute {
    pub name: String,
    pub value: String,
}

impl View for Attribute {
    type V = AttrModel;

    open spec fn view(&self) -> AttrModel {
        AttrModel { name: self.name@, value: self.value@ }
    }
}

pub open spec fn attrs_model(s: Seq<Attribute>) -> Seq<AttrModel> {
    s.map_values(|a: Attribute| a@)
}

impl Attribute {
    pub fn new(name: String, value: String) -> (a: Attribute)
        ensures
            a@ == (AttrModel { name: name@, value: value@ }),
    {
        Attribute { name, value }
    }

    pub fn name(&self) -> (r: &str)
        ensures
            r@ == self@.name,
    {
        self.name.as_str()
    }

    pub fn value(&self) -> (r: &str)
        ensures
            r@ == self@.value,
    {
        self.value.as_str()
    }
}

/// The value carried by a text node, append-only during construction.
#[derive(Debug, Clone, PartialEq, PartialOrd)]
pub struct TextData {
    pub value: String,
}

/// A text node.
#[derive(Debug, Clone, PartialEq, PartialOrd)]
pub struct Text(pub TextData);

impl View for Text {
    type V = Seq<char>;

    open spec fn view(&self) -> Seq<char> {
        self.0.value@
    }
}

/// The children of the document root.
#[derive(Debug, PartialEq, PartialOrd)]
pub struct DocumentData {
    pub children: Vec<Node>,
}

/// The root of a tree: a document or fragment node holding the top-level
/// children in document order.
#[derive(Debug, PartialEq, PartialOrd)]
pub struct Document(pub DocumentData);

/// The name, attributes and children of an element.
#[derive(Debug, PartialEq, PartialOrd)]
pub struct ElementData {
    pub name: String,
    pub attributes: Vec<Attribute>,
    pub children: Vec<Node>,
}

/// An element node. Its name is stored case-folded to lowercase; attribute
/// names and values are stored as written.
#[derive(Debug, PartialEq, PartialOrd)]
pub struct Element(pub ElementData);

/// A node of the tree: the document root, an element, or a text run.
#[derive(Debug, PartialEq, PartialOrd)]
pub enum Node {
    Document(Document),
    Element(Element),
    Text(Text),
}

pub open spec fn node_model(n: Node) -> NodeModel
    decreases n,
{
    match n {
        Node::Document(d) => NodeModel::Document { children: nodes_model(d.0.children@) },
        Node::Element(e) => NodeModel::Element {
            name: e.0.name@,
            attributes: attrs_model(e.0.attributes@),
            children: nodes_model(e.0.children@),
        },
        Node::Text(t) => NodeModel::Text { value: t.0.value@ },
    }
}

pub open spec fn nodes_model(s: Seq<Node>) -> Seq<NodeModel>
    decreases s,
{
    if s.len() == 0 {
        Seq::empty()
    } else {
        nodes_model(s.drop_last()).push(node_model(s.last()))
    }
}

impl View for Node {
    type V = NodeModel;

    open spec fn view(&self) -> NodeModel {
        node_model(*self)
    }
}

impl View for Document {
    type V = Seq<NodeModel>;

    open spec fn view(&self) -> Seq<NodeModel> {
        nodes_model(self.0.children@)
    }
}

impl View for Element {
    type V = ElemModel;

    open spec fn view(&self) -> ElemModel {
        ElemModel {
            name: self.0.name@,
            attributes: attrs_model(self.0.attributes@),
            children: nodes_model(self.0.children@),
        }
    }
}

/// `nodes_model` of a sequence extended by one node appends that node's model.
pub proof fn lemma_nodes_model_push(s: Seq<Node>, n: Node)
    ensures
        nodes_model(s.push(n)) == nodes_model(s).push(node_model(n)),
{
    let e = s.push(n);
    assert(e.len() > 0);
    assert(e.drop_last() =~= s);
    assert(e.last() == n);
}

impl Document {
    pub fn new(children: Vec<Node>) -> (d: Document)
        ensures
            d@ == nodes_model(children@),
    {
        Document(DocumentData { children })
    }

    pub fn append_child(&mut self, child: Node)
        ensures
            final(self)@ == old(self)@.push(child@),
    {
        let ghost before = self.0.children@;
        self.0.children.push(child);
        proof {
            lemma_nodes_model_push(before, child);
        }
    }
}

impl Element {
    pub fn new(name: String, attributes: Vec<Attribute>, children: Vec<Node>) -> (e: Element)
        ensures
            e@ == (ElemModel {
                name: name@,
                attributes: attrs_model(attributes@),
                children: nodes_model(children@),
            }),
    {
        Element(ElementData { name, attributes, children })
    }

    pub fn append_attribute(&mut self, attribute: Attribute)
        ensures
            final(self)@ == (ElemModel {
                attributes: old(self)@.attributes.push(attribute@),
                ..old(self)@
            }),
    {
        self.0.attributes.push(attribute);
        proof {
            assert(attrs_model(self.0.attributes@) =~= old(self)@.attributes.push(attribute@));
        }
    }

    pub fn append_child(&mut self, child: Node)
        ensures
            final(self)@ == (ElemModel { children: old(self)@.children.push(child@), ..old(self)@ }),
    {
        let ghost before = self.0.children@;
        self.0.children.push(child);
        proof {
            lemma_nodes_model_push(before, child);
        }
    }
}

impl Text {
    pub fn new(value: String) -> (t: Text)
        ensures
            t@ == value@,
    {
        Text(TextData { value })
    }

    pub fn push(&mut self, ch: char)
        ensures
            final(self)@ == old(self)@.push(ch),
    {
        crate::strings::push_char(&mut self.0.value, ch);
    }

    pub fn push_str(&mut self, string: &str)
        ensures
            final(self)@ == old(self)@ + string@,
    {
        crate::strings::push_str(&mut self.0.value, string);
    }
}

/// The model of a node after a child is appended; a text node is unchanged.
pub open spec fn node_with_child(m: NodeModel, c: NodeModel) -> NodeModel {
    match m {
        NodeModel::Document { children } => NodeModel::Document { children: children.push(c) },
        NodeModel::Element { name, attributes, children } => NodeModel::Element {
            name,
            attributes,
            children: children.push(c),
        },
        NodeModel::Text { .. } => m,
    }
}

impl Node {
    /// Appends a child to a container node. Appending to a text node is an
    /// internal-consistency failure, excluded by the precondition.
    pub fn append_child(&mut self, child: Node)
        requires
            !(old(self)@ is Text),
        ensures
            final(self)@ == node_with_child(old(self)@, child@),
    {
        match self {
            Node::Document(d) => d.append_child(child),
            Node::Element(e) => e.append_child(child),
            Node::Text(_) => {
                proof {
                    assert(false);
                }
            },
        }
    }
}

} // verus!
