use vstd::prelude::*;

verus! {

/// An element: its tag name, its `id` attribute and the tokens of its
/// `class` attribute.
pub struct ElementData {
    pub tag_name: String,
    pub id: Option<String>,
    pub classes: Vec<String>,
}

pub enum NodeType {
    Element(ElementData),
    Text(String),
}

pub struct Node {
    pub node_type: NodeType,
    pub children: Vec<Node>,
}

impl ElementData {
    pub fn new(tag_name: String, id: Option<String>, classes: Vec<String>) -> (r: ElementData)
        ensures
            r.tag_name == tag_name,
            r.id == id,
            r.classes@ == classes@,
    {
        ElementData { tag_name, id, classes }
    }

    /// Whether `class` is one of the element's class tokens.
    pub open spec fn has_class(&self, class: Seq<char>) -> bool {
        exists|m: int| 0 <= m < self.classes@.len() && #[trigger] self.classes@[m]@ == class
    }

    pub fn contains_class(&self, class: &String) -> (r: bool)
        ensures
            r == self.has_class(class@),
    {
        let mut i: usize = 0;
        while i < self.classes.len()
            invariant
                0 <= i <= self.classes@.len(),
                forall|m: int| 0 <= m < i ==> self.classes@[m]@ != class@,
            decreases self.classes@.len() - i,
        {
            if self.classes[i] == *class {
                return true;
            }
            i += 1;
        }
        false
    }
}

impl Node {
    pub fn element(data: ElementData, children: Vec<Node>) -> (r: Node)
        ensures
            r.node_type == NodeType::Element(data),
            r.children@ == children@,
    {
        Node { node_type: NodeType::Element(data), children }
    }

    pub fn text(text: String) -> (r: Node)
        ensures
            r.node_type == NodeType::Text(text),
            r.children@.len() == 0,
    {
        Node { node_type: NodeType::Text(text), children: Vec::new() }
    }
}

} // verus!
