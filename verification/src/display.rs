//! The tree view of a memory structure: its nodes, the expanded and selected ones, and the
//! details panel.
use vstd::prelude::*;
use vstd::string::StringExecFns;

use crate::definitions::{ClassDefView, ClassDefinition};
use crate::nodes::{clone_field, clone_instance, fresh_field, lemma_fields_view, opt_str_view, ClassInstance, FieldView, InstanceView, MemoryField};
use crate::structure::MemoryStructure;
use crate::text::{decimal, u64_to_decimal};
use crate::types::{type_size, FieldType};

verus! {

/// A node of the memory-structure tree.
#[derive(Debug)]
pub enum MemoryNode {
    Root(ClassInstance),
    ClassInstance(ClassInstance),
    Field(MemoryField),
    ClassDefinition(ClassDefinition),
}

/// The mathematical content of a tree node.
pub enum NodeView {
    Root(InstanceView),
    ClassInstance(InstanceView),
    Field(FieldView),
    ClassDefinition(ClassDefView),
}

impl View for MemoryNode {
    type V = NodeView;

    open spec fn view(&self) -> NodeView {
        match self {
            MemoryNode::Root(i) => NodeView::Root(i@),
            MemoryNode::ClassInstance(i) => NodeView::ClassInstance(i@),
            MemoryNode::Field(f) => NodeView::Field(f@),
            MemoryNode::ClassDefinition(d) => NodeView::ClassDefinition(d@),
        }
    }
}

impl Clone for MemoryNode {
    fn clone(&self) -> (r: Self)
        ensures
            r@ == self@,
    {
        match self {
            MemoryNode::Root(i) => MemoryNode::Root(clone_instance(i)),
            MemoryNode::ClassInstance(i) => MemoryNode::ClassInstance(clone_instance(i)),
            MemoryNode::Field(f) => MemoryNode::Field(clone_field(f)),
            MemoryNode::ClassDefinition(d) => MemoryNode::ClassDefinition(d.clone()),
        }
    }
}

/// The child a field of an instance shows as: its nested instance when it has one, the field
/// itself otherwise.
pub open spec fn field_child(f: FieldView) -> NodeView {
    if f.field_type == FieldType::ClassInstance && f.nested is Some {
        NodeView::ClassInstance(f.nested->0)
    } else {
        NodeView::Field(f)
    }
}

/// The children of a tree node.
pub open spec fn node_children(n: NodeView) -> Seq<NodeView> {
    match n {
        NodeView::Root(i) => i.fields.map_values(|f: FieldView| field_child(f)),
        NodeView::ClassInstance(i) => i.fields.map_values(|f: FieldView| field_child(f)),
        NodeView::ClassDefinition(d) => d.fields.map_values(
            |fd: crate::definitions::FieldDefinition| NodeView::Field(fresh_field(0, opt_str_view(fd.name), fd.field_type, 0)),
        ),
        NodeView::Field(f) => if f.field_type == FieldType::ClassInstance && f.nested is Some {
            seq![NodeView::ClassInstance(f.nested->0)]
        } else {
            Seq::empty()
        },
    }
}

fn instance_children(inst: &ClassInstance) -> (r: Vec<MemoryNode>)
    ensures
        r@.map_values(|n: MemoryNode| n@) == inst@.fields.map_values(|f: FieldView| field_child(f)),
{
    proof { lemma_fields_view(inst.fields@); }
    let mut children: Vec<MemoryNode> = Vec::new();
    let mut i: usize = 0;
    while i < inst.fields.len()
        invariant
            i <= inst.fields@.len(),
            inst@.fields.len() == inst.fields@.len(),
            forall|j: int| 0 <= j < inst.fields@.len() ==> #[trigger] inst@.fields[j] == inst.fields@[j]@,
            children@.len() == i,
            forall|j: int| 0 <= j < i ==> (#[trigger] children@[j])@ == field_child(inst@.fields[j]),
        decreases inst.fields@.len() - i,
    {
        let field = &inst.fields[i];
        if field.field_type == FieldType::ClassInstance {
            match &field.nested_instance {
                Some(n) => children.push(MemoryNode::ClassInstance(clone_instance(n))),
                None => children.push(MemoryNode::Field(clone_field(field))),
            }
        } else {
            children.push(MemoryNode::Field(clone_field(field)));
        }
        i = i + 1;
    }
    assert(children@.map_values(|n: MemoryNode| n@) =~= inst@.fields.map_values(|f: FieldView| field_child(f)));
    children
}

impl MemoryNode {
    /// The address of an instance or field node; definitions have none.
    pub fn get_address(&self) -> (r: Option<u64>)
        ensures
            r == match self {
                MemoryNode::Root(i) => Some(i.address),
                MemoryNode::ClassInstance(i) => Some(i.address),
                MemoryNode::Field(f) => Some(f.address),
                MemoryNode::ClassDefinition(_) => None::<u64>,
            },
    {
        match self {
            MemoryNode::Root(instance) => Some(instance.address),
            MemoryNode::ClassInstance(instance) => Some(instance.address),
            MemoryNode::Field(field) => Some(field.address),
            MemoryNode::ClassDefinition(_) => None,
        }
    }

    /// The size of the node: an instance's or definition's total size, a field's type size.
    pub fn get_size(&self) -> (r: Option<u64>)
        ensures
            r == Some(match self {
                MemoryNode::Root(i) => i.total_size,
                MemoryNode::ClassInstance(i) => i.total_size,
                MemoryNode::Field(f) => type_size(f.field_type),
                MemoryNode::ClassDefinition(d) => d.total_size,
            }),
    {
        match self {
            MemoryNode::Root(instance) => Some(instance.get_size()),
            MemoryNode::ClassInstance(instance) => Some(instance.get_size()),
            MemoryNode::Field(field) => Some(field.get_size()),
            MemoryNode::ClassDefinition(class_def) => Some(class_def.total_size),
        }
    }

    /// The type of a field node.
    pub fn get_field_type(&self) -> (r: Option<&FieldType>)
        ensures
            r == match self {
                MemoryNode::Field(f) => Some(&f.field_type),
                _ => None::<&FieldType>,
            },
    {
        match self {
            MemoryNode::Field(field) => Some(&field.field_type),
            _ => None,
        }
    }

    /// Instances and definitions can be expanded; fields cannot.
    pub fn is_expandable(&self) -> (r: bool)
        ensures
            r == !(self is Field),
    {
        matches!(self, MemoryNode::Root(_) | MemoryNode::ClassInstance(_) | MemoryNode::ClassDefinition(_))
    }

    /// The children of the node: an instance's fields (nested instances in place of their
    /// fields), a definition's fields as unplaced fields, a field's nested instance.
    pub fn get_children(&self, memory_structure: &MemoryStructure) -> (r: Vec<MemoryNode>)
        ensures
            r@.map_values(|n: MemoryNode| n@) == node_children(self@),
    {
        match self {
            MemoryNode::Root(instance) => instance_children(instance),
            MemoryNode::ClassInstance(instance) => instance_children(instance),
            MemoryNode::ClassDefinition(class_def) => {
                let mut children: Vec<MemoryNode> = Vec::new();
                let mut i: usize = 0;
                while i < class_def.fields.len()
                    invariant
                        i <= class_def.fields@.len(),
                        children@.len() == i,
                        forall|j: int| 0 <= j < i ==> (#[trigger] children@[j])@ == NodeView::Field(
                            fresh_field(0, opt_str_view(class_def.fields@[j].name), class_def.fields@[j].field_type, 0),
                        ),
                    decreases class_def.fields@.len() - i,
                {
                    let field_def = &class_def.fields[i];
                    let memory_field = match &field_def.name {
                        Some(n) => MemoryField::new_named(n.clone(), field_def.field_type, 0),
                        None => MemoryField::new_hex(field_def.field_type, 0),
                    };
                    children.push(MemoryNode::Field(memory_field));
                    i = i + 1;
                }
                assert(children@.map_values(|n: MemoryNode| n@) =~= node_children(self@));
                children
            },
            MemoryNode::Field(field) => {
                let mut children: Vec<MemoryNode> = Vec::new();
                if field.field_type == FieldType::ClassInstance {
                    if let Some(nested_instance) = &field.nested_instance {
                        children.push(MemoryNode::ClassInstance(clone_instance(nested_instance)));
                    }
                }
                assert(children@.map_values(|n: MemoryNode| n@) =~= node_children(self@));
                children
            },
        }
    }
}

/// The id of a tree node, from its kind, name and address.
pub open spec fn node_id(n: NodeView) -> Seq<char> {
    match n {
        NodeView::Root(i) => "root_"@ + i.name,
        NodeView::ClassInstance(i) => "instance_"@ + i.name + "_"@ + decimal(i.address as nat),
        NodeView::Field(f) => "field_"@ + (match f.name {
            Some(nm) => nm,
            None => "unnamed"@,
        }) + "_"@ + decimal(f.address as nat),
        NodeView::ClassDefinition(d) => "def_"@ + d.name,
    }
}

/// The types offered when editing a field.
pub open spec fn editable_types() -> Seq<FieldType> {
    seq![
        FieldType::Hex64, FieldType::Hex32, FieldType::Hex16, FieldType::Hex8,
        FieldType::Int64, FieldType::Int32, FieldType::Int16, FieldType::Int8,
        FieldType::UInt64, FieldType::UInt32, FieldType::UInt16, FieldType::UInt8,
        FieldType::Bool, FieldType::Float, FieldType::Double,
        FieldType::Vector4, FieldType::Vector3, FieldType::Vector2,
        FieldType::Text, FieldType::TextPointer,
        FieldType::ClassInstance,
    ]
}

/// The tree view's state: expanded and selected nodes and the field being edited.
#[derive(Debug)]
pub struct MemoryStructureDisplay {
    pub expanded_nodes: Vec<String>,
    pub selected_node: Option<String>,
    pub editing_field: Option<String>,
    pub editing_name: String,
    pub editing_type: Option<FieldType>,
}

impl Default for MemoryStructureDisplay {
    fn default() -> (r: Self)
        ensures
            r.expanded_nodes@.len() == 0,
            r.selected_node is None,
            r.editing_field is None,
            r.editing_name@ == Seq::<char>::empty(),
            r.editing_type is None,
    {
        MemoryStructureDisplay {
            expanded_nodes: Vec::new(),
            selected_node: None,
            editing_field: None,
            editing_name: String::new(),
            editing_type: None,
        }
    }
}

impl MemoryStructureDisplay {
    /// Nothing expanded, selected or being edited.
    pub fn new() -> (r: Self)
        ensures
            r.expanded_nodes@.len() == 0,
            r.selected_node is None,
            r.editing_field is None,
            r.editing_name@ == Seq::<char>::empty(),
            r.editing_type is None,
    {
        Self::default()
    }

    /// The id under which a node is expanded or selected.
    pub fn get_node_id(&self, node: &MemoryNode) -> (r: String)
        ensures
            r@ == node_id(node@),
    {
        match node {
            MemoryNode::Root(instance) => {
                proof { reveal_strlit("root_"); }
                let mut s = String::from_str("root_");
                s.append(instance.name.as_str());
                s
            },
            MemoryNode::ClassInstance(instance) => {
                proof {
                    reveal_strlit("instance_");
                    reveal_strlit("_");
                }
                let mut s = String::from_str("instance_");
                s.append(instance.name.as_str());
                s.append("_");
                let a = u64_to_decimal(instance.address);
                s.append(a.as_str());
                s
            },
            MemoryNode::Field(field) => {
                proof {
                    reveal_strlit("field_");
                    reveal_strlit("unnamed");
                    reveal_strlit("_");
                }
                let mut s = String::from_str("field_");
                match &field.name {
                    Some(n) => s.append(n.as_str()),
                    None => s.append("unnamed"),
                }
                s.append("_");
                let a = u64_to_decimal(field.address);
                s.append(a.as_str());
                s
            },
            MemoryNode::ClassDefinition(class_def) => {
                proof { reveal_strlit("def_"); }
                let mut s = String::from_str("def_");
                s.append(class_def.name.as_str());
                s
            },
        }
    }

    /// The id of the selected node.
    pub fn get_selected_node(&self) -> (r: Option<&String>)
        ensures
            r == match &self.selected_node {
                Some(s) => Some(s),
                None => None::<&String>,
            },
    {
        match &self.selected_node {
            Some(s) => Some(s),
            None => None,
        }
    }

    /// Deselects the selected node.
    pub fn clear_selection(&mut self)
        ensures
            final(self).selected_node is None,
            final(self).expanded_nodes == old(self).expanded_nodes,
            final(self).editing_field == old(self).editing_field,
            final(self).editing_name == old(self).editing_name,
            final(self).editing_type == old(self).editing_type,
    {
        self.selected_node = None;
    }

    /// The types offered when editing a field.
    pub fn get_available_field_types(&self) -> (r: Vec<FieldType>)
        ensures
            r@ == editable_types(),
    {
        let r = vec![
            FieldType::Hex64, FieldType::Hex32, FieldType::Hex16, FieldType::Hex8,
            FieldType::Int64, FieldType::Int32, FieldType::Int16, FieldType::Int8,
            FieldType::UInt64, FieldType::UInt32, FieldType::UInt16, FieldType::UInt8,
            FieldType::Bool, FieldType::Float, FieldType::Double,
            FieldType::Vector4, FieldType::Vector3, FieldType::Vector2,
            FieldType::Text, FieldType::TextPointer,
            FieldType::ClassInstance,
        ];
        assert(r@ =~= editable_types());
        r
    }
}

/// The details panel: the node it shows.
#[derive(Debug)]
pub struct MemoryDetailsPanel {
    pub selected_node: Option<MemoryNode>,
}

impl Default for MemoryDetailsPanel {
    fn default() -> (r: Self)
        ensures
            r.selected_node is None,
    {
        MemoryDetailsPanel { selected_node: None }
    }
}

impl MemoryDetailsPanel {
    /// A panel showing nothing.
    pub fn new() -> (r: Self)
        ensures
            r.selected_node is None,
    {
        Self::default()
    }

    /// Shows `node` (or nothing).
    pub fn set_selected_node(&mut self, node: Option<MemoryNode>)
        ensures
            final(self).selected_node == node,
    {
        self.selected_node = node;
    }
}

} // verus!
