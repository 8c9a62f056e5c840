//! The flat list view: the size shown on each class header, and the action a click in a
//! row's context menu gives.
use vstd::prelude::*;
use vstd::string::StringExecFns;

use crate::elements::{ClassElement, MemoryElement};
use crate::text::{decimal, u64_to_decimal};
use crate::ui_state::{ActionView, ContextMenuAction};

verus! {

/// The total size of the run of field rows that starts at row `j`.
pub open spec fn field_run_size(s: Seq<MemoryElement>, j: int) -> nat
    decreases s.len() - j,
{
    if 0 <= j < s.len() && s[j].class_type == Some(ClassElement::Field) {
        (s[j].size + field_run_size(s, j + 1)) as nat
    } else {
        0
    }
}

/// Row `i` heads a class: the root or a pointed-to class.
pub open spec fn is_header(e: MemoryElement) -> bool {
    e.class_type == Some(ClassElement::Root) || e.class_type == Some(ClassElement::Pointer)
}

/// The size shown on row `i`: for a class header, the sizes of the field rows right after it
/// added up; 0 for any other row.
pub open spec fn header_size(s: Seq<MemoryElement>, i: int) -> nat {
    if is_header(s[i]) {
        field_run_size(s, i + 1)
    } else {
        0
    }
}

fn is_header_row(e: &MemoryElement) -> (r: bool)
    ensures
        r == is_header(*e),
{
    match e.class_type {
        Some(ClassElement::Root) => true,
        Some(ClassElement::Pointer) => true,
        _ => false,
    }
}

fn is_field_row(e: &MemoryElement) -> (r: bool)
    ensures
        r == (e.class_type == Some(ClassElement::Field)),
{
    match e.class_type {
        Some(ClassElement::Field) => true,
        _ => false,
    }
}

/// The size shown on each row: for a class header, the sizes of the field rows that follow
/// it added up, and 0 for every other row. (Sizes that do not fit in 64 bits are left out.)
pub fn class_header_sizes(elems: &[MemoryElement]) -> (r: Vec<u64>)
    requires
        forall|i: int| 0 <= i < elems@.len() ==> #[trigger] header_size(elems@, i) <= u64::MAX,
    ensures
        r@.len() == elems@.len(),
        forall|i: int| 0 <= i < elems@.len() ==> r@[i] == header_size(elems@, i),
{
    let n = elems.len();
    let mut r: Vec<u64> = Vec::new();
    let mut i: usize = 0;
    while i < n
        invariant
            n == elems@.len(),
            i <= n,
            r@.len() == i,
            forall|a: int| 0 <= a < i ==> r@[a] == header_size(elems@, a),
            forall|a: int| 0 <= a < elems@.len() ==> #[trigger] header_size(elems@, a) <= u64::MAX,
        decreases n - i,
    {
        if is_header_row(&elems[i]) {
            assert(header_size(elems@, i as int) <= u64::MAX);
            let mut total: u64 = 0;
            let mut j: usize = i + 1;
            while j < n && is_field_row(&elems[j])
                invariant
                    n == elems@.len(),
                    i < n,
                    i + 1 <= j <= n,
                    total + field_run_size(elems@, j as int) == field_run_size(elems@, i + 1),
                    field_run_size(elems@, i + 1) <= u64::MAX,
                decreases n - j,
            {
                total = total + elems[j].size;
                j = j + 1;
            }
            r.push(total);
        } else {
            r.push(0);
        }
        i = i + 1;
    }
    r
}

/// The buttons of a row's context menu in the flat view.
#[derive(Debug, Clone, Copy, PartialEq, Eq, Structural)]
pub enum MenuButton {
    AddElementAfter,
    DeleteElement,
    ChangeType,
    CopyAddress,
    CopyData,
    SetAsPointer,
    FollowPointer,
    NewClass,
}

pub open spec fn action_view(r: Option<ContextMenuAction>) -> Option<ActionView> {
    match r {
        Some(a) => Some(a@),
        None => None,
    }
}

/// What clicking `button` in the menu opened on row `element_index` gives, with `selected`
/// the selected rows. With more than one row selected, deleting and changing the type apply
/// to all of them and the single-row buttons are disabled; copying data needs a row with
/// data; a new class is named after the number of rows. No menu, no action.
pub open spec fn menu_action(
    button: MenuButton,
    element_index: Option<usize>,
    selected: Seq<usize>,
    elems: Seq<MemoryElement>,
) -> Option<ActionView> {
    match element_index {
        None => None,
        Some(index) => {
            let multiple = selected.len() > 1;
            match button {
                MenuButton::AddElementAfter => Some(ActionView::AddElementAfter(index)),
                MenuButton::DeleteElement => if multiple {
                    Some(ActionView::DeleteMultipleElements(selected))
                } else {
                    Some(ActionView::DeleteElement(index))
                },
                MenuButton::ChangeType => if multiple {
                    Some(ActionView::ChangeMultipleTypes(selected))
                } else {
                    Some(ActionView::ChangeType(index))
                },
                MenuButton::CopyAddress => if multiple {
                    None
                } else {
                    Some(ActionView::CopyAddress(index))
                },
                MenuButton::CopyData => if !multiple && index < elems.len() && elems[index as int].data is Some {
                    Some(ActionView::CopyData(index))
                } else {
                    None
                },
                MenuButton::SetAsPointer => if multiple {
                    None
                } else {
                    Some(ActionView::SetAsPointer(index))
                },
                MenuButton::FollowPointer => if multiple {
                    None
                } else {
                    Some(ActionView::FollowPointer(index))
                },
                MenuButton::NewClass => if !multiple && index < elems.len() {
                    Some(ActionView::NewClass(elems[index as int].address, "Class_"@ + decimal(elems.len())))
                } else {
                    None
                },
            }
        },
    }
}

fn copy_indices(v: &Vec<usize>) -> (r: Vec<usize>)
    ensures
        r@ == v@,
{
    let mut r: Vec<usize> = Vec::new();
    let n = v.len();
    let mut i: usize = 0;
    while i < n
        invariant
            n == v@.len(),
            i <= n,
            r@ == v@.take(i as int),
        decreases n - i,
    {
        r.push(v[i]);
        i = i + 1;
        assert(r@ =~= v@.take(i as int));
    }
    assert(v@.take(n as int) =~= v@);
    r
}

/// The action clicking `button` gives in the context menu opened on row `element_index`, with
/// `selected` the selected rows.
pub fn context_menu_action(
    button: MenuButton,
    element_index: Option<usize>,
    selected: &Vec<usize>,
    elems: &[MemoryElement],
) -> (r: Option<ContextMenuAction>)
    ensures
        action_view(r) == menu_action(button, element_index, selected@, elems@),
{
    let index = match element_index {
        Some(i) => i,
        None => {
            return None;
        },
    };
    let multiple = selected.len() > 1;
    match button {
        MenuButton::AddElementAfter => Some(ContextMenuAction::AddElementAfter(index)),
        MenuButton::DeleteElement => if multiple {
            Some(ContextMenuAction::DeleteMultipleElements(copy_indices(selected)))
        } else {
            Some(ContextMenuAction::DeleteElement(index))
        },
        MenuButton::ChangeType => if multiple {
            Some(ContextMenuAction::ChangeMultipleTypes(copy_indices(selected)))
        } else {
            Some(ContextMenuAction::ChangeType(index))
        },
        MenuButton::CopyAddress => if multiple {
            None
        } else {
            Some(ContextMenuAction::CopyAddress(index))
        },
        MenuButton::CopyData => if !multiple && index < elems.len() && elems[index].data.is_some() {
            Some(ContextMenuAction::CopyData(index))
        } else {
            None
        },
        MenuButton::SetAsPointer => if multiple {
            None
        } else {
            Some(ContextMenuAction::SetAsPointer(index))
        },
        MenuButton::FollowPointer => if multiple {
            None
        } else {
            Some(ContextMenuAction::FollowPointer(index))
        },
        MenuButton::NewClass => if !multiple && index < elems.len() {
            proof {
                reveal_strlit("Class_");
            }
            let mut name = String::from_str("Class_");
            let count = u64_to_decimal(elems.len() as u64);
            name.append(count.as_str());
            Some(ContextMenuAction::NewClass(elems[index].address, name))
        } else {
            None
        },
    }
}

} // verus!
