//! State kept by the user interface: open windows, menu actions, signatures, row keys.
use vstd::prelude::*;

verus! {

/// Which auxiliary windows are open, and their filters.
#[derive(Debug)]
pub struct WindowManager {
    pub show_process_window: bool,
    pub show_modules_window: bool,
    pub process_filter: String,
    pub modules_filter: String,
}

impl WindowManager {
    /// Both windows closed, both filters empty.
    pub fn new() -> (r: Self)
        ensures
            !r.show_process_window,
            !r.show_modules_window,
            r.process_filter@ == Seq::<char>::empty(),
            r.modules_filter@ == Seq::<char>::empty(),
    {
        WindowManager {
            show_process_window: false,
            show_modules_window: false,
            process_filter: String::new(),
            modules_filter: String::new(),
        }
    }
}

/// An action picked from a row's context menu in the flat view.
#[derive(Debug)]
pub enum ContextMenuAction {
    AddElementAfter(usize),
    DeleteElement(usize),
    DeleteMultipleElements(Vec<usize>),
    ChangeType(usize),
    ChangeMultipleTypes(Vec<usize>),
    CopyAddress(usize),
    CopyData(usize),
    SetAsPointer(usize),
    FollowPointer(usize),
    NewClass(u64, String),
}

/// The mathematical content of a context-menu action.
pub enum ActionView {
    AddElementAfter(usize),
    DeleteElement(usize),
    DeleteMultipleElements(Seq<usize>),
    ChangeType(usize),
    ChangeMultipleTypes(Seq<usize>),
    CopyAddress(usize),
    CopyData(usize),
    SetAsPointer(usize),
    FollowPointer(usize),
    NewClass(u64, Seq<char>),
}

impl View for ContextMenuAction {
    type V = ActionView;

    open spec fn view(&self) -> ActionView {
        match self {
            ContextMenuAction::AddElementAfter(i) => ActionView::AddElementAfter(*i),
            ContextMenuAction::DeleteElement(i) => ActionView::DeleteElement(*i),
            ContextMenuAction::DeleteMultipleElements(v) => ActionView::DeleteMultipleElements(v@),
            ContextMenuAction::ChangeType(i) => ActionView::ChangeType(*i),
            ContextMenuAction::ChangeMultipleTypes(v) => ActionView::ChangeMultipleTypes(v@),
            ContextMenuAction::CopyAddress(i) => ActionView::CopyAddress(*i),
            ContextMenuAction::CopyData(i) => ActionView::CopyData(*i),
            ContextMenuAction::SetAsPointer(i) => ActionView::SetAsPointer(*i),
            ContextMenuAction::FollowPointer(i) => ActionView::FollowPointer(*i),
            ContextMenuAction::NewClass(a, n) => ActionView::NewClass(*a, n@),
        }
    }
}

/// A named byte signature to resolve in a module: where the pattern is searched, how the
/// value is read from the match, and the editing buffers and last outcome of the window.
#[derive(Debug, Clone)]
pub struct AppSignature {
    pub name: String,
    pub module: String,
    pub pattern: String,
    pub offset: u64,
    pub is_relative: bool,
    pub rel_inst_len: u64,
    pub offset_buf: String,
    pub rel_inst_len_buf: String,
    pub last_value: Option<u64>,
    pub last_error: Option<String>,
}

impl Default for AppSignature {
    fn default() -> (r: Self)
        ensures
            r.name@.len() == 0,
            r.module@.len() == 0,
            r.pattern@.len() == 0,
            r.offset == 0,
            !r.is_relative,
            r.rel_inst_len == 0,
            r.offset_buf@.len() == 0,
            r.rel_inst_len_buf@.len() == 0,
            r.last_value is None,
            r.last_error is None,
    {
        AppSignature {
            name: String::new(),
            module: String::new(),
            pattern: String::new(),
            offset: 0,
            is_relative: false,
            rel_inst_len: 0,
            offset_buf: String::new(),
            rel_inst_len_buf: String::new(),
            last_value: None,
            last_error: None,
        }
    }
}

/// Identifies a field row: the instance's address and the field definition's id.
#[derive(Debug, Clone, Copy, PartialEq, Eq, Structural, Hash)]
pub struct FieldKey {
    pub instance_address: u64,
    pub field_def_id: u64,
}

} // verus!
