//! The selection of the flat element list: plain, range and toggling clicks.
use vstd::prelude::*;

use crate::elements::{ClassElement, MemoryElement};

verus! {

/// A class header row (root or pointer), which starts a container of field rows.
pub open spec fn is_header(e: MemoryElement) -> bool {
    e.class_type == Some(ClassElement::Root) || e.class_type == Some(ClassElement::Pointer)
}

/// The nearest header row before position `k`.
pub open spec fn container_before(elems: Seq<MemoryElement>, k: int) -> Option<usize>
    decreases k,
{
    if k <= 0 {
        None
    } else if is_header(elems[k - 1]) {
        Some((k - 1) as usize)
    } else {
        container_before(elems, k - 1)
    }
}

/// The first position of `x` in `s`.
pub open spec fn first_pos(s: Seq<usize>, x: usize) -> int
    decreases s.len(),
{
    if s.len() == 0 || s[0] == x {
        0
    } else {
        1 + first_pos(s.drop_first(), x)
    }
}

/// The selection after adding, in order, each field row from `i` through `end` that is not
/// selected yet.
pub open spec fn add_range(sel: Seq<usize>, elems: Seq<MemoryElement>, i: int, end: int) -> Seq<usize>
    decreases end + 1 - i,
{
    if i > end || i >= elems.len() || i < 0 {
        sel
    } else {
        let next = if elems[i].class_type == Some(ClassElement::Field) && !sel.contains(i as usize) {
            sel.push(i as usize)
        } else {
            sel
        };
        add_range(next, elems, i + 1, end)
    }
}

/// The selection after a range click on `idx`: the field rows between the last selected row
/// and `idx` are added.
pub open spec fn range_added(sel: Seq<usize>, elems: Seq<MemoryElement>, idx: usize) -> Seq<usize> {
    if sel.len() == 0 {
        sel
    } else {
        let l = sel.last();
        let start = if l < idx { l } else { idx };
        let end = if l < idx { idx } else { l };
        add_range(sel, elems, start as int, end as int)
    }
}

/// The selected rows and the container of the selection after a click on row `idx`.
pub open spec fn after_click(
    sel: Seq<usize>,
    last: Option<usize>,
    elems: Seq<MemoryElement>,
    idx: usize,
    ctrl: bool,
    shift: bool,
) -> (Seq<usize>, Option<usize>) {
    match container_before(elems, idx as int) {
        None => (sel, last),
        Some(c) => if !ctrl && !shift {
            (seq![idx], Some(c))
        } else if ctrl && !shift {
            if sel.contains(idx) {
                (sel.remove(first_pos(sel, idx)), last)
            } else if last == Some(c) {
                (sel.push(idx), last)
            } else {
                (seq![idx], Some(c))
            }
        } else if !ctrl {
            match last {
                Some(lc) => if lc == c { (range_added(sel, elems, idx), last) } else { (seq![idx], Some(c)) },
                None => (seq![idx], Some(c)),
            }
        } else {
            match last {
                Some(lc) => if lc == c { (range_added(sel, elems, idx), last) } else { (sel, last) },
                None => (seq![idx], Some(c)),
            }
        },
    }
}

/// A range click whose range ends at the largest index, which has no successor.
pub open spec fn range_end_overflows(sel: Seq<usize>, last: Option<usize>, elems: Seq<MemoryElement>, idx: usize, shift: bool) -> bool {
    &&& shift
    &&& container_before(elems, idx as int) is Some
    &&& last == container_before(elems, idx as int)
    &&& sel.len() > 0
    &&& (sel.last() == usize::MAX || idx == usize::MAX)
}

/// Which rows of the flat view are selected.
pub struct SelectionManager {
    pub selected_fields: Vec<usize>,
    pub last_selected_container: Option<usize>,
    pub pending_field_click: Option<(usize, bool, bool)>,
}

fn index_in(v: &Vec<usize>, x: usize) -> (r: Option<usize>)
    ensures
        match r {
            Some(p) => p == first_pos(v@, x) && p < v@.len() && v@.contains(x),
            None => !v@.contains(x),
        },
{
    let mut i: usize = 0;
    assert(v@.skip(0) =~= v@);
    while i < v.len()
        invariant
            i <= v@.len(),
            forall|j: int| 0 <= j < i ==> v@[j] != x,
            first_pos(v@, x) == i + first_pos(v@.skip(i as int), x),
        decreases v@.len() - i,
    {
        proof {
            assert(v@.skip(i as int).drop_first() =~= v@.skip(i + 1));
        }
        if v[i] == x {
            return Some(i);
        }
        i = i + 1;
    }
    None
}

impl SelectionManager {
    /// Nothing selected.
    pub fn new() -> (r: Self)
        ensures
            r.selected_fields@ == Seq::<usize>::empty(),
            r.last_selected_container is None,
            r.pending_field_click is None,
    {
        SelectionManager { selected_fields: Vec::new(), last_selected_container: None, pending_field_click: None }
    }

    /// The nearest class header row before row `field_index`.
    pub fn find_container_for_field(&self, memory_elements: &[MemoryElement], field_index: usize) -> (r: Option<usize>)
        requires
            field_index <= memory_elements@.len(),
        ensures
            r == container_before(memory_elements@, field_index as int),
    {
        let mut i: usize = field_index;
        while i > 0
            invariant
                i <= field_index <= memory_elements@.len(),
                container_before(memory_elements@, field_index as int) == container_before(memory_elements@, i as int),
            decreases i,
        {
            let ct = memory_elements[i - 1].class_type;
            if ct == Some(ClassElement::Root) || ct == Some(ClassElement::Pointer) {
                return Some(i - 1);
            }
            i = i - 1;
        }
        None
    }

    /// Adds each field row from `start` through `end` that is not selected yet.
    fn add_field_range(&mut self, memory_elements: &[MemoryElement], start: usize, end: usize)
        requires
            end < usize::MAX,
        ensures
            final(self).selected_fields@ == add_range(old(self).selected_fields@, memory_elements@, start as int, end as int),
            final(self).last_selected_container == old(self).last_selected_container,
            final(self).pending_field_click == old(self).pending_field_click,
    {
        let mut i: usize = start;
        while i <= end && i < memory_elements.len()
            invariant
                start <= i,
                end < usize::MAX,
                add_range(old(self).selected_fields@, memory_elements@, start as int, end as int)
                    == add_range(self.selected_fields@, memory_elements@, i as int, end as int),
                self.last_selected_container == old(self).last_selected_container,
                self.pending_field_click == old(self).pending_field_click,
            decreases end + 1 - i,
        {
            if memory_elements[i].class_type == Some(ClassElement::Field) {
                if index_in(&self.selected_fields, i).is_none() {
                    self.selected_fields.push(i);
                }
            }
            i = i + 1;
        }
    }

    /// Updates the selection for a click on row `field_index`: a plain click selects only
    /// that row; ctrl toggles it (within the current container); shift selects the field rows
    /// between the last selected row and it; ctrl with shift adds that range. A click on a row
    /// with no container row before it changes nothing.
    pub fn handle_field_selection(
        &mut self,
        memory_elements: &[MemoryElement],
        field_index: usize,
        ctrl_pressed: bool,
        shift_pressed: bool,
    )
        requires
            field_index <= memory_elements@.len(),
            !range_end_overflows(
                old(self).selected_fields@,
                old(self).last_selected_container,
                memory_elements@,
                field_index,
                shift_pressed,
            ),
        ensures
            (final(self).selected_fields@, final(self).last_selected_container) == after_click(
                old(self).selected_fields@,
                old(self).last_selected_container,
                memory_elements@,
                field_index,
                ctrl_pressed,
                shift_pressed,
            ),
            final(self).pending_field_click == old(self).pending_field_click,
    {
        let container_index = self.find_container_for_field(memory_elements, field_index);
        let c = match container_index {
            Some(c) => c,
            None => {
                return;
            },
        };
        if !ctrl_pressed && !shift_pressed {
            self.selected_fields.clear();
            self.selected_fields.push(field_index);
            self.last_selected_container = Some(c);
        } else if ctrl_pressed && !shift_pressed {
            match index_in(&self.selected_fields, field_index) {
                Some(pos) => {
                    self.selected_fields.remove(pos);
                },
                None => {
                    if self.last_selected_container == Some(c) {
                        self.selected_fields.push(field_index);
                    } else {
                        self.selected_fields.clear();
                        self.selected_fields.push(field_index);
                        self.last_selected_container = Some(c);
                    }
                },
            }
        } else {
            match self.last_selected_container {
                Some(last_container) => {
                    if last_container == c {
                        let n = self.selected_fields.len();
                        if n > 0 {
                            let last_selected = self.selected_fields[n - 1];
                            let start = if last_selected < field_index { last_selected } else { field_index };
                            let end = if last_selected < field_index { field_index } else { last_selected };
                            self.add_field_range(memory_elements, start, end);
                        }
                    } else if !ctrl_pressed {
                        self.selected_fields.clear();
                        self.selected_fields.push(field_index);
                        self.last_selected_container = Some(c);
                    }
                },
                None => {
                    self.selected_fields.clear();
                    self.selected_fields.push(field_index);
                    self.last_selected_container = Some(c);
                },
            }
        }
        proof {
            assert(self.selected_fields@ =~= after_click(
                old(self).selected_fields@,
                old(self).last_selected_container,
                memory_elements@,
                field_index,
                ctrl_pressed,
                shift_pressed,
            ).0);
        }
    }

    /// Whether row `field_index` is selected.
    pub fn is_field_selected(&self, field_index: usize) -> (r: bool)
        ensures
            r == self.selected_fields@.contains(field_index),
    {
        index_in(&self.selected_fields, field_index).is_some()
    }

    /// Deselects everything and forgets the container.
    pub fn clear_selections(&mut self)
        ensures
            final(self).selected_fields@ == Seq::<usize>::empty(),
            final(self).last_selected_container is None,
            final(self).pending_field_click == old(self).pending_field_click,
    {
        self.selected_fields.clear();
        self.last_selected_container = None;
    }
}

proof fn lemma_first_pos(s: Seq<usize>, x: usize)
    requires
        s.contains(x),
    ensures
        0 <= first_pos(s, x) < s.len(),
        s[first_pos(s, x)] == x,
        forall|j: int| 0 <= j < first_pos(s, x) ==> s[j] != x,
    decreases s.len(),
{
    if s[0] != x {
        let k = choose|k: int| 0 <= k < s.len() && s[k] == x;
        assert(s.drop_first()[k - 1] == x);
        lemma_first_pos(s.drop_first(), x);
        assert forall|j: int| 0 <= j < first_pos(s, x) implies s[j] != x by {
            if j > 0 {
                assert(s[j] == s.drop_first()[j - 1]);
            }
        }
    }
}

proof fn lemma_add_range_distinct(sel: Seq<usize>, elems: Seq<MemoryElement>, i: int, end: int)
    requires
        sel.no_duplicates(),
        elems.len() <= usize::MAX,
    ensures
        add_range(sel, elems, i, end).no_duplicates(),
        forall|x: usize| sel.contains(x) ==> #[trigger] add_range(sel, elems, i, end).contains(x),
        forall|x: usize| #[trigger] add_range(sel, elems, i, end).contains(x) && !sel.contains(x)
            ==> i <= x <= end && x < elems.len() && elems[x as int].class_type == Some(ClassElement::Field),
    decreases end + 1 - i,
{
    if !(i > end || i >= elems.len() || i < 0) {
        let next = if elems[i].class_type == Some(ClassElement::Field) && !sel.contains(i as usize) {
            sel.push(i as usize)
        } else {
            sel
        };
        assert(next.no_duplicates()) by {
            if next != sel {
                assert forall|a: int, b: int| 0 <= a < b < next.len() implies next[a] != next[b] by {
                    if b == sel.len() {
                        assert(sel.contains(sel[a]));
                    }
                }
            }
        }
        assert forall|x: usize| sel.contains(x) implies next.contains(x) by {
            if next != sel {
                let k = choose|k: int| 0 <= k < sel.len() && sel[k] == x;
                assert(next[k] == x);
            }
        }
        assert forall|x: usize| next.contains(x) && !sel.contains(x) implies x == i by {
            let k = choose|k: int| 0 <= k < next.len() && next[k] == x;
            if elems[i].class_type == Some(ClassElement::Field) && !sel.contains(i as usize) {
                if k < sel.len() {
                    assert(sel[k] == x);
                }
            }
        }
        lemma_add_range_distinct(next, elems, i + 1, end);
    }
}

/// A click never selects the same row twice: a selection without repeated rows stays so.
pub proof fn law_click_keeps_selection_distinct(
    sel: Seq<usize>,
    last: Option<usize>,
    elems: Seq<MemoryElement>,
    idx: usize,
    ctrl: bool,
    shift: bool,
)
    requires
        sel.no_duplicates(),
        elems.len() <= usize::MAX,
    ensures
        after_click(sel, last, elems, idx, ctrl, shift).0.no_duplicates(),
{
    if sel.len() > 0 {
        let l = sel.last();
        let start = if l < idx { l } else { idx };
        let end = if l < idx { idx } else { l };
        lemma_add_range_distinct(sel, elems, start as int, end as int);
    }
    if sel.contains(idx) {
        lemma_first_pos(sel, idx);
        let p = first_pos(sel, idx);
        let r = sel.remove(p);
        assert forall|a: int, b: int| 0 <= a < b < r.len() implies r[a] != r[b] by {
            let a0 = if a < p { a } else { a + 1 };
            let b0 = if b < p { b } else { b + 1 };
            assert(r[a] == sel[a0]);
            assert(r[b] == sel[b0]);
        }
    } else {
        let r = sel.push(idx);
        assert forall|a: int, b: int| 0 <= a < b < r.len() implies r[a] != r[b] by {
            if b == sel.len() {
                assert(sel.contains(sel[a]));
            }
        }
    }
}

/// A range click only adds field rows lying between the last selected row and the clicked
/// one, and keeps every row that was selected.
pub proof fn law_range_click_adds_fields(sel: Seq<usize>, elems: Seq<MemoryElement>, idx: usize)
    requires
        sel.no_duplicates(),
        sel.len() > 0,
        elems.len() <= usize::MAX,
    ensures
        forall|x: usize| sel.contains(x) ==> #[trigger] range_added(sel, elems, idx).contains(x),
        forall|x: usize| #[trigger] range_added(sel, elems, idx).contains(x) && !sel.contains(x) ==> {
            &&& (sel.last() <= x <= idx || idx <= x <= sel.last())
            &&& x < elems.len()
            &&& elems[x as int].class_type == Some(ClassElement::Field)
        },
{
    let l = sel.last();
    let start = if l < idx { l } else { idx };
    let end = if l < idx { idx } else { l };
    lemma_add_range_distinct(sel, elems, start as int, end as int);
}

/// A plain click on a row inside a container selects that row alone and makes its container
/// current.
pub proof fn law_plain_click_selects_one(
    sel: Seq<usize>,
    last: Option<usize>,
    elems: Seq<MemoryElement>,
    idx: usize,
)
    requires
        container_before(elems, idx as int) is Some,
    ensures
        after_click(sel, last, elems, idx, false, false) == (seq![idx], container_before(elems, idx as int)),
{
}

/// A ctrl-click on a selected row deselects it; on an unselected row of the current container
/// it selects it. No other row changes.
pub proof fn law_ctrl_click_toggles(sel: Seq<usize>, last: Option<usize>, elems: Seq<MemoryElement>, idx: usize)
    requires
        sel.no_duplicates(),
        container_before(elems, idx as int) is Some,
        sel.contains(idx) || last == container_before(elems, idx as int),
    ensures
        after_click(sel, last, elems, idx, true, false).0.contains(idx) == !sel.contains(idx),
        forall|x: usize| x != idx ==> (#[trigger] after_click(sel, last, elems, idx, true, false).0.contains(x) == sel.contains(x)),
        after_click(sel, last, elems, idx, true, false).1 == last,
{
    let r = after_click(sel, last, elems, idx, true, false).0;
    if sel.contains(idx) {
        lemma_first_pos(sel, idx);
        let p = first_pos(sel, idx);
        assert forall|x: usize| r.contains(x) == (sel.contains(x) && x != idx) by {
            if sel.contains(x) && x != idx {
                let k = choose|k: int| 0 <= k < sel.len() && sel[k] == x;
                let k1 = if k < p { k } else { k - 1 };
                assert(r[k1] == x);
            }
            if r.contains(x) {
                let k = choose|k: int| 0 <= k < r.len() && r[k] == x;
                let k0 = if k < p { k } else { k + 1 };
                assert(sel[k0] == x);
                assert(k0 != p);
            }
        }
    } else {
        assert forall|x: usize| r.contains(x) == (sel.contains(x) || x == idx) by {
            if sel.contains(x) {
                let k = choose|k: int| 0 <= k < sel.len() && sel[k] == x;
                assert(r[k] == x);
            }
            if x == idx {
                assert(r[sel.len() as int] == x);
            }
            if r.contains(x) && x != idx {
                let k = choose|k: int| 0 <= k < r.len() && r[k] == x;
                assert(sel[k] == x);
            }
        }
    }
}

/// Two ctrl-clicks on the same unselected row of the current container leave the selection
/// as it was.
pub proof fn law_ctrl_click_twice_restores(sel: Seq<usize>, last: Option<usize>, elems: Seq<MemoryElement>, idx: usize)
    requires
        container_before(elems, idx as int) is Some,
        last == container_before(elems, idx as int),
        !sel.contains(idx),
    ensures
        ({
            let once = after_click(sel, last, elems, idx, true, false);
            after_click(once.0, once.1, elems, idx, true, false) == (sel, last)
        }),
{
    let s1 = sel.push(idx);
    assert(s1[sel.len() as int] == idx);
    assert(s1.contains(idx));
    lemma_first_pos(s1, idx);
    let p = first_pos(s1, idx);
    if p < sel.len() {
        assert(sel[p] == s1[p]);
    }
    assert(s1.remove(sel.len() as int) =~= sel);
}

} // verus!
