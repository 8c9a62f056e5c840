//! The rows selected in the memory view: a set of fields of one instance, with the row a
//! range selection starts from.
use vstd::prelude::*;

use crate::ui_state::FieldKey;

verus! {

/// The selected rows, the anchor of range selections and the instance they belong to.
#[derive(Debug)]
pub struct FieldSelection {
    pub selected: Vec<FieldKey>,
    pub anchor: Option<(u64, usize)>,
    pub instance: Option<u64>,
}

/// The mathematical content of a selection.
pub struct SelectionView {
    pub selected: Set<FieldKey>,
    pub anchor: Option<(u64, usize)>,
    pub instance: Option<u64>,
}

impl View for FieldSelection {
    type V = SelectionView;

    open spec fn view(&self) -> SelectionView {
        SelectionView { selected: self.selected@.to_set(), anchor: self.anchor, instance: self.instance }
    }
}

/// The keys of the rows `start..=end` of an instance, for the rows that exist.
pub open spec fn range_keys(address: u64, def_ids: Seq<u64>, start: int, end: int) -> Set<FieldKey> {
    Set::new(
        |k: FieldKey|
            k.instance_address == address && exists|j: int|
                start <= j <= end && 0 <= j < def_ids.len() && #[trigger] def_ids[j] == k.field_def_id,
    )
}

/// Only one row selected, which anchors the next range.
pub open spec fn single(address: u64, index: usize, key: FieldKey) -> SelectionView {
    SelectionView { selected: set![key], anchor: Some((address, index)), instance: Some(address) }
}

/// The selection after a click on row `index` (definition id `def_id`) of the instance at
/// `address`, whose rows have the definition ids `def_ids`, with Ctrl and Shift held or not.
/// A click in another instance first drops the selection. Shift selects the range from the
/// anchor (a plain click when the anchor lies elsewhere); Ctrl toggles the row, anchoring the
/// first; a plain click selects the row alone.
pub open spec fn after_click(
    s: SelectionView,
    address: u64,
    index: usize,
    def_ids: Seq<u64>,
    def_id: u64,
    ctrl: bool,
    shift: bool,
) -> SelectionView {
    let key = FieldKey { instance_address: address, field_def_id: def_id };
    let s1 = if s.instance matches Some(a) && a != address {
        SelectionView { selected: Set::empty(), anchor: None, instance: Some(address) }
    } else {
        s
    };
    if shift {
        match s1.anchor {
            Some((aa, ai)) => if aa == address {
                let (lo, hi) = if ai <= index { (ai as int, index as int) } else { (index as int, ai as int) };
                SelectionView {
                    selected: s1.selected.union(range_keys(address, def_ids, lo, hi)),
                    anchor: s1.anchor,
                    instance: Some(address),
                }
            } else {
                single(address, index, key)
            },
            None => single(address, index, key),
        }
    } else if ctrl {
        let (sel, inst) = if s1.selected.contains(key) {
            (s1.selected.remove(key), s1.instance)
        } else if s1.instance is None || s1.instance == Some(address) {
            (s1.selected.insert(key), s1.instance)
        } else {
            (set![key], Some(address))
        };
        let anchor = if s1.selected.contains(key) || s1.anchor is Some {
            s1.anchor
        } else {
            Some((address, index))
        };
        if sel.is_empty() {
            SelectionView { selected: sel, anchor: None, instance: None }
        } else {
            SelectionView { selected: sel, anchor, instance: Some(address) }
        }
    } else {
        single(address, index, key)
    }
}

fn has_key(v: &Vec<FieldKey>, k: FieldKey) -> (r: bool)
    ensures
        r == v@.contains(k),
{
    let mut i: usize = 0;
    while i < v.len()
        invariant
            i <= v@.len(),
            forall|j: int| 0 <= j < i ==> v@[j] != k,
        decreases v@.len() - i,
    {
        if v[i] == k {
            return true;
        }
        i = i + 1;
    }
    false
}

fn add_key(v: &mut Vec<FieldKey>, k: FieldKey)
    requires
        old(v)@.no_duplicates(),
    ensures
        final(v)@.no_duplicates(),
        final(v)@.to_set() == old(v)@.to_set().insert(k),
{
    if !has_key(v, k) {
        proof {
            old(v)@.lemma_push_to_set_commute(k);
        }
        v.push(k);
        proof {
            assert forall|a: int, b: int| 0 <= a < b < v@.len() implies v@[a] != v@[b] by {
                if b == v@.len() - 1 {
                    assert(v@[a] == old(v)@[a]);
                    if old(v)@[a] == k {
                        assert(old(v)@.contains(k));
                    }
                }
            }
        }
    } else {
        proof {
            assert(old(v)@.to_set().insert(k) =~= old(v)@.to_set());
        }
    }
}

fn drop_key(v: &mut Vec<FieldKey>, k: FieldKey)
    requires
        old(v)@.no_duplicates(),
    ensures
        final(v)@.no_duplicates(),
        final(v)@.to_set() == old(v)@.to_set().remove(k),
{
    let mut i: usize = 0;
    while i < v.len()
        invariant
            i <= v@.len(),
            v@ == old(v)@,
            old(v)@.no_duplicates(),
            forall|j: int| 0 <= j < i ==> v@[j] != k,
        decreases v@.len() - i,
    {
        if v[i] == k {
            let ghost s = v@;
            v.remove(i);
            proof {
                assert forall|j: int| 0 <= j < v@.len() implies #[trigger] v@[j] == (if j < i { s[j] } else { s[j + 1] }) by {}
                assert(v@.len() == s.len() - 1);
                assert forall|x: FieldKey| v@.to_set().contains(x) <==> s.to_set().remove(k).contains(x) by {
                    if v@.contains(x) {
                        let j = choose|j: int| 0 <= j < v@.len() && v@[j] == x;
                        if j < i {
                            assert(s[j] == x);
                        } else {
                            assert(s[j + 1] == x);
                        }
                    }
                    if s.contains(x) && x != k {
                        let j = choose|j: int| 0 <= j < s.len() && s[j] == x;
                        if j < i {
                            assert(v@[j] == x);
                        } else {
                            assert(j != i);
                            assert(v@[j - 1] == x);
                        }
                    }
                }
                assert(v@.to_set() =~= s.to_set().remove(k));
                assert forall|a: int, b: int| 0 <= a < b < v@.len() implies v@[a] != v@[b] by {
                    let a2 = if a < i { a } else { a + 1 };
                    let b2 = if b < i { b } else { b + 1 };
                    assert(v@[a] == s[a2] && v@[b] == s[b2]);
                }
            }
            return;
        }
        i = i + 1;
    }
    proof {
        assert(old(v)@.to_set().remove(k) =~= old(v)@.to_set());
    }
}

impl FieldSelection {
    /// Nothing selected.
    pub fn new() -> (r: Self)
        ensures
            r.wf(),
            r@.selected == Set::<FieldKey>::empty(),
            r@.anchor is None,
            r@.instance is None,
    {
        let r = FieldSelection { selected: Vec::new(), anchor: None, instance: None };
        proof {
            assert(r.selected@.to_set() =~= Set::<FieldKey>::empty());
        }
        r
    }

    /// Each row is listed once.
    pub open spec fn wf(&self) -> bool {
        self.selected@.no_duplicates()
    }

    /// Whether the row with this key is selected.
    pub fn is_selected(&self, key: FieldKey) -> (r: bool)
        ensures
            r == self@.selected.contains(key),
    {
        has_key(&self.selected, key)
    }

    fn clear_rows(&mut self)
        ensures
            final(self).wf(),
            final(self)@.selected == Set::<FieldKey>::empty(),
            final(self).anchor == old(self).anchor,
            final(self).instance == old(self).instance,
    {
        self.selected = Vec::new();
        proof {
            assert(self.selected@.to_set() =~= Set::<FieldKey>::empty());
        }
    }

    /// Drops the selected rows of the given field definitions; with no row left, the anchor
    /// and instance go too.
    pub fn forget_fields(&mut self, def_ids: &Vec<u64>)
        requires
            old(self).wf(),
        ensures
            final(self).wf(),
            final(self)@.selected == old(self)@.selected.filter(|k: FieldKey| !def_ids@.contains(k.field_def_id)),
            final(self)@.selected.is_empty() ==> final(self).anchor is None && final(self).instance is None,
            !final(self)@.selected.is_empty() ==> final(self).anchor == old(self).anchor && final(self).instance
                == old(self).instance,
    {
        let ghost old_sel = self.selected@;
        let mut kept: Vec<FieldKey> = Vec::new();
        let mut i: usize = 0;
        while i < self.selected.len()
            invariant
                self.selected@ == old_sel,
                old_sel.no_duplicates(),
                i <= old_sel.len(),
                kept@.no_duplicates(),
                forall|x: FieldKey| kept@.contains(x) <==> exists|j: int| 0 <= j < i && #[trigger] old_sel[j] == x
                    && !def_ids@.contains(x.field_def_id),
            decreases old_sel.len() - i,
        {
            let k = self.selected[i];
            if !crate::keyed::vec_contains(def_ids, k.field_def_id) {
                proof {
                    assert(!kept@.contains(k)) by {
                        if kept@.contains(k) {
                            let j = choose|j: int| 0 <= j < i && #[trigger] old_sel[j] == k && !def_ids@.contains(k.field_def_id);
                            assert(old_sel[j] == old_sel[i as int]);
                        }
                    }
                }
                let ghost before = kept@;
                kept.push(k);
                proof {
                    assert forall|a: int, b: int| 0 <= a < b < kept@.len() implies kept@[a] != kept@[b] by {
                        if b == kept@.len() - 1 {
                            assert(before.contains(kept@[a]));
                        }
                    }
                    assert forall|x: FieldKey| kept@.contains(x) <==> exists|j: int| 0 <= j < i + 1 && #[trigger] old_sel[j]
                        == x && !def_ids@.contains(x.field_def_id) by {
                        if kept@.contains(x) && x != k {
                            let j2 = choose|j2: int| 0 <= j2 < kept@.len() && kept@[j2] == x;
                            assert(before.contains(x));
                        }
                        if x == k {
                            assert(kept@[kept@.len() - 1] == x);
                        }
                        if !kept@.contains(x) {
                            if before.contains(x) {
                                let j3 = choose|j3: int| 0 <= j3 < before.len() && before[j3] == x;
                                assert(kept@[j3] == x);
                            }
                            if x != k {
                                assert forall|j: int| 0 <= j < i + 1 implies !(#[trigger] old_sel[j] == x && !def_ids@.contains(
                                    x.field_def_id,
                                )) by {
                                    if j == i {
                                    }
                                }
                            }
                        }
                    }
                }
            } else {
                proof {
                    assert forall|x: FieldKey| kept@.contains(x) <==> exists|j: int| 0 <= j < i + 1 && #[trigger] old_sel[j]
                        == x && !def_ids@.contains(x.field_def_id) by {
                        if exists|j: int| 0 <= j < i + 1 && #[trigger] old_sel[j] == x && !def_ids@.contains(x.field_def_id) {
                            let j = choose|j: int| 0 <= j < i + 1 && #[trigger] old_sel[j] == x && !def_ids@.contains(x.field_def_id);
                            assert(j != i);
                        }
                    }
                }
            }
            i = i + 1;
        }
        proof {
            assert forall|x: FieldKey| kept@.to_set().contains(x) <==> old_sel.to_set().filter(
                |k: FieldKey| !def_ids@.contains(k.field_def_id),
            ).contains(x) by {
                if old_sel.contains(x) && !def_ids@.contains(x.field_def_id) {
                    let j = choose|j: int| 0 <= j < old_sel.len() && old_sel[j] == x;
                    assert(old_sel[j] == x);
                }
            }
            assert(kept@.to_set() =~= old_sel.to_set().filter(|k: FieldKey| !def_ids@.contains(k.field_def_id)));
        }
        self.selected = kept;
        if self.selected.len() == 0 {
            proof {
                assert(self@.selected =~= Set::<FieldKey>::empty());
            }
            self.anchor = None;
            self.instance = None;
        } else {
            proof {
                assert(self@.selected.contains(self.selected@[0]));
            }
        }
    }

    /// Applies a click (see `after_click`).
    pub fn click(&mut self, address: u64, index: usize, def_ids: &[u64], def_id: u64, ctrl: bool, shift: bool)
        requires
            old(self).wf(),
        ensures
            final(self).wf(),
            final(self)@ == after_click(old(self)@, address, index, def_ids@, def_id, ctrl, shift),
    {
        let key = FieldKey { instance_address: address, field_def_id: def_id };
        let moved = match self.instance {
            Some(a) => a != address,
            None => false,
        };
        if moved {
            self.clear_rows();
            self.anchor = None;
            self.instance = Some(address);
        }
        let ghost s1 = self@;
        if shift {
            let in_range = match self.anchor {
                Some((aa, _)) => aa == address,
                None => false,
            };
            if in_range {
                let ai = match self.anchor {
                    Some((_, i)) => i,
                    None => 0,
                };
                let (lo, hi) = if ai <= index { (ai, index) } else { (index, ai) };
                let mut j = lo;
                while j <= hi && j < def_ids.len()
                    invariant
                        self.wf(),
                        self.anchor == s1.anchor,
                        lo <= hi,
                        lo <= j <= hi + 1,
                        self@.selected == s1.selected.union(range_keys(address, def_ids@, lo as int, j - 1)),
                    decreases def_ids@.len() - j,
                {
                    let k = FieldKey { instance_address: address, field_def_id: def_ids[j] };
                    add_key(&mut self.selected, k);
                    proof {
                        assert(self@.selected =~= s1.selected.union(range_keys(address, def_ids@, lo as int, j as int)));
                    }
                    j = j + 1;
                }
                proof {
                    let r1 = range_keys(address, def_ids@, lo as int, j - 1);
                    let r2 = range_keys(address, def_ids@, lo as int, hi as int);
                    assert forall|x: FieldKey| r1.contains(x) <==> r2.contains(x) by {
                        if r2.contains(x) {
                            let w = choose|w: int| lo <= w <= hi && 0 <= w < def_ids@.len() && #[trigger] def_ids@[w] == x.field_def_id;
                            assert(lo <= w <= j - 1 && 0 <= w < def_ids@.len() && def_ids@[w] == x.field_def_id);
                        }
                    }
                    assert(r1 =~= r2);
                }
                self.instance = Some(address);
            } else {
                self.clear_rows();
                add_key(&mut self.selected, key);
                self.anchor = Some((address, index));
                self.instance = Some(address);
                proof {
                    assert(self@.selected =~= set![key]);
                }
            }
        } else if ctrl {
            let was = self.is_selected(key);
            if was {
                drop_key(&mut self.selected, key);
            } else {
                let same = match self.instance {
                    Some(a) => a == address,
                    None => true,
                };
                if same {
                    add_key(&mut self.selected, key);
                } else {
                    self.clear_rows();
                    add_key(&mut self.selected, key);
                    self.instance = Some(address);
                    proof {
                        assert(self@.selected =~= set![key]);
                    }
                }
                if self.anchor.is_none() {
                    self.anchor = Some((address, index));
                }
            }
            if self.selected.len() == 0 {
                proof {
                    assert(self@.selected =~= Set::<FieldKey>::empty());
                }
                self.anchor = None;
                self.instance = None;
            } else {
                proof {
                    assert(self@.selected.contains(self.selected@[0]));
                }
                self.instance = Some(address);
            }
        } else {
            self.clear_rows();
            add_key(&mut self.selected, key);
            self.anchor = Some((address, index));
            self.instance = Some(address);
            proof {
                assert(self@.selected =~= set![key]);
            }
        }
    }
}

/// Every selected row belongs to the selection's instance, and a selection with rows has one.
pub open spec fn rows_in_instance(s: SelectionView) -> bool {
    &&& forall|k: FieldKey| #[trigger] s.selected.contains(k) ==> s.instance == Some(k.instance_address)
}

/// Clicks keep every selected row within the selection's instance.
pub proof fn law_click_keeps_rows_in_instance(
    s: SelectionView,
    address: u64,
    index: usize,
    def_ids: Seq<u64>,
    def_id: u64,
    ctrl: bool,
    shift: bool,
)
    requires
        rows_in_instance(s),
    ensures
        rows_in_instance(after_click(s, address, index, def_ids, def_id, ctrl, shift)),
{
}

/// Ctrl-clicking the same row twice, within the selection's instance, gives back the rows
/// that were selected.
pub proof fn law_ctrl_click_twice_restores(s: SelectionView, address: u64, index: usize, def_ids: Seq<u64>, def_id: u64)
    requires
        s.instance is None || s.instance == Some(address),
    ensures
        after_click(
            after_click(s, address, index, def_ids, def_id, true, false),
            address,
            index,
            def_ids,
            def_id,
            true,
            false,
        ).selected == s.selected,
{
    let key = FieldKey { instance_address: address, field_def_id: def_id };
    let t = after_click(s, address, index, def_ids, def_id, true, false);
    let u = after_click(t, address, index, def_ids, def_id, true, false);
    if s.selected.contains(key) {
        assert(t.selected =~= s.selected.remove(key));
        assert(u.selected =~= s.selected);
    } else {
        assert(t.selected =~= s.selected.insert(key));
        assert(t.selected.contains(key));
        assert(u.selected =~= s.selected);
    }
}


/// A Shift-click on row `index` of the instance the anchor lies in selects every row from the
/// anchor's row through the clicked one, both included, keeps what was selected, and adds
/// nothing else; the anchor stays.
pub proof fn law_shift_click_selects_range(
    s: SelectionView,
    address: u64,
    anchor_index: usize,
    index: usize,
    def_ids: Seq<u64>,
    def_id: u64,
    ctrl: bool,
)
    requires
        s.anchor == Some((address, anchor_index)),
        s.instance is None || s.instance == Some(address),
    ensures
        ({
            let t = after_click(s, address, index, def_ids, def_id, ctrl, true);
            let lo = if anchor_index <= index { anchor_index as int } else { index as int };
            let hi = if anchor_index <= index { index as int } else { anchor_index as int };
            &&& forall|j: int| lo <= j <= hi && 0 <= j < def_ids.len() ==> t.selected.contains(
                FieldKey { instance_address: address, field_def_id: #[trigger] def_ids[j] },
            )
            &&& forall|k: FieldKey| #[trigger] s.selected.contains(k) ==> t.selected.contains(k)
            &&& forall|k: FieldKey| #[trigger] t.selected.contains(k) ==> s.selected.contains(k) || (
                k.instance_address == address && exists|j: int|
                    lo <= j <= hi && 0 <= j < def_ids.len() && def_ids[j] == k.field_def_id)
            &&& t.anchor == s.anchor
            &&& t.instance == Some(address)
        }),
{
    let t = after_click(s, address, index, def_ids, def_id, ctrl, true);
    let lo = if anchor_index <= index { anchor_index as int } else { index as int };
    let hi = if anchor_index <= index { index as int } else { anchor_index as int };
    assert forall|j: int| lo <= j <= hi && 0 <= j < def_ids.len() implies t.selected.contains(
        FieldKey { instance_address: address, field_def_id: #[trigger] def_ids[j] },
    ) by {
        let k = FieldKey { instance_address: address, field_def_id: def_ids[j] };
        assert(range_keys(address, def_ids, lo, hi).contains(k));
    }
}

/// A plain click (neither Ctrl nor Shift) selects the clicked row alone and anchors ranges
/// there.
pub proof fn law_plain_click_selects_row(s: SelectionView, address: u64, index: usize, def_ids: Seq<u64>, def_id: u64)
    ensures
        ({
            let t = after_click(s, address, index, def_ids, def_id, false, false);
            &&& forall|k: FieldKey| #[trigger] t.selected.contains(k) <==> k == FieldKey {
                instance_address: address,
                field_def_id: def_id,
            }
            &&& t.anchor == Some((address, index))
            &&& t.instance == Some(address)
        }),
{
}


/// A Ctrl-click within the selection's instance toggles the clicked row and leaves every other
/// row as it was.
pub proof fn law_ctrl_click_toggles_row(s: SelectionView, address: u64, index: usize, def_ids: Seq<u64>, def_id: u64)
    requires
        s.instance is None || s.instance == Some(address),
    ensures
        ({
            let key = FieldKey { instance_address: address, field_def_id: def_id };
            let t = after_click(s, address, index, def_ids, def_id, true, false);
            &&& t.selected.contains(key) == !s.selected.contains(key)
            &&& forall|k: FieldKey| k != key ==> (#[trigger] t.selected.contains(k) == s.selected.contains(k))
        }),
{
}

} // verus!
