use reclass::{FieldKey, FieldSelection};

fn key(a: u64, id: u64) -> FieldKey {
    FieldKey { instance_address: a, field_def_id: id }
}

#[test]
fn plain_click_selects_one_row_and_anchors_it() {
    let mut s = FieldSelection::new();
    let ids = [10u64, 11, 12, 13];
    s.click(0x100, 1, &ids, 11, false, false);
    assert!(s.is_selected(key(0x100, 11)));
    assert_eq!(s.selected.len(), 1);
    assert_eq!(s.anchor, Some((0x100, 1)));
    assert_eq!(s.instance, Some(0x100));
}

#[test]
fn shift_click_selects_the_range_from_the_anchor() {
    let mut s = FieldSelection::new();
    let ids = [10u64, 11, 12, 13];
    s.click(0x100, 3, &ids, 13, false, false);
    s.click(0x100, 1, &ids, 11, false, true);
    for id in [11, 12, 13] {
        assert!(s.is_selected(key(0x100, id)));
    }
    assert!(!s.is_selected(key(0x100, 10)));
    assert_eq!(s.anchor, Some((0x100, 3)));
    // A range running past the last row stops there.
    s.click(0x100, 9, &ids, 99, false, true);
    assert_eq!(s.selected.len(), 3);
}

#[test]
fn shift_click_without_anchor_acts_as_plain_click() {
    let mut s = FieldSelection::new();
    let ids = [10u64, 11];
    s.click(0x100, 1, &ids, 11, false, true);
    assert_eq!(s.selected, vec![key(0x100, 11)]);
    assert_eq!(s.anchor, Some((0x100, 1)));
}

#[test]
fn ctrl_click_toggles_and_clears_when_empty() {
    let mut s = FieldSelection::new();
    let ids = [10u64, 11];
    s.click(0x100, 0, &ids, 10, true, false);
    assert_eq!(s.anchor, Some((0x100, 0)));
    s.click(0x100, 1, &ids, 11, true, false);
    assert_eq!(s.selected.len(), 2);
    assert_eq!(s.anchor, Some((0x100, 0)));
    s.click(0x100, 0, &ids, 10, true, false);
    s.click(0x100, 1, &ids, 11, true, false);
    assert!(s.selected.is_empty());
    assert_eq!(s.anchor, None);
    assert_eq!(s.instance, None);
}

#[test]
fn clicking_another_instance_drops_the_selection() {
    let mut s = FieldSelection::new();
    let ids = [10u64, 11];
    s.click(0x100, 0, &ids, 10, false, false);
    s.click(0x200, 1, &ids, 11, true, false);
    assert_eq!(s.selected, vec![key(0x200, 11)]);
    assert_eq!(s.instance, Some(0x200));
    assert_eq!(s.anchor, Some((0x200, 1)));
}

#[test]
fn ctrl_click_twice_gives_back_the_rows() {
    let mut s = FieldSelection::new();
    let ids = [10u64, 11, 12];
    s.click(0x100, 0, &ids, 10, false, false);
    s.click(0x100, 2, &ids, 12, true, false);
    s.click(0x100, 2, &ids, 12, true, false);
    assert_eq!(s.selected, vec![key(0x100, 10)]);
}

#[test]
fn forgetting_fields_drops_their_rows() {
    let mut s = FieldSelection::new();
    let ids = [10u64, 11, 12];
    s.click(0x100, 0, &ids, 10, false, false);
    s.click(0x100, 2, &ids, 12, false, true);
    s.forget_fields(&vec![11, 12]);
    assert_eq!(s.selected, vec![key(0x100, 10)]);
    assert_eq!(s.instance, Some(0x100));
    s.forget_fields(&vec![10]);
    assert!(s.selected.is_empty());
    assert_eq!(s.anchor, None);
    assert_eq!(s.instance, None);
}

#[test]
fn selected_rows_always_belong_to_the_selection_instance() {
    let mut s = FieldSelection::new();
    let ids = [10u64, 11, 12];
    let clicks: [(u64, usize, bool, bool); 6] =
        [(0x100, 0, false, false), (0x100, 2, false, true), (0x200, 1, true, false), (0x200, 2, false, true), (0x100, 1, true, false), (0x100, 1, true, false)];
    for (addr, idx, ctrl, shift) in clicks {
        s.click(addr, idx, &ids, ids[idx], ctrl, shift);
        for k in &s.selected {
            assert_eq!(Some(k.instance_address), s.instance);
        }
    }
}
