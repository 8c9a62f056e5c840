//! Sufficient conditions under which laying out and binding nested instances succeed.
use vstd::prelude::*;

use crate::definitions::{laid_out, sat_add, ClassDefView, EnumDefView};
use crate::nodes::{
    bind_field, bind_fields, bind_inst, field_def_of, fields_from_definition, layout_fields, layout_inst, layout_step,
    lemma_new_instance_fits, nested_name, new_instance, FieldView, InstanceView,
};
use crate::structure::{bound, bound_and_laid_out};
use crate::types::{type_size, FieldType};

verus! {

/// A field that moves the layout offset by its fixed size only: no nested instance, not an
/// array, not an enum.
pub open spec fn plain_field_view(f: FieldView) -> bool {
    f.nested is None && f.field_type != FieldType::Array && f.field_type != FieldType::Enum
}

/// Every field is plain.
pub open spec fn plain_fields(fs: Seq<FieldView>) -> bool {
    forall|j: int| 0 <= j < fs.len() ==> plain_field_view(#[trigger] fs[j])
}

/// Every field is plain, or a class instance whose nested instance has at most `m` plain fields.
pub open spec fn two_level(fs: Seq<FieldView>, m: nat) -> bool {
    forall|j: int| 0 <= j < fs.len() ==> {
        &&& (#[trigger] fs[j]).field_type != FieldType::Array
        &&& fs[j].field_type != FieldType::Enum
        &&& match fs[j].nested {
            Some(n) => fs[j].field_type == FieldType::ClassInstance && plain_fields(n.fields) && n.fields.len() <= m,
            None => true,
        }
    }
}

proof fn lemma_type_size_small(t: FieldType)
    ensures
        type_size(t) <= 32,
{
}

/// Plain fields lay out whenever their end stays below the top of the address space.
pub proof fn lemma_plain_layout(
    er: Map<u64, EnumDefView>,
    look: spec_fn(u64) -> Option<ClassDefView>,
    cid: u64,
    base: u64,
    fs: Seq<FieldView>,
    cur: u64,
)
    requires
        plain_fields(fs),
        base + cur + 32 * fs.len() <= u64::MAX,
    ensures
        layout_fields(er, look, cid, base, fs, cur) is Some,
        (layout_fields(er, look, cid, base, fs, cur)->0).0.len() == fs.len(),
        plain_fields((layout_fields(er, look, cid, base, fs, cur)->0).0),
        (layout_fields(er, look, cid, base, fs, cur)->0).1 <= cur + 32 * fs.len(),
    decreases fs.len(),
{
    if fs.len() > 0 {
        let f = fs[0];
        assert(plain_field_view(f));
        lemma_type_size_small(f.field_type);
        let addr = (base + cur) as u64;
        let st = layout_step(er, look, cid, f, addr);
        assert(st is Some);
        let adv = (st->0).1;
        assert(adv <= 32);
        let rest = fs.drop_first();
        assert(plain_fields(rest)) by {
            assert forall|j: int| 0 <= j < rest.len() implies plain_field_view(#[trigger] rest[j]) by {
                assert(rest[j] == fs[j + 1]);
            }
        }
        let cur2 = sat_add(cur, adv);
        assert(cur2 == cur + adv);
        lemma_plain_layout(er, look, cid, base, rest, cur2);
        let r = layout_fields(er, look, cid, base, rest, cur2)->0;
        let out = seq![(st->0).0] + r.0;
        assert(plain_fields(out)) by {
            assert forall|j: int| 0 <= j < out.len() implies plain_field_view(#[trigger] out[j]) by {
                if j > 0 {
                    assert(out[j] == r.0[j - 1]);
                }
            }
        }
    }
}

/// An instance with plain fields lays out whenever its end stays below the top of the
/// address space; the result has plain fields again.
pub proof fn lemma_plain_inst_layout(
    er: Map<u64, EnumDefView>,
    look: spec_fn(u64) -> Option<ClassDefView>,
    inst: InstanceView,
    a: u64,
)
    requires
        plain_fields(inst.fields),
        a + 32 * inst.fields.len() <= u64::MAX,
    ensures
        layout_inst(er, look, inst, a) is Some,
        plain_fields(layout_inst(er, look, inst, a)->0.fields),
        layout_inst(er, look, inst, a)->0.fields.len() == inst.fields.len(),
        layout_inst(er, look, inst, a)->0.address == a,
{
    lemma_plain_layout(er, look, inst.class_id, a, inst.fields, 0);
}

/// Fields of at most two levels lay out whenever every field's worst-case end stays below the
/// top of the address space; the result has at most two levels again.
pub proof fn lemma_two_level_layout(
    er: Map<u64, EnumDefView>,
    look: spec_fn(u64) -> Option<ClassDefView>,
    cid: u64,
    base: u64,
    fs: Seq<FieldView>,
    cur: u64,
    m: nat,
)
    requires
        two_level(fs, m),
        base + cur + 1048576 * fs.len() + 32 * m <= u64::MAX,
    ensures
        layout_fields(er, look, cid, base, fs, cur) is Some,
        (layout_fields(er, look, cid, base, fs, cur)->0).0.len() == fs.len(),
        two_level((layout_fields(er, look, cid, base, fs, cur)->0).0, m),
    decreases fs.len(),
{
    if fs.len() > 0 {
        let f = fs[0];
        lemma_type_size_small(f.field_type);
        let addr = (base + cur) as u64;
        if let Some(n) = f.nested {
            if f.field_type == FieldType::ClassInstance {
                lemma_plain_inst_layout(er, look, n, addr);
            }
        }
        let st = layout_step(er, look, cid, f, addr);
        assert(st is Some);
        let adv = (st->0).1;
        assert(adv <= 1048576);
        let rest = fs.drop_first();
        assert(two_level(rest, m)) by {
            assert forall|j: int| 0 <= j < rest.len() implies #[trigger] rest[j] == fs[j + 1] by {}
        }
        let cur2 = sat_add(cur, adv);
        assert(cur2 == cur + adv);
        lemma_two_level_layout(er, look, cid, base, rest, cur2, m);
        let r = layout_fields(er, look, cid, base, rest, cur2)->0;
        let out = seq![(st->0).0] + r.0;
        assert(two_level(out, m)) by {
            assert forall|j: int| 0 <= j < out.len() implies #[trigger] out[j] == (if j == 0 { (st->0).0 } else { r.0[j - 1] }) by {}
        }
    }
}

/// Binding fields none of which is a class instance only clears their nested instances.
pub proof fn lemma_flat_bind(look: spec_fn(u64) -> Option<ClassDefView>, owner: u64, fs: Seq<FieldView>, fuel: nat)
    requires
        forall|j: int| 0 <= j < fs.len() ==> (#[trigger] fs[j]).field_type != FieldType::ClassInstance,
    ensures
        bind_fields(look, owner, fs, fuel) is Some,
        bind_fields(look, owner, fs, fuel)->0.len() == fs.len(),
        forall|j: int| 0 <= j < fs.len() ==> #[trigger] bind_fields(look, owner, fs, fuel)->0[j] == (FieldView { nested: None, ..fs[j] }),
    decreases fs.len(),
{
    if fs.len() > 0 {
        let rest = fs.drop_first();
        assert forall|j: int| 0 <= j < rest.len() implies (#[trigger] rest[j]).field_type != FieldType::ClassInstance by {
            assert(rest[j] == fs[j + 1]);
        }
        lemma_flat_bind(look, owner, rest, fuel);
        let r = bind_fields(look, owner, rest, fuel)->0;
        assert(bind_field(look, owner, fs[0], fuel) == Some(FieldView { nested: None, ..fs[0] }));
        let out = seq![FieldView { nested: None, ..fs[0] }] + r;
        assert(bind_fields(look, owner, fs, fuel) == Some(out));
        assert forall|j: int| 0 <= j < fs.len() implies #[trigger] out[j] == (FieldView { nested: None, ..fs[j] }) by {
            if j > 0 {
                assert(out[j] == r[j - 1]);
                assert(rest[j - 1] == fs[j]);
            }
        }
    }
}

/// A class whose fields all have fixed sizes: no class instances, arrays or enums.
pub open spec fn flat_class(cd: ClassDefView) -> bool {
    forall|j: int| 0 <= j < cd.fields.len() ==> {
        let t = (#[trigger] cd.fields[j]).field_type;
        t != FieldType::ClassInstance && t != FieldType::Array && t != FieldType::Enum
    }
}

/// The class a class-instance field of class `owner` embeds, if the lookup finds one.
pub open spec fn embedded_class(look: spec_fn(u64) -> Option<ClassDefView>, owner: u64, f: FieldView) -> Option<ClassDefView> {
    match field_def_of(look, owner, f.def_id) {
        Some(fd) => match fd.class_id {
            Some(cid) => look(cid),
            None => None,
        },
        None => None,
    }
}

/// The field embeds (if anything) a laid-out flat class of at most `m` fields that fits at the
/// field's address.
pub open spec fn embeds_small_flat(look: spec_fn(u64) -> Option<ClassDefView>, owner: u64, f: FieldView, m: nat) -> bool {
    match embedded_class(look, owner, f) {
        Some(cd) => flat_class(cd) && laid_out(cd) && cd.fields.len() <= m && f.address + cd.total_size + 32 * cd.fields.len()
            < u64::MAX,
        None => true,
    }
}

proof fn lemma_bind_one(look: spec_fn(u64) -> Option<ClassDefView>, owner: u64, f: FieldView, fuel: nat, m: nat)
    requires
        f.nested is None,
        f.field_type != FieldType::Array,
        f.field_type != FieldType::Enum,
        f.field_type == FieldType::ClassInstance ==> embeds_small_flat(look, owner, f, m),
    ensures
        fuel >= 1 ==> bind_field(look, owner, f, fuel) is Some,
        bind_field(look, owner, f, fuel) is Some ==> two_level(seq![bind_field(look, owner, f, fuel)->0], m),
{
    if f.field_type == FieldType::ClassInstance {
        if let Some(cd) = embedded_class(look, owner, f) {
            if fuel == 0 {
                let name = nested_name(f.name);
                lemma_new_instance_fits(name, f.address, cd);
                assert(bind_field(look, owner, f, fuel) is None);
                return;
            }
            let name = nested_name(f.name);
            lemma_new_instance_fits(name, f.address, cd);
            let n0 = new_instance(name, f.address, cd)->0;
            assert forall|j: int| 0 <= j < n0.fields.len() implies (#[trigger] n0.fields[j]).field_type != FieldType::ClassInstance by {
                assert(n0.fields[j] == fields_from_definition(cd, f.address)[j]);
                assert(cd.fields[j].field_type != FieldType::ClassInstance);
            }
            let fz = (fuel - 1) as nat;
            lemma_flat_bind(look, n0.class_id, n0.fields, fz);
            let fs1 = bind_fields(look, n0.class_id, n0.fields, fz)->0;
            let i1 = InstanceView { fields: fs1, ..n0 };
            assert(plain_fields(fs1)) by {
                assert forall|j: int| 0 <= j < fs1.len() implies plain_field_view(#[trigger] fs1[j]) by {
                    assert(fs1[j] == FieldView { nested: None, ..n0.fields[j] });
                    assert(n0.fields[j] == fields_from_definition(cd, f.address)[j]);
                    assert(cd.fields[j].field_type != FieldType::Array && cd.fields[j].field_type != FieldType::Enum);
                }
            }
            lemma_plain_inst_layout(Map::empty(), look, i1, n0.address);
            let n1 = layout_inst(Map::empty(), look, i1, n0.address)->0;
            assert(bind_inst(look, n0, fz) == Some(n1));
            lemma_plain_inst_layout(Map::empty(), look, n1, n1.address);
            let n2 = layout_inst(Map::empty(), look, n1, n1.address)->0;
            assert(bind_field(look, owner, f, fuel) == Some(FieldView { nested: Some(n2), ..f }));
            let out = seq![FieldView { nested: Some(n2), ..f }];
            assert(two_level(out, m)) by {
                assert forall|j: int| 0 <= j < out.len() implies #[trigger] out[j] == (FieldView { nested: Some(n2), ..f }) by {}
            }
        } else {
            assert(bind_field(look, owner, f, fuel) == Some(f));
            assert(two_level(seq![f], m)) by {
                assert forall|j: int| 0 <= j < 1 implies #[trigger] seq![f][j] == f by {}
            }
        }
    } else {
        let g = FieldView { nested: None, ..f };
        assert(bind_field(look, owner, f, fuel) == Some(g));
        assert(two_level(seq![g], m)) by {
            assert forall|j: int| 0 <= j < 1 implies #[trigger] seq![g][j] == g by {}
        }
    }
}

/// Binding fields of at most two levels (see `embeds_small_flat`) succeeds and gives fields of
/// at most two levels.
pub proof fn lemma_two_level_bind(look: spec_fn(u64) -> Option<ClassDefView>, owner: u64, fs: Seq<FieldView>, fuel: nat, m: nat)
    requires
        forall|j: int| 0 <= j < fs.len() ==> {
            &&& (#[trigger] fs[j]).field_type != FieldType::Array
            &&& fs[j].field_type != FieldType::Enum
            &&& fs[j].nested is None
            &&& fs[j].field_type == FieldType::ClassInstance ==> embeds_small_flat(look, owner, fs[j], m)
        },
    ensures
        fuel >= 1 ==> bind_fields(look, owner, fs, fuel) is Some,
        bind_fields(look, owner, fs, fuel) is Some ==> bind_fields(look, owner, fs, fuel)->0.len() == fs.len(),
        bind_fields(look, owner, fs, fuel) is Some ==> two_level(bind_fields(look, owner, fs, fuel)->0, m),
    decreases fs.len(),
{
    if fs.len() > 0 {
        lemma_bind_one(look, owner, fs[0], fuel, m);
        let rest = fs.drop_first();
        assert forall|j: int| 0 <= j < rest.len() implies #[trigger] rest[j] == fs[j + 1] by {}
        lemma_two_level_bind(look, owner, rest, fuel, m);
        if bind_field(look, owner, fs[0], fuel) is None || bind_fields(look, owner, rest, fuel) is None {
            return;
        }
        let f1 = bind_field(look, owner, fs[0], fuel)->0;
        let r = bind_fields(look, owner, rest, fuel)->0;
        let out = seq![f1] + r;
        assert(bind_fields(look, owner, fs, fuel) == Some(out));
        assert(two_level(out, m)) by {
            assert forall|j: int| 0 <= j < out.len() implies #[trigger] out[j] == (if j == 0 { f1 } else { r[j - 1] }) by {}
            assert(seq![f1][0] == f1);
        }
    }
}

/// An instance with fresh fields (no nested instances yet), none an array or an enum, whose
/// class-instance fields each embed (if anything) a small flat class, has its nesting bound
/// and laid out, provided everything fits below the top of the address space.
pub proof fn lemma_two_level_bound(er: Map<u64, EnumDefView>, look: spec_fn(u64) -> Option<ClassDefView>, inst: InstanceView, m: nat)
    requires
        forall|j: int| 0 <= j < inst.fields.len() ==> {
            &&& (#[trigger] inst.fields[j]).field_type != FieldType::Array
            &&& inst.fields[j].field_type != FieldType::Enum
            &&& inst.fields[j].nested is None
            &&& inst.fields[j].field_type == FieldType::ClassInstance ==> embeds_small_flat(look, inst.class_id, inst.fields[j], m)
        },
        inst.address + 1048576 * inst.fields.len() + 32 * m <= u64::MAX,
    ensures
        bound_and_laid_out(er, look, inst) is Some,
{
    lemma_two_level_bind(look, inst.class_id, inst.fields, 1, m);
    let bf1 = bind_fields(look, inst.class_id, inst.fields, 1)->0;
    lemma_two_level_layout(Map::empty(), look, inst.class_id, inst.address, bf1, 0, m);
    assert(bind_inst(look, inst, 1) is Some);
    let fuel = choose|fuel: nat| #[trigger] bind_inst(look, inst, fuel) is Some;
    lemma_two_level_bind(look, inst.class_id, inst.fields, fuel, m);
    let bf = bind_fields(look, inst.class_id, inst.fields, fuel)->0;
    lemma_two_level_layout(Map::empty(), look, inst.class_id, inst.address, bf, 0, m);
    let b = bind_inst(look, inst, fuel)->0;
    assert(b == layout_inst(Map::empty(), look, InstanceView { fields: bf, ..inst }, inst.address)->0);
    lemma_two_level_layout(er, look, inst.class_id, inst.address, b.fields, 0, m);
}

} // verus!
