//! Ready-made memory structures that show how the pieces fit together.
use vstd::prelude::*;
use vstd::string::StringExecFns;

use crate::definitions::{bump, laid_out, relaid, ClassDefView, ClassDefinition, FieldDefinition, IdCounters};
use crate::nesting::{embeds_small_flat, flat_class, lemma_two_level_bound};
use crate::nodes::{
    fields_from_definition, field_def_of, first_field_with_id, lemma_first_field_member, lemma_new_instance_fits,
    lemma_offsets_within, new_instance, opt_str_view,
};
use crate::registry::{first_with_id, lookup_in};
use crate::structure::bound_and_laid_out;
use crate::structure::MemoryStructure;
use crate::types::FieldType;

verus! {

/// What a field definition says from outside: its name, its type and the class it embeds.
pub open spec fn field_shape(f: FieldDefinition) -> (Option<Seq<char>>, FieldType, Option<u64>) {
    (opt_str_view(f.name), f.field_type, f.class_id)
}

/// The shapes of a class's fields, in order.
pub open spec fn shape(fields: Seq<FieldDefinition>) -> Seq<(Option<Seq<char>>, FieldType, Option<u64>)> {
    fields.map_values(|f: FieldDefinition| field_shape(f))
}

proof fn lemma_shape_push(x: Seq<FieldDefinition>, f: FieldDefinition)
    ensures
        shape(relaid(x.push(f))) == shape(x).push(field_shape(f)),
{
    assert(shape(relaid(x.push(f))) =~= shape(x).push(field_shape(f)));
}

/// The player class of the complex example.
pub open spec fn player_shape() -> Seq<(Option<Seq<char>>, FieldType, Option<u64>)> {
    seq![
        (Some("health"@), FieldType::Int32, None),
        (Some("max_health"@), FieldType::Int32, None),
        (Some("position"@), FieldType::Vector3, None),
        (Some("is_alive"@), FieldType::Bool, None),
        (None, FieldType::Hex32, None),
        (Some("name"@), FieldType::TextPointer, None),
    ]
}

/// The weapon class of the complex example.
pub open spec fn weapon_shape() -> Seq<(Option<Seq<char>>, FieldType, Option<u64>)> {
    seq![
        (Some("damage"@), FieldType::Int32, None),
        (Some("ammo"@), FieldType::Int32, None),
        (Some("max_ammo"@), FieldType::Int32, None),
        (Some("is_loaded"@), FieldType::Bool, None),
    ]
}

/// The game-state class of the complex example, embedding a player and a weapon.
pub open spec fn game_state_shape(player: u64, weapon: u64) -> Seq<(Option<Seq<char>>, FieldType, Option<u64>)> {
    seq![
        (Some("player_count"@), FieldType::Int32, None),
        (Some("current_player"@), FieldType::ClassInstance, Some(player)),
        (Some("weapon"@), FieldType::ClassInstance, Some(weapon)),
        (None, FieldType::Hex64, None),
        (Some("game_time"@), FieldType::Double, None),
    ]
}

fn named(ids: &mut IdCounters, c: &mut ClassDefinition, name: &str, t: FieldType)
    requires
        laid_out(old(c)@),
    ensures
        shape(final(c).fields@) == shape(old(c).fields@).push((Some(name@), t, None)),
        laid_out(final(c)@),
        final(c).total_size == crate::definitions::sat_add(old(c).total_size, crate::definitions::advance(t)),
        final(c).id == old(c).id,
        final(c).name == old(c).name,
        final(ids).next_class_def_id == old(ids).next_class_def_id,
        final(ids).next_enum_def_id == old(ids).next_enum_def_id,
{
    let ghost f0 = c.fields@;
    let ghost id0 = ids.next_field_id;
    let ghost off = c.total_size;
    let n = String::from_str(name);
    let ghost nm = n;
    c.add_named_field(ids, n, t);
    proof {
        lemma_shape_push(f0, crate::definitions::plain_field(id0, Some(nm), t, off));
    }
}

fn hex(ids: &mut IdCounters, c: &mut ClassDefinition, t: FieldType)
    requires
        laid_out(old(c)@),
    ensures
        shape(final(c).fields@) == shape(old(c).fields@).push((None, t, None)),
        laid_out(final(c)@),
        final(c).total_size == crate::definitions::sat_add(old(c).total_size, crate::definitions::advance(t)),
        final(c).id == old(c).id,
        final(c).name == old(c).name,
        final(ids).next_class_def_id == old(ids).next_class_def_id,
        final(ids).next_enum_def_id == old(ids).next_enum_def_id,
{
    let ghost f0 = c.fields@;
    let ghost id0 = ids.next_field_id;
    let ghost off = c.total_size;
    c.add_hex_field(ids, t);
    proof {
        lemma_shape_push(f0, crate::definitions::plain_field(id0, None, t, off));
    }
}

fn embed(ids: &mut IdCounters, c: &mut ClassDefinition, name: &str, target: &ClassDefinition)
    requires
        laid_out(old(c)@),
    ensures
        shape(final(c).fields@) == shape(old(c).fields@).push((Some(name@), FieldType::ClassInstance, Some(target.id))),
        laid_out(final(c)@),
        final(c).total_size == old(c).total_size,
        final(c).id == old(c).id,
        final(c).name == old(c).name,
        final(ids).next_class_def_id == old(ids).next_class_def_id,
        final(ids).next_enum_def_id == old(ids).next_enum_def_id,
{
    let ghost f0 = c.fields@;
    let ghost id0 = ids.next_field_id;
    let ghost off = c.total_size;
    let n = String::from_str(name);
    let ghost nm = n;
    c.add_class_instance(ids, n, target);
    proof {
        lemma_shape_push(
            f0,
            FieldDefinition {
                class_id: Some(target.id),
                ..crate::definitions::plain_field(id0, Some(nm), FieldType::ClassInstance, off)
            },
        );
    }
}

fn new_class(ids: &mut IdCounters, name: &str) -> (r: ClassDefinition)
    ensures
        r.id == old(ids).next_class_def_id,
        r.name@ == name@,
        r.fields@.len() == 0,
        shape(r.fields@) == Seq::<(Option<Seq<char>>, FieldType, Option<u64>)>::empty(),
        r.total_size == 0,
        laid_out(r@),
        final(ids).next_class_def_id == bump(old(ids).next_class_def_id),
        final(ids).next_enum_def_id == old(ids).next_enum_def_id,
{
    let r = ClassDefinition::new(ids, String::from_str(name));
    assert(shape(r.fields@) =~= Seq::<(Option<Seq<char>>, FieldType, Option<u64>)>::empty());
    r
}

fn player_class(ids: &mut IdCounters) -> (r: ClassDefinition)
    ensures
        r.id == old(ids).next_class_def_id,
        r.name@ == "Player"@,
        shape(r.fields@) == player_shape(),
        r.total_size == 33,
        laid_out(r@),
        final(ids).next_class_def_id == bump(old(ids).next_class_def_id),
        final(ids).next_enum_def_id == old(ids).next_enum_def_id,
{
    let mut c = new_class(ids, "Player");
    named(ids, &mut c, "health", FieldType::Int32);
    named(ids, &mut c, "max_health", FieldType::Int32);
    named(ids, &mut c, "position", FieldType::Vector3);
    named(ids, &mut c, "is_alive", FieldType::Bool);
    hex(ids, &mut c, FieldType::Hex32);
    named(ids, &mut c, "name", FieldType::TextPointer);
    assert(shape(c.fields@) =~= player_shape());
    c
}

fn weapon_class(ids: &mut IdCounters) -> (r: ClassDefinition)
    ensures
        r.id == old(ids).next_class_def_id,
        r.name@ == "Weapon"@,
        shape(r.fields@) == weapon_shape(),
        r.total_size == 13,
        laid_out(r@),
        final(ids).next_class_def_id == bump(old(ids).next_class_def_id),
        final(ids).next_enum_def_id == old(ids).next_enum_def_id,
{
    let mut c = new_class(ids, "Weapon");
    named(ids, &mut c, "damage", FieldType::Int32);
    named(ids, &mut c, "ammo", FieldType::Int32);
    named(ids, &mut c, "max_ammo", FieldType::Int32);
    named(ids, &mut c, "is_loaded", FieldType::Bool);
    assert(shape(c.fields@) =~= weapon_shape());
    c
}

fn game_state_class(ids: &mut IdCounters, player: &ClassDefinition, weapon: &ClassDefinition) -> (r: ClassDefinition)
    ensures
        r.id == old(ids).next_class_def_id,
        r.name@ == "GameState"@,
        shape(r.fields@) == game_state_shape(player.id, weapon.id),
        r.total_size == 20,
        laid_out(r@),
        final(ids).next_class_def_id == bump(old(ids).next_class_def_id),
        final(ids).next_enum_def_id == old(ids).next_enum_def_id,
{
    let mut c = new_class(ids, "GameState");
    named(ids, &mut c, "player_count", FieldType::Int32);
    embed(ids, &mut c, "current_player", player);
    embed(ids, &mut c, "weapon", weapon);
    hex(ids, &mut c, FieldType::Hex64);
    named(ids, &mut c, "game_time", FieldType::Double);
    assert(shape(c.fields@) =~= game_state_shape(player.id, weapon.id));
    c
}

/// A game state (player count, an embedded player, an embedded weapon, padding and the game
/// time) placed at `0x2000` as `GameMemory`, with the player and weapon classes registered
/// after it.
#[verifier::rlimit(40)]
pub fn create_complex_memory_structure(ids: &mut IdCounters) -> (r: MemoryStructure)
    ensures
        r.wf(),
        r.class_registry.entries().len() == 3,
        r.class_registry.entries()[0].0 == bump(bump(old(ids).next_class_def_id)),
        r.class_registry.entries()[1].0 == old(ids).next_class_def_id,
        r.class_registry.entries()[2].0 == bump(old(ids).next_class_def_id),
        forall|i: int| 0 <= i < 3 ==> (#[trigger] r.class_registry.entries()[i]).1.id == r.class_registry.entries()[i].0
            && laid_out(r.class_registry.entries()[i].1),
        r.class_registry.entries()[0].1.name == "GameState"@,
        r.class_registry.entries()[1].1.name == "Player"@,
        r.class_registry.entries()[2].1.name == "Weapon"@,
        shape(r.class_registry.entries()[0].1.fields) == game_state_shape(
            r.class_registry.entries()[1].0,
            r.class_registry.entries()[2].0,
        ),
        shape(r.class_registry.entries()[1].1.fields) == player_shape(),
        shape(r.class_registry.entries()[2].1.fields) == weapon_shape(),
        r.class_registry.entries()[0].1.total_size == 20,
        r.class_registry.entries()[1].1.total_size == 33,
        r.class_registry.entries()[2].1.total_size == 13,
        r.root_class@ == new_instance("GameMemory"@, 0x2000, r.class_registry.entries()[0].1)->0,
        r.enum_registry@ == Map::<u64, crate::definitions::EnumDefView>::empty(),
{
    let player = player_class(ids);
    let weapon = weapon_class(ids);
    let game_state = game_state_class(ids, &player, &weapon);
    let ghost gs = game_state@;
    let ghost pl = player@;
    let ghost wp = weapon@;
    proof {
        lemma_new_instance_fits("GameMemory"@, 0x2000, gs);
    }
    let mut structure = MemoryStructure::new(String::from_str("GameMemory"), 0x2000, game_state.clone());
    let ghost s1 = seq![(gs.id, gs)];
    assert(structure.class_registry.entries() == s1);
    proof {
        assert(pl.id != gs.id);
        assert(!crate::keyed::has_key(s1, pl.id));
    }
    structure.register_class(player);
    let ghost s2 = s1.push((pl.id, pl));
    assert(structure.class_registry.entries() == s2);
    proof {
        assert(wp.id != gs.id && wp.id != pl.id);
        assert(!crate::keyed::has_key(s2, wp.id));
    }
    structure.register_class(weapon);
    let ghost s3 = s2.push((wp.id, wp));
    assert(structure.class_registry.entries() == s3);
    assert(s3 =~= seq![(gs.id, gs), (pl.id, pl), (wp.id, wp)]);
    structure
}

/// The second class of the first example: raw and named fields only.
pub open spec fn class_name2_shape() -> Seq<(Option<Seq<char>>, FieldType, Option<u64>)> {
    seq![
        (None, FieldType::Hex32, None),
        (Some("var_name3"@), FieldType::Bool, None),
        (None, FieldType::Hex8, None),
        (None, FieldType::Hex16, None),
        (None, FieldType::Hex32, None),
    ]
}

/// The first class of the first example, embedding the second class twice.
pub open spec fn class_name1_shape(second: u64) -> Seq<(Option<Seq<char>>, FieldType, Option<u64>)> {
    seq![
        (None, FieldType::Hex64, None),
        (Some("var_name1"@), FieldType::Int64, None),
        (Some("var_name2"@), FieldType::ClassInstance, Some(second)),
        (Some("var_name4"@), FieldType::TextPointer, None),
        (Some("var_name5"@), FieldType::ClassInstance, Some(second)),
    ]
}

fn class_name2(ids: &mut IdCounters) -> (r: ClassDefinition)
    ensures
        r.id == old(ids).next_class_def_id,
        r.name@ == "class_name2"@,
        shape(r.fields@) == class_name2_shape(),
        r.total_size == 12,
        laid_out(r@),
        final(ids).next_class_def_id == bump(old(ids).next_class_def_id),
        final(ids).next_enum_def_id == old(ids).next_enum_def_id,
{
    let mut c = new_class(ids, "class_name2");
    hex(ids, &mut c, FieldType::Hex32);
    named(ids, &mut c, "var_name3", FieldType::Bool);
    hex(ids, &mut c, FieldType::Hex8);
    hex(ids, &mut c, FieldType::Hex16);
    hex(ids, &mut c, FieldType::Hex32);
    assert(shape(c.fields@) =~= class_name2_shape());
    c
}

/// The two classes of the first example, the first created before the second.
fn example_classes(ids: &mut IdCounters) -> (r: (ClassDefinition, ClassDefinition))
    ensures
        r.0.id == old(ids).next_class_def_id,
        r.1.id == bump(old(ids).next_class_def_id),
        r.0.name@ == "class_name1"@,
        shape(r.0.fields@) == class_name1_shape(r.1.id),
        r.0.total_size == 24,
        laid_out(r.0@),
        r.1.name@ == "class_name2"@,
        shape(r.1.fields@) == class_name2_shape(),
        r.1.total_size == 12,
        laid_out(r.1@),
{
    let mut c1 = new_class(ids, "class_name1");
    hex(ids, &mut c1, FieldType::Hex64);
    named(ids, &mut c1, "var_name1", FieldType::Int64);
    let c2 = class_name2(ids);
    embed(ids, &mut c1, "var_name2", &c2);
    named(ids, &mut c1, "var_name4", FieldType::TextPointer);
    embed(ids, &mut c1, "var_name5", &c2);
    assert(shape(c1.fields@) =~= class_name1_shape(c2.id));
    (c1, c2)
}

proof fn lemma_shape_at(fields: Seq<FieldDefinition>, j: int)
    requires
        0 <= j < fields.len(),
    ensures
        fields[j].field_type == shape(fields)[j].1,
        fields[j].class_id == shape(fields)[j].2,
{
    assert(shape(fields)[j] == field_shape(fields[j]));
}

proof fn lemma_second_is_flat(d2: ClassDefView)
    requires
        shape(d2.fields) == class_name2_shape(),
    ensures
        flat_class(d2),
        d2.fields.len() == 5,
{
    assert(shape(d2.fields).len() == 5);
    assert forall|j: int| 0 <= j < d2.fields.len() implies {
        let t = (#[trigger] d2.fields[j]).field_type;
        t != FieldType::ClassInstance && t != FieldType::Array && t != FieldType::Enum
    } by {
        lemma_shape_at(d2.fields, j);
        if j == 0 {} else if j == 1 {} else if j == 2 {} else if j == 3 {} else {}
    }
}

proof fn lemma_first_refs(d1: ClassDefView, d2id: u64, j: int)
    requires
        shape(d1.fields) == class_name1_shape(d2id),
        0 <= j < d1.fields.len(),
    ensures
        d1.fields[j].class_id is None || d1.fields[j].class_id == Some(d2id),
        d1.fields[j].field_type != FieldType::Array,
        d1.fields[j].field_type != FieldType::Enum,
        d1.fields.len() == 5,
{
    assert(shape(d1.fields).len() == 5);
    lemma_shape_at(d1.fields, j);
    if j == 0 {} else if j == 1 {} else if j == 2 {} else if j == 3 {} else {}
}

/// The nesting of the first example binds: each embedded class is the small, flat second
/// class, and everything fits far below the top of the address space.
proof fn lemma_example_binds(er: Map<u64, crate::definitions::EnumDefView>, d1: ClassDefView, d2: ClassDefView)
    requires
        d1.id != d2.id,
        shape(d1.fields) == class_name1_shape(d2.id),
        shape(d2.fields) == class_name2_shape(),
        laid_out(d1),
        laid_out(d2),
        d1.total_size == 24,
        d2.total_size == 12,
    ensures
        new_instance("RootClass"@, 0x1000, d1) is Some,
        bound_and_laid_out(er, lookup_in(seq![(d1.id, d1), (d2.id, d2)]), new_instance("RootClass"@, 0x1000, d1)->0) is Some,
{
    let s = seq![(d1.id, d1), (d2.id, d2)];
    let look = lookup_in(s);
    lemma_new_instance_fits("RootClass"@, 0x1000, d1);
    lemma_offsets_within(d1);
    lemma_second_is_flat(d2);
    let root = new_instance("RootClass"@, 0x1000, d1)->0;
    assert(shape(d1.fields).len() == 5);
    assert(root.fields.len() == 5);
    assert(look(d1.id) == Some(d1));
    assert(first_with_id(s.drop_first(), d2.id) == Some(d2));
    assert(look(d2.id) == Some(d2));
    assert forall|j: int| 0 <= j < root.fields.len() implies {
        &&& (#[trigger] root.fields[j]).field_type != FieldType::Array
        &&& root.fields[j].field_type != FieldType::Enum
        &&& root.fields[j].nested is None
        &&& root.fields[j].field_type == FieldType::ClassInstance ==> embeds_small_flat(look, root.class_id, root.fields[j], 5)
    } by {
        assert(root.fields[j] == fields_from_definition(d1, 0x1000)[j]);
        lemma_first_refs(d1, d2.id, j);
        let fd_opt = first_field_with_id(d1.fields, root.fields[j].def_id);
        lemma_first_field_member(d1.fields, root.fields[j].def_id);
        if let Some(fd) = fd_opt {
            let k = choose|k: int| 0 <= k < d1.fields.len() && d1.fields[k] == fd;
            lemma_first_refs(d1, d2.id, k);
        }
        assert(field_def_of(look, root.class_id, root.fields[j].def_id) == fd_opt);
    }
    lemma_two_level_bound(er, look, root, 5);
}

/// The first example: `class_name1` (raw and named fields and two embedded `class_name2`
/// instances) placed at `0x1000` as `RootClass`, with `class_name2` registered after it and
/// the nested instances bound.
pub fn create_example_memory_structure(ids: &mut IdCounters) -> (r: MemoryStructure)
    ensures
        r.wf(),
        r.class_registry.entries().len() == 2,
        r.class_registry.entries()[0].0 == old(ids).next_class_def_id,
        r.class_registry.entries()[1].0 == bump(old(ids).next_class_def_id),
        forall|i: int| 0 <= i < 2 ==> (#[trigger] r.class_registry.entries()[i]).1.id == r.class_registry.entries()[i].0
            && laid_out(r.class_registry.entries()[i].1),
        r.class_registry.entries()[0].1.name == "class_name1"@,
        r.class_registry.entries()[1].1.name == "class_name2"@,
        shape(r.class_registry.entries()[0].1.fields) == class_name1_shape(r.class_registry.entries()[1].0),
        shape(r.class_registry.entries()[1].1.fields) == class_name2_shape(),
        r.class_registry.entries()[0].1.total_size == 24,
        r.class_registry.entries()[1].1.total_size == 12,
        r.root_class@ == bound_and_laid_out(
            r.enum_registry@,
            r.class_registry.lookup(),
            new_instance("RootClass"@, 0x1000, r.class_registry.entries()[0].1)->0,
        )->0,
        r.enum_registry@ == Map::<u64, crate::definitions::EnumDefView>::empty(),
{
    let (c1, c2) = example_classes(ids);
    let ghost d1 = c1@;
    let ghost d2 = c2@;
    proof {
        assert(d1.id != d2.id);
        lemma_example_binds(Map::empty(), d1, d2);
    }
    let mut structure = MemoryStructure::new(String::from_str("RootClass"), 0x1000, c1.clone());
    let ghost s1 = seq![(d1.id, d1)];
    assert(structure.class_registry.entries() == s1);
    proof {
        assert(!crate::keyed::has_key(s1, d2.id));
    }
    structure.register_class(c2);
    let ghost s2 = s1.push((d2.id, d2));
    assert(structure.class_registry.entries() == s2);
    assert(s2 =~= seq![(d1.id, d1), (d2.id, d2)]);
    structure.create_nested_instances();
    structure
}

} // verus!
