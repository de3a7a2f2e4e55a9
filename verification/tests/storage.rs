use lib::entity::EntityId;
use lib::storage::archetype::{sig_with_added, sig_with_removed, ArchetypeStorage};
use lib::storage::erased::{SparseStore, TagSparseStorage};
use lib::storage::sparse::SparseSet;
use lib::storage::table::TypedTableColumn;
use lib::time::ChangeTick;

#[derive(Clone, Copy, Debug, PartialEq)]
enum Comp {
    Health(i32),
    Mana(i32),
}

#[derive(Clone, Copy, Debug, PartialEq)]
struct Score(i32);

fn entity(slot: u32) -> EntityId {
    EntityId::from_parts(slot, 1)
}

fn table_storage() -> ArchetypeStorage<Comp> {
    ArchetypeStorage::new(vec![true, true])
}

#[test]
fn signature_add_and_remove_are_sorted_and_idempotent() {
    let signature = sig_with_added(&sig_with_added(&sig_with_added(&Vec::new(), 3), 1), 3);
    assert_eq!(signature, vec![1, 3]);
    assert_eq!(sig_with_removed(&signature, 1), vec![3]);
    assert_eq!(sig_with_removed(&signature, 2), signature);
}

#[test]
fn insert_replace_and_remove_table_paths() {
    let mut storage = table_storage();
    let tick = ChangeTick::from_raw(1);
    let later = ChangeTick::from_raw(2);
    assert!(storage.insert_table(entity(1), 0, Comp::Health(3), tick).is_none());
    assert_eq!(storage.insert_table(entity(1), 0, Comp::Health(9), later), Some(Comp::Health(3)));
    assert_eq!(storage.get_table(entity(1), 0), Some(&Comp::Health(9)));
    assert!(!storage.remove_table_index(entity(1), 1));
    storage.insert_table(entity(1), 1, Comp::Mana(2), later);
    assert!(storage.remove_table_index(entity(1), 1));
    assert!(!storage.has_component(entity(1), 1));
    assert!(storage.table_added_tick(entity(1), 0).is_some());
    assert!(storage.get_table_mut(entity(1), 0, later).is_some());
}

#[test]
fn placing_empty_signature_clears_existing_and_missing_locations() {
    let mut storage = table_storage();
    let tick = ChangeTick::from_raw(3);
    let present = entity(31);
    storage.insert_table(present, 0, Comp::Health(1), tick);
    assert_eq!(storage.place_entity(present, &Vec::new()), 0);
    assert!(storage.location(present).is_none());
    assert_eq!(storage.place_entity(entity(32), &Vec::new()), 0);
}

#[test]
fn has_component_and_remove_entity_clear_location() {
    let mut storage = table_storage();
    let tick = ChangeTick::from_raw(3);
    storage.insert_table(entity(3), 0, Comp::Health(2), tick);
    assert!(storage.has_component(entity(3), 0));
    assert!(!storage.has_component(entity(9), 0));
    storage.remove_entity(entity(3));
    assert!(!storage.has_component(entity(3), 0));
}

#[test]
fn place_entity_reuses_row_when_signature_unchanged() {
    let mut storage = table_storage();
    let tick = ChangeTick::from_raw(4);
    storage.insert_table(entity(4), 0, Comp::Health(1), tick);
    let before = storage.get_table(entity(4), 0).copied();
    storage.insert_table(entity(4), 0, Comp::Health(2), tick);
    assert_eq!(storage.get_table(entity(4), 0).copied(), before.map(|_| Comp::Health(2)));
}

#[test]
fn table_tick_and_mut_access_reject_missing_component_index() {
    let mut storage = table_storage();
    let tick = ChangeTick::from_raw(5);
    storage.insert_table(entity(6), 0, Comp::Health(4), tick);
    assert!(storage.get_table_mut(entity(6), 1, tick).is_none());
    assert!(storage.table_added_tick(entity(6), 1).is_none());
    assert!(storage.table_changed_tick(entity(6), 1).is_none());
}

#[test]
fn insert_second_table_component_reuses_existing_row_when_present() {
    let mut storage = table_storage();
    let tick = ChangeTick::from_raw(7);
    storage.insert_table(entity(8), 0, Comp::Health(1), tick);
    storage.insert_table(entity(9), 0, Comp::Health(2), tick);
    storage.insert_table(entity(8), 1, Comp::Mana(3), tick);
    storage.insert_table(entity(9), 1, Comp::Mana(4), tick);
    assert_eq!(storage.get_table(entity(8), 1).copied(), Some(Comp::Mana(3)));
    assert_eq!(storage.get_table(entity(9), 1).copied(), Some(Comp::Mana(4)));
}

#[test]
fn migration_column_write_uses_replace_when_len_exceeds_row() {
    let mut storage = table_storage();
    let tick = ChangeTick::from_raw(9);
    storage.insert_table(entity(40), 0, Comp::Health(1), tick);
    storage.insert_table(entity(40), 1, Comp::Mana(1), tick);
    let archetype = storage.location(entity(40)).expect("located").archetype as usize;
    storage.write_migration_column_for_test(archetype, 1, 0, Comp::Mana(7), tick);
    assert_eq!(storage.get_table(entity(40), 1), Some(&Comp::Mana(7)));
}

#[test]
fn place_entity_returns_existing_row_for_current_archetype() {
    let mut storage = table_storage();
    let tick = ChangeTick::from_raw(6);
    storage.insert_table(entity(7), 0, Comp::Health(1), tick);
    let location = storage.location(entity(7)).expect("location");
    let signature = storage.table_component_indices(entity(7));
    let row = storage.place_entity(entity(7), &signature);
    assert_eq!(row, location.row);
}

#[test]
fn narrowing_a_signature_keeps_the_remaining_components() {
    let mut storage = table_storage();
    let tick = ChangeTick::from_raw(2);
    storage.insert_table(entity(5), 0, Comp::Health(8), tick);
    storage.insert_table(entity(5), 1, Comp::Mana(9), tick);
    storage.place_entity(entity(5), &vec![1]);
    assert!(storage.get_table(entity(5), 0).is_none());
    assert_eq!(storage.get_table(entity(5), 1), Some(&Comp::Mana(9)));
    assert_eq!(storage.table_component_indices(entity(5)), vec![1]);
}

#[test]
fn component_population_counts_rows_holding_a_component() {
    let mut storage = table_storage();
    let tick = ChangeTick::from_raw(1);
    storage.insert_table(entity(1), 0, Comp::Health(1), tick);
    storage.insert_table(entity(2), 0, Comp::Health(2), tick);
    storage.insert_table(entity(2), 1, Comp::Mana(2), tick);
    assert_eq!(storage.component_population(0), 2);
    assert_eq!(storage.component_population(1), 1);
    assert_eq!(storage.archetypes_with_component(1).len(), 1);
}

#[test]
fn typed_sparse_erased_trait_round_trip() {
    let mut store: SparseStore<i32> = SparseStore::new_typed();
    let tick = ChangeTick::from_raw(1);
    let typed = store.typed_mut().expect("typed");
    typed.insert_with_tick(entity(1), 7, tick);
    *typed.get_mut_with_tick(entity(1), tick).expect("mut") = 9;
    assert_eq!(store.sparse_added_tick(entity(1)), Some(tick));
    assert_eq!(store.sparse_changed_tick(entity(1)), Some(tick));
    store.remove_entity(entity(1));
    assert_eq!(store.len(), 0);
}

#[test]
fn tag_sparse_store_tracks_membership_and_ticks() {
    let mut store: SparseStore<i32> = SparseStore::new_tag();
    let tick = ChangeTick::from_raw(2);
    let tag = store.tag_mut().expect("tag");
    assert!(tag.insert_with_tick(entity(4), tick));
    assert!(store.contains_entity(entity(4)));
    assert_eq!(store.sparse_added_tick(entity(4)), Some(tick));
    store.remove_entity(entity(4));
    assert!(!store.contains_entity(entity(4)));
}

#[test]
fn empty_sparse_store_is_inert() {
    let mut store: SparseStore<i32> = SparseStore::new_empty();
    assert_eq!(store.len(), 0);
    assert!(!store.contains_entity(entity(0)));
    assert!(store.dense_slots().is_empty());
    store.remove_entity(entity(0));
    assert!(store.typed().is_none());
    assert!(store.tag().is_none());
    assert!(store.as_erased_mut().is_none());
    assert!(store.sparse_added_tick(entity(0)).is_none());
    assert!(store.sparse_changed_tick(entity(0)).is_none());
}

#[test]
fn typed_store_exposes_erased_mut_and_changed_tick() {
    let mut store: SparseStore<i32> = SparseStore::new_typed();
    let tick = ChangeTick::from_raw(5);
    let erased = store.as_erased_mut().expect("erased");
    assert_eq!(erased.len(), 0);
    let typed = store.typed_mut().expect("typed");
    typed.insert_with_tick(entity(6), 3, tick);
    *typed.get_mut_with_tick(entity(6), tick).expect("mut") = 4;
    assert_eq!(store.sparse_changed_tick(entity(6)), Some(tick));
}

#[test]
fn tag_sparse_changed_tick_is_exposed_through_store_facade() {
    let mut store: SparseStore<i32> = SparseStore::new_tag();
    let tick = ChangeTick::from_raw(6);
    let tag = store.tag_mut().expect("tag");
    assert!(tag.insert_with_tick(entity(7), tick));
    assert_eq!(store.sparse_changed_tick(entity(7)), Some(tick));
}

#[test]
fn typed_store_tag_mut_returns_none() {
    let mut store: SparseStore<i32> = SparseStore::new_typed();
    assert!(store.tag_mut().is_none());
}

#[test]
fn tag_sparse_erased_trait_and_store_facade() {
    let mut store: SparseStore<i32> = SparseStore::new_tag();
    let tick = ChangeTick::from_raw(3);
    {
        let tag = store.tag_mut().expect("tag");
        assert!(tag.insert_with_tick(entity(2), tick));
        assert_eq!(tag.len(), 1);
        assert_eq!(tag.added_tick(entity(2)), Some(tick));
        assert_eq!(tag.changed_tick(entity(2)), Some(tick));
        assert_eq!(tag.dense_slots(), &[2]);
    }
    assert!(store.as_erased_mut().is_none());
    assert_eq!(store.dense_slots(), &[2]);
    store.remove_entity(entity(2));
    assert_eq!(store.len(), 0);
    assert!(!store.tag().expect("tag view").contains(entity(2)));
}

#[test]
fn tag_storage_reinsert_reports_existing_membership() {
    let mut tag = TagSparseStorage::new();
    assert!(tag.insert_with_tick(entity(5), ChangeTick::from_raw(1)));
    assert!(!tag.insert_with_tick(entity(5), ChangeTick::from_raw(2)));
    assert_eq!(tag.added_tick(entity(5)), Some(ChangeTick::from_raw(1)));
    assert_eq!(tag.changed_tick(entity(5)), Some(ChangeTick::from_raw(2)));
    assert!(tag.remove(entity(5)));
    assert!(!tag.remove(entity(5)));
}

#[test]
fn sparse_set_swap_remove_keeps_remaining_values() {
    let mut set: SparseSet<i32> = SparseSet::new();
    let tick = ChangeTick::from_raw(1);
    set.insert_with_tick(entity(1), 10, tick);
    set.insert_with_tick(entity(2), 20, tick);
    set.insert_with_tick(entity(3), 30, tick);
    assert_eq!(set.remove(entity(1)), Some(10));
    assert_eq!(set.dense_slots(), &[3, 2]);
    assert_eq!(set.get(entity(3)), Some(&30));
    assert_eq!(set.get(entity(1)), None);
    assert_eq!(set.len(), 2);
}

#[test]
fn type_id_reports_component_type() {
    let column = TypedTableColumn::<Score>::new();
    assert_eq!(column.type_id(), std::any::TypeId::of::<Score>());
}

#[test]
fn replace_value_appends_when_row_is_out_of_range() {
    let mut column = TypedTableColumn::<Score>::new();
    let tick = ChangeTick::from_raw(3);
    assert!(column.replace_value(4, Score(7), tick).is_none());
    assert_eq!(column.len(), 1);
    assert_eq!(column.get_value(0), Some(&Score(7)));
}

#[test]
fn replace_value_refreshes_added_tick_for_unstamped_rows() {
    let mut column = TypedTableColumn::<Score>::new();
    let tick = ChangeTick::from_raw(8);
    let row = column.append_value(Score(1), ChangeTick::from_raw(1));
    column.overwrite_ticks(row, ChangeTick::zero(), ChangeTick::zero());
    assert!(column.replace_value(row, Score(2), tick).is_some());
    assert_eq!(column.added_tick(row), Some(tick));
}

#[test]
fn stamp_row_marks_added_for_fresh_rows() {
    let mut column = TypedTableColumn::<Score>::new();
    let first = ChangeTick::from_raw(1);
    let row = column.append_value(Score(1), first);
    let second = ChangeTick::from_raw(2);
    let _ = column.replace_value(row, Score(2), second);
    assert_eq!(column.added_tick(row), Some(first));
    assert_eq!(column.changed_tick(row), Some(second));
}

#[test]
fn get_two_table_mut_rejects_duplicate_index_and_missing_components() {
    let mut storage = table_storage();
    let tick = ChangeTick::from_raw(1);
    storage.insert_table(entity(2), 0, Comp::Health(1), tick);
    assert!(storage.get_two_table_mut(entity(2), 0, 0, tick).is_none());
    assert!(storage.get_two_table_mut(entity(2), 0, 1, tick).is_none());
    storage.insert_table(entity(2), 1, Comp::Mana(4), tick);
    let (health, mana) = storage.get_two_table_mut(entity(2), 0, 1, tick).expect("pair");
    assert_eq!(*health, Comp::Health(1));
    assert_eq!(*mana, Comp::Mana(4));
}

#[test]
fn mutable_read_table_pair_covers_both_column_orders() {
    let mut storage = table_storage();
    let tick = ChangeTick::from_raw(2);
    let id = entity(30);
    storage.insert_table(id, 0, Comp::Health(5), tick);
    assert!(storage.get_mut_read_table(id, 0, 0, tick).is_none());
    assert!(storage.get_mut_read_table(id, 0, 1, tick).is_none());
    storage.insert_table(id, 1, Comp::Mana(6), tick);

    let (health, mana) = storage.get_mut_read_table(id, 0, 1, tick).expect("forward");
    if let (Comp::Health(h), Comp::Mana(m)) = (health, mana) {
        *h += *m;
    }
    let (mana, health) = storage.get_mut_read_table(id, 1, 0, tick).expect("reverse");
    if let (Comp::Mana(m), Comp::Health(h)) = (mana, health) {
        *m += *h;
    }
    assert_eq!(storage.get_table(id, 0), Some(&Comp::Health(11)));
    assert_eq!(storage.get_table(id, 1), Some(&Comp::Mana(17)));
}

#[test]
fn paired_writes_stamp_both_changed_ticks() {
    let mut storage = table_storage();
    storage.insert_table(entity(3), 0, Comp::Health(1), ChangeTick::from_raw(1));
    storage.insert_table(entity(3), 1, Comp::Mana(1), ChangeTick::from_raw(1));
    let (a, b) = storage.get_two_table_mut(entity(3), 1, 0, ChangeTick::from_raw(5)).expect("pair");
    *a = Comp::Mana(2);
    *b = Comp::Health(3);
    assert_eq!(storage.table_changed_tick(entity(3), 0), Some(ChangeTick::from_raw(5)));
    assert_eq!(storage.table_changed_tick(entity(3), 1), Some(ChangeTick::from_raw(5)));
    assert_eq!(storage.table_added_tick(entity(3), 1), Some(ChangeTick::from_raw(1)));
    assert_eq!(storage.get_table(entity(3), 1), Some(&Comp::Mana(2)));
    assert_eq!(storage.get_table(entity(3), 0), Some(&Comp::Health(3)));
}

#[test]
fn removing_a_just_added_entity_restores_the_set() {
    let mut set: SparseSet<i32> = SparseSet::new();
    let tick = ChangeTick::from_raw(1);
    set.insert_with_tick(entity(4), 40, tick);
    set.insert_with_tick(entity(2), 20, tick);
    let before: Vec<u32> = set.dense_slots().to_vec();
    set.insert_with_tick(entity(9), 90, ChangeTick::from_raw(2));
    assert_eq!(set.remove(entity(9)), Some(90));
    assert_eq!(set.dense_slots(), before.as_slice());
    assert_eq!(set.get(entity(4)), Some(&40));
    assert_eq!(set.get(entity(2)), Some(&20));
}

#[test]
fn tag_removal_keeps_every_other_tag_and_its_ticks() {
    let mut tag = TagSparseStorage::new();
    tag.insert_with_tick(entity(1), ChangeTick::from_raw(1));
    tag.insert_with_tick(entity(2), ChangeTick::from_raw(2));
    tag.insert_with_tick(entity(3), ChangeTick::from_raw(3));
    assert!(tag.remove(entity(1)));
    assert!(!tag.remove(entity(1)));
    assert_eq!(tag.len(), 2);
    assert!(!tag.contains(entity(1)));
    assert_eq!(tag.added_tick(entity(2)), Some(ChangeTick::from_raw(2)));
    assert_eq!(tag.changed_tick(entity(3)), Some(ChangeTick::from_raw(3)));
}
