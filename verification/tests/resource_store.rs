use std::any::TypeId;

use lib::resource::store::{ResourceStore, ScopedResource};
use lib::schedule::system::SystemInitContext;
use lib::time::ChangeTick;
use lib::world::WorldError;

struct Score;
struct Other;

#[derive(Debug, PartialEq)]
enum Res {
    Score(i32),
}

fn score() -> TypeId {
    TypeId::of::<Score>()
}

fn other() -> TypeId {
    TypeId::of::<Other>()
}

#[test]
fn lock_blocks_remove_and_duplicate_lock_is_idempotent() {
    let mut store: ResourceStore<Res> = ResourceStore::new();
    store.register(score(), "Score");
    let tick = ChangeTick::from_raw(1);
    store.insert(score(), "Score", Res::Score(1), tick).expect("insert");
    store.lock(score());
    store.lock(score());
    assert!(matches!(store.remove(score(), "Score"), Err(WorldError::ResourceInUse { .. })));
    store.unlock(score());
    assert!(!store.is_locked(score()));
    store.unlock(score());
    assert_eq!(store.remove(score(), "Score").expect("remove"), Some(Res::Score(1)));

    store.lock_type(other());
    store.lock_type(other());
    assert!(store.is_locked(other()));
    store.unlock_type(other());
    assert!(!store.is_locked(other()));
    store.unlock_type(other());
}

#[test]
fn tick_helpers_and_default_constructor() {
    let mut default_store: ResourceStore<Res> = ResourceStore::default();
    default_store.register(score(), "Score");
    let tick = ChangeTick::from_raw(3);
    default_store.insert(score(), "Score", Res::Score(9), tick).expect("insert");
    assert_eq!(default_store.added_tick(score(), "Score").expect("added"), Some(tick));
    assert_eq!(default_store.changed_tick(score(), "Score").expect("changed"), Some(tick));
    assert_eq!(default_store.added_tick_for(score()).expect("added for"), Some(tick));
    assert_eq!(default_store.changed_tick_for(score()).expect("changed for"), Some(tick));
    assert!(default_store.registered_name(score()).is_some_and(|name| name.ends_with("Score")));
}

#[test]
fn duplicate_register_returns_existing_index() {
    let mut store: ResourceStore<Res> = ResourceStore::new();
    let first = store.register(score(), "Score");
    let second = store.register(score(), "Score");
    assert_eq!(first, second);
}

#[test]
fn scope_restore_and_tick_for_error_paths() {
    let mut store: ResourceStore<Res> = ResourceStore::new();
    store.register(score(), "Score");
    let tick = ChangeTick::from_raw(1);
    store.insert(score(), "Score", Res::Score(1), tick).expect("insert");
    let _ = store.take_for_scope(score(), "Score").expect("scope");
    assert!(matches!(store.prepare_scope(score(), "Score"), Err(WorldError::ResourceScoped { .. })));
    assert!(matches!(store.prepare_scope(other(), "Other"), Err(WorldError::ResourceScoped { .. })));
    assert!(matches!(store.take_for_scope(score(), "Score"), Err(WorldError::ResourceScoped { .. })));
    store.cancel_scope();

    let mut other_store: ResourceStore<Res> = ResourceStore::new();
    other_store.register(score(), "Score");
    other_store.register(other(), "Other");
    let _ = other_store.take_for_scope(other(), "Other").expect("scope other");
    assert!(matches!(
        other_store.restore_scope(score(), "Score", ScopedResource::new(Res::Score(2), tick, tick), None),
        Err(WorldError::ResourceScoped { .. })
    ));

    let mut store: ResourceStore<Res> = ResourceStore::new();
    store.register(score(), "Score");
    assert!(store.get_mut(score(), "Score", ChangeTick::from_raw(2)).expect("absent").is_none());
    assert!(matches!(store.added_tick_for(TypeId::of::<i32>()), Err(WorldError::UnregisteredResource { .. })));
    assert!(matches!(store.changed_tick_for(TypeId::of::<i32>()), Err(WorldError::UnregisteredResource { .. })));
}

#[test]
fn write_then_read_returns_the_written_value() {
    let mut store: ResourceStore<Res> = ResourceStore::new();
    store.register(score(), "Score");
    assert_eq!(store.insert(score(), "Score", Res::Score(5), ChangeTick::from_raw(2)).expect("insert"), None);
    assert_eq!(store.get(score(), "Score").expect("get"), Some(&Res::Score(5)));
    assert_eq!(
        store.insert(score(), "Score", Res::Score(6), ChangeTick::from_raw(4)).expect("replace"),
        Some(Res::Score(5))
    );
    assert_eq!(store.added_tick(score(), "Score").expect("added"), Some(ChangeTick::from_raw(2)));
    assert_eq!(store.changed_tick(score(), "Score").expect("changed"), Some(ChangeTick::from_raw(4)));
}

#[test]
fn restore_scope_applies_the_changed_tick() {
    let mut store: ResourceStore<Res> = ResourceStore::new();
    store.register(score(), "Score");
    store.insert(score(), "Score", Res::Score(1), ChangeTick::from_raw(1)).expect("insert");
    let scoped = store.take_for_scope(score(), "Score").expect("scope").expect("value");
    assert!(!store.contains_type(score()));
    store.restore_scope(score(), "Score", scoped, Some(ChangeTick::from_raw(7))).expect("restore");
    assert_eq!(store.changed_tick(score(), "Score").expect("changed"), Some(ChangeTick::from_raw(7)));
    assert_eq!(store.added_tick(score(), "Score").expect("added"), Some(ChangeTick::from_raw(1)));
}

#[test]
fn unregistered_resources_are_reported_by_name() {
    let mut store: ResourceStore<Res> = ResourceStore::new();
    match store.insert(score(), "Score", Res::Score(1), ChangeTick::from_raw(1)) {
        Err(WorldError::UnregisteredResource { name }) => assert_eq!(name, "Score"),
        _ => panic!("expected an unregistered resource"),
    }
    assert_eq!(
        WorldError::UnregisteredResource { name: String::from("Score") }.to_string(),
        "unregistered resource 'Score'"
    );
}

#[test]
fn handing_back_a_scoped_value_restores_the_entry() {
    let mut store: ResourceStore<Res> = ResourceStore::new();
    store.register(score(), "Score");
    store.insert(score(), "Score", Res::Score(4), ChangeTick::from_raw(2)).expect("insert");
    store.insert(score(), "Score", Res::Score(5), ChangeTick::from_raw(3)).expect("replace");
    let scoped = store.take_for_scope(score(), "Score").expect("scope").expect("value");
    assert_eq!(scoped.get(), &Res::Score(5));
    store.restore_scope(score(), "Score", scoped, None).expect("restore");
    assert_eq!(store.get(score(), "Score").expect("get"), Some(&Res::Score(5)));
    assert_eq!(store.added_tick(score(), "Score").expect("added"), Some(ChangeTick::from_raw(2)));
    assert_eq!(store.changed_tick(score(), "Score").expect("changed"), Some(ChangeTick::from_raw(3)));
}

#[test]
fn init_context_reads_resources_without_changing_them() {
    let mut store: ResourceStore<Res> = ResourceStore::new();
    store.register(score(), "Score");
    {
        let context = SystemInitContext::new(&store);
        assert!(!context.contains_resource(score()));
        assert!(matches!(context.resource(score(), "Score"), Ok(None)));
        assert!(matches!(
            context.resource(other(), "Other"),
            Err(WorldError::UnregisteredResource { name }) if name == "Other"
        ));
    }
    store.insert(score(), "Score", Res::Score(4), ChangeTick::from_raw(1)).expect("insert");
    let context = SystemInitContext::new(&store);
    assert!(context.contains_resource(score()));
    assert_eq!(context.resource(score(), "Score"), Ok(Some(&Res::Score(4))));
}
