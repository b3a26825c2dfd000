use reactive_store::ReactiveError;
use reactive_store::context::ContextRegistry;

const STATE_KEY: u64 = 1;
const THEME_KEY: u64 = 2;

#[test]
fn provide_then_require() {
    let mut registry: ContextRegistry<u32> = ContextRegistry::new();
    registry.provide(STATE_KEY, 10);
    assert_eq!(registry.require(STATE_KEY), Ok(&10));
}

#[test]
fn missing_provider_is_an_error() {
    let registry: ContextRegistry<u32> = ContextRegistry::new();
    assert_eq!(registry.require(STATE_KEY), Err(ReactiveError::MissingProvider));
}

#[test]
fn try_get_is_the_optional_variant() {
    let mut registry: ContextRegistry<u32> = ContextRegistry::new();
    assert_eq!(registry.try_get(STATE_KEY), None);
    registry.provide(STATE_KEY, 4);
    assert_eq!(registry.try_get(STATE_KEY), Some(&4));
    assert_eq!(registry.try_get(THEME_KEY), None);
}

#[test]
fn child_scope_shadows_and_teardown_restores() {
    let mut registry: ContextRegistry<&str> = ContextRegistry::new();
    registry.provide(STATE_KEY, "A");
    registry.mount_scope();
    registry.provide(STATE_KEY, "B");
    assert_eq!(registry.require(STATE_KEY), Ok(&"B"));
    registry.teardown_scope();
    assert_eq!(registry.require(STATE_KEY), Ok(&"A"));
}

#[test]
fn teardown_discards_only_the_scopes_own_bindings() {
    let mut registry: ContextRegistry<u32> = ContextRegistry::new();
    registry.provide(STATE_KEY, 1);
    registry.mount_scope();
    registry.provide(THEME_KEY, 2);
    assert_eq!(registry.require(THEME_KEY), Ok(&2));
    assert_eq!(registry.require(STATE_KEY), Ok(&1));
    registry.teardown_scope();
    assert_eq!(registry.require(THEME_KEY), Err(ReactiveError::MissingProvider));
    assert_eq!(registry.require(STATE_KEY), Ok(&1));
    assert_eq!(registry.depth(), 0);
}

#[test]
fn independent_registries_do_not_interfere() {
    let mut one: ContextRegistry<u32> = ContextRegistry::new();
    let other: ContextRegistry<u32> = ContextRegistry::new();
    one.provide(STATE_KEY, 7);
    assert_eq!(one.require(STATE_KEY), Ok(&7));
    assert_eq!(other.require(STATE_KEY), Err(ReactiveError::MissingProvider));
}
