use seesaw::registry::{Registry, RegistryError};

#[test]
fn registered_handlers_are_found_by_name() {
    let mut registry: Registry<u32> = Registry::new();
    assert_eq!(registry.len(), 0);
    assert_eq!(registry.register("email:send", 1), Ok(()));
    assert_eq!(registry.register("report:build", 2), Ok(()));
    assert_eq!(registry.len(), 2);
    assert_eq!(registry.lookup("email:send"), Some(&1));
    assert_eq!(registry.lookup("report:build"), Some(&2));
    assert_eq!(registry.lookup("email"), None);
    assert!(registry.contains("email:send"));
    assert!(!registry.contains(""));
}

#[test]
fn a_name_is_registered_once() {
    let mut registry: Registry<u32> = Registry::new();
    registry.register("email:send", 1).unwrap();
    assert_eq!(registry.register("email:send", 2), Err(RegistryError::Duplicate));
    assert_eq!(registry.lookup("email:send"), Some(&1));
    assert_eq!(registry.len(), 1);
}

#[test]
fn a_frozen_registry_takes_no_entries() {
    let mut registry: Registry<u32> = Registry::new();
    registry.register("a", 1).unwrap();
    assert!(!registry.is_frozen());
    registry.freeze();
    assert!(registry.is_frozen());
    assert_eq!(registry.register("b", 2), Err(RegistryError::Frozen));
    assert_eq!(registry.register("a", 2), Err(RegistryError::Frozen));
    assert_eq!(registry.lookup("a"), Some(&1));
    assert_eq!(registry.lookup("b"), None);
}

#[test]
fn resolve_names_the_missing_job_type() {
    let mut registry: Registry<u32> = Registry::new();
    registry.register("a", 1).unwrap();
    assert_eq!(registry.resolve("a").unwrap(), &1);
    let err = registry.resolve("email:send").unwrap_err();
    assert_eq!(err.job_type, "email:send");
}
