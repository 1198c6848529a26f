use rwkv_web::model::{quant_layers, Quant};
use rwkv_web::state::{StateId, StateStore};

#[test]
fn quant_layers_nf4_overrides_int8() {
    let plan = quant_layers(4, 2);
    assert_eq!(plan.len(), 4);
    assert_eq!(plan.get(&0), Some(&Quant::NF4));
    assert_eq!(plan.get(&1), Some(&Quant::NF4));
    assert_eq!(plan.get(&2), Some(&Quant::Int8));
    assert_eq!(plan.get(&3), Some(&Quant::Int8));
    assert_eq!(plan.get(&4), None);
}

#[test]
fn quant_layers_nf4_beyond_int8() {
    let plan = quant_layers(1, 3);
    assert_eq!(plan.len(), 3);
    for layer in 0..3 {
        assert_eq!(plan.get(&layer), Some(&Quant::NF4));
    }
}

#[test]
fn quant_layers_empty_plan() {
    assert!(quant_layers(0, 0).is_empty());
}

#[test]
fn quant_layers_int8_only() {
    let plan = quant_layers(3, 0);
    assert_eq!(plan.len(), 3);
    assert!(plan.values().all(|q| *q == Quant::Int8));
}

#[test]
fn state_ids_are_fresh_and_nonzero() {
    let a = StateId::new();
    let b = StateId::new();
    let c = StateId::default();
    assert_ne!(a.get(), 0);
    assert_ne!(a, b);
    assert_ne!(b, c);
    assert_ne!(a, c);
}

#[test]
fn store_checkout_restores_backup() {
    let a = StateId::new();
    let b = StateId::new();
    let mut store: StateStore<&str> = StateStore::new(a);
    assert_eq!(store.current(), a);
    assert!(!store.needs_checkout(&a));
    assert!(store.needs_checkout(&b));
    assert_eq!(store.backed_state(&b), None);

    // leave `a` for `b`
    store.back("state of a");
    store.select(b);
    assert_eq!(store.current(), b);
    assert_eq!(store.backed_state(&b), None);
    assert_eq!(store.backed_state(&a), Some(&"state of a"));

    // and come back
    store.back("state of b");
    store.select(a);
    assert_eq!(store.backed_state(&a), Some(&"state of a"));
    assert_eq!(store.backed_state(&b), Some(&"state of b"));
}

#[test]
fn store_back_replaces_backup_of_current() {
    let a = StateId::new();
    let mut store: StateStore<u32> = StateStore::new(a);
    store.back(1);
    store.back(2);
    assert_eq!(store.backed_state(&a), Some(&2));
}

#[test]
fn switch_to_backs_up_and_selects() {
    let a = StateId::new();
    let b = StateId::new();
    let c = StateId::new();
    let mut store: StateStore<u32> = StateStore::new(a);
    store.switch_to(a, 99);
    assert_eq!(store.backed_state(&a), None);
    store.switch_to(b, 1);
    store.switch_to(c, 2);
    store.switch_to(a, 3);
    assert_eq!(store.current(), a);
    assert_eq!(store.backed_state(&a), Some(&1));
    assert_eq!(store.backed_state(&b), Some(&2));
    assert_eq!(store.backed_state(&c), Some(&3));
}
