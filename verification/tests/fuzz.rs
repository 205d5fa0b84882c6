use recallable_macro::fuzz::{
    apply_memento, seed_model, FuzzInner, FuzzInnerMemento, FuzzOuter, FuzzOuterMemento,
};

#[test]
fn seed_model_is_the_documented_start() {
    let seed = seed_model();
    assert_eq!(
        seed,
        FuzzOuter { level: 0, nested: FuzzInner { a: 0, b: 0, c: 0, d: 0 }, skipped: 99 }
    );
}

#[test]
fn recall_sets_stored_fields_and_keeps_skipped() {
    let mut target = seed_model();
    target.recall(FuzzOuterMemento { level: 7, nested: FuzzInnerMemento { a: 1, b: 2, c: 3, d: 255 } });
    assert_eq!(target.level, 7);
    assert_eq!(target.nested, FuzzInner { a: 1, b: 2, c: 3, d: 255 });
    assert_eq!(target.skipped, 99);
}

#[test]
fn recall_twice_keeps_the_last_memento() {
    let mut target = seed_model();
    target.recall(FuzzOuterMemento { level: 1, nested: FuzzInnerMemento { a: 1, b: 1, c: 1, d: 1 } });
    target.recall(FuzzOuterMemento { level: 2, nested: FuzzInnerMemento { a: 9, b: 8, c: 7, d: 6 } });
    assert_eq!(
        target,
        FuzzOuter { level: 2, nested: FuzzInner { a: 9, b: 8, c: 7, d: 6 }, skipped: 99 }
    );
}

#[test]
fn apply_memento_accepts_extreme_values() {
    apply_memento(FuzzOuterMemento { level: 255, nested: FuzzInnerMemento { a: 255, b: 0, c: 255, d: 0 } });
    apply_memento(FuzzOuterMemento { level: 0, nested: FuzzInnerMemento { a: 0, b: 0, c: 0, d: 0 } });
}
