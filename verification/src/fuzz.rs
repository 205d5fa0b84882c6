//! The small model that the fuzz harnesses push decoded mementos through: a
//! nested recallable field and a skipped field, with the `Recall` behaviour the
//! derives give them written out.
use vstd::prelude::*;

verus! {

/// The inner model: four plain fields, all recalled by assignment.
#[derive(Clone, Debug, PartialEq, Eq, Structural)]
pub struct FuzzInner {
    pub a: u8,
    pub b: u8,
    pub c: u8,
    pub d: u8,
}

/// The memento of `FuzzInner`: one field per stored field.
#[derive(Clone, Debug, PartialEq, Eq, Structural)]
pub struct FuzzInnerMemento {
    pub a: u8,
    pub b: u8,
    pub c: u8,
    pub d: u8,
}

/// The outer model: `level` is recalled by assignment, `nested` through its own
/// memento, and `skipped` is left out of the memento.
#[derive(Clone, Debug, PartialEq, Eq, Structural)]
pub struct FuzzOuter {
    pub level: u8,
    pub nested: FuzzInner,
    pub skipped: u8,
}

/// The memento of `FuzzOuter`: `skipped` has no field here.
#[derive(Clone, Debug, PartialEq, Eq, Structural)]
pub struct FuzzOuterMemento {
    pub level: u8,
    pub nested: FuzzInnerMemento,
}

impl FuzzInner {
    /// Overwrites every field with the memento's.
    pub fn recall(&mut self, memento: FuzzInnerMemento)
        ensures
            *final(self) == (FuzzInner { a: memento.a, b: memento.b, c: memento.c, d: memento.d }),
    {
        self.a = memento.a;
        self.b = memento.b;
        self.c = memento.c;
        self.d = memento.d;
    }
}

impl FuzzOuter {
    /// Assigns `level`, recalls `nested` from the nested memento, and keeps
    /// `skipped` as it was.
    pub fn recall(&mut self, memento: FuzzOuterMemento)
        ensures
            final(self).level == memento.level,
            final(self).nested == (FuzzInner {
                a: memento.nested.a,
                b: memento.nested.b,
                c: memento.nested.c,
                d: memento.nested.d,
            }),
            final(self).skipped == old(self).skipped,
    {
        self.level = memento.level;
        self.nested.recall(memento.nested);
    }
}

/// The starting target of every run: all zeros, with `skipped` set to 99.
pub fn seed_model() -> (r: FuzzOuter)
    ensures
        r == (FuzzOuter { level: 0, nested: FuzzInner { a: 0, b: 0, c: 0, d: 0 }, skipped: 99 }),
{
    FuzzOuter { level: 0, nested: FuzzInner { a: 0, b: 0, c: 0, d: 0 }, skipped: 99 }
}

/// Recalls a decoded memento onto a fresh seed model; that no memento makes
/// this panic is what verification of the recall path shows.
pub fn apply_memento(memento: FuzzOuterMemento) {
    let mut target = seed_model();
    target.recall(memento);
}

} // verus!
