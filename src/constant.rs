//! Constants: atoms whose value never changes.

use crate::block::{AtomIds, AtomInfo, AtomKind, AtomList, AtomView, Block, Logic};
use crate::synth::Synth;
use vstd::arithmetic::power2::pow2;
use vstd::prelude::*;

verus! {

/// A constant value wired into a circuit. It is always connected and never changes.
pub struct Constant<T: Synth> {
    val: T,
    id: usize,
}

impl<T: Synth> Constant<T> {
    /// The encoding of the constant's value.
    pub closed spec fn value(&self) -> nat {
        self.val.enc()
    }

    /// The constant's identity.
    pub closed spec fn ident(&self) -> nat {
        self.id as nat
    }

    /// A constant holding `val`, with the next id of `ids`.
    pub fn new(val: T, ids: &mut AtomIds) -> (r: Constant<T>)
        requires
            old(ids).issued() < usize::MAX,
        ensures
            r.value() == val.enc(),
            r.ident() == old(ids).issued(),
            final(ids).issued() == old(ids).issued() + 1,
    {
        let id = ids.issue();
        Constant { val, id }
    }

    /// The constant's identity.
    pub fn id(&self) -> (r: usize)
        ensures
            r == self.ident(),
    {
        self.id
    }

    /// The constant's value.
    pub fn val(&self) -> (r: T)
        ensures
            r.enc() == self.value(),
    {
        self.val.dup()
    }

    /// The width in bits.
    pub fn bits(&self) -> (r: usize)
        ensures
            r == T::width(),
    {
        T::bits()
    }

    /// A constant is always connected.
    pub fn connected(&self) -> (r: bool)
        ensures
            r,
    {
        true
    }

    /// A constant never changes.
    pub fn changed(&self) -> (r: bool)
        ensures
            !r,
    {
        false
    }

    /// The role of the atom.
    pub fn kind(&self) -> (r: AtomKind)
        ensures
            r == AtomKind::Constant,
    {
        AtomKind::Constant
    }

    /// Whether the carried type is a symbolic enumeration.
    pub fn is_enum(&self) -> (r: bool)
        ensures
            r == T::enum_type(),
    {
        T::is_enum()
    }

    /// The symbolic name of the encoding `ndx` of the carried type.
    pub fn name(&self, ndx: usize) -> (r: &'static str)
        ensures
            r@ == T::name_of(ndx as nat),
    {
        T::name(ndx)
    }

    /// The name of the carried type.
    pub fn type_label(&self) -> (r: &'static str)
        ensures
            r@ == T::label(),
    {
        T::type_label()
    }

    /// Whether the carried type is read as a signed number.
    pub fn signed(&self) -> (r: bool)
        ensures
            r == T::signed_type(),
    {
        T::signed()
    }
}

impl<T: Synth> Block for Constant<T> {
    type Model = nat;

    open spec fn model(&self) -> nat {
        self.value()
    }

    open spec fn step(m: nat) -> nat {
        m
    }

    open spec fn changed(m: nat) -> bool {
        false
    }

    open spec fn atoms(&self, path: Seq<char>) -> Seq<AtomView> {
        seq![AtomView { path, bits: T::width(), kind: AtomKind::Constant, connected: true, changed: false, value: self.value() % pow2(64), signed: T::signed_type() }]
    }

    proof fn lemma_quiet_pass_is_fixed(m: nat) {
    }

    fn update_all(&mut self)
        ensures
            final(self).value() == old(self).value(),
            final(self).ident() == old(self).ident(),
    {
    }

    fn has_changed(&self) -> (r: bool) {
        false
    }

    fn connect_all(&mut self)
        ensures
            final(self).value() == old(self).value(),
            final(self).ident() == old(self).ident(),
    {
    }

    fn accept(&self, path: &String, probe: &mut AtomList) {
        let a = AtomInfo { path: path.clone(), bits: T::bits(), kind: AtomKind::Constant, connected: true, changed: false, value: self.val.word(), signed: T::signed() };
        probe.visit_atom(a);
        proof { assert(final(probe)@ =~= old(probe)@ + self.atoms(path@)); }
    }
}

impl<T: Synth> Logic for Constant<T> {
    open spec fn logic(m: nat) -> nat {
        m
    }

    fn update(&mut self)
        ensures
            final(self).value() == old(self).value(),
            final(self).ident() == old(self).ident(),
    {
    }

    fn connect(&mut self)
        ensures
            final(self).value() == old(self).value(),
            final(self).ident() == old(self).ident(),
    {
    }
}

} // verus!
