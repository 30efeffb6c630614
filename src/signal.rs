//! Signals: typed storage cells with a proposed and a committed value.

use crate::block::{AtomInfo, AtomKind, AtomList, AtomView, Block};
use crate::synth::{Clock, Synth};
use core::marker::PhantomData;
use vstd::arithmetic::power2::pow2;
use vstd::prelude::*;

verus! {

/// The direction of a signal, fixed by its type.
pub trait Direction {
    spec fn kind_spec() -> AtomKind;

    fn kind() -> (r: AtomKind)
        ensures
            r == Self::kind_spec(),
    ;
}

/// Driven from outside the block.
pub struct In;

/// Driven by the block for the outside.
pub struct Out;

/// Internal to the block.
pub struct Local;

/// Bidirectional.
pub struct InOut;

impl Direction for In {
    open spec fn kind_spec() -> AtomKind {
        AtomKind::Input
    }

    fn kind() -> (r: AtomKind) {
        AtomKind::Input
    }
}

impl Direction for Out {
    open spec fn kind_spec() -> AtomKind {
        AtomKind::Output
    }

    fn kind() -> (r: AtomKind) {
        AtomKind::Output
    }
}

impl Direction for Local {
    open spec fn kind_spec() -> AtomKind {
        AtomKind::Local
    }

    fn kind() -> (r: AtomKind) {
        AtomKind::Local
    }
}

impl Direction for InOut {
    open spec fn kind_spec() -> AtomKind {
        AtomKind::InOut
    }

    fn kind() -> (r: AtomKind) {
        AtomKind::InOut
    }
}

/// The state of a signal, over the encodings of its values.
pub struct SignalModel {
    pub next: nat,
    pub val: nat,
    pub prev: nat,
    pub changed: bool,
    pub claimed: bool,
}

/// A fresh signal: every value zero, nothing changed, not connected.
pub open spec fn fresh() -> SignalModel {
    SignalModel { next: 0, val: 0, prev: 0, changed: false, claimed: false }
}

/// An output that starts at `init`, reported as changed so that its first
/// value is seen.
pub open spec fn started_at(init: nat) -> SignalModel {
    SignalModel { next: 0, val: init, prev: init, changed: true, claimed: false }
}

/// The signal marked connected, nothing else changed.
pub open spec fn claim(m: SignalModel) -> SignalModel {
    SignalModel { claimed: true, ..m }
}

/// The commit rule: a proposed value that differs from the committed one
/// becomes committed, and the committed one becomes the previous one.
pub open spec fn commit(m: SignalModel) -> SignalModel {
    if m.next != m.val {
        SignalModel { prev: m.val, val: m.next, changed: true, ..m }
    } else {
        SignalModel { changed: false, ..m }
    }
}

/// A signal of direction `D` carrying values of type `T`.
pub struct Signal<D: Direction, T: Synth> {
    /// The proposed value, written by update rules.
    pub next: T,
    /// The committed value.
    pub val: T,
    /// The value committed before `val`, read to detect clock edges.
    pub prev: T,
    /// Whether the most recent commit changed `val`.
    pub changed: bool,
    /// Whether the signal has been marked connected.
    pub claimed: bool,
    /// Marks the direction; carries no data.
    pub dir: PhantomData<D>,
}

impl<D: Direction, T: Synth> Signal<D, T> {
    pub open spec fn model(&self) -> SignalModel {
        SignalModel {
            next: self.next.enc(),
            val: self.val.enc(),
            prev: self.prev.enc(),
            changed: self.changed,
            claimed: self.claimed,
        }
    }

    /// A fresh signal: every value is the type's initial one, nothing changed.
    pub fn new() -> (r: Self)
        ensures
            r.model() == fresh(),
    {
        Signal { next: T::initial(), val: T::initial(), prev: T::initial(), changed: false, claimed: false, dir: PhantomData }
    }

    /// Marks the signal as connected. A signal is marked once.
    pub fn connect(&mut self)
        requires
            !old(self).claimed,
        ensures
            final(self).model() == claim(old(self).model()),
    {
        self.claimed = true;
    }

    /// Marks the signal as connected, whether or not it already was; used
    /// by connect passes, which may run more than once.
    pub fn mark_connected(&mut self)
        ensures
            final(self).model() == claim(old(self).model()),
    {
        self.claimed = true;
    }

    /// Whether the signal has been marked connected.
    pub fn connected(&self) -> (r: bool)
        ensures
            r == self.claimed,
    {
        self.claimed
    }

    /// The width in bits.
    pub fn bits(&self) -> (r: usize)
        ensures
            r == T::width(),
    {
        T::bits()
    }

    /// The role of the signal.
    pub fn kind(&self) -> (r: AtomKind)
        ensures
            r == D::kind_spec(),
    {
        D::kind()
    }

    /// Whether the carried type is a symbolic enumeration.
    pub fn is_enum(&self) -> (r: bool)
        ensures
            r == T::enum_type(),
    {
        T::is_enum()
    }

    /// The symbolic name of the encoding `ndx` of the carried type.
    pub fn name(&self, ndx: usize) -> (r: &'static str)
        ensures
            r@ == T::name_of(ndx as nat),
    {
        T::name(ndx)
    }

    /// The name of the carried type.
    pub fn type_label(&self) -> (r: &'static str)
        ensures
            r@ == T::label(),
    {
        T::type_label()
    }

    /// Whether the carried type is read as a signed number.
    pub fn signed(&self) -> (r: bool)
        ensures
            r == T::signed_type(),
    {
        T::signed()
    }

    /// Whether the most recent commit changed the committed value.
    pub fn changed(&self) -> (r: bool)
        ensures
            r == self.changed,
    {
        self.changed
    }
}

impl<D: Direction, T: Synth> Default for Signal<D, T> {
    fn default() -> (r: Self)
        ensures
            r.model() == fresh(),
    {
        Signal::new()
    }
}

impl<D: Direction, T: Synth> Block for Signal<D, T> {
    type Model = SignalModel;

    open spec fn model(&self) -> SignalModel {
        Signal::model(self)
    }

    open spec fn step(m: SignalModel) -> SignalModel {
        commit(m)
    }

    open spec fn changed(m: SignalModel) -> bool {
        m.changed
    }

    open spec fn atoms(&self, path: Seq<char>) -> Seq<AtomView> {
        seq![AtomView { path, bits: T::width(), kind: D::kind_spec(), connected: self.claimed, changed: self.changed, value: self.val.enc() % pow2(64), signed: T::signed_type() }]
    }

    proof fn lemma_quiet_pass_is_fixed(m: SignalModel) {
    }

    fn update_all(&mut self) {
        let c = !self.val.same(&self.next);
        self.changed = c;
        if c {
            self.prev = self.val.dup();
            self.val = self.next.dup();
        }
    }

    fn has_changed(&self) -> (r: bool) {
        self.changed
    }

    /// A signal's own connect pass leaves it alone: it is connected by the
    /// block that drives it, or by the user.
    fn connect_all(&mut self)
        ensures
            final(self).model() == old(self).model(),
    {
    }

    fn accept(&self, path: &String, probe: &mut AtomList) {
        let a = AtomInfo { path: path.clone(), bits: T::bits(), kind: D::kind(), connected: self.claimed, changed: self.changed, value: self.val.word(), signed: T::signed() };
        probe.visit_atom(a);
        proof { assert(final(probe)@ =~= old(probe)@ + self.atoms(path@)); }
    }
}

impl Signal<In, Clock> {
    /// A rising edge: the last commit changed the clock from low to high.
    pub fn pos_edge(&self) -> (r: bool)
        ensures
            r == (self.changed && self.val.0 && !self.prev.0),
    {
        self.changed && self.val.0 && !self.prev.0
    }

    /// A falling edge: the last commit changed the clock from high to low.
    pub fn neg_edge(&self) -> (r: bool)
        ensures
            r == (self.changed && !self.val.0 && self.prev.0),
    {
        self.changed && !self.val.0 && self.prev.0
    }
}

impl<T: Synth> Signal<Out, T> {
    /// An output that starts at `init`, reported as changed so that its
    /// first value is seen.
    pub fn new_with_default(init: T) -> (r: Signal<Out, T>)
        ensures
            r.model() == started_at(init.enc()),
    {
        let prev = init.dup();
        Signal { next: T::initial(), val: init, prev, changed: true, claimed: false, dir: PhantomData }
    }
}

/// Committing twice with the proposed value left alone: the second commit
/// changes nothing.
pub proof fn lemma_commit_idempotent(m: SignalModel)
    ensures
        !commit(commit(m)).changed,
        commit(commit(m)).val == commit(m).val,
        commit(commit(m)).prev == commit(m).prev,
{
}

} // verus!
