//! Values that a wire can carry, each with its encoding as an unsigned number.

use crate::bits::Bits;
use vstd::arithmetic::div_mod::lemma_small_mod;
use vstd::arithmetic::power2::{lemma2_to64, lemma2_to64_rest, pow2};
use vstd::prelude::*;

verus! {

/// A value that can be carried by a signal: it has a fixed width and an
/// encoding as an unsigned number of that many bits.
pub trait Synth: Sized {
    /// The encoding of the value.
    spec fn enc(&self) -> nat;

    /// The width of the encoding in bits.
    spec fn width() -> nat;

    /// The width in bits.
    fn bits() -> (r: usize)
        ensures
            r == Self::width(),
    ;

    /// The value that a fresh signal holds; its encoding is zero.
    fn initial() -> (r: Self)
        ensures
            r.enc() == 0,
    ;

    /// A copy with the same encoding.
    fn dup(&self) -> (r: Self)
        ensures
            r.enc() == self.enc(),
    ;

    /// The low 64 bits of the encoding.
    fn word(&self) -> (r: u64)
        ensures
            r as nat == self.enc() % pow2(64),
    ;

    /// Whether the two values have the same encoding.
    fn same(&self, o: &Self) -> (r: bool)
        ensures
            r == (self.enc() == o.enc()),
    ;

    /// Whether the value is a symbolic enumeration.
    fn is_enum() -> (r: bool)
        ensures
            r == Self::enum_type(),
    ;

    /// The name of the type, for diagnostics and netlists.
    fn type_label() -> (r: &'static str)
        ensures
            r@ == Self::label(),
    ;

    /// The symbolic name of the encoding `ndx`; empty where there is none.
    fn name(ndx: usize) -> (r: &'static str)
        ensures
            r@ == Self::name_of(ndx as nat),
    ;

    /// Whether the encoding is read as a signed number.
    fn signed() -> (r: bool)
        ensures
            r == Self::signed_type(),
    ;

    spec fn enum_type() -> bool;

    spec fn label() -> Seq<char>;

    spec fn name_of(ndx: nat) -> Seq<char>;

    spec fn signed_type() -> bool;
}

/// A single wire.
pub type Bit = bool;

/// The level of a clock wire.
#[derive(Clone, Copy, Debug, PartialEq, Eq, Structural)]
pub struct Clock(pub bool);

pub open spec fn bool_enc(b: bool) -> nat {
    if b {
        1
    } else {
        0
    }
}

impl Synth for bool {
    open spec fn enc(&self) -> nat {
        bool_enc(*self)
    }

    open spec fn width() -> nat {
        1
    }

    fn bits() -> (r: usize) {
        1
    }

    fn initial() -> (r: bool) {
        false
    }

    fn dup(&self) -> (r: bool)
        ensures
            r == *self,
    {
        *self
    }

    fn word(&self) -> (r: u64) {
        proof {
            lemma2_to64_rest();
            lemma_small_mod(bool_enc(*self), pow2(64));
        }
        if *self {
            1
        } else {
            0
        }
    }

    fn same(&self, o: &bool) -> (r: bool) {
        *self == *o
    }

    open spec fn enum_type() -> bool {
        false
    }

    open spec fn label() -> Seq<char> {
        "Bit"@
    }

    open spec fn name_of(ndx: nat) -> Seq<char> {
        ""@
    }

    open spec fn signed_type() -> bool {
        false
    }

    fn is_enum() -> (r: bool) {
        false
    }

    fn type_label() -> (r: &'static str) {
        "Bit"
    }

    fn name(ndx: usize) -> (r: &'static str) {
        ""
    }

    fn signed() -> (r: bool) {
        false
    }
}

impl Synth for Clock {
    open spec fn enc(&self) -> nat {
        bool_enc(self.0)
    }

    open spec fn width() -> nat {
        1
    }

    fn bits() -> (r: usize) {
        1
    }

    fn initial() -> (r: Clock) {
        Clock(false)
    }

    fn dup(&self) -> (r: Clock)
        ensures
            r == *self,
    {
        *self
    }

    fn word(&self) -> (r: u64) {
        proof {
            lemma2_to64_rest();
            lemma_small_mod(bool_enc(self.0), pow2(64));
        }
        if self.0 {
            1
        } else {
            0
        }
    }

    fn same(&self, o: &Clock) -> (r: bool) {
        self.0 == o.0
    }

    open spec fn enum_type() -> bool {
        false
    }

    open spec fn label() -> Seq<char> {
        "Clock"@
    }

    open spec fn name_of(ndx: nat) -> Seq<char> {
        ""@
    }

    open spec fn signed_type() -> bool {
        false
    }

    fn is_enum() -> (r: bool) {
        false
    }

    fn type_label() -> (r: &'static str) {
        "Clock"
    }

    fn name(ndx: usize) -> (r: &'static str) {
        ""
    }

    fn signed() -> (r: bool) {
        false
    }
}

impl<const N: usize> Synth for Bits<N> {
    open spec fn enc(&self) -> nat {
        self@
    }

    open spec fn width() -> nat {
        N as nat
    }

    fn bits() -> (r: usize) {
        N
    }

    fn initial() -> (r: Bits<N>) {
        Bits::zero()
    }

    fn dup(&self) -> (r: Bits<N>) {
        Bits::dup(self)
    }

    fn word(&self) -> (r: u64) {
        self.to_u64()
    }

    fn same(&self, o: &Bits<N>) -> (r: bool) {
        self.equals(o)
    }

    open spec fn enum_type() -> bool {
        false
    }

    open spec fn label() -> Seq<char> {
        "Bits"@
    }

    open spec fn name_of(ndx: nat) -> Seq<char> {
        ""@
    }

    open spec fn signed_type() -> bool {
        false
    }

    fn is_enum() -> (r: bool) {
        false
    }

    fn type_label() -> (r: &'static str) {
        "Bits"
    }

    fn name(ndx: usize) -> (r: &'static str) {
        ""
    }

    fn signed() -> (r: bool) {
        false
    }
}

} // verus!
