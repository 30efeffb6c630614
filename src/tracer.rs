//! Tracing of values as bit strings, module by module.

use crate::bits::{bit_of, Bits};
use vstd::arithmetic::power2::pow2;
use vstd::prelude::*;

verus! {

/// The handle of a traced item.
pub struct TraceId(pub usize);

/// The severity of a trace entry.
#[derive(Clone, Copy, Debug, PartialEq, Eq, Structural)]
pub enum TracerLevel {
    Trace,
    Debug,
    Info,
    Warn,
    Error,
}

/// One event that a serializer receives, over plain values.
pub enum TraceEvent {
    EnterModule(Seq<char>),
    EnterStruct(Seq<char>),
    Bool(Seq<char>, bool),
    Short(Seq<char>, nat, nat),
    Vector(Seq<char>, Seq<bool>),
    Text(Seq<char>, Seq<char>),
    ExitStruct,
    ExitModule,
    Register(Seq<char>, nat),
}

/// A sink for values broken down into bits. Its trace is the sequence of
/// events it has received; each call appends exactly one.
pub trait BitSerializer {
    spec fn trace(&self) -> Seq<TraceEvent>;

    fn enter_struct(&mut self, name: &'static str)
        ensures
            final(self).trace() == old(self).trace().push(TraceEvent::EnterStruct(name@)),
    ;

    fn bool(&mut self, tag: &'static str, value: bool)
        ensures
            final(self).trace() == old(self).trace().push(TraceEvent::Bool(tag@, value)),
    ;

    fn short(&mut self, tag: &'static str, bits: usize, value: u32)
        ensures
            final(self).trace() == old(self).trace().push(TraceEvent::Short(tag@, bits as nat, value as nat)),
    ;

    fn long(&mut self, tag: &'static str, bits: &[bool])
        ensures
            final(self).trace() == old(self).trace().push(TraceEvent::Vector(tag@, bits@)),
    ;

    fn string(&mut self, tag: &'static str, value: &'static str)
        ensures
            final(self).trace() == old(self).trace().push(TraceEvent::Text(tag@, value@)),
    ;

    fn exit_struct(&mut self)
        ensures
            final(self).trace() == old(self).trace().push(TraceEvent::ExitStruct),
    ;
}

/// A value that can describe itself to a `BitSerializer`.
pub trait BitSerialize {
    /// The events that describe the value under `tag`.
    spec fn events(&self, tag: Seq<char>) -> Seq<TraceEvent>;

    fn serialize<S: BitSerializer>(&self, tag: &'static str, serializer: &mut S)
        ensures
            final(serializer).trace() == old(serializer).trace() + self.events(tag@),
    ;
}

/// A tracer: a serializer that also tracks entry into and exit from modules.
pub trait Tracer: BitSerializer {
    fn enter_module(&mut self, name: &'static str)
        ensures
            final(self).trace() == old(self).trace().push(TraceEvent::EnterModule(name@)),
    ;

    fn exit_module(&mut self)
        ensures
            final(self).trace() == old(self).trace().push(TraceEvent::ExitModule),
    ;

    /// Registers a traced item of `width` bits and returns its handle.
    fn register(&mut self, name: &'static str, width: usize) -> (r: TraceId)
        ensures
            final(self).trace() == old(self).trace().push(TraceEvent::Register(name@, width as nat)),
    ;
}

/// A value that can be registered with a tracer ahead of tracing.
pub trait Traceable {
    /// The width that the value is registered with.
    spec fn trace_width() -> nat;

    fn allocate<T: Tracer>(name: &'static str, tracer: &mut T) -> (r: TraceId)
        ensures
            final(tracer).trace() == old(tracer).trace().push(TraceEvent::Register(name@, Self::trace_width())),
    ;
}

/// Marks the setup pass that registers traced items.
pub trait TracerSetup {
}

/// Registers `name`, traced as a value of type `V`, with the tracer.
pub fn id<T: Tracer, V: Traceable>(tracer: &mut T, name: &'static str) -> (r: TraceId)
    ensures
        final(tracer).trace() == old(tracer).trace().push(TraceEvent::Register(name@, V::trace_width())),
{
    V::allocate(name, tracer)
}

/// Records `value` under `name` at the given level.
pub fn log<T: Tracer, V: BitSerialize>(tracer: &mut T, _level: TracerLevel, name: &'static str, value: &V)
    ensures
        final(tracer).trace() == old(tracer).trace() + value.events(name@),
{
    value.serialize(name, tracer);
}

/// A tracer that keeps nothing at run time; its trace is ghost.
pub struct NullTracer {
    pub events: Ghost<Seq<TraceEvent>>,
}

impl NullTracer {
    pub fn new() -> (r: NullTracer)
        ensures
            r.trace() == Seq::<TraceEvent>::empty(),
    {
        NullTracer { events: Ghost(Seq::empty()) }
    }
}

impl BitSerializer for NullTracer {
    open spec fn trace(&self) -> Seq<TraceEvent> {
        self.events@
    }

    fn enter_struct(&mut self, name: &'static str) {
        self.events = Ghost(self.events@.push(TraceEvent::EnterStruct(name@)));
    }

    fn bool(&mut self, tag: &'static str, value: bool) {
        self.events = Ghost(self.events@.push(TraceEvent::Bool(tag@, value)));
    }

    fn short(&mut self, tag: &'static str, bits: usize, value: u32) {
        self.events = Ghost(self.events@.push(TraceEvent::Short(tag@, bits as nat, value as nat)));
    }

    fn long(&mut self, tag: &'static str, bits: &[bool]) {
        self.events = Ghost(self.events@.push(TraceEvent::Vector(tag@, bits@)));
    }

    fn string(&mut self, tag: &'static str, value: &'static str) {
        self.events = Ghost(self.events@.push(TraceEvent::Text(tag@, value@)));
    }

    fn exit_struct(&mut self) {
        self.events = Ghost(self.events@.push(TraceEvent::ExitStruct));
    }
}

impl Tracer for NullTracer {
    fn enter_module(&mut self, name: &'static str) {
        self.events = Ghost(self.events@.push(TraceEvent::EnterModule(name@)));
    }

    fn exit_module(&mut self) {
        self.events = Ghost(self.events@.push(TraceEvent::ExitModule));
    }

    fn register(&mut self, name: &'static str, width: usize) -> (r: TraceId) {
        self.events = Ghost(self.events@.push(TraceEvent::Register(name@, width as nat)));
        TraceId(0)
    }
}

/// A tracer inside a module: entered on creation, left by `exit`.
pub struct TracerModule<T: Tracer> {
    pub tracer: T,
}

impl<T: Tracer> TracerModule<T> {
    pub fn enter(tracer: T, name: &'static str) -> (r: Self)
        ensures
            r.tracer.trace() == tracer.trace().push(TraceEvent::EnterModule(name@)),
    {
        let mut tracer = tracer;
        tracer.enter_module(name);
        TracerModule { tracer }
    }

    pub fn exit(self) -> (r: T)
        ensures
            r.trace() == self.tracer.trace().push(TraceEvent::ExitModule),
    {
        let mut tracer = self.tracer;
        tracer.exit_module();
        tracer
    }
}

/// One recorded trace entry.
pub enum TraceMessage {
    EnterModule(&'static str),
    EnterStruct(&'static str),
    Bool(&'static str, bool),
    Short(&'static str, usize, u32),
    Vector(&'static str, Vec<bool>),
    String(&'static str, &'static str),
    ExitStruct,
    ExitModule,
    Register(&'static str, usize),
}

/// The event a recorded entry stands for.
pub open spec fn event_of(m: TraceMessage) -> TraceEvent {
    match m {
        TraceMessage::EnterModule(n) => TraceEvent::EnterModule(n@),
        TraceMessage::EnterStruct(n) => TraceEvent::EnterStruct(n@),
        TraceMessage::Bool(t, v) => TraceEvent::Bool(t@, v),
        TraceMessage::Short(t, b, v) => TraceEvent::Short(t@, b as nat, v as nat),
        TraceMessage::Vector(t, v) => TraceEvent::Vector(t@, v@),
        TraceMessage::String(t, v) => TraceEvent::Text(t@, v@),
        TraceMessage::ExitStruct => TraceEvent::ExitStruct,
        TraceMessage::ExitModule => TraceEvent::ExitModule,
        TraceMessage::Register(n, w) => TraceEvent::Register(n@, w as nat),
    }
}

/// A tracer that keeps every entry in memory, in order.
pub struct InMemoryTracer {
    pub messages: Vec<TraceMessage>,
}

impl InMemoryTracer {
    pub fn new() -> (r: Self)
        ensures
            r.messages@.len() == 0,
            r.trace() == Seq::<TraceEvent>::empty(),
    {
        let r = InMemoryTracer { messages: Vec::new() };
        proof { assert(r.trace() =~= Seq::<TraceEvent>::empty()); }
        r
    }

    /// The entries recorded so far.
    pub fn len(&self) -> (r: usize)
        ensures
            r == self.messages@.len(),
    {
        self.messages.len()
    }

    fn record(&mut self, m: TraceMessage)
        ensures
            final(self).messages@ == old(self).messages@.push(m),
            final(self).trace() == old(self).trace().push(event_of(m)),
    {
        let ghost e = event_of(m);
        self.messages.push(m);
        proof { assert(self.trace() =~= old(self).trace().push(e)); }
    }
}

fn copy_bits(bits: &[bool]) -> (r: Vec<bool>)
    ensures
        r@ == bits@,
{
    let mut r: Vec<bool> = Vec::new();
    let mut i: usize = 0;
    while i < bits.len()
        invariant
            i <= bits@.len(),
            r@ == bits@.take(i as int),
        decreases bits@.len() - i,
    {
        r.push(bits[i]);
        i = i + 1;
        proof { assert(r@ =~= bits@.take(i as int)); }
    }
    proof { assert(bits@.take(i as int) =~= bits@); }
    r
}

impl BitSerializer for InMemoryTracer {
    open spec fn trace(&self) -> Seq<TraceEvent> {
        self.messages@.map_values(|m: TraceMessage| event_of(m))
    }

    fn enter_struct(&mut self, name: &'static str) {
        self.record(TraceMessage::EnterStruct(name));
    }

    fn bool(&mut self, tag: &'static str, value: bool) {
        self.record(TraceMessage::Bool(tag, value));
    }

    fn short(&mut self, tag: &'static str, bits: usize, value: u32) {
        self.record(TraceMessage::Short(tag, bits, value));
    }

    fn long(&mut self, tag: &'static str, bits: &[bool]) {
        self.record(TraceMessage::Vector(tag, copy_bits(bits)));
    }

    fn string(&mut self, tag: &'static str, value: &'static str) {
        self.record(TraceMessage::String(tag, value));
    }

    fn exit_struct(&mut self) {
        self.record(TraceMessage::ExitStruct);
    }
}

impl Tracer for InMemoryTracer {
    fn enter_module(&mut self, name: &'static str) {
        self.record(TraceMessage::EnterModule(name));
    }

    fn exit_module(&mut self) {
        self.record(TraceMessage::ExitModule);
    }

    /// The handle is the entry's position.
    fn register(&mut self, name: &'static str, width: usize) -> (r: TraceId)
        ensures
            r.0 == old(self).messages@.len(),
    {
        let id = self.messages.len();
        self.record(TraceMessage::Register(name, width));
        TraceId(id)
    }
}

impl BitSerialize for bool {
    open spec fn events(&self, tag: Seq<char>) -> Seq<TraceEvent> {
        seq![TraceEvent::Bool(tag, *self)]
    }

    fn serialize<S: BitSerializer>(&self, tag: &'static str, serializer: &mut S) {
        serializer.bool(tag, *self);
        proof { assert(final(serializer).trace() =~= old(serializer).trace() + self.events(tag@)); }
    }
}

impl BitSerialize for u8 {
    open spec fn events(&self, tag: Seq<char>) -> Seq<TraceEvent> {
        seq![TraceEvent::Short(tag, 8, *self as nat)]
    }

    fn serialize<S: BitSerializer>(&self, tag: &'static str, serializer: &mut S) {
        serializer.short(tag, 8, *self as u32);
        proof { assert(final(serializer).trace() =~= old(serializer).trace() + self.events(tag@)); }
    }
}

impl BitSerialize for u16 {
    open spec fn events(&self, tag: Seq<char>) -> Seq<TraceEvent> {
        seq![TraceEvent::Short(tag, 16, *self as nat)]
    }

    fn serialize<S: BitSerializer>(&self, tag: &'static str, serializer: &mut S) {
        serializer.short(tag, 16, *self as u32);
        proof { assert(final(serializer).trace() =~= old(serializer).trace() + self.events(tag@)); }
    }
}

impl BitSerialize for u32 {
    open spec fn events(&self, tag: Seq<char>) -> Seq<TraceEvent> {
        seq![TraceEvent::Short(tag, 32, *self as nat)]
    }

    fn serialize<S: BitSerializer>(&self, tag: &'static str, serializer: &mut S) {
        serializer.short(tag, 32, *self);
        proof { assert(final(serializer).trace() =~= old(serializer).trace() + self.events(tag@)); }
    }
}

/// The 64 bits of `v`, least significant first.
pub open spec fn word_bit_seq(v: u64) -> Seq<bool> {
    Seq::new(64, |i: int| (v >> (i as u64)) & 1 == 1)
}

/// The bits of `v`, least significant first.
fn word_bits(v: u64) -> (r: Vec<bool>)
    ensures
        r@ == word_bit_seq(v),
{
    let mut r: Vec<bool> = Vec::new();
    let mut i: u64 = 0;
    while i < 64
        invariant
            i <= 64,
            r@.len() == i,
            forall|j: int| 0 <= j < i ==> r@[j] == ((v >> (j as u64)) & 1 == 1),
        decreases 64 - i,
    {
        r.push((v >> i) & 1 == 1);
        i = i + 1;
    }
    proof { assert(r@ =~= word_bit_seq(v)); }
    r
}

impl BitSerialize for u64 {
    open spec fn events(&self, tag: Seq<char>) -> Seq<TraceEvent> {
        seq![TraceEvent::Vector(tag, word_bit_seq(*self))]
    }

    fn serialize<S: BitSerializer>(&self, tag: &'static str, serializer: &mut S) {
        let bits = word_bits(*self);
        serializer.long(tag, bits.as_slice());
        proof { assert(final(serializer).trace() =~= old(serializer).trace() + self.events(tag@)); }
    }
}

/// The `n` bits of `x`, least significant first.
pub open spec fn bit_seq(x: nat, n: nat) -> Seq<bool> {
    Seq::new(n, |i: int| bit_of(x, i as nat))
}

impl<const N: usize> BitSerialize for Bits<N> {
    /// One bit as a boolean, up to 32 bits as a short word, wider values as
    /// their bits.
    open spec fn events(&self, tag: Seq<char>) -> Seq<TraceEvent> {
        if N == 1 {
            seq![TraceEvent::Bool(tag, bit_of(self@, 0))]
        } else if N <= 32 {
            seq![TraceEvent::Short(tag, N as nat, (self@ % pow2(64)) % 0x1_0000_0000)]
        } else {
            seq![TraceEvent::Vector(tag, bit_seq(self@, N as nat))]
        }
    }

    fn serialize<S: BitSerializer>(&self, tag: &'static str, serializer: &mut S) {
        if N == 1 {
            serializer.bool(tag, self.get_bit(0));
        } else if N <= 32 {
            serializer.short(tag, N, (self.to_u64() % 0x1_0000_0000) as u32);
        } else {
            let mut bits: Vec<bool> = Vec::new();
            let mut i: usize = 0;
            while i < N
                invariant
                    i <= N,
                    bits@ == bit_seq(self@, i as nat),
                decreases N - i,
            {
                bits.push(self.get_bit(i));
                i = i + 1;
                proof { assert(bits@ =~= bit_seq(self@, i as nat)); }
            }
            serializer.long(tag, bits.as_slice());
        }
        proof { assert(final(serializer).trace() =~= old(serializer).trace() + self.events(tag@)); }
    }
}

impl Traceable for bool {
    open spec fn trace_width() -> nat {
        1
    }

    fn allocate<T: Tracer>(name: &'static str, tracer: &mut T) -> (r: TraceId) {
        tracer.register(name, 1)
    }
}

impl<const N: usize> Traceable for Bits<N> {
    open spec fn trace_width() -> nat {
        N as nat
    }

    fn allocate<T: Tracer>(name: &'static str, tracer: &mut T) -> (r: TraceId) {
        tracer.register(name, N)
    }
}

} // verus!
