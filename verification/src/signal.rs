//! Signal types, samples and typed sample buffers.

use vstd::prelude::*;
use vstd::arithmetic::power2::{lemma2_to64, lemma2_to64_rest, pow2};

verus! {

/// The type of a signal that flows between processors.
#[derive(Clone, Copy, Debug, PartialEq, Eq, Structural, Hash)]
pub enum SignalType {
    /// A signal whose type is decided at run time.
    Dynamic,
    /// A floating-point audio sample.
    Float,
    /// A signed integer.
    Int,
    /// A boolean.
    Bool,
    /// A string.
    String,
    /// A list of signals of one type.
    List,
    /// A MIDI message.
    Midi,
}

impl SignalType {
    /// Two signal types are compatible when they are equal or one of them is `Dynamic`.
    pub open spec fn compatible(self, other: SignalType) -> bool {
        self == other || self is Dynamic || other is Dynamic
    }

    /// Returns `true` if a buffer of this type can be read as a buffer of `other`.
    pub fn is_compatible_with(&self, other: &SignalType) -> (r: bool)
        ensures
            r == self.compatible(*other),
    {
        match (self, other) {
            (SignalType::Dynamic, _) => true,
            (_, SignalType::Dynamic) => true,
            _ => *self == *other,
        }
    }
}

/// The largest bit pattern that encodes a non-negative finite value or `+inf`
/// (the sign bit cleared); anything above it with the sign bit cleared is NaN.
pub const FLOAT_INF_BITS: u64 = 0x7FF0_0000_0000_0000u64;

/// The sign bit of an IEEE-754 double.
pub const FLOAT_SIGN_BIT: u64 = 0x8000_0000_0000_0000u64;

/// An audio sample, held as the bit pattern of an IEEE-754 double.
///
/// The library moves, stores and compares samples; it never does arithmetic on them.
/// Comparisons follow IEEE-754 exactly: NaN is unordered and `-0.0 == +0.0`.
#[derive(Clone, Copy, Debug, PartialEq, Eq, Structural, Default)]
pub struct Float {
    /// The IEEE-754 encoding of the sample.
    pub bits: u64,
}

/// The magnitude part (all bits but the sign) of an encoded double.
pub open spec fn float_magnitude(bits: u64) -> int {
    if bits >= FLOAT_SIGN_BIT { bits - FLOAT_SIGN_BIT } else { bits as int }
}

/// Whether an encoded double is NaN.
pub open spec fn float_is_nan(bits: u64) -> bool {
    float_magnitude(bits) > FLOAT_INF_BITS
}

/// Whether an encoded double is `+inf` or `-inf`.
pub open spec fn float_is_infinite(bits: u64) -> bool {
    float_magnitude(bits) == FLOAT_INF_BITS
}

/// A key whose integer order is the numeric order of non-NaN doubles
/// (both zeros get the key `0`).
pub open spec fn float_order_key(bits: u64) -> int {
    if bits >= FLOAT_SIGN_BIT { -float_magnitude(bits) } else { float_magnitude(bits) }
}

/// IEEE-754 equality of two encoded doubles.
pub open spec fn float_eq_spec(a: u64, b: u64) -> bool {
    !float_is_nan(a) && !float_is_nan(b) && float_order_key(a) == float_order_key(b)
}

/// IEEE-754 `<` of two encoded doubles.
pub open spec fn float_lt_spec(a: u64, b: u64) -> bool {
    !float_is_nan(a) && !float_is_nan(b) && float_order_key(a) < float_order_key(b)
}

/// IEEE-754 comparison: equality is reflexive on every non-NaN value and never holds for
/// NaN, it is symmetric and transitive; `<` is irreflexive and transitive, and any two
/// non-NaN values are ordered one way, equal, or ordered the other way.
pub proof fn lemma_float_order(a: u64, b: u64, c: u64)
    ensures
        float_eq_spec(a, a) <==> !float_is_nan(a),
        float_eq_spec(a, b) ==> float_eq_spec(b, a),
        float_eq_spec(a, b) && float_eq_spec(b, c) ==> float_eq_spec(a, c),
        !float_lt_spec(a, a),
        float_lt_spec(a, b) && float_lt_spec(b, c) ==> float_lt_spec(a, c),
        !float_is_nan(a) && !float_is_nan(b) ==> (float_lt_spec(a, b) || float_eq_spec(a, b) || float_lt_spec(b, a)),
{
}

impl Float {
    /// The sample `+0.0`.
    pub open spec fn zero_spec() -> Float {
        Float { bits: 0 }
    }

    /// Returns the sample `+0.0`.
    pub fn zero() -> (r: Float)
        ensures
            r == Float::zero_spec(),
    {
        Float { bits: 0 }
    }

    /// Wraps an IEEE-754 bit pattern.
    pub fn from_bits(bits: u64) -> (r: Float)
        ensures
            r.bits == bits,
    {
        Float { bits }
    }

    /// Returns the IEEE-754 bit pattern.
    pub fn to_bits(&self) -> (r: u64)
        ensures
            r == self.bits,
    {
        self.bits
    }

    fn magnitude(&self) -> (r: u64)
        ensures
            r == float_magnitude(self.bits),
    {
        if self.bits >= FLOAT_SIGN_BIT {
            self.bits - FLOAT_SIGN_BIT
        } else {
            self.bits
        }
    }

    /// Returns `true` if the sample is NaN.
    pub fn is_nan(&self) -> (r: bool)
        ensures
            r == float_is_nan(self.bits),
    {
        self.magnitude() > FLOAT_INF_BITS
    }

    /// Returns `true` if the sample is positive or negative infinity.
    pub fn is_infinite(&self) -> (r: bool)
        ensures
            r == float_is_infinite(self.bits),
    {
        self.magnitude() == FLOAT_INF_BITS
    }

    /// Returns `true` if the sample is neither NaN nor infinite.
    pub fn is_finite(&self) -> (r: bool)
        ensures
            r == (!float_is_nan(self.bits) && !float_is_infinite(self.bits)),
    {
        self.magnitude() < FLOAT_INF_BITS
    }

    /// IEEE-754 equality (`==` on `f64`).
    pub fn float_eq(&self, other: &Float) -> (r: bool)
        ensures
            r == float_eq_spec(self.bits, other.bits),
    {
        if self.is_nan() || other.is_nan() {
            return false;
        }
        let a = self.magnitude();
        let b = other.magnitude();
        if a == 0 && b == 0 {
            return true;
        }
        self.bits == other.bits
    }

    /// IEEE-754 less-than (`<` on `f64`).
    pub fn float_lt(&self, other: &Float) -> (r: bool)
        ensures
            r == float_lt_spec(self.bits, other.bits),
    {
        if self.is_nan() || other.is_nan() {
            return false;
        }
        let a = self.magnitude();
        let b = other.magnitude();
        let a_neg = self.bits >= FLOAT_SIGN_BIT;
        let b_neg = other.bits >= FLOAT_SIGN_BIT;
        if a_neg && b_neg {
            b < a
        } else if a_neg && !b_neg {
            !(a == 0 && b == 0)
        } else if !a_neg && b_neg {
            false
        } else {
            a < b
        }
    }

    /// Returns `true` if the sample is `+0.0` or `-0.0`.
    pub fn is_zero(&self) -> (r: bool)
        ensures
            r == (float_magnitude(self.bits) == 0),
    {
        self.magnitude() == 0
    }
}

/// `2^52`: the weight of the lowest exponent bit of an encoded double.
pub open spec fn two_pow_52() -> nat {
    0x10_0000_0000_0000
}

/// Whether `bits` encodes exactly the non-negative integer `n` as an IEEE-754 double: `+0.0`
/// for zero, else a positive normal number `(1 + m / 2^52) * 2^e` equal to `n`.
pub open spec fn float_encodes_nat(bits: u64, n: nat) -> bool {
    if n == 0 {
        bits == 0
    } else {
        exists|e: nat, m: nat| #![trigger pow2(e), pow2(52) + m]
            e <= 52 && m < two_pow_52()
            && bits == (1023 + e) * two_pow_52() + m
            && (two_pow_52() + m) * pow2(e) == n * two_pow_52()
    }
}

/// The position of the highest set bit of a non-zero byte.
pub open spec fn byte_exponent(n: u8) -> nat {
    if n >= 128 { 7 } else if n >= 64 { 6 } else if n >= 32 { 5 } else if n >= 16 { 4 }
    else if n >= 8 { 3 } else if n >= 4 { 2 } else if n >= 2 { 1 } else { 0 }
}

/// The encoding of a byte converted to a double (`n as f64`).
pub open spec fn byte_float_bits(n: u8) -> u64 {
    if n == 0 {
        0
    } else {
        let e = byte_exponent(n);
        ((1023 + e) * two_pow_52() + (n - pow2(e)) * pow2((52 - e) as nat)) as u64
    }
}

/// A byte converted to a double encodes that byte.
pub proof fn lemma_byte_float_bits(n: u8)
    ensures
        float_encodes_nat(byte_float_bits(n), n as nat),
{
    lemma2_to64();
    lemma2_to64_rest();
    if n > 0 {
        let e = byte_exponent(n);
        let q = pow2((52 - e) as nat);
        if n >= 128 {
            assert(e == 7 && q == 0x2000_0000_0000 && pow2(e) == 128 && pow2(e) * q == two_pow_52());
        } else if n >= 64 {
            assert(e == 6 && q == 0x4000_0000_0000 && pow2(e) == 64 && pow2(e) * q == two_pow_52());
        } else if n >= 32 {
            assert(e == 5 && q == 0x8000_0000_0000 && pow2(e) == 32 && pow2(e) * q == two_pow_52());
        } else if n >= 16 {
            assert(e == 4 && q == 0x1_0000_0000_0000 && pow2(e) == 16 && pow2(e) * q == two_pow_52());
        } else if n >= 8 {
            assert(e == 3 && q == 0x2_0000_0000_0000 && pow2(e) == 8 && pow2(e) * q == two_pow_52());
        } else if n >= 4 {
            assert(e == 2 && q == 0x4_0000_0000_0000 && pow2(e) == 4 && pow2(e) * q == two_pow_52());
        } else if n >= 2 {
            assert(e == 1 && q == 0x8_0000_0000_0000 && pow2(e) == 2 && pow2(e) * q == two_pow_52());
        } else {
            assert(e == 0 && q == 0x10_0000_0000_0000 && pow2(e) == 1 && pow2(e) * q == two_pow_52());
        }
        let p = pow2(e);
        assert(p * q == two_pow_52());
        assert(p <= n < 2 * p);
        let m: nat = ((n - p) * q) as nat;
        assert(m < two_pow_52() && (two_pow_52() + m) * p == n * two_pow_52()) by (nonlinear_arith)
            requires
                p * q == two_pow_52(),
                p <= n < 2 * p,
                m == (n - p) * q,
                q > 0,
        {
            assert((n - p) * q < p * q);
        }
        assert(byte_float_bits(n) == (1023 + e) * two_pow_52() + m);
        assert(pow2(52) + m == pow2(52) + m);
    }
}

impl Float {
    /// Converts a byte to a sample (`n as f64`).
    pub fn from_u8(n: u8) -> (r: Float)
        ensures
            r.bits == byte_float_bits(n),
            float_encodes_nat(r.bits, n as nat),
    {
        proof {
            lemma2_to64();
            lemma2_to64_rest();
            lemma_byte_float_bits(n);
        }
        let x = n as u64;
        assert(x == n as u64 && x <= 255);
        let bits: u64 = if n >= 128 {
            proof { assert(byte_exponent(n) == 7 && pow2(7) == 128 && pow2((52 - 7) as nat) == 0x2000_0000_0000); }
            let b: u64 = 1030 * 0x10_0000_0000_0000 + (x - 128) * 0x2000_0000_0000;
            proof { assert(b == byte_float_bits(n)); }
            b
        } else if n >= 64 {
            proof { assert(byte_exponent(n) == 6 && pow2(6) == 64 && pow2((52 - 6) as nat) == 0x4000_0000_0000); }
            let b: u64 = 1029 * 0x10_0000_0000_0000 + (x - 64) * 0x4000_0000_0000;
            proof { assert(b == byte_float_bits(n)); }
            b
        } else if n >= 32 {
            proof { assert(byte_exponent(n) == 5 && pow2(5) == 32 && pow2((52 - 5) as nat) == 0x8000_0000_0000); }
            let b: u64 = 1028 * 0x10_0000_0000_0000 + (x - 32) * 0x8000_0000_0000;
            proof { assert(b == byte_float_bits(n)); }
            b
        } else if n >= 16 {
            proof { assert(byte_exponent(n) == 4 && pow2(4) == 16 && pow2((52 - 4) as nat) == 0x1_0000_0000_0000); }
            let b: u64 = 1027 * 0x10_0000_0000_0000 + (x - 16) * 0x1_0000_0000_0000;
            proof { assert(b == byte_float_bits(n)); }
            b
        } else if n >= 8 {
            proof { assert(byte_exponent(n) == 3 && pow2(3) == 8 && pow2((52 - 3) as nat) == 0x2_0000_0000_0000); }
            let b: u64 = 1026 * 0x10_0000_0000_0000 + (x - 8) * 0x2_0000_0000_0000;
            proof { assert(b == byte_float_bits(n)); }
            b
        } else if n >= 4 {
            proof { assert(byte_exponent(n) == 2 && pow2(2) == 4 && pow2((52 - 2) as nat) == 0x4_0000_0000_0000); }
            let b: u64 = 1025 * 0x10_0000_0000_0000 + (x - 4) * 0x4_0000_0000_0000;
            proof { assert(b == byte_float_bits(n)); }
            b
        } else if n >= 2 {
            proof { assert(byte_exponent(n) == 1 && pow2(1) == 2 && pow2((52 - 1) as nat) == 0x8_0000_0000_0000); }
            let b: u64 = 1024 * 0x10_0000_0000_0000 + (x - 2) * 0x8_0000_0000_0000;
            proof { assert(b == byte_float_bits(n)); }
            b
        } else if n == 1 {
            proof {
                assert(byte_exponent(n) == 0 && pow2(0) == 1 && pow2((52 - 0) as nat) == 0x10_0000_0000_0000);
                assert(n - pow2(0) == 0);
                assert((n - pow2(0)) * pow2(52) == 0);
            }
            let b: u64 = 1023 * 0x10_0000_0000_0000;
            proof { assert(b == byte_float_bits(n)); }
            b
        } else {
            0
        };
        Float { bits }
    }
}

/// A MIDI message of up to three bytes.
#[derive(Clone, Copy, Debug, PartialEq, Eq, Structural, Default)]
pub struct MidiMessage {
    /// The status byte (message kind and channel).
    pub status_byte: u8,
    /// The first data byte.
    pub data_byte1: u8,
    /// The second data byte.
    pub data_byte2: u8,
}

impl MidiMessage {
    /// The status byte with the channel bits cleared, as a number.
    pub open spec fn status_spec(self) -> int {
        (self.status_byte / 16) * 16
    }

    /// The channel (low four bits of the status byte), as a number.
    pub open spec fn channel_spec(self) -> int {
        (self.status_byte % 16) as int
    }

    /// Creates a MIDI message from its three bytes.
    pub fn new(status: u8, data1: u8, data2: u8) -> (r: MidiMessage)
        ensures
            r.status_byte == status,
            r.data_byte1 == data1,
            r.data_byte2 == data2,
    {
        MidiMessage { status_byte: status, data_byte1: data1, data_byte2: data2 }
    }

    /// Returns the message kind: the status byte without its channel bits.
    pub fn status(&self) -> (r: u8)
        ensures
            r == self.status_spec(),
    {
        let b = self.status_byte;
        assert(b & 0xF0u8 == (b / 16) * 16) by (bit_vector);
        b & 0xF0u8
    }

    /// Returns the channel the message is addressed to.
    pub fn channel(&self) -> (r: u8)
        ensures
            r == self.channel_spec(),
    {
        let b = self.status_byte;
        assert(b & 0x0Fu8 == b % 16) by (bit_vector);
        b & 0x0Fu8
    }

    /// Returns the first data byte (the note number of note messages).
    pub fn data1(&self) -> (r: u8)
        ensures
            r == self.data_byte1,
    {
        self.data_byte1
    }

    /// Returns the second data byte (the velocity of note messages).
    pub fn data2(&self) -> (r: u8)
        ensures
            r == self.data_byte2,
    {
        self.data_byte2
    }
}



/// The value of an optional string, as characters.
pub open spec fn opt_str_view(o: Option<String>) -> Option<Seq<char>> {
    match o {
        Some(s) => Some(s@),
        None => None,
    }
}

/// The mathematical value of one signal sample.
pub enum SignalValue {
    Float(Option<Float>),
    Int(Option<i64>),
    Bool(Option<bool>),
    String(Option<Seq<char>>),
    List(Option<ListValue>),
    Midi(Option<MidiMessage>),
}

/// The mathematical value of a list: a sequence of samples of one scalar type.
pub enum ListValue {
    Float(Seq<Option<Float>>),
    Int(Seq<Option<i64>>),
    Bool(Seq<Option<bool>>),
    String(Seq<Option<Seq<char>>>),
    Midi(Seq<Option<MidiMessage>>),
}

/// The mathematical value of a block of samples.
pub enum BufferValue {
    Float(Seq<Option<Float>>),
    Int(Seq<Option<i64>>),
    Bool(Seq<Option<bool>>),
    String(Seq<Option<Seq<char>>>),
    List(Seq<Option<ListValue>>),
    Midi(Seq<Option<MidiMessage>>),
}

/// Whether a signal type can be the element type of a list.
pub open spec fn is_list_element_type(t: SignalType) -> bool {
    !(t is Dynamic) && !(t is List)
}

impl SignalValue {
    /// The type of the value.
    pub open spec fn signal_type(self) -> SignalType {
        match self {
            SignalValue::Float(_) => SignalType::Float,
            SignalValue::Int(_) => SignalType::Int,
            SignalValue::Bool(_) => SignalType::Bool,
            SignalValue::String(_) => SignalType::String,
            SignalValue::List(_) => SignalType::List,
            SignalValue::Midi(_) => SignalType::Midi,
        }
    }

    /// Whether the value is present.
    pub open spec fn is_some(self) -> bool {
        match self {
            SignalValue::Float(x) => x is Some,
            SignalValue::Int(x) => x is Some,
            SignalValue::Bool(x) => x is Some,
            SignalValue::String(x) => x is Some,
            SignalValue::List(x) => x is Some,
            SignalValue::Midi(x) => x is Some,
        }
    }

    /// The absent value of a type.
    pub open spec fn none_of_type(t: SignalType) -> SignalValue {
        match t {
            SignalType::Int => SignalValue::Int(None),
            SignalType::Bool => SignalValue::Bool(None),
            SignalType::String => SignalValue::String(None),
            SignalType::List => SignalValue::List(None),
            SignalType::Midi => SignalValue::Midi(None),
            _ => SignalValue::Float(None),
        }
    }
}

impl ListValue {
    /// The number of elements.
    pub open spec fn len(self) -> nat {
        match self {
            ListValue::Float(s) => s.len(),
            ListValue::Int(s) => s.len(),
            ListValue::Bool(s) => s.len(),
            ListValue::String(s) => s.len(),
            ListValue::Midi(s) => s.len(),
        }
    }

    /// The type of the elements.
    pub open spec fn elem_type(self) -> SignalType {
        match self {
            ListValue::Float(_) => SignalType::Float,
            ListValue::Int(_) => SignalType::Int,
            ListValue::Bool(_) => SignalType::Bool,
            ListValue::String(_) => SignalType::String,
            ListValue::Midi(_) => SignalType::Midi,
        }
    }

    /// The element at position `i`.
    pub open spec fn at(self, i: int) -> SignalValue {
        match self {
            ListValue::Float(s) => SignalValue::Float(s[i]),
            ListValue::Int(s) => SignalValue::Int(s[i]),
            ListValue::Bool(s) => SignalValue::Bool(s[i]),
            ListValue::String(s) => SignalValue::String(s[i]),
            ListValue::Midi(s) => SignalValue::Midi(s[i]),
        }
    }

    /// The list with the element at `i` replaced by `v`, when `v` has the element type.
    pub open spec fn with_at(self, i: int, v: SignalValue) -> ListValue {
        match (self, v) {
            (ListValue::Float(s), SignalValue::Float(x)) => ListValue::Float(s.update(i, x)),
            (ListValue::Int(s), SignalValue::Int(x)) => ListValue::Int(s.update(i, x)),
            (ListValue::Bool(s), SignalValue::Bool(x)) => ListValue::Bool(s.update(i, x)),
            (ListValue::String(s), SignalValue::String(x)) => ListValue::String(s.update(i, x)),
            (ListValue::Midi(s), SignalValue::Midi(x)) => ListValue::Midi(s.update(i, x)),
            _ => self,
        }
    }

    /// A list of `n` absent elements of type `t`.
    pub open spec fn none_of_type(t: SignalType, n: nat) -> ListValue {
        match t {
            SignalType::Int => ListValue::Int(Seq::new(n, |i: int| None)),
            SignalType::Bool => ListValue::Bool(Seq::new(n, |i: int| None)),
            SignalType::String => ListValue::String(Seq::new(n, |i: int| None)),
            SignalType::Midi => ListValue::Midi(Seq::new(n, |i: int| None)),
            _ => ListValue::Float(Seq::new(n, |i: int| None)),
        }
    }
}

impl BufferValue {
    /// The number of samples.
    pub open spec fn len(self) -> nat {
        match self {
            BufferValue::Float(s) => s.len(),
            BufferValue::Int(s) => s.len(),
            BufferValue::Bool(s) => s.len(),
            BufferValue::String(s) => s.len(),
            BufferValue::List(s) => s.len(),
            BufferValue::Midi(s) => s.len(),
        }
    }

    /// The type of the samples.
    pub open spec fn signal_type(self) -> SignalType {
        match self {
            BufferValue::Float(_) => SignalType::Float,
            BufferValue::Int(_) => SignalType::Int,
            BufferValue::Bool(_) => SignalType::Bool,
            BufferValue::String(_) => SignalType::String,
            BufferValue::List(_) => SignalType::List,
            BufferValue::Midi(_) => SignalType::Midi,
        }
    }

    /// The sample at position `i`.
    pub open spec fn at(self, i: int) -> SignalValue {
        match self {
            BufferValue::Float(s) => SignalValue::Float(s[i]),
            BufferValue::Int(s) => SignalValue::Int(s[i]),
            BufferValue::Bool(s) => SignalValue::Bool(s[i]),
            BufferValue::String(s) => SignalValue::String(s[i]),
            BufferValue::List(s) => SignalValue::List(s[i]),
            BufferValue::Midi(s) => SignalValue::Midi(s[i]),
        }
    }

    /// The buffer with the sample at `i` replaced by `v`, when `v` has the buffer's type.
    pub open spec fn with_at(self, i: int, v: SignalValue) -> BufferValue {
        match (self, v) {
            (BufferValue::Float(s), SignalValue::Float(x)) => BufferValue::Float(s.update(i, x)),
            (BufferValue::Int(s), SignalValue::Int(x)) => BufferValue::Int(s.update(i, x)),
            (BufferValue::Bool(s), SignalValue::Bool(x)) => BufferValue::Bool(s.update(i, x)),
            (BufferValue::String(s), SignalValue::String(x)) => BufferValue::String(s.update(i, x)),
            (BufferValue::List(s), SignalValue::List(x)) => BufferValue::List(s.update(i, x)),
            (BufferValue::Midi(s), SignalValue::Midi(x)) => BufferValue::Midi(s.update(i, x)),
            _ => self,
        }
    }

    /// The buffer with every sample replaced by `v`, when `v` has the buffer's type.
    pub open spec fn filled(self, v: SignalValue) -> BufferValue {
        match (self, v) {
            (BufferValue::Float(s), SignalValue::Float(x)) => BufferValue::Float(Seq::new(s.len(), |i: int| x)),
            (BufferValue::Int(s), SignalValue::Int(x)) => BufferValue::Int(Seq::new(s.len(), |i: int| x)),
            (BufferValue::Bool(s), SignalValue::Bool(x)) => BufferValue::Bool(Seq::new(s.len(), |i: int| x)),
            (BufferValue::String(s), SignalValue::String(x)) => BufferValue::String(Seq::new(s.len(), |i: int| x)),
            (BufferValue::List(s), SignalValue::List(x)) => BufferValue::List(Seq::new(s.len(), |i: int| x)),
            (BufferValue::Midi(s), SignalValue::Midi(x)) => BufferValue::Midi(Seq::new(s.len(), |i: int| x)),
            _ => self,
        }
    }

    /// A buffer of `n` absent samples of type `t` (`Dynamic` gives a float buffer).
    pub open spec fn none_of_type(t: SignalType, n: nat) -> BufferValue {
        match t {
            SignalType::Int => BufferValue::Int(Seq::new(n, |i: int| None)),
            SignalType::Bool => BufferValue::Bool(Seq::new(n, |i: int| None)),
            SignalType::String => BufferValue::String(Seq::new(n, |i: int| None)),
            SignalType::List => BufferValue::List(Seq::new(n, |i: int| None)),
            SignalType::Midi => BufferValue::Midi(Seq::new(n, |i: int| None)),
            _ => BufferValue::Float(Seq::new(n, |i: int| None)),
        }
    }
}

/// The elements of a list, held as a block of one scalar type.
#[derive(Debug)]
pub enum ListItems {
    Float(Vec<Option<Float>>),
    Int(Vec<Option<i64>>),
    Bool(Vec<Option<bool>>),
    String(Vec<Option<String>>),
    Midi(Vec<Option<MidiMessage>>),
}

/// A list of signals that all have the same scalar type.
#[derive(Debug)]
pub struct List {
    pub items: ListItems,
}

/// A single signal value of any type; `None` means "no value at this sample".
#[derive(Debug)]
pub enum AnySignal {
    Float(Option<Float>),
    Int(Option<i64>),
    Bool(Option<bool>),
    String(Option<String>),
    List(Option<List>),
    Midi(Option<MidiMessage>),
}

/// A block of samples of one signal type.
#[derive(Debug)]
pub enum SignalBuffer {
    Float(Vec<Option<Float>>),
    Int(Vec<Option<i64>>),
    Bool(Vec<Option<bool>>),
    String(Vec<Option<String>>),
    List(Vec<Option<List>>),
    Midi(Vec<Option<MidiMessage>>),
}

impl View for List {
    type V = ListValue;

    open spec fn view(&self) -> ListValue {
        match self.items {
            ListItems::Float(v) => ListValue::Float(v@),
            ListItems::Int(v) => ListValue::Int(v@),
            ListItems::Bool(v) => ListValue::Bool(v@),
            ListItems::String(v) => ListValue::String(v@.map_values(|o: Option<String>| opt_str_view(o))),
            ListItems::Midi(v) => ListValue::Midi(v@),
        }
    }
}

/// The value of an optional list.
pub open spec fn opt_list_view(o: Option<List>) -> Option<ListValue> {
    match o {
        Some(l) => Some(l@),
        None => None,
    }
}

impl View for AnySignal {
    type V = SignalValue;

    open spec fn view(&self) -> SignalValue {
        match self {
            AnySignal::Float(x) => SignalValue::Float(*x),
            AnySignal::Int(x) => SignalValue::Int(*x),
            AnySignal::Bool(x) => SignalValue::Bool(*x),
            AnySignal::String(x) => SignalValue::String(opt_str_view(*x)),
            AnySignal::List(x) => SignalValue::List(opt_list_view(*x)),
            AnySignal::Midi(x) => SignalValue::Midi(*x),
        }
    }
}

/// The value of an optional signal.
pub open spec fn opt_any_view(o: Option<AnySignal>) -> Option<SignalValue> {
    match o {
        Some(a) => Some(a@),
        None => None,
    }
}

impl View for SignalBuffer {
    type V = BufferValue;

    open spec fn view(&self) -> BufferValue {
        match self {
            SignalBuffer::Float(v) => BufferValue::Float(v@),
            SignalBuffer::Int(v) => BufferValue::Int(v@),
            SignalBuffer::Bool(v) => BufferValue::Bool(v@),
            SignalBuffer::String(v) => BufferValue::String(v@.map_values(|o: Option<String>| opt_str_view(o))),
            SignalBuffer::List(v) => BufferValue::List(v@.map_values(|o: Option<List>| opt_list_view(o))),
            SignalBuffer::Midi(v) => BufferValue::Midi(v@),
        }
    }
}

/// Copies a block of samples of a `Copy` type.
pub fn copy_samples<T: Copy>(v: &Vec<Option<T>>) -> (r: Vec<Option<T>>)
    ensures
        r@ == v@,
{
    let mut r: Vec<Option<T>> = Vec::with_capacity(v.len());
    let mut i: usize = 0;
    while i < v.len()
        invariant
            i <= v.len(),
            r@ == v@.subrange(0, i as int),
        decreases v.len() - i,
    {
        r.push(v[i]);
        i += 1;
        assert(r@ =~= v@.subrange(0, i as int));
    }
    assert(r@ =~= v@);
    r
}

/// Copies a block of string samples.
pub fn copy_string_samples(v: &Vec<Option<String>>) -> (r: Vec<Option<String>>)
    ensures
        r@.map_values(|o: Option<String>| opt_str_view(o)) == v@.map_values(|o: Option<String>| opt_str_view(o)),
        r@.len() == v@.len(),
{
    let mut r: Vec<Option<String>> = Vec::with_capacity(v.len());
    let mut i: usize = 0;
    while i < v.len()
        invariant
            i <= v.len(),
            r@.len() == i,
            forall|j: int| 0 <= j < i ==> opt_str_view(#[trigger] r@[j]) == opt_str_view(v@[j]),
        decreases v.len() - i,
    {
        let x = match &v[i] {
            Some(s) => Some(s.clone()),
            None => None,
        };
        r.push(x);
        i += 1;
    }
    assert(r@.map_values(|o: Option<String>| opt_str_view(o)) =~= v@.map_values(|o: Option<String>| opt_str_view(o)));
    r
}

/// A block of `n` absent samples.
pub fn none_samples<T>(n: usize) -> (r: Vec<Option<T>>)
    ensures
        r@ == Seq::new(n as nat, |i: int| None::<T>),
{
    let mut r: Vec<Option<T>> = Vec::with_capacity(n);
    let mut i: usize = 0;
    while i < n
        invariant
            i <= n,
            r@ == Seq::new(i as nat, |j: int| None::<T>),
        decreases n - i,
    {
        r.push(None);
        i += 1;
        assert(r@ =~= Seq::new(i as nat, |j: int| None::<T>));
    }
    r
}

impl Clone for List {
    fn clone(&self) -> (r: Self)
        ensures
            r@ == self@,
    {
        let items = match &self.items {
            ListItems::Float(v) => ListItems::Float(copy_samples(v)),
            ListItems::Int(v) => ListItems::Int(copy_samples(v)),
            ListItems::Bool(v) => ListItems::Bool(copy_samples(v)),
            ListItems::String(v) => ListItems::String(copy_string_samples(v)),
            ListItems::Midi(v) => ListItems::Midi(copy_samples(v)),
        };
        List { items }
    }
}

/// Copies an optional list.
pub fn clone_opt_list(o: &Option<List>) -> (r: Option<List>)
    ensures
        opt_list_view(r) == opt_list_view(*o),
{
    match o {
        Some(l) => Some(l.clone()),
        None => None,
    }
}

/// Copies an optional string.
pub fn clone_opt_string(o: &Option<String>) -> (r: Option<String>)
    ensures
        opt_str_view(r) == opt_str_view(*o),
{
    match o {
        Some(s) => Some(s.clone()),
        None => None,
    }
}

impl Clone for AnySignal {
    fn clone(&self) -> (r: Self)
        ensures
            r@ == self@,
    {
        match self {
            AnySignal::Float(x) => AnySignal::Float(*x),
            AnySignal::Int(x) => AnySignal::Int(*x),
            AnySignal::Bool(x) => AnySignal::Bool(*x),
            AnySignal::String(x) => AnySignal::String(clone_opt_string(x)),
            AnySignal::List(x) => AnySignal::List(clone_opt_list(x)),
            AnySignal::Midi(x) => AnySignal::Midi(*x),
        }
    }
}

/// Copies a block of list samples.
pub fn copy_list_samples(v: &Vec<Option<List>>) -> (r: Vec<Option<List>>)
    ensures
        r@.map_values(|o: Option<List>| opt_list_view(o)) == v@.map_values(|o: Option<List>| opt_list_view(o)),
        r@.len() == v@.len(),
{
    let mut r: Vec<Option<List>> = Vec::with_capacity(v.len());
    let mut i: usize = 0;
    while i < v.len()
        invariant
            i <= v.len(),
            r@.len() == i,
            forall|j: int| 0 <= j < i ==> opt_list_view(#[trigger] r@[j]) == opt_list_view(v@[j]),
        decreases v.len() - i,
    {
        r.push(clone_opt_list(&v[i]));
        i += 1;
    }
    assert(r@.map_values(|o: Option<List>| opt_list_view(o)) =~= v@.map_values(|o: Option<List>| opt_list_view(o)));
    r
}

impl Clone for SignalBuffer {
    fn clone(&self) -> (r: Self)
        ensures
            r@ == self@,
    {
        match self {
            SignalBuffer::Float(v) => SignalBuffer::Float(copy_samples(v)),
            SignalBuffer::Int(v) => SignalBuffer::Int(copy_samples(v)),
            SignalBuffer::Bool(v) => SignalBuffer::Bool(copy_samples(v)),
            SignalBuffer::String(v) => SignalBuffer::String(copy_string_samples(v)),
            SignalBuffer::List(v) => SignalBuffer::List(copy_list_samples(v)),
            SignalBuffer::Midi(v) => SignalBuffer::Midi(copy_samples(v)),
        }
    }
}


impl AnySignal {
    /// Returns the type of the signal.
    pub fn signal_type(&self) -> (r: SignalType)
        ensures
            r == self@.signal_type(),
    {
        match self {
            AnySignal::Float(_) => SignalType::Float,
            AnySignal::Int(_) => SignalType::Int,
            AnySignal::Bool(_) => SignalType::Bool,
            AnySignal::String(_) => SignalType::String,
            AnySignal::List(_) => SignalType::List,
            AnySignal::Midi(_) => SignalType::Midi,
        }
    }

    /// Returns `true` if the signal holds a value.
    pub fn is_some(&self) -> (r: bool)
        ensures
            r == self@.is_some(),
    {
        match self {
            AnySignal::Float(x) => x.is_some(),
            AnySignal::Int(x) => x.is_some(),
            AnySignal::Bool(x) => x.is_some(),
            AnySignal::String(x) => x.is_some(),
            AnySignal::List(x) => x.is_some(),
            AnySignal::Midi(x) => x.is_some(),
        }
    }

    /// Returns `true` if the signal holds no value.
    pub fn is_none(&self) -> (r: bool)
        ensures
            r == !self@.is_some(),
    {
        !self.is_some()
    }

    /// Returns the absent signal of the given type.
    pub fn default_of_type(signal_type: &SignalType) -> (r: AnySignal)
        requires
            !(*signal_type is Dynamic),
        ensures
            r@ == SignalValue::none_of_type(*signal_type),
            r@.signal_type() == *signal_type,
    {
        match signal_type {
            SignalType::Int => AnySignal::Int(None),
            SignalType::Bool => AnySignal::Bool(None),
            SignalType::String => AnySignal::String(None),
            SignalType::List => AnySignal::List(None),
            SignalType::Midi => AnySignal::Midi(None),
            _ => AnySignal::Float(None),
        }
    }

    /// Makes the signal absent, keeping its type.
    pub fn set_none(&mut self)
        ensures
            final(self)@ == SignalValue::none_of_type(old(self)@.signal_type()),
    {
        match self {
            AnySignal::Float(x) => { *x = None; },
            AnySignal::Int(x) => { *x = None; },
            AnySignal::Bool(x) => { *x = None; },
            AnySignal::String(x) => { *x = None; },
            AnySignal::List(x) => { *x = None; },
            AnySignal::Midi(x) => { *x = None; },
        }
    }
}

impl List {
    /// Creates a list of `len` absent elements of the given type.
    pub fn new_of_type(signal_type: SignalType, len: usize) -> (r: List)
        requires
            is_list_element_type(signal_type),
        ensures
            r@ == ListValue::none_of_type(signal_type, len as nat),
    {
        let items = match signal_type {
            SignalType::Int => ListItems::Int(none_samples(len)),
            SignalType::Bool => ListItems::Bool(none_samples(len)),
            SignalType::String => {
                let v: Vec<Option<String>> = none_samples(len);
                assert(v@.map_values(|o: Option<String>| opt_str_view(o)) =~= Seq::new(len as nat, |i: int| None::<Seq<char>>));
                ListItems::String(v)
            },
            SignalType::Midi => ListItems::Midi(none_samples(len)),
            _ => ListItems::Float(none_samples(len)),
        };
        List { items }
    }

    /// Returns the number of elements.
    pub fn len(&self) -> (r: usize)
        ensures
            r == self@.len(),
    {
        match &self.items {
            ListItems::Float(v) => v.len(),
            ListItems::Int(v) => v.len(),
            ListItems::Bool(v) => v.len(),
            ListItems::String(v) => v.len(),
            ListItems::Midi(v) => v.len(),
        }
    }

    /// Returns the type of the elements.
    pub fn signal_type(&self) -> (r: SignalType)
        ensures
            r == self@.elem_type(),
    {
        match &self.items {
            ListItems::Float(_) => SignalType::Float,
            ListItems::Int(_) => SignalType::Int,
            ListItems::Bool(_) => SignalType::Bool,
            ListItems::String(_) => SignalType::String,
            ListItems::Midi(_) => SignalType::Midi,
        }
    }

    /// Returns the element at `index`, or `None` if the index is out of range.
    pub fn get(&self, index: usize) -> (r: Option<AnySignal>)
        ensures
            index < self@.len() ==> r is Some && r->0@ == self@.at(index as int),
            index >= self@.len() ==> r is None,
    {
        if index >= self.len() {
            return None;
        }
        match &self.items {
            ListItems::Float(v) => Some(AnySignal::Float(v[index])),
            ListItems::Int(v) => Some(AnySignal::Int(v[index])),
            ListItems::Bool(v) => Some(AnySignal::Bool(v[index])),
            ListItems::String(v) => Some(AnySignal::String(clone_opt_string(&v[index]))),
            ListItems::Midi(v) => Some(AnySignal::Midi(v[index])),
        }
    }

    /// Replaces the element at `index` by `value`; does nothing if the index is out of
    /// range or the value does not have the element type.
    pub fn set(&mut self, index: usize, value: &AnySignal)
        ensures
            index < old(self)@.len() ==> final(self)@ == old(self)@.with_at(index as int, value@),
            index >= old(self)@.len() ==> final(self)@ == old(self)@,
    {
        if index >= self.len() {
            return;
        }
        match (&mut self.items, value) {
            (ListItems::Float(v), AnySignal::Float(x)) => { v.set(index, *x); },
            (ListItems::Int(v), AnySignal::Int(x)) => { v.set(index, *x); },
            (ListItems::Bool(v), AnySignal::Bool(x)) => { v.set(index, *x); },
            (ListItems::String(v), AnySignal::String(x)) => {
                let ghost before = v@;
                v.set(index, clone_opt_string(x));
                assert(v@.map_values(|o: Option<String>| opt_str_view(o)) =~= before.map_values(|o: Option<String>| opt_str_view(o)).update(index as int, opt_str_view(*x)));
            },
            (ListItems::Midi(v), AnySignal::Midi(x)) => { v.set(index, *x); },
            _ => {},
        }
    }
}

impl SignalBuffer {
    /// Creates a buffer of `len` absent samples of the given type.
    pub fn new_of_type(signal_type: SignalType, len: usize) -> (r: SignalBuffer)
        requires
            !(signal_type is Dynamic),
        ensures
            r@ == BufferValue::none_of_type(signal_type, len as nat),
    {
        match signal_type {
            SignalType::Int => SignalBuffer::Int(none_samples(len)),
            SignalType::Bool => SignalBuffer::Bool(none_samples(len)),
            SignalType::String => {
                let v: Vec<Option<String>> = none_samples(len);
                assert(v@.map_values(|o: Option<String>| opt_str_view(o)) =~= Seq::new(len as nat, |i: int| None::<Seq<char>>));
                SignalBuffer::String(v)
            },
            SignalType::List => {
                let v: Vec<Option<List>> = none_samples(len);
                assert(v@.map_values(|o: Option<List>| opt_list_view(o)) =~= Seq::new(len as nat, |i: int| None::<ListValue>));
                SignalBuffer::List(v)
            },
            SignalType::Midi => SignalBuffer::Midi(none_samples(len)),
            _ => SignalBuffer::Float(none_samples(len)),
        }
    }

    /// Returns the number of samples.
    pub fn len(&self) -> (r: usize)
        ensures
            r == self@.len(),
    {
        match self {
            SignalBuffer::Float(v) => v.len(),
            SignalBuffer::Int(v) => v.len(),
            SignalBuffer::Bool(v) => v.len(),
            SignalBuffer::String(v) => v.len(),
            SignalBuffer::List(v) => v.len(),
            SignalBuffer::Midi(v) => v.len(),
        }
    }

    /// Returns the type of the samples.
    pub fn signal_type(&self) -> (r: SignalType)
        ensures
            r == self@.signal_type(),
    {
        match self {
            SignalBuffer::Float(_) => SignalType::Float,
            SignalBuffer::Int(_) => SignalType::Int,
            SignalBuffer::Bool(_) => SignalType::Bool,
            SignalBuffer::String(_) => SignalType::String,
            SignalBuffer::List(_) => SignalType::List,
            SignalBuffer::Midi(_) => SignalType::Midi,
        }
    }

    /// Returns a copy of the sample at `index`, or `None` if the index is out of range.
    pub fn get(&self, index: usize) -> (r: Option<AnySignal>)
        ensures
            index < self@.len() ==> r is Some && r->0@ == self@.at(index as int),
            index >= self@.len() ==> r is None,
    {
        if index >= self.len() {
            return None;
        }
        match self {
            SignalBuffer::Float(v) => Some(AnySignal::Float(v[index])),
            SignalBuffer::Int(v) => Some(AnySignal::Int(v[index])),
            SignalBuffer::Bool(v) => Some(AnySignal::Bool(v[index])),
            SignalBuffer::String(v) => Some(AnySignal::String(clone_opt_string(&v[index]))),
            SignalBuffer::List(v) => Some(AnySignal::List(clone_opt_list(&v[index]))),
            SignalBuffer::Midi(v) => Some(AnySignal::Midi(v[index])),
        }
    }

    /// Replaces the sample at `index` by `value`; does nothing if the index is out of
    /// range or the value does not have the buffer's type.
    pub fn set(&mut self, index: usize, value: &AnySignal)
        ensures
            index < old(self)@.len() ==> final(self)@ == old(self)@.with_at(index as int, value@),
            index >= old(self)@.len() ==> final(self)@ == old(self)@,
    {
        if index >= self.len() {
            return;
        }
        match (self, value) {
            (SignalBuffer::Float(v), AnySignal::Float(x)) => { v.set(index, *x); },
            (SignalBuffer::Int(v), AnySignal::Int(x)) => { v.set(index, *x); },
            (SignalBuffer::Bool(v), AnySignal::Bool(x)) => { v.set(index, *x); },
            (SignalBuffer::String(v), AnySignal::String(x)) => {
                let ghost before = v@;
                v.set(index, clone_opt_string(x));
                assert(v@.map_values(|o: Option<String>| opt_str_view(o)) =~= before.map_values(|o: Option<String>| opt_str_view(o)).update(index as int, opt_str_view(*x)));
            },
            (SignalBuffer::List(v), AnySignal::List(x)) => {
                let ghost before = v@;
                v.set(index, clone_opt_list(x));
                assert(v@.map_values(|o: Option<List>| opt_list_view(o)) =~= before.map_values(|o: Option<List>| opt_list_view(o)).update(index as int, opt_list_view(*x)));
            },
            (SignalBuffer::Midi(v), AnySignal::Midi(x)) => { v.set(index, *x); },
            _ => {},
        }
    }

    /// Makes the sample at `index` absent; does nothing if the index is out of range.
    pub fn set_none(&mut self, index: usize)
        ensures
            index < old(self)@.len() ==> final(self)@ == old(self)@.with_at(index as int, SignalValue::none_of_type(old(self)@.signal_type())),
            index >= old(self)@.len() ==> final(self)@ == old(self)@,
    {
        let t = self.signal_type();
        let none = AnySignal::default_of_type(&t);
        self.set(index, &none);
    }

    /// Replaces every sample by `value`; does nothing if the value does not have the
    /// buffer's type.
    pub fn fill(&mut self, value: &AnySignal)
        ensures
            final(self)@ == old(self)@.filled(value@),
    {
        let n = self.len();
        if self.signal_type() != value.signal_type() {
            return;
        }
        let mut i: usize = 0;
        while i < n
            invariant
                i <= n,
                n == old(self)@.len(),
                self@.len() == n,
                self@.signal_type() == value@.signal_type(),
                forall|j: int| 0 <= j < i ==> #[trigger] self@.at(j) == value@,
                forall|j: int| i <= j < n ==> #[trigger] self@.at(j) == old(self)@.at(j),
            decreases n - i,
        {
            proof { lemma_buffer_with_at(self@, i as int, value@); }
            self.set(i, value);
            i += 1;
        }
        proof {
            lemma_buffer_filled(old(self)@, value@);
            lemma_buffer_ext(self@, old(self)@.filled(value@));
        }
    }
}


/// Replacing one sample changes that sample only.
pub proof fn lemma_buffer_with_at(b: BufferValue, i: int, v: SignalValue)
    requires
        0 <= i < b.len(),
        v.signal_type() == b.signal_type(),
    ensures
        b.with_at(i, v).len() == b.len(),
        b.with_at(i, v).signal_type() == b.signal_type(),
        b.with_at(i, v).at(i) == v,
        forall|j: int| 0 <= j < b.len() && j != i ==> #[trigger] b.with_at(i, v).at(j) == b.at(j),
{
}

/// Filling a buffer sets every sample.
pub proof fn lemma_buffer_filled(b: BufferValue, v: SignalValue)
    requires
        v.signal_type() == b.signal_type(),
    ensures
        b.filled(v).len() == b.len(),
        b.filled(v).signal_type() == b.signal_type(),
        forall|j: int| 0 <= j < b.len() ==> #[trigger] b.filled(v).at(j) == v,
{
}

/// Two buffer values of one type, length and samples are equal.
pub proof fn lemma_buffer_ext(a: BufferValue, b: BufferValue)
    requires
        a.signal_type() == b.signal_type(),
        a.len() == b.len(),
        forall|j: int| 0 <= j < a.len() ==> #[trigger] a.at(j) == b.at(j),
    ensures
        a == b,
{
    match (a, b) {
        (BufferValue::Float(x), BufferValue::Float(y)) => {
            assert forall|j: int| 0 <= j < x.len() implies x[j] == y[j] by { assert(a.at(j) == b.at(j)); }
            assert(x =~= y);
        },
        (BufferValue::Int(x), BufferValue::Int(y)) => {
            assert forall|j: int| 0 <= j < x.len() implies x[j] == y[j] by { assert(a.at(j) == b.at(j)); }
            assert(x =~= y);
        },
        (BufferValue::Bool(x), BufferValue::Bool(y)) => {
            assert forall|j: int| 0 <= j < x.len() implies x[j] == y[j] by { assert(a.at(j) == b.at(j)); }
            assert(x =~= y);
        },
        (BufferValue::String(x), BufferValue::String(y)) => {
            assert forall|j: int| 0 <= j < x.len() implies x[j] == y[j] by { assert(a.at(j) == b.at(j)); }
            assert(x =~= y);
        },
        (BufferValue::List(x), BufferValue::List(y)) => {
            assert forall|j: int| 0 <= j < x.len() implies x[j] == y[j] by { assert(a.at(j) == b.at(j)); }
            assert(x =~= y);
        },
        (BufferValue::Midi(x), BufferValue::Midi(y)) => {
            assert forall|j: int| 0 <= j < x.len() implies x[j] == y[j] by { assert(a.at(j) == b.at(j)); }
            assert(x =~= y);
        },
        _ => {},
    }
}


/// A Rust type that carries the samples of one signal type.
pub trait Signal: Sized {
    /// The signal type of this sample type.
    spec fn type_spec() -> SignalType;

    /// The value of one (possibly absent) sample.
    spec fn sample_value(s: Option<Self>) -> SignalValue;

    /// Every sample value has the signal type of its Rust type.
    proof fn lemma_sample_typed(s: Option<Self>)
        ensures
            Self::sample_value(s).signal_type() == Self::type_spec();

    /// The absent sample is the absent value of the type.
    proof fn lemma_sample_none()
        ensures
            Self::sample_value(None) == SignalValue::none_of_type(Self::type_spec());

    /// Returns the signal type of this sample type.
    fn signal_type() -> (r: SignalType)
        ensures
            r == Self::type_spec();

    /// Copies one sample.
    fn copy_sample(s: &Option<Self>) -> (r: Option<Self>)
        ensures
            Self::sample_value(r) == Self::sample_value(*s);

    /// Wraps one sample into an [`AnySignal`].
    fn into_any(s: Option<Self>) -> (r: AnySignal)
        ensures
            r@ == Self::sample_value(s);

    /// Returns the samples of `buffer` if it holds this type.
    fn samples_of(buffer: &SignalBuffer) -> (r: Option<&Vec<Option<Self>>>)
        ensures
            (r is Some) == (buffer@.signal_type() == Self::type_spec()),
            r is Some ==> r->0@.len() == buffer@.len(),
            r is Some ==> forall|i: int| 0 <= i < buffer@.len() ==> #[trigger] buffer@.at(i) == Self::sample_value(r->0@[i]);
}

impl Signal for Float {
    open spec fn type_spec() -> SignalType { SignalType::Float }
    open spec fn sample_value(s: Option<Self>) -> SignalValue { SignalValue::Float(s) }
    proof fn lemma_sample_typed(s: Option<Self>) {}
    proof fn lemma_sample_none() {}
    fn signal_type() -> (r: SignalType) { SignalType::Float }
    fn copy_sample(s: &Option<Self>) -> (r: Option<Self>) { *s }
    fn into_any(s: Option<Self>) -> (r: AnySignal) { AnySignal::Float(s) }
    fn samples_of(buffer: &SignalBuffer) -> (r: Option<&Vec<Option<Self>>>) {
        match buffer { SignalBuffer::Float(v) => Some(v), _ => None }
    }
}

impl Signal for i64 {
    open spec fn type_spec() -> SignalType { SignalType::Int }
    open spec fn sample_value(s: Option<Self>) -> SignalValue { SignalValue::Int(s) }
    proof fn lemma_sample_typed(s: Option<Self>) {}
    proof fn lemma_sample_none() {}
    fn signal_type() -> (r: SignalType) { SignalType::Int }
    fn copy_sample(s: &Option<Self>) -> (r: Option<Self>) { *s }
    fn into_any(s: Option<Self>) -> (r: AnySignal) { AnySignal::Int(s) }
    fn samples_of(buffer: &SignalBuffer) -> (r: Option<&Vec<Option<Self>>>) {
        match buffer { SignalBuffer::Int(v) => Some(v), _ => None }
    }
}

impl Signal for bool {
    open spec fn type_spec() -> SignalType { SignalType::Bool }
    open spec fn sample_value(s: Option<Self>) -> SignalValue { SignalValue::Bool(s) }
    proof fn lemma_sample_typed(s: Option<Self>) {}
    proof fn lemma_sample_none() {}
    fn signal_type() -> (r: SignalType) { SignalType::Bool }
    fn copy_sample(s: &Option<Self>) -> (r: Option<Self>) { *s }
    fn into_any(s: Option<Self>) -> (r: AnySignal) { AnySignal::Bool(s) }
    fn samples_of(buffer: &SignalBuffer) -> (r: Option<&Vec<Option<Self>>>) {
        match buffer { SignalBuffer::Bool(v) => Some(v), _ => None }
    }
}

impl Signal for String {
    open spec fn type_spec() -> SignalType { SignalType::String }
    open spec fn sample_value(s: Option<Self>) -> SignalValue { SignalValue::String(opt_str_view(s)) }
    proof fn lemma_sample_typed(s: Option<Self>) {}
    proof fn lemma_sample_none() {}
    fn signal_type() -> (r: SignalType) { SignalType::String }
    fn copy_sample(s: &Option<Self>) -> (r: Option<Self>) { clone_opt_string(s) }
    fn into_any(s: Option<Self>) -> (r: AnySignal) { AnySignal::String(s) }
    fn samples_of(buffer: &SignalBuffer) -> (r: Option<&Vec<Option<Self>>>) {
        match buffer { SignalBuffer::String(v) => Some(v), _ => None }
    }
}

impl Signal for List {
    open spec fn type_spec() -> SignalType { SignalType::List }
    open spec fn sample_value(s: Option<Self>) -> SignalValue { SignalValue::List(opt_list_view(s)) }
    proof fn lemma_sample_typed(s: Option<Self>) {}
    proof fn lemma_sample_none() {}
    fn signal_type() -> (r: SignalType) { SignalType::List }
    fn copy_sample(s: &Option<Self>) -> (r: Option<Self>) { clone_opt_list(s) }
    fn into_any(s: Option<Self>) -> (r: AnySignal) { AnySignal::List(s) }
    fn samples_of(buffer: &SignalBuffer) -> (r: Option<&Vec<Option<Self>>>) {
        match buffer { SignalBuffer::List(v) => Some(v), _ => None }
    }
}

impl Signal for MidiMessage {
    open spec fn type_spec() -> SignalType { SignalType::Midi }
    open spec fn sample_value(s: Option<Self>) -> SignalValue { SignalValue::Midi(s) }
    proof fn lemma_sample_typed(s: Option<Self>) {}
    proof fn lemma_sample_none() {}
    fn signal_type() -> (r: SignalType) { SignalType::Midi }
    fn copy_sample(s: &Option<Self>) -> (r: Option<Self>) { *s }
    fn into_any(s: Option<Self>) -> (r: AnySignal) { AnySignal::Midi(s) }
    fn samples_of(buffer: &SignalBuffer) -> (r: Option<&Vec<Option<Self>>>) {
        match buffer { SignalBuffer::Midi(v) => Some(v), _ => None }
    }
}

/// Equality of optional float samples (IEEE-754 `==` on present values).
pub open spec fn opt_float_eq(a: Option<Float>, b: Option<Float>) -> bool {
    match (a, b) {
        (None, None) => true,
        (Some(x), Some(y)) => float_eq_spec(x.bits, y.bits),
        _ => false,
    }
}

/// Equality of two list values: same element type and length, equal elements.
pub open spec fn list_value_eq(a: ListValue, b: ListValue) -> bool {
    match (a, b) {
        (ListValue::Float(x), ListValue::Float(y)) => x.len() == y.len()
            && forall|i: int| 0 <= i < x.len() ==> #[trigger] opt_float_eq(x[i], y[i]),
        (ListValue::Int(x), ListValue::Int(y)) => x == y,
        (ListValue::Bool(x), ListValue::Bool(y)) => x == y,
        (ListValue::String(x), ListValue::String(y)) => x == y,
        (ListValue::Midi(x), ListValue::Midi(y)) => x == y,
        _ => false,
    }
}

/// Equality of two signal values: same type and equal values (floats by IEEE-754 `==`).
pub open spec fn signal_value_eq(a: SignalValue, b: SignalValue) -> bool {
    match (a, b) {
        (SignalValue::Float(x), SignalValue::Float(y)) => opt_float_eq(x, y),
        (SignalValue::Int(x), SignalValue::Int(y)) => x == y,
        (SignalValue::Bool(x), SignalValue::Bool(y)) => x == y,
        (SignalValue::String(x), SignalValue::String(y)) => x == y,
        (SignalValue::List(x), SignalValue::List(y)) => match (x, y) {
            (None, None) => true,
            (Some(p), Some(q)) => list_value_eq(p, q),
            _ => false,
        },
        (SignalValue::Midi(x), SignalValue::Midi(y)) => x == y,
        _ => false,
    }
}

fn opt_float_equal(a: &Option<Float>, b: &Option<Float>) -> (r: bool)
    ensures
        r == opt_float_eq(*a, *b),
{
    match (a, b) {
        (None, None) => true,
        (Some(x), Some(y)) => x.float_eq(y),
        _ => false,
    }
}

fn opt_string_equal(a: &Option<String>, b: &Option<String>) -> (r: bool)
    ensures
        r == (opt_str_view(*a) == opt_str_view(*b)),
{
    match (a, b) {
        (None, None) => true,
        (Some(x), Some(y)) => *x == *y,
        _ => false,
    }
}

impl List {
    /// Compares two lists element by element (floats by IEEE-754 `==`).
    pub fn list_eq(&self, other: &List) -> (r: bool)
        ensures
            r == list_value_eq(self@, other@),
    {
        if self.len() != other.len() {
            proof {
                match (self@, other@) {
                    (ListValue::Int(x), ListValue::Int(y)) => { assert(x.len() != y.len()); },
                    (ListValue::Bool(x), ListValue::Bool(y)) => { assert(x.len() != y.len()); },
                    (ListValue::String(x), ListValue::String(y)) => { assert(x.len() != y.len()); },
                    (ListValue::Midi(x), ListValue::Midi(y)) => { assert(x.len() != y.len()); },
                    _ => {},
                }
            }
            return false;
        }
        let n = self.len();
        match (&self.items, &other.items) {
            (ListItems::Float(x), ListItems::Float(y)) => {
                let mut i: usize = 0;
                while i < n
                    invariant
                        i <= n,
                        n == x@.len(),
                        n == y@.len(),
                        self@ == ListValue::Float(x@),
                        other@ == ListValue::Float(y@),
                        forall|j: int| 0 <= j < i ==> #[trigger] opt_float_eq(x@[j], y@[j]),
                    decreases n - i,
                {
                    if !opt_float_equal(&x[i], &y[i]) {
                        assert(!opt_float_eq(x@[i as int], y@[i as int]));
                        return false;
                    }
                    i += 1;
                }
                true
            },
            (ListItems::Int(x), ListItems::Int(y)) => {
                let mut i: usize = 0;
                while i < n
                    invariant
                        i <= n,
                        n == x@.len(),
                        n == y@.len(),
                        self@ == ListValue::Int(x@),
                        other@ == ListValue::Int(y@),
                        forall|j: int| 0 <= j < i ==> #[trigger] x@[j] == y@[j],
                    decreases n - i,
                {
                    let e = match (x[i], y[i]) {
                        (None, None) => true,
                        (Some(p), Some(q)) => p == q,
                        _ => false,
                    };
                    if !e {
                        assert(x@[i as int] != y@[i as int]);
                        return false;
                    }
                    i += 1;
                }
                assert(x@ =~= y@);
                true
            },
            (ListItems::Bool(x), ListItems::Bool(y)) => {
                let mut i: usize = 0;
                while i < n
                    invariant
                        i <= n,
                        n == x@.len(),
                        n == y@.len(),
                        self@ == ListValue::Bool(x@),
                        other@ == ListValue::Bool(y@),
                        forall|j: int| 0 <= j < i ==> #[trigger] x@[j] == y@[j],
                    decreases n - i,
                {
                    let e = match (x[i], y[i]) {
                        (None, None) => true,
                        (Some(p), Some(q)) => p == q,
                        _ => false,
                    };
                    if !e {
                        assert(x@[i as int] != y@[i as int]);
                        return false;
                    }
                    i += 1;
                }
                assert(x@ =~= y@);
                true
            },
            (ListItems::String(x), ListItems::String(y)) => {
                let ghost xs = x@.map_values(|o: Option<String>| opt_str_view(o));
                let ghost ys = y@.map_values(|o: Option<String>| opt_str_view(o));
                let mut i: usize = 0;
                while i < n
                    invariant
                        i <= n,
                        n == x@.len(),
                        n == y@.len(),
                        self@ == ListValue::String(xs),
                        other@ == ListValue::String(ys),
                        xs == x@.map_values(|o: Option<String>| opt_str_view(o)),
                        ys == y@.map_values(|o: Option<String>| opt_str_view(o)),
                        forall|j: int| 0 <= j < i ==> #[trigger] xs[j] == ys[j],
                    decreases n - i,
                {
                    if !opt_string_equal(&x[i], &y[i]) {
                        assert(xs[i as int] != ys[i as int]);
                        assert(xs != ys);
                        return false;
                    }
                    i += 1;
                }
                assert(xs =~= ys);
                true
            },
            (ListItems::Midi(x), ListItems::Midi(y)) => {
                let mut i: usize = 0;
                while i < n
                    invariant
                        i <= n,
                        n == x@.len(),
                        n == y@.len(),
                        self@ == ListValue::Midi(x@),
                        other@ == ListValue::Midi(y@),
                        forall|j: int| 0 <= j < i ==> #[trigger] x@[j] == y@[j],
                    decreases n - i,
                {
                    let e = match (x[i], y[i]) {
                        (None, None) => true,
                        (Some(p), Some(q)) => p.status_byte == q.status_byte && p.data_byte1 == q.data_byte1 && p.data_byte2 == q.data_byte2,
                        _ => false,
                    };
                    if !e {
                        assert(x@[i as int] != y@[i as int]);
                        return false;
                    }
                    i += 1;
                }
                assert(x@ =~= y@);
                true
            },
            _ => false,
        }
    }
}

impl AnySignal {
    /// Compares two signals: same type and equal values (floats by IEEE-754 `==`).
    pub fn signal_eq(&self, other: &AnySignal) -> (r: bool)
        ensures
            r == signal_value_eq(self@, other@),
    {
        match (self, other) {
            (AnySignal::Float(x), AnySignal::Float(y)) => opt_float_equal(x, y),
            (AnySignal::Int(x), AnySignal::Int(y)) => match (x, y) {
                (None, None) => true,
                (Some(p), Some(q)) => *p == *q,
                _ => false,
            },
            (AnySignal::Bool(x), AnySignal::Bool(y)) => match (x, y) {
                (None, None) => true,
                (Some(p), Some(q)) => *p == *q,
                _ => false,
            },
            (AnySignal::String(x), AnySignal::String(y)) => opt_string_equal(x, y),
            (AnySignal::List(x), AnySignal::List(y)) => match (x, y) {
                (None, None) => true,
                (Some(p), Some(q)) => p.list_eq(q),
                _ => false,
            },
            (AnySignal::Midi(x), AnySignal::Midi(y)) => match (x, y) {
                (None, None) => true,
                (Some(p), Some(q)) => p.status_byte == q.status_byte && p.data_byte1 == q.data_byte1 && p.data_byte2 == q.data_byte2,
                _ => false,
            },
            _ => false,
        }
    }
}

} // verus!
