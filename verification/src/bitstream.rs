//! Reading a codestream bit by bit, and the annotated reader that records
//! every read in an `AnnotationCollector`.

use vstd::prelude::*;
use crate::collector::{AnnotationCollector, CollectorView, spec_begin, spec_end, spec_push};
use crate::context::{ContextStack, context_step, path_of};
use crate::model::{AnnotatedValue, Annotation, DecoderLocation, EncodingType, SegmentKind};

verus! {

/// `2^k`.
pub open spec fn pow2(k: nat) -> nat
    decreases k,
{
    if k == 0 {
        1
    } else {
        2 * pow2((k - 1) as nat)
    }
}

/// Bit number `p` of a byte sequence, counting from the least significant
/// bit of the first byte (the bit order of JPEG XL codestreams).
pub open spec fn bit_at(bytes: Seq<u8>, p: nat) -> nat {
    ((bytes[(p / 8) as int] >> ((p % 8) as u8)) & 1u8) as nat
}

/// The `n` bits starting at bit `p`, read as an unsigned number whose least
/// significant bit is the first bit read.
pub open spec fn bits_value(bytes: Seq<u8>, p: nat, n: nat) -> nat
    decreases n,
{
    if n == 0 {
        0
    } else {
        bits_value(bytes, p, (n - 1) as nat) + bit_at(bytes, (p + n - 1) as nat) * pow2((n - 1) as nat)
    }
}

proof fn lemma_pow2_mono(i: nat, k: nat)
    requires
        i <= k,
    ensures
        pow2(i) <= pow2(k),
        pow2(i) >= 1,
    decreases k,
{
    if i < k {
        lemma_pow2_mono(i, (k - 1) as nat);
    } else if k > 0 {
        lemma_pow2_mono((k - 1) as nat, (k - 1) as nat);
    }
}

proof fn lemma_bit_at_le_1(bytes: Seq<u8>, p: nat)
    requires
        p / 8 < bytes.len(),
    ensures
        bit_at(bytes, p) <= 1,
{
    let b = bytes[(p / 8) as int];
    let s = (p % 8) as u8;
    assert((b >> s) & 1u8 <= 1u8) by (bit_vector);
}

proof fn lemma_bits_value_bound(bytes: Seq<u8>, p: nat, n: nat)
    requires
        p + n <= 8 * bytes.len(),
    ensures
        bits_value(bytes, p, n) < pow2(n),
    decreases n,
{
    if n > 0 {
        lemma_bits_value_bound(bytes, p, (n - 1) as nat);
        lemma_bits_value_step(bytes, p, (n - 1) as nat);
    }
}

/// One more bit adds its weight when it is set.
proof fn lemma_bits_value_step(bytes: Seq<u8>, p: nat, i: nat)
    requires
        p + i < 8 * bytes.len(),
    ensures
        bit_at(bytes, p + i) <= 1,
        bits_value(bytes, p, i + 1) == bits_value(bytes, p, i) + if bit_at(bytes, p + i) == 1 {
            pow2(i)
        } else {
            0
        },
{
    lemma_bit_at_le_1(bytes, p + i);
    let b = bit_at(bytes, p + i);
    assert(bits_value(bytes, p, i + 1) == bits_value(bytes, p, i) + b * pow2(i));
    if b == 1 {
        assert(b * pow2(i) == pow2(i));
    } else {
        assert(b == 0);
        assert(b * pow2(i) == 0);
    }
}

proof fn lemma_pow2_add(a: nat, b: nat)
    ensures
        pow2(a + b) == pow2(a) * pow2(b),
    decreases b,
{
    if b == 0 {
        assert(a + b == a);
        assert(pow2(a) * 1 == pow2(a));
    } else {
        let b1 = (b - 1) as nat;
        let n1 = (a + b1) as nat;
        lemma_pow2_add(a, b1);
        let pa = pow2(a);
        let pb = pow2(b1);
        assert(((a + b) - 1) as nat == n1);
        assert(pow2(a + b) == 2 * pow2(n1));
        assert(pow2(b) == 2 * pb);
        assert(2 * (pa * pb) == pa * (2 * pb)) by (nonlinear_arith);
    }
}

/// Reading `a` bits and then `b` more gives the same bits as one read of
/// `a + b`: the first read holds the low `a` bits of the longer read and the
/// second read the rest.
pub proof fn lemma_reads_compose(bytes: Seq<u8>, p: nat, a: nat, b: nat)
    ensures
        bits_value(bytes, p, a + b) == bits_value(bytes, p, a) + pow2(a) * bits_value(bytes, p + a, b),
    decreases b,
{
    if b == 0 {
        assert(a + b == a);
        assert(pow2(a) * bits_value(bytes, p + a, b) == 0) by (nonlinear_arith)
            requires bits_value(bytes, p + a, b) == 0;
    } else {
        let b1 = (b - 1) as nat;
        let n1 = (a + b1) as nat;
        lemma_reads_compose(bytes, p, a, b1);
        lemma_pow2_add(a, b1);
        let x = bit_at(bytes, (p + a + b - 1) as nat);
        let head = bits_value(bytes, p, a);
        let rest = bits_value(bytes, p + a, b1);
        let pa = pow2(a);
        let pb = pow2(b1);
        assert(((a + b) - 1) as nat == n1);
        assert(bits_value(bytes, p, a + b) == bits_value(bytes, p, n1) + x * pow2(n1));
        assert(bits_value(bytes, p, n1) == head + pa * rest);
        assert(pow2(n1) == pa * pb);
        assert(((p + a) + b - 1) as nat == (p + a + b - 1) as nat);
        assert(bits_value(bytes, p + a, b) == rest + x * pb);
        assert(head + pa * rest + x * (pa * pb) == head + pa * (rest + x * pb)) by (nonlinear_arith);
    }
}

/// The eight bits read from a byte boundary are that byte: the first bit
/// read is its least significant bit.
pub proof fn lemma_byte_read(bytes: Seq<u8>, k: int)
    requires
        0 <= k < bytes.len(),
    ensures
        bits_value(bytes, (8 * k) as nat, 8) == bytes[k] as nat,
{
    let b = bytes[k];
    let p = (8 * k) as nat;
    assert forall|j: nat| j < 8 implies #[trigger] bit_at(bytes, p + j) == ((b >> (j as u8)) & 1u8) as nat by {
        assert((p + j) / 8 == k);
        assert((p + j) % 8 == j);
    }
    reveal_with_fuel(pow2, 8);
    assert(pow2(0) == 1);
    assert(pow2(1) == 2);
    assert(pow2(2) == 4);
    assert(pow2(3) == 8);
    assert(pow2(4) == 16);
    assert(pow2(5) == 32);
    assert(pow2(6) == 64);
    assert(pow2(7) == 128);
    assert(bits_value(bytes, p, 0) == 0);
    assert(bits_value(bytes, p, 1) == bits_value(bytes, p, 0) + bit_at(bytes, p + 0) * pow2(0));
    assert(bits_value(bytes, p, 2) == bits_value(bytes, p, 1) + bit_at(bytes, p + 1) * pow2(1));
    assert(bits_value(bytes, p, 3) == bits_value(bytes, p, 2) + bit_at(bytes, p + 2) * pow2(2));
    assert(bits_value(bytes, p, 4) == bits_value(bytes, p, 3) + bit_at(bytes, p + 3) * pow2(3));
    assert(bits_value(bytes, p, 5) == bits_value(bytes, p, 4) + bit_at(bytes, p + 4) * pow2(4));
    assert(bits_value(bytes, p, 6) == bits_value(bytes, p, 5) + bit_at(bytes, p + 5) * pow2(5));
    assert(bits_value(bytes, p, 7) == bits_value(bytes, p, 6) + bit_at(bytes, p + 6) * pow2(6));
    assert(bits_value(bytes, p, 8) == bits_value(bytes, p, 7) + bit_at(bytes, p + 7) * pow2(7));
    assert(bit_at(bytes, p + 0) == ((b >> 0u8) & 1u8) as nat);
    assert(bit_at(bytes, p + 1) == ((b >> 1u8) & 1u8) as nat);
    assert(bit_at(bytes, p + 2) == ((b >> 2u8) & 1u8) as nat);
    assert(bit_at(bytes, p + 3) == ((b >> 3u8) & 1u8) as nat);
    assert(bit_at(bytes, p + 4) == ((b >> 4u8) & 1u8) as nat);
    assert(bit_at(bytes, p + 5) == ((b >> 5u8) & 1u8) as nat);
    assert(bit_at(bytes, p + 6) == ((b >> 6u8) & 1u8) as nat);
    assert(bit_at(bytes, p + 7) == ((b >> 7u8) & 1u8) as nat);
    assert(bits_value(bytes, p, 8) == bit_at(bytes, p + 0) + 2 * bit_at(bytes, p + 1) + 4 * bit_at(bytes, p + 2)
        + 8 * bit_at(bytes, p + 3) + 16 * bit_at(bytes, p + 4) + 32 * bit_at(bytes, p + 5)
        + 64 * bit_at(bytes, p + 6) + 128 * bit_at(bytes, p + 7));
    assert(b as nat == ((b >> 0u8) & 1u8) as nat + 2 * ((b >> 1u8) & 1u8) as nat + 4 * ((b >> 2u8) & 1u8) as nat
        + 8 * ((b >> 3u8) & 1u8) as nat + 16 * ((b >> 4u8) & 1u8) as nat + 32 * ((b >> 5u8) & 1u8) as nat
        + 64 * ((b >> 6u8) & 1u8) as nat + 128 * ((b >> 7u8) & 1u8) as nat) by (bit_vector);
}

/// Errors of the bit reader.
#[derive(Debug)]
pub enum BitstreamError {
    /// Fewer bits remain than were asked for.
    UnexpectedEof,
}

/// The mathematical state of a bit reader: its bytes and how many bits have
/// been read.
pub struct BitstreamView {
    pub bytes: Seq<u8>,
    pub pos: nat,
}

/// A reader of the bits of a codestream, least significant bit first.
pub struct Bitstream<'buf> {
    bytes: &'buf [u8],
    pos: usize,
}

impl<'buf> View for Bitstream<'buf> {
    type V = BitstreamView;

    closed spec fn view(&self) -> BitstreamView {
        BitstreamView { bytes: self.bytes@, pos: self.pos as nat }
    }
}

impl<'buf> Bitstream<'buf> {
    #[verifier::type_invariant]
    closed spec fn inv(self) -> bool {
        &&& self.pos <= 8 * self.bytes@.len()
        &&& 8 * self.bytes@.len() <= usize::MAX
    }

    /// A reader positioned at the first bit of `bytes`, whose bits can be
    /// counted in a `usize`.
    pub fn new(bytes: &'buf [u8]) -> (r: Self)
        requires
            8 * bytes@.len() <= usize::MAX,
        ensures
            r@.bytes == bytes@,
            r@.pos == 0,
    {
        Self { bytes, pos: 0 }
    }

    /// Number of bits read so far; never more than the bits there are.
    pub fn num_read_bits(&self) -> (r: usize)
        ensures
            r as nat == self@.pos,
            self@.pos <= 8 * self@.bytes.len(),
            8 * self@.bytes.len() <= usize::MAX,
    {
        proof {
            use_type_invariant(self);
        }
        self.pos
    }

    /// Reads `n <= 32` bits as an unsigned number, first bit least
    /// significant.  When fewer than `n` bits remain, fails with
    /// `UnexpectedEof` and reads nothing.
    pub fn read_bits(&mut self, n: usize) -> (r: Result<u32, BitstreamError>)
        requires
            n <= 32,
        ensures
            final(self)@.bytes == old(self)@.bytes,
            old(self)@.pos + n <= 8 * old(self)@.bytes.len() ==> (r matches Ok(v)
                && v as nat == bits_value(old(self)@.bytes, old(self)@.pos, n as nat)
                && final(self)@.pos == old(self)@.pos + n),
            old(self)@.pos + n > 8 * old(self)@.bytes.len() ==> (r matches Err(e)
                && e is UnexpectedEof && final(self)@ == old(self)@),
    {
        proof {
            use_type_invariant(&*self);
        }
        let len = self.bytes.len();
        let pos = self.pos;
        let whole = len - pos / 8;
        if whole < 5 && n > 8 * whole - pos % 8 {
            assert(pos + n > 8 * len);
            return Err(BitstreamError::UnexpectedEof);
        }
        assert(pos + n <= 8 * len);
        let ghost bytes = self.bytes@;
        let mut v: u64 = 0;
        let mut mul: u64 = 1;
        let mut i: usize = 0;
        while i < n
            invariant
                n <= 32,
                i <= n,
                pos + n <= 8 * len,
                8 * len <= usize::MAX,
                len == bytes.len(),
                bytes == self.bytes@,
                pos == self.pos,
                v as nat == bits_value(bytes, pos as nat, i as nat),
                mul as nat == pow2(i as nat),
                v < mul,
                mul <= 0x1_0000_0000,
            decreases n - i,
        {
            let p = pos + i;
            let b: u8 = (self.bytes[p / 8] >> ((p % 8) as u8)) & 1u8;
            proof {
                lemma_bits_value_step(bytes, pos as nat, i as nat);
                lemma_pow2_mono(i as nat, 31);
                assert(pow2(31) == 0x8000_0000) by {
                    reveal_with_fuel(pow2, 32);
                }
                assert(pow2((i + 1) as nat) == 2 * pow2(i as nat));
            }
            if b == 1 {
                v = v + mul;
            }
            mul = mul * 2;
            i = i + 1;
        }
        self.pos = pos + n;
        Ok(v as u32)
    }

    /// Reads one bit as a boolean.
    pub fn read_bool(&mut self) -> (r: Result<bool, BitstreamError>)
        ensures
            final(self)@.bytes == old(self)@.bytes,
            old(self)@.pos + 1 <= 8 * old(self)@.bytes.len() ==> (r matches Ok(b)
                && b == (bit_at(old(self)@.bytes, old(self)@.pos) == 1)
                && final(self)@.pos == old(self)@.pos + 1),
            old(self)@.pos + 1 > 8 * old(self)@.bytes.len() ==> (r matches Err(e)
                && e is UnexpectedEof && final(self)@ == old(self)@),
    {
        let ghost before = self@;
        match self.read_bits(1) {
            Ok(x) => {
                proof {
                    lemma_bits_value_step(before.bytes, before.pos, 0);
                    assert(bits_value(before.bytes, before.pos, 0) == 0);
                    assert(pow2(0) == 1);
                }
                Ok(x != 0)
            },
            Err(e) => Err(e),
        }
    }
}

} // verus!

verus! {

/// The mathematical state of an annotated reader.
pub struct AnnotatedView {
    pub bits: BitstreamView,
    pub collector: CollectorView,
    pub context: Seq<(Seq<char>, u64)>,
}

/// Whether two optional strings hold the same characters.
pub open spec fn same_opt_text(s: Option<String>, t: Option<&str>) -> bool {
    match (s, t) {
        (Some(a), Some(b)) => a@ == b@,
        (None, None) => true,
        _ => false,
    }
}

/// The annotation recorded for a read: the bits it spans, the context path
/// at the time, the field's name and reference, the value and its encoding,
/// and the decoder location it was read from.
pub open spec fn is_read_annotation(
    a: Annotation,
    bit_start: u64,
    bit_length: u32,
    path: Seq<char>,
    field_name: Seq<char>,
    value: AnnotatedValue,
    encoding: EncodingType,
    spec_ref: Option<&str>,
    location: DecoderLocation,
) -> bool {
    &&& a.bit_start == bit_start
    &&& a.bit_length == bit_length
    &&& a.path@ == path
    &&& a.field_name@ == field_name
    &&& a.value == value
    &&& a.encoding == encoding
    &&& same_opt_text(a.spec_ref, spec_ref)
    &&& a.decoder_location == Some(location)
}

/// Optional text copied into an owned string.
fn owned_opt_text(t: Option<&str>) -> (r: Option<String>)
    ensures
        same_opt_text(r, t),
{
    match t {
        Some(s) => Some(String::from_str(s)),
        None => None,
    }
}

/// Annotated bitstream wrapper that records all reads.
///
/// This wraps a `Bitstream` and records every read operation with
/// bit offsets, values, and decoder locations.  The collector is owned by the
/// reader; nested parsing hands it on with `into_collector` and
/// `with_collector`.
pub struct AnnotatedBitstream<'buf> {
    inner: Bitstream<'buf>,
    collector: AnnotationCollector,
    context: ContextStack,
}

impl<'buf> View for AnnotatedBitstream<'buf> {
    type V = AnnotatedView;

    closed spec fn view(&self) -> AnnotatedView {
        AnnotatedView { bits: self.inner@, collector: self.collector@, context: self.context@ }
    }
}

impl<'buf> AnnotatedBitstream<'buf> {
    /// Create a new annotated bitstream.
    pub fn new(bytes: &'buf [u8]) -> (r: Self)
        requires
            8 * bytes@.len() <= usize::MAX,
        ensures
            r@.bits.bytes == bytes@,
            r@.bits.pos == 0,
            r@.collector.annotations.len() == 0,
            r@.collector.current is None,
            r@.collector.segments.len() == 0,
            r@.collector.stack.len() == 0,
            r@.context.len() == 0,
    {
        Self { inner: Bitstream::new(bytes), collector: AnnotationCollector::new(), context: ContextStack::new() }
    }

    /// Create with a collector that earlier reads filled (for nested parsing).
    pub fn with_collector(bytes: &'buf [u8], collector: AnnotationCollector) -> (r: Self)
        requires
            8 * bytes@.len() <= usize::MAX,
        ensures
            r@.bits.bytes == bytes@,
            r@.bits.pos == 0,
            r@.collector == collector@,
            r@.context.len() == 0,
    {
        Self { inner: Bitstream::new(bytes), collector, context: ContextStack::new() }
    }

    /// Get the underlying bitstream for raw access.
    pub fn inner(&self) -> (r: &Bitstream<'buf>)
        ensures
            r@ == self@.bits,
    {
        &self.inner
    }

    /// Get mutable access to underlying bitstream.
    pub fn inner_mut(&mut self) -> (r: &mut Bitstream<'buf>)
        ensures
            r@ == old(self)@.bits,
            final(self)@ == (AnnotatedView { bits: final(r)@, ..old(self)@ }),
    {
        &mut self.inner
    }

    /// Get the annotation collector.
    pub fn collector(&self) -> (r: &AnnotationCollector)
        ensures
            r@ == self@.collector,
    {
        &self.collector
    }

    /// Current bit position.
    pub fn num_read_bits(&self) -> (r: usize)
        ensures
            r as nat == self@.bits.pos,
    {
        self.inner.num_read_bits()
    }

    /// Enter a named context (e.g., "ImageHeader") starting at the current
    /// bit.
    pub fn enter_context(&mut self, name: &str)
        ensures
            final(self)@ == (AnnotatedView {
                context: old(self)@.context.push((name@, old(self)@.bits.pos as u64)),
                ..old(self)@
            }),
            final(self)@.context == context_step(old(self)@.context, Some((name@, old(self)@.bits.pos as u64))),
    {
        let start_bit = self.inner.num_read_bits() as u64;
        self.context.push(name, start_bit);
    }

    /// Exit the current context (nothing changes when none is open).
    pub fn exit_context(&mut self)
        ensures
            final(self)@ == (AnnotatedView {
                context: if old(self)@.context.len() > 0 {
                    old(self)@.context.drop_last()
                } else {
                    old(self)@.context
                },
                ..old(self)@
            }),
            final(self)@.context == context_step(old(self)@.context, None),
    {
        let _ = self.context.pop();
    }

    /// Begin a segment at the current bit.
    pub fn begin_segment(&mut self, kind: SegmentKind)
        ensures
            final(self)@ == (AnnotatedView {
                collector: spec_begin(old(self)@.collector, kind, old(self)@.bits.pos as u64),
                ..old(self)@
            }),
    {
        let start_bit = self.inner.num_read_bits() as u64;
        self.collector.begin_segment(kind, start_bit);
    }

    /// End the current segment at the current bit.
    pub fn end_segment(&mut self)
        requires
            old(self)@.collector.current is Some ==> old(self)@.bits.pos + 7 <= u64::MAX,
        ensures
            final(self)@ == (AnnotatedView {
                collector: spec_end(old(self)@.collector, old(self)@.bits.pos as u64),
                ..old(self)@
            }),
    {
        let end_bit = self.inner.num_read_bits() as u64;
        self.collector.end_segment(end_bit);
    }

    /// Read `n <= 32` bits and record an annotation of the read, made at
    /// `location`; when too few bits remain, nothing is read or recorded.
    pub fn read_bits_annotated(
        &mut self,
        n: usize,
        field_name: &str,
        spec_ref: Option<&str>,
        location: DecoderLocation,
    ) -> (r: Result<u32, BitstreamError>)
        requires
            n <= 32,
        ensures
            old(self)@.bits.pos + n <= 8 * old(self)@.bits.bytes.len() ==> (r matches Ok(v)
                && v as nat == bits_value(old(self)@.bits.bytes, old(self)@.bits.pos, n as nat)
                && final(self)@.bits == (BitstreamView { pos: (old(self)@.bits.pos + n) as nat, ..old(self)@.bits })
                && final(self)@.context == old(self)@.context
                && exists|a: Annotation| #[trigger] is_read_annotation(
                    a,
                    old(self)@.bits.pos as u64,
                    n as u32,
                    path_of(old(self)@.context),
                    field_name@,
                    AnnotatedValue::U32(v),
                    EncodingType::Bits { n: n as u8 },
                    spec_ref,
                    location,
                ) && final(self)@.collector == spec_push(old(self)@.collector, a)),
            old(self)@.bits.pos + n > 8 * old(self)@.bits.bytes.len() ==> (r matches Err(e)
                && e is UnexpectedEof && final(self)@ == old(self)@),
    {
        let start = self.inner.num_read_bits() as u64;
        let value = match self.inner.read_bits(n) {
            Ok(v) => v,
            Err(e) => {
                return Err(e);
            },
        };
        let annotation = Annotation {
            bit_start: start,
            bit_length: n as u32,
            path: self.context.path(),
            field_name: String::from_str(field_name),
            value: AnnotatedValue::U32(value),
            encoding: EncodingType::Bits { n: n as u8 },
            spec_ref: owned_opt_text(spec_ref),
            decoder_location: Some(location),
        };
        let ghost a = annotation;
        self.collector.push(annotation);
        assert(is_read_annotation(
            a,
            old(self)@.bits.pos as u64,
            n as u32,
            path_of(old(self)@.context),
            field_name@,
            AnnotatedValue::U32(value),
            EncodingType::Bits { n: n as u8 },
            spec_ref,
            location,
        ));
        Ok(value)
    }

    /// Read one bit as a boolean and record an annotation of the read, made
    /// at `location`; at the end of the bits, nothing is read or recorded.
    pub fn read_bool_annotated(
        &mut self,
        field_name: &str,
        spec_ref: Option<&str>,
        location: DecoderLocation,
    ) -> (r: Result<bool, BitstreamError>)
        ensures
            old(self)@.bits.pos + 1 <= 8 * old(self)@.bits.bytes.len() ==> (r matches Ok(b)
                && b == (bit_at(old(self)@.bits.bytes, old(self)@.bits.pos) == 1)
                && final(self)@.bits == (BitstreamView { pos: (old(self)@.bits.pos + 1) as nat, ..old(self)@.bits })
                && final(self)@.context == old(self)@.context
                && exists|a: Annotation| #[trigger] is_read_annotation(
                    a,
                    old(self)@.bits.pos as u64,
                    1,
                    path_of(old(self)@.context),
                    field_name@,
                    AnnotatedValue::Bool(b),
                    EncodingType::Bool,
                    spec_ref,
                    location,
                ) && final(self)@.collector == spec_push(old(self)@.collector, a)),
            old(self)@.bits.pos + 1 > 8 * old(self)@.bits.bytes.len() ==> (r matches Err(e)
                && e is UnexpectedEof && final(self)@ == old(self)@),
    {
        let start = self.inner.num_read_bits() as u64;
        let value = match self.inner.read_bool() {
            Ok(v) => v,
            Err(e) => {
                return Err(e);
            },
        };
        let annotation = Annotation {
            bit_start: start,
            bit_length: 1,
            path: self.context.path(),
            field_name: String::from_str(field_name),
            value: AnnotatedValue::Bool(value),
            encoding: EncodingType::Bool,
            spec_ref: owned_opt_text(spec_ref),
            decoder_location: Some(location),
        };
        let ghost a = annotation;
        self.collector.push(annotation);
        assert(is_read_annotation(
            a,
            old(self)@.bits.pos as u64,
            1,
            path_of(old(self)@.context),
            field_name@,
            AnnotatedValue::Bool(value),
            EncodingType::Bool,
            spec_ref,
            location,
        ));
        Ok(value)
    }

    /// Consume the annotated bitstream and return collector.
    pub fn into_collector(self) -> (r: AnnotationCollector)
        ensures
            r@ == self@.collector,
    {
        self.collector
    }
}

} // verus!
