//! Common ground for the Data-Item codecs: the `WireItem` interface, the
//! big-endian byte lemmas, and helpers shared by decode and encode.
//!
//! Every Data Item has a specification-level encoding `enc`, a whole number
//! of octets. Its decoder returns a value whose `enc` is exactly the bytes it
//! consumed, and its encoder appends exactly `enc` to the output; the
//! round-trip property of the whole codec is assembled from these two facts.
use vstd::prelude::*;

verus! {

/// A Data Item (or sub-field) with a specified wire encoding.
pub trait WireItem: Sized {
    /// Internal well-formedness: field values fit their wire widths.
    spec fn wf(self) -> bool;

    /// The octets this value occupies on the wire.
    spec fn enc(self) -> Seq<u8>;
}

/// Encoding of an optional Data Item: absent items occupy no octets.
pub open spec fn opt_enc<T: WireItem>(o: Option<T>) -> Seq<u8> {
    match o {
        Some(t) => t.enc(),
        None => Seq::empty(),
    }
}

/// Well-formedness of an optional Data Item.
pub open spec fn opt_wf<T: WireItem>(o: Option<T>) -> bool {
    match o {
        Some(t) => t.wf(),
        None => true,
    }
}

/// Contribution of an optional Data Item to a draft presence-map octet:
/// its mask when present, zero when absent.
pub open spec fn pbit<T>(o: Option<T>, m: u8) -> u8 {
    if o is Some {
        m
    } else {
        0
    }
}

/// Concatenated encoding of a sequence of items, in order.
pub open spec fn items_enc<T: WireItem>(s: Seq<T>) -> Seq<u8>
    decreases s.len(),
{
    if s.len() == 0 {
        Seq::empty()
    } else {
        items_enc(s.drop_last()) + s.last().enc()
    }
}

/// All items of a sequence are well formed.
pub open spec fn items_wf<T: WireItem>(s: Seq<T>) -> bool {
    forall|i: int| 0 <= i < s.len() ==> #[trigger] s[i].wf()
}

/// Appending one item extends the concatenated encoding by its own.
pub proof fn lemma_items_enc_push<T: WireItem>(s: Seq<T>, t: T)
    ensures
        items_enc(s.push(t)) == items_enc(s) + t.enc(),
{
    assert(s.push(t).drop_last() =~= s);
    assert(s.push(t).last() == t);
}

/// Pushing one byte is concatenation with a singleton.
pub proof fn lemma_seq_push_is_add(s: Seq<u8>, v: u8)
    ensures
        s.push(v) == s + seq![v],
{
    assert(s.push(v) =~= s + seq![v]);
}

/// The empty sequence is a right identity of concatenation.
pub proof fn lemma_seq_add_empty(s: Seq<u8>)
    ensures
        s + Seq::<u8>::empty() == s,
{
    assert(s + Seq::<u8>::empty() =~= s);
}

/// Concatenation of byte sequences is associative.
pub proof fn lemma_seq_add_assoc(a: Seq<u8>, b: Seq<u8>, c: Seq<u8>)
    ensures
        (a + b) + c == a + (b + c),
{
    assert((a + b) + c =~= a + (b + c));
}

/// Two item sequences whose elements encode identically have identical
/// concatenated encodings.
pub proof fn lemma_items_enc_congruence<T: WireItem>(s1: Seq<T>, s2: Seq<T>)
    requires
        s1.len() == s2.len(),
        forall|i: int| 0 <= i < s1.len() ==> (#[trigger] s1[i]).enc() == s2[i].enc(),
    ensures
        items_enc(s1) == items_enc(s2),
    decreases s1.len(),
{
    if s1.len() > 0 {
        lemma_items_enc_congruence(s1.drop_last(), s2.drop_last());
        assert(s1.last().enc() == s2.last().enc());
    }
}

/// Adjacent subranges of a byte sequence concatenate to the enclosing one.
pub proof fn lemma_subrange_join(b: Seq<u8>, i: int, j: int, k: int)
    requires
        0 <= i <= j <= k <= b.len(),
    ensures
        b.subrange(i, k) == b.subrange(i, j) + b.subrange(j, k),
{
    assert(b.subrange(i, k) =~= b.subrange(i, j) + b.subrange(j, k));
}

/// A big-endian 16-bit word assembled from two octets splits back into them,
/// and survives a round trip through `i16`.
pub proof fn lemma_u16_be(b0: u8, b1: u8)
    by (bit_vector)
    ensures
        ((((b0 as u16) << 8) | (b1 as u16)) >> 8) as u8 == b0,
        (((b0 as u16) << 8) | (b1 as u16)) as u8 == b1,
        (((((b0 as u16) << 8) | (b1 as u16)) as i16) as u16) == (((b0 as u16) << 8) | (
        b1 as u16)),
{
}

/// A big-endian 24-bit value assembled from three octets splits back into
/// them and is bounded by 2^24.
pub proof fn lemma_u24_be(b0: u8, b1: u8, b2: u8)
    by (bit_vector)
    ensures
        ((((b0 as u32) << 16) | ((b1 as u32) << 8) | (b2 as u32)) >> 16) as u8 == b0,
        ((((b0 as u32) << 16) | ((b1 as u32) << 8) | (b2 as u32)) >> 8) as u8 == b1,
        (((b0 as u32) << 16) | ((b1 as u32) << 8) | (b2 as u32)) as u8 == b2,
        (((b0 as u32) << 16) | ((b1 as u32) << 8) | (b2 as u32)) < 0x100_0000,
{
}

/// Appends a copy of `src` to `out`.
pub fn push_bytes(out: &mut Vec<u8>, src: &Vec<u8>)
    ensures
        final(out)@ == old(out)@ + src@,
{
    let n = src.len();
    let mut i: usize = 0;
    while i < n
        invariant
            n == src@.len(),
            i <= n,
            out@ == old(out)@ + src@.subrange(0, i as int),
        decreases n - i,
    {
        out.push(src[i]);
        proof {
            assert(old(out)@ + src@.subrange(0, i + 1) =~= (old(out)@ + src@.subrange(0, i as int)).push(
                src@[i as int]));
        }
        i += 1;
    }
    proof {
        assert(src@.subrange(0, n as int) =~= src@);
    }
}

} // verus!
