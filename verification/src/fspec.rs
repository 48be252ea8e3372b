//! The FSPEC presence map: a variable-length sequence of octets in which
//! bits 7..1 flag the presence of Data Items and bit 0 (FX) signals that
//! another octet follows.
use vstd::prelude::*;

verus! {

/// Mask of the FX (field extension) bit inside an FSPEC octet.
pub const FSPEC_IDENT: u8 = 0x01;

/// The presence map with its trailing all-zero octets removed.
pub open spec fn trim_zeros(s: Seq<u8>) -> Seq<u8>
    decreases s.len(),
{
    if s.len() > 0 && s[s.len() - 1] == 0 {
        trim_zeros(s.drop_last())
    } else {
        s
    }
}

/// The presence map with the FX bit set on every octet but the last.
pub open spec fn with_fx(s: Seq<u8>) -> Seq<u8> {
    Seq::new(s.len(), |i: int| if i < s.len() - 1 { s[i] | FSPEC_IDENT } else { s[i] })
}

/// A draft presence map (item bits only, FX bits clear) in its final wire
/// form: trailing zero octets removed, then FX set on all but the last octet.
pub open spec fn finalized_fspec(s: Seq<u8>) -> Seq<u8> {
    with_fx(trim_zeros(s))
}

/// Octet index of FRN `k` (1-based): seven item slots per octet.
pub open spec fn frn_octet(k: int) -> int {
    (k - 1) / 7
}

/// Bit mask of FRN `k` within its octet: bit 7 for the first slot of the
/// octet down to bit 1 for the seventh; bit 0 is always the FX bit.
pub open spec fn frn_mask(k: int) -> u8 {
    let r = (k - 1) % 7;
    if r == 0 {
        0x80
    } else if r == 1 {
        0x40
    } else if r == 2 {
        0x20
    } else if r == 3 {
        0x10
    } else if r == 4 {
        0x08
    } else if r == 5 {
        0x04
    } else {
        0x02
    }
}

/// Whether the presence map asserts FRN `k`: octets beyond the map's end
/// count as absent.
pub open spec fn fspec_bit(s: Seq<u8>, k: int) -> bool {
    frn_octet(k) < s.len() && frn_mask(k) & s[frn_octet(k)] == frn_mask(k)
}

/// A presence map in its minimal wire form: no trailing all-zero octet,
/// FX set on every octet but the last, FX clear on the last.
pub open spec fn fspec_minimal(s: Seq<u8>) -> bool {
    &&& (s.len() > 0 ==> s.last() != 0)
    &&& (forall|i: int| 0 <= i < s.len() - 1 ==> #[trigger] s[i] & 1 == 1)
    &&& (s.len() > 0 ==> s.last() & 1 == 0)
}

/// Trimming removes exactly the trailing zero octets and keeps the prefix.
pub proof fn lemma_trim_zeros(s: Seq<u8>)
    ensures
        trim_zeros(s).len() <= s.len(),
        forall|i: int| 0 <= i < trim_zeros(s).len() ==> #[trigger] trim_zeros(s)[i] == s[i],
        forall|i: int| trim_zeros(s).len() <= i < s.len() ==> #[trigger] s[i] == 0,
        trim_zeros(s).len() > 0 ==> trim_zeros(s).last() != 0,
    decreases s.len(),
{
    if s.len() > 0 && s[s.len() - 1] == 0 {
        lemma_trim_zeros(s.drop_last());
        assert forall|i: int| trim_zeros(s).len() <= i < s.len() implies #[trigger] s[i] == 0 by {
            if i < s.len() - 1 {
                assert(s.drop_last()[i] == 0);
            }
        }
    }
}

/// Setting the FX bit leaves every item mask unchanged, and no item mask
/// matches a zero octet.
proof fn lemma_mask_or_fx(x: u8)
    by (bit_vector)
    ensures
        0x80u8 & (x | 1) == 0x80u8 & x,
        0x40u8 & (x | 1) == 0x40u8 & x,
        0x20u8 & (x | 1) == 0x20u8 & x,
        0x10u8 & (x | 1) == 0x10u8 & x,
        0x08u8 & (x | 1) == 0x08u8 & x,
        0x04u8 & (x | 1) == 0x04u8 & x,
        0x02u8 & (x | 1) == 0x02u8 & x,
        (x | 1) & 1 == 1,
        0x80u8 & 0 != 0x80u8,
        0x40u8 & 0 != 0x40u8,
        0x20u8 & 0 != 0x20u8,
        0x10u8 & 0 != 0x10u8,
        0x08u8 & 0 != 0x08u8,
        0x04u8 & 0 != 0x04u8,
        0x02u8 & 0 != 0x02u8,
{
}

/// In a draft octet assembled from one mask per present item, each item
/// mask matches exactly when its item is present, the FX bit is clear, and
/// the octet is zero exactly when no item is present.
pub proof fn lemma_octet_bits(v1: u8, v2: u8, v3: u8, v4: u8, v5: u8, v6: u8, v7: u8)
    by (bit_vector)
    requires
        v1 == 0 || v1 == 0x80,
        v2 == 0 || v2 == 0x40,
        v3 == 0 || v3 == 0x20,
        v4 == 0 || v4 == 0x10,
        v5 == 0 || v5 == 0x08,
        v6 == 0 || v6 == 0x04,
        v7 == 0 || v7 == 0x02,
    ensures
        (0x80u8 & (v1 | v2 | v3 | v4 | v5 | v6 | v7) == 0x80u8) <==> v1 == 0x80,
        (0x40u8 & (v1 | v2 | v3 | v4 | v5 | v6 | v7) == 0x40u8) <==> v2 == 0x40,
        (0x20u8 & (v1 | v2 | v3 | v4 | v5 | v6 | v7) == 0x20u8) <==> v3 == 0x20,
        (0x10u8 & (v1 | v2 | v3 | v4 | v5 | v6 | v7) == 0x10u8) <==> v4 == 0x10,
        (0x08u8 & (v1 | v2 | v3 | v4 | v5 | v6 | v7) == 0x08u8) <==> v5 == 0x08,
        (0x04u8 & (v1 | v2 | v3 | v4 | v5 | v6 | v7) == 0x04u8) <==> v6 == 0x04,
        (0x02u8 & (v1 | v2 | v3 | v4 | v5 | v6 | v7) == 0x02u8) <==> v7 == 0x02,
        (v1 | v2 | v3 | v4 | v5 | v6 | v7) & 1 == 0,
        ((v1 | v2 | v3 | v4 | v5 | v6 | v7) == 0) <==> (v1 == 0 && v2 == 0 && v3 == 0 && v4 == 0
            && v5 == 0 && v6 == 0 && v7 == 0),
{
}

/// A draft octet assembled from one mask per present item equals the item
/// bits of any octet whose mask tests agree with the items' presence.
pub proof fn lemma_octet_reconstruct(
    v1: u8,
    v2: u8,
    v3: u8,
    v4: u8,
    v5: u8,
    v6: u8,
    v7: u8,
    x: u8,
)
    by (bit_vector)
    requires
        v1 == 0 || v1 == 0x80,
        v2 == 0 || v2 == 0x40,
        v3 == 0 || v3 == 0x20,
        v4 == 0 || v4 == 0x10,
        v5 == 0 || v5 == 0x08,
        v6 == 0 || v6 == 0x04,
        v7 == 0 || v7 == 0x02,
        (0x80u8 & x == 0x80u8) <==> v1 == 0x80,
        (0x40u8 & x == 0x40u8) <==> v2 == 0x40,
        (0x20u8 & x == 0x20u8) <==> v3 == 0x20,
        (0x10u8 & x == 0x10u8) <==> v4 == 0x10,
        (0x08u8 & x == 0x08u8) <==> v5 == 0x08,
        (0x04u8 & x == 0x04u8) <==> v6 == 0x04,
        (0x02u8 & x == 0x02u8) <==> v7 == 0x02,
    ensures
        (v1 | v2 | v3 | v4 | v5 | v6 | v7) == x & 0xfe,
{
}

/// Facts tying an octet's item bits to its FX bit: setting FX back after
/// stripping restores the octet, an octet without item bits or FX is zero,
/// and cleared unused bits fail their mask tests.
pub proof fn lemma_fx_strip(x: u8)
    by (bit_vector)
    ensures
        x & 1 == 1 ==> ((x & 0xfe) | 1) == x,
        x & 1 == 0 ==> (x & 0xfe) == x,
        (x & 0xfe == 0 && x & 1 == 0) ==> x == 0,
        x & 0xfe == 0 ==> (0x04u8 & x != 0x04u8) && (0x02u8 & x != 0x02u8),
        x & 0x06 == 0 ==> (0x04u8 & x != 0x04u8) && (0x02u8 & x != 0x02u8),
{
}

/// Putting a draft presence map (item bits only, FX bits clear) into its
/// final form yields a minimal map that asserts exactly the same FRNs.
pub proof fn lemma_finalized_bits(s: Seq<u8>)
    requires
        forall|i: int| 0 <= i < s.len() ==> #[trigger] s[i] & 1 == 0,
    ensures
        fspec_minimal(finalized_fspec(s)),
        forall|k: int| 1 <= k ==> (fspec_bit(#[trigger] finalized_fspec(s), k) <==> fspec_bit(s, k)),
        finalized_fspec(s).len() <= s.len(),
{
    let t = trim_zeros(s);
    lemma_trim_zeros(s);
    let f = with_fx(t);
    if t.len() > 0 {
        assert(f.last() == t.last());
    }
    assert forall|i: int| 0 <= i < f.len() - 1 implies #[trigger] f[i] & 1 == 1 by {
        assert(f[i] == (t[i] | 1));
        lemma_mask_or_fx(t[i]);
    }
    assert forall|k: int| 1 <= k implies (fspec_bit(f, k) <==> fspec_bit(s, k)) by {
        let j = frn_octet(k);
        let m = frn_mask(k);
        if j < t.len() {
            assert(t[j] == s[j]);
            if j < t.len() - 1 {
                assert(f[j] == (t[j] | 1));
                lemma_mask_or_fx(t[j]);
            } else {
                assert(f[j] == t[j]);
            }
        } else if j < s.len() {
            assert(s[j] == 0);
            lemma_mask_or_fx(0);
        }
    }
}
/// `pos` is to be skipped: true when the octet is missing or the mask bits
/// are not all set.
pub fn is_fspec(dataitem_fspec: u8, fspec: &[u8], pos: usize) -> (r: bool)
    ensures
        r == !(pos < fspec@.len() && dataitem_fspec & fspec@[pos as int] == dataitem_fspec),
{
    if pos < fspec.len() {
        dataitem_fspec & fspec[pos] != dataitem_fspec
    } else {
        true
    }
}

/// Index of the first octet at or after `pos` whose FX bit is clear, or
/// `end` when no octet before `end` terminates the chain.
pub open spec fn chain_end(b: Seq<u8>, pos: int, end: int) -> int
    decreases end - pos,
{
    if pos >= end {
        end
    } else if b[pos] & 1 == 0 {
        pos
    } else {
        chain_end(b, pos + 1, end)
    }
}

/// Whether a presence-map chain starting at `pos` terminates before `end`.
pub open spec fn chain_ok(b: Seq<u8>, pos: int, end: int) -> bool {
    chain_end(b, pos, end) < end
}

/// Whether the presence map holds octet `oct` with all bits of `mask` set:
/// the raw form of a presence test, octet and mask given directly.
pub open spec fn bit_set(f: Seq<u8>, oct: int, mask: u8) -> bool {
    0 <= oct < f.len() && mask & f[oct] == mask
}

/// Reads a presence-map chain: octets up to and including the first whose
/// FX bit is clear. Succeeds exactly when such an octet lies before `end`.
pub fn read_fspec_chain(b: &[u8], pos: usize, end: usize) -> (r: Result<
    (Vec<u8>, usize),
    crate::AsterixError,
>)
    requires
        pos <= end <= b@.len(),
    ensures
        r is Ok <==> chain_ok(b@, pos as int, end as int),
        r matches Ok((f, next)) ==> {
            &&& pos < next <= end
            &&& next == chain_end(b@, pos as int, end as int) + 1
            &&& f@ == b@.subrange(pos as int, next as int)
            &&& f@.len() >= 1
            &&& (forall|i: int| 0 <= i < f@.len() - 1 ==> #[trigger] f@[i] & 1 == 1)
            &&& f@.last() & 1 == 0
        },
        r matches Err(e) ==> e == crate::AsterixError::Underflow,
{
    let mut f: Vec<u8> = Vec::new();
    let mut cur = pos;
    let mut done = false;
    while !done
        invariant
            pos <= cur <= end <= b@.len(),
            f@.len() == cur - pos,
            f@ == b@.subrange(pos as int, cur as int),
            done ==> f@.len() >= 1 && f@.last() & 1 == 0,
            done ==> chain_end(b@, pos as int, end as int) == cur - 1,
            !done ==> chain_end(b@, pos as int, end as int) == chain_end(
                b@,
                cur as int,
                end as int,
            ),
            forall|i: int|
                0 <= i < f@.len() - (if done {
                    1int
                } else {
                    0int
                }) ==> #[trigger] f@[i] & 1 == 1,
        decreases end - cur + (if done {
            0int
        } else {
            1int
        }),
    {
        if cur >= end {
            proof {
                assert(chain_end(b@, cur as int, end as int) == end as int);
            }
            return Err(crate::AsterixError::Underflow);
        }
        let b0 = b[cur];
        proof {
            assert(b0 & 1 <= 1) by (bit_vector);
            if b0 & 1 == 0 {
                assert(chain_end(b@, cur as int, end as int) == cur as int);
            } else {
                assert(chain_end(b@, cur as int, end as int) == chain_end(
                    b@,
                    cur + 1,
                    end as int,
                ));
            }
        }
        if b0 & 1 == 0 {
            done = true;
        }
        let ghost oldf = f@;
        f.push(b0);
        cur = cur + 1;
        proof {
            assert(f@ =~= b@.subrange(pos as int, cur as int));
            assert forall|i: int|
                0 <= i < f@.len() - (if done {
                    1int
                } else {
                    0int
                }) implies #[trigger] f@[i] & 1 == 1 by {
                if i < oldf.len() {
                    assert(f@[i] == oldf[i]);
                } else {
                    assert(f@[i] == b0);
                }
            }
        }
    }
    Ok((f, cur))
}

/// Removes trailing all-zero octets from a draft presence map.
pub fn trim_fspec(fspec: &mut Vec<u8>)
    ensures
        final(fspec)@ == trim_zeros(old(fspec)@),
{
    while fspec.len() > 0 && fspec[fspec.len() - 1] == 0
        invariant
            trim_zeros(fspec@) == trim_zeros(old(fspec)@),
        decreases fspec.len(),
    {
        fspec.pop();
    }
}

/// Sets the FX continuation bit on every octet except the last.
pub fn add_fx(fspec: &mut Vec<u8>)
    requires
        old(fspec).len() >= 1,
    ensures
        final(fspec)@ == with_fx(old(fspec)@),
{
    let ghost orig = fspec@;
    let n = fspec.len();
    let mut i: usize = 0;
    while i < n - 1
        invariant
            n == fspec.len() == orig.len(),
            1 <= n,
            i <= n - 1,
            forall|j: int| 0 <= j < i ==> fspec@[j] == (orig[j] | FSPEC_IDENT),
            forall|j: int| i <= j < n ==> fspec@[j] == orig[j],
        decreases n - i,
    {
        let v = fspec[i] | FSPEC_IDENT;
        fspec.set(i, v);
        i += 1;
    }
    assert(fspec@ =~= with_fx(orig));
}

} // verus!
