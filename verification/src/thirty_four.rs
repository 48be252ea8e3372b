//! Transmission of monoradar service messages (category 034).
use vstd::prelude::*;

use crate::data_item::{
    AntennaRotationSpeed, CollimationError, DataFilter, DataSourceIdentifier,
    GenericPolarWindow, MessageCountValues, MessageType, SectorNumber,
    SystemConfigurationAndStatus, SystemProcessingMode, ThreeDPositionOfDataSource, TimeOfDay,
};
use crate::fspec::{
    add_fx, bit_set, chain_end, chain_ok, finalized_fspec, fspec_bit, fspec_minimal,
    is_fspec, lemma_finalized_bits, lemma_fx_strip, lemma_octet_bits,
    lemma_octet_reconstruct, lemma_trim_zeros, read_fspec_chain, trim_fspec, trim_zeros,
    with_fx,
};
use crate::wire::{
    lemma_seq_add_assoc, lemma_seq_add_empty, lemma_subrange_join, opt_enc, opt_wf, pbit,
};
use crate::AsterixError;

verus! {

/// Transmission of monoradar service messages (category 034).
#[derive(Debug, Clone, PartialEq)]
pub struct Cat34 {
    /// FSPEC presence map, as read from the wire or as rebuilt by
    /// `update_fspec`.
    pub fspec: Vec<u8>,
    /// FRN 1
    pub data_source_identifier: Option<DataSourceIdentifier>,
    /// FRN 2
    pub message_type: Option<MessageType>,
    /// FRN 3
    pub time_of_day: Option<TimeOfDay>,
    /// FRN 4
    pub sector_number: Option<SectorNumber>,
    /// FRN 5
    pub antenna_rotation_speed: Option<AntennaRotationSpeed>,
    /// FRN 6
    pub system_configuration_and_status: Option<SystemConfigurationAndStatus>,
    /// FRN 7
    pub system_processing_mode: Option<SystemProcessingMode>,
    /// FRN 8
    pub message_count_values: Option<MessageCountValues>,
    /// FRN 9
    pub generic_polar_window: Option<GenericPolarWindow>,
    /// FRN 10
    pub data_filter: Option<DataFilter>,
    /// FRN 11
    pub three_d_position_of_data_source: Option<ThreeDPositionOfDataSource>,
    /// FRN 12
    pub collimation_error: Option<CollimationError>,
}

/// In the draft presence map derived from item presence, every FX bit
/// is clear and each FRN bit is set exactly when its item is present.
#[verifier::rlimit(100)]
#[verifier::spinoff_prover]
proof fn lemma_raw_bits(c: Cat34)
    ensures
        forall|i: int| 0 <= i < c.raw_fspec().len() ==> #[trigger] c.raw_fspec()[i] & 1 == 0,
        forall|k: int| 1 <= k <= 12 ==> (fspec_bit(c.raw_fspec(), k) <==> c.item_present(k)),
{
    lemma_octet_bits(
        pbit(c.data_source_identifier, 0x80),
        pbit(c.message_type, 0x40),
        pbit(c.time_of_day, 0x20),
        pbit(c.sector_number, 0x10),
        pbit(c.antenna_rotation_speed, 0x08),
        pbit(c.system_configuration_and_status, 0x04),
        pbit(c.system_processing_mode, 0x02),
    );
    lemma_octet_bits(
        pbit(c.message_count_values, 0x80),
        pbit(c.generic_polar_window, 0x40),
        pbit(c.data_filter, 0x20),
        pbit(c.three_d_position_of_data_source, 0x10),
        pbit(c.collimation_error, 0x08),
        0,
        0,
    );
    assert forall|i: int|
        0 <= i < c.raw_fspec().len() implies #[trigger] c.raw_fspec()[i] & 1 == 0 by {
        assert(c.raw_fspec().len() == 2);
    }
    assert forall|k: int|
        1 <= k <= 12 implies (fspec_bit(c.raw_fspec(), k) <==> c.item_present(k)) by {
        let j = crate::fspec::frn_octet(k);
        if k <= 7 {
            assert(j == 0);
        } else if k <= 14 {
            assert(j == 1);
        }
    }
}

/// The presence map derived from item presence is minimal and asserts
/// an FRN exactly when its Data Item is present.
#[verifier::rlimit(100)]
#[verifier::spinoff_prover]
proof fn lemma_derived_props(c: Cat34)
    ensures
        fspec_minimal(finalized_fspec(c.raw_fspec())),
        forall|k: int|
            1 <= k <= 12 ==> (fspec_bit(finalized_fspec(c.raw_fspec()), k) <==> c.item_present(
            k)),
{
    lemma_raw_bits(c);
    lemma_finalized_bits(c.raw_fspec());
}

/// Octet 0 of a presence map whose bits agree with item presence
/// holds exactly the derived item bits, or lies beyond the map's end
/// and then no item of the octet is present.
#[verifier::rlimit(100)]
#[verifier::spinoff_prover]
proof fn lemma_octet_match_0(c: Cat34)
    requires
        c.presence_matches(),
        c.fspec_wire_shape(),
    ensures
        0 < c.fspec@.len() ==> c.raw_fspec()[0] == (c.fspec@[0] & 0xfe),
        c.fspec@.len() <= 0 ==> c.raw_fspec()[0] == 0,
{
    let f = c.fspec@;
    if 0 < f.len() {
        assert(fspec_bit(f, 1) <==> c.item_present(1));
        assert(c.item_present(1) <==> c.data_source_identifier is Some);
        assert(fspec_bit(f, 2) <==> c.item_present(2));
        assert(c.item_present(2) <==> c.message_type is Some);
        assert(fspec_bit(f, 3) <==> c.item_present(3));
        assert(c.item_present(3) <==> c.time_of_day is Some);
        assert(fspec_bit(f, 4) <==> c.item_present(4));
        assert(c.item_present(4) <==> c.sector_number is Some);
        assert(fspec_bit(f, 5) <==> c.item_present(5));
        assert(c.item_present(5) <==> c.antenna_rotation_speed is Some);
        assert(fspec_bit(f, 6) <==> c.item_present(6));
        assert(c.item_present(6) <==> c.system_configuration_and_status is Some);
        assert(fspec_bit(f, 7) <==> c.item_present(7));
        assert(c.item_present(7) <==> c.system_processing_mode is Some);
        lemma_octet_reconstruct(
            pbit(c.data_source_identifier, 0x80),
            pbit(c.message_type, 0x40),
            pbit(c.time_of_day, 0x20),
            pbit(c.sector_number, 0x10),
            pbit(c.antenna_rotation_speed, 0x08),
            pbit(c.system_configuration_and_status, 0x04),
            pbit(c.system_processing_mode, 0x02),
            f[0],
        );
        assert(c.raw_fspec()[0] == (f[0] & 0xfe));
    } else {
        assert(fspec_bit(f, 1) <==> c.item_present(1));
        assert(!fspec_bit(f, 1));
        assert(fspec_bit(f, 2) <==> c.item_present(2));
        assert(!fspec_bit(f, 2));
        assert(fspec_bit(f, 3) <==> c.item_present(3));
        assert(!fspec_bit(f, 3));
        assert(fspec_bit(f, 4) <==> c.item_present(4));
        assert(!fspec_bit(f, 4));
        assert(fspec_bit(f, 5) <==> c.item_present(5));
        assert(!fspec_bit(f, 5));
        assert(fspec_bit(f, 6) <==> c.item_present(6));
        assert(!fspec_bit(f, 6));
        assert(fspec_bit(f, 7) <==> c.item_present(7));
        assert(!fspec_bit(f, 7));
        lemma_octet_bits(
            pbit(c.data_source_identifier, 0x80),
            pbit(c.message_type, 0x40),
            pbit(c.time_of_day, 0x20),
            pbit(c.sector_number, 0x10),
            pbit(c.antenna_rotation_speed, 0x08),
            pbit(c.system_configuration_and_status, 0x04),
            pbit(c.system_processing_mode, 0x02),
        );
        assert(c.raw_fspec()[0] == 0);
    }
}

/// Octet 1 of a presence map whose bits agree with item presence
/// holds exactly the derived item bits, or lies beyond the map's end
/// and then no item of the octet is present.
#[verifier::rlimit(100)]
#[verifier::spinoff_prover]
proof fn lemma_octet_match_1(c: Cat34)
    requires
        c.presence_matches(),
        c.fspec_wire_shape(),
    ensures
        1 < c.fspec@.len() ==> c.raw_fspec()[1] == (c.fspec@[1] & 0xfe),
        c.fspec@.len() <= 1 ==> c.raw_fspec()[1] == 0,
{
    let f = c.fspec@;
    if 1 < f.len() {
        assert(fspec_bit(f, 8) <==> c.item_present(8));
        assert(c.item_present(8) <==> c.message_count_values is Some);
        assert(fspec_bit(f, 9) <==> c.item_present(9));
        assert(c.item_present(9) <==> c.generic_polar_window is Some);
        assert(fspec_bit(f, 10) <==> c.item_present(10));
        assert(c.item_present(10) <==> c.data_filter is Some);
        assert(fspec_bit(f, 11) <==> c.item_present(11));
        assert(c.item_present(11) <==> c.three_d_position_of_data_source is Some);
        assert(fspec_bit(f, 12) <==> c.item_present(12));
        assert(c.item_present(12) <==> c.collimation_error is Some);
        lemma_fx_strip(f[1]);
        lemma_octet_reconstruct(
            pbit(c.message_count_values, 0x80),
            pbit(c.generic_polar_window, 0x40),
            pbit(c.data_filter, 0x20),
            pbit(c.three_d_position_of_data_source, 0x10),
            pbit(c.collimation_error, 0x08),
            0,
            0,
            f[1],
        );
        assert(c.raw_fspec()[1] == (f[1] & 0xfe));
    } else {
        assert(fspec_bit(f, 8) <==> c.item_present(8));
        assert(!fspec_bit(f, 8));
        assert(fspec_bit(f, 9) <==> c.item_present(9));
        assert(!fspec_bit(f, 9));
        assert(fspec_bit(f, 10) <==> c.item_present(10));
        assert(!fspec_bit(f, 10));
        assert(fspec_bit(f, 11) <==> c.item_present(11));
        assert(!fspec_bit(f, 11));
        assert(fspec_bit(f, 12) <==> c.item_present(12));
        assert(!fspec_bit(f, 12));
        lemma_octet_bits(
            pbit(c.message_count_values, 0x80),
            pbit(c.generic_polar_window, 0x40),
            pbit(c.data_filter, 0x20),
            pbit(c.three_d_position_of_data_source, 0x10),
            pbit(c.collimation_error, 0x08),
            0,
            0,
        );
        assert(c.raw_fspec()[1] == 0);
    }
}

/// A stored presence map in minimal wire form whose bits agree with item
/// presence is exactly the derived one: such a record is already
/// finalized, so re-deriving its presence map cannot change it.
#[verifier::rlimit(100)]
#[verifier::spinoff_prover]
pub proof fn lemma_minimal_fspec_finalized(c: Cat34)
    requires
        c.presence_matches(),
        c.fspec_wire_shape(),
        fspec_minimal(c.fspec@),
    ensures
        c.finalized(),
{
    let f = c.fspec@;
    let raw = c.raw_fspec();
    let n = f.len() as int;
    lemma_fx_strip(f[n - 1]);
    if n > 2 {
        assert(f[n - 1] & 0xfe == 0);
        assert(false);
    }
    lemma_octet_match_0(c);
    lemma_octet_match_1(c);
    lemma_trim_zeros(raw);
    let t = trim_zeros(raw);
    assert(raw[n - 1] == f[n - 1]);
    assert(raw[n - 1] != 0);
    if t.len() > n {
        assert(raw[t.len() - 1] == 0);
        assert(t.last() == raw[t.len() - 1]);
        assert(false);
    }
    if t.len() < n {
        assert(raw[n - 1] == 0);
        assert(false);
    }
    assert forall|i: int| 0 <= i < n implies with_fx(t)[i] == f[i] by {
        lemma_fx_strip(f[i]);
        assert(t[i] == raw[i]);
    }
    assert(f =~= with_fx(t));
}

impl Cat34 {
    /// Every present Data Item is well formed.
    pub open spec fn wf(self) -> bool {
        &&& opt_wf(self.data_source_identifier)
        &&& opt_wf(self.message_type)
        &&& opt_wf(self.time_of_day)
        &&& opt_wf(self.sector_number)
        &&& opt_wf(self.antenna_rotation_speed)
        &&& opt_wf(self.system_configuration_and_status)
        &&& opt_wf(self.system_processing_mode)
        &&& opt_wf(self.message_count_values)
        &&& opt_wf(self.generic_polar_window)
        &&& opt_wf(self.data_filter)
        &&& opt_wf(self.three_d_position_of_data_source)
        &&& opt_wf(self.collimation_error)
    }

    /// The octets of this record on the wire: the stored presence map
    /// followed by the present Data Items in FRN order, grouped here
    /// by presence-map octet.
    pub open spec fn enc(self) -> Seq<u8> {
        self.fspec@ + (opt_enc(self.data_source_identifier) + opt_enc(self.message_type) + opt_enc(self.time_of_day) + opt_enc(self.sector_number) + opt_enc(self.antenna_rotation_speed) + opt_enc(self.system_configuration_and_status) + opt_enc(self.system_processing_mode)) + (opt_enc(self.message_count_values) + opt_enc(self.generic_polar_window) + opt_enc(self.data_filter) + opt_enc(self.three_d_position_of_data_source) + opt_enc(self.collimation_error))
    }

    /// Draft presence map derived from item presence: one bit per
    /// present item, FX bits clear, untrimmed.
    pub open spec fn raw_fspec(self) -> Seq<u8> {
        seq![
            pbit(self.data_source_identifier, 0x80) | pbit(self.message_type, 0x40) | pbit(self.time_of_day, 0x20) | pbit(self.sector_number, 0x10) | pbit(self.antenna_rotation_speed, 0x08) | pbit(self.system_configuration_and_status, 0x04) | pbit(self.system_processing_mode, 0x02),
            pbit(self.message_count_values, 0x80) | pbit(self.generic_polar_window, 0x40) | pbit(self.data_filter, 0x20) | pbit(self.three_d_position_of_data_source, 0x10) | pbit(self.collimation_error, 0x08) | 0 | 0,
        ]
    }

    /// The minimal wire presence map for this record's items.
    pub open spec fn derived_fspec(self) -> Seq<u8> {
        finalized_fspec(self.raw_fspec())
    }

    /// The stored presence map is exactly the one `update_fspec`
    /// derives, so re-finalizing changes nothing.
    pub open spec fn finalized(self) -> bool {
        self.fspec@ == self.derived_fspec()
    }

    /// Whether the Data Item at FRN `k` is present.
    pub open spec fn item_present(self, k: int) -> bool {
        if k == 1 {
            self.data_source_identifier is Some
        } else if k == 2 {
            self.message_type is Some
        } else if k == 3 {
            self.time_of_day is Some
        } else if k == 4 {
            self.sector_number is Some
        } else if k == 5 {
            self.antenna_rotation_speed is Some
        } else if k == 6 {
            self.system_configuration_and_status is Some
        } else if k == 7 {
            self.system_processing_mode is Some
        } else if k == 8 {
            self.message_count_values is Some
        } else if k == 9 {
            self.generic_polar_window is Some
        } else if k == 10 {
            self.data_filter is Some
        } else if k == 11 {
            self.three_d_position_of_data_source is Some
        } else if k == 12 {
            self.collimation_error is Some
        } else {
            false
        }
    }

    /// Each Data Item is present exactly when the stored presence map
    /// asserts its FRN.
    pub open spec fn presence_matches(self) -> bool {
        forall|k: int|
            1 <= k <= 12 ==> (fspec_bit(self.fspec@, k) <==> self.item_present(k))
    }

    /// Bits the catalog leaves unassigned are clear: nothing beyond the
    /// last defined FRN is asserted.
    pub open spec fn frn_range_ok(f: Seq<u8>) -> bool {
        &&& (f.len() >= 2 ==> f[1] & 0x06u8 == 0)
        &&& (forall|j: int| 2 <= j < f.len() ==> #[trigger] f[j] & 0xfe == 0)
    }

    /// The shape every decoded presence map has: at least one octet, FX
    /// set on every octet but the last, FX clear on the last, and no bit
    /// beyond the catalog's FRN range.
    pub open spec fn fspec_wire_shape(self) -> bool {
        &&& self.fspec@.len() >= 1
        &&& (forall|i: int|
            0 <= i < self.fspec@.len() - 1 ==> #[trigger] self.fspec@[i] & 1 == 1)
        &&& self.fspec@.last() & 1 == 0
        &&& Self::frn_range_ok(self.fspec@)
    }

    /// Bytes consumed by the items of FRN 7 through 7 when decoded
    /// at `p` against presence map `f`, or negative when one of them
    /// cannot be decoded.
    pub open spec fn len_from_frn_7(b: Seq<u8>, p: int, end: int, f: Seq<u8>) -> int {
        if bit_set(f, 0, 0x02) {
            SystemProcessingMode::spec_len(b, p, end)
        } else {
            0
        }
    }

    /// Bytes consumed by the items of FRN 6 through 7 when decoded
    /// at `p` against presence map `f`, or negative when one of them
    /// cannot be decoded.
    pub open spec fn len_from_frn_6(b: Seq<u8>, p: int, end: int, f: Seq<u8>) -> int {
        let l = if bit_set(f, 0, 0x04) {
            SystemConfigurationAndStatus::spec_len(b, p, end)
        } else {
            0
        };
        if l < 0 {
            -1
        } else {
            let rest = Self::len_from_frn_7(b, p + l, end, f);
            if rest < 0 {
                -1
            } else {
                l + rest
            }
        }
    }

    /// Bytes consumed by the items of FRN 5 through 7 when decoded
    /// at `p` against presence map `f`, or negative when one of them
    /// cannot be decoded.
    pub open spec fn len_from_frn_5(b: Seq<u8>, p: int, end: int, f: Seq<u8>) -> int {
        let l = if bit_set(f, 0, 0x08) {
            AntennaRotationSpeed::spec_len(b, p, end)
        } else {
            0
        };
        if l < 0 {
            -1
        } else {
            let rest = Self::len_from_frn_6(b, p + l, end, f);
            if rest < 0 {
                -1
            } else {
                l + rest
            }
        }
    }

    /// Bytes consumed by the items of FRN 4 through 7 when decoded
    /// at `p` against presence map `f`, or negative when one of them
    /// cannot be decoded.
    pub open spec fn len_from_frn_4(b: Seq<u8>, p: int, end: int, f: Seq<u8>) -> int {
        let l = if bit_set(f, 0, 0x10) {
            SectorNumber::spec_len(b, p, end)
        } else {
            0
        };
        if l < 0 {
            -1
        } else {
            let rest = Self::len_from_frn_5(b, p + l, end, f);
            if rest < 0 {
                -1
            } else {
                l + rest
            }
        }
    }

    /// Bytes consumed by the items of FRN 3 through 7 when decoded
    /// at `p` against presence map `f`, or negative when one of them
    /// cannot be decoded.
    pub open spec fn len_from_frn_3(b: Seq<u8>, p: int, end: int, f: Seq<u8>) -> int {
        let l = if bit_set(f, 0, 0x20) {
            TimeOfDay::spec_len(b, p, end)
        } else {
            0
        };
        if l < 0 {
            -1
        } else {
            let rest = Self::len_from_frn_4(b, p + l, end, f);
            if rest < 0 {
                -1
            } else {
                l + rest
            }
        }
    }

    /// Bytes consumed by the items of FRN 2 through 7 when decoded
    /// at `p` against presence map `f`, or negative when one of them
    /// cannot be decoded.
    pub open spec fn len_from_frn_2(b: Seq<u8>, p: int, end: int, f: Seq<u8>) -> int {
        let l = if bit_set(f, 0, 0x40) {
            MessageType::spec_len(b, p, end)
        } else {
            0
        };
        if l < 0 {
            -1
        } else {
            let rest = Self::len_from_frn_3(b, p + l, end, f);
            if rest < 0 {
                -1
            } else {
                l + rest
            }
        }
    }

    /// Bytes consumed by the items of FRN 1 through 7 when decoded
    /// at `p` against presence map `f`, or negative when one of them
    /// cannot be decoded.
    pub open spec fn len_from_frn_1(b: Seq<u8>, p: int, end: int, f: Seq<u8>) -> int {
        let l = if bit_set(f, 0, 0x80) {
            DataSourceIdentifier::spec_len(b, p, end)
        } else {
            0
        };
        if l < 0 {
            -1
        } else {
            let rest = Self::len_from_frn_2(b, p + l, end, f);
            if rest < 0 {
                -1
            } else {
                l + rest
            }
        }
    }

    /// Bytes consumed by the items of FRN 12 through 12 when decoded
    /// at `p` against presence map `f`, or negative when one of them
    /// cannot be decoded.
    pub open spec fn len_from_frn_12(b: Seq<u8>, p: int, end: int, f: Seq<u8>) -> int {
        if bit_set(f, 1, 0x08) {
            CollimationError::spec_len(b, p, end)
        } else {
            0
        }
    }

    /// Bytes consumed by the items of FRN 11 through 12 when decoded
    /// at `p` against presence map `f`, or negative when one of them
    /// cannot be decoded.
    pub open spec fn len_from_frn_11(b: Seq<u8>, p: int, end: int, f: Seq<u8>) -> int {
        let l = if bit_set(f, 1, 0x10) {
            ThreeDPositionOfDataSource::spec_len(b, p, end)
        } else {
            0
        };
        if l < 0 {
            -1
        } else {
            let rest = Self::len_from_frn_12(b, p + l, end, f);
            if rest < 0 {
                -1
            } else {
                l + rest
            }
        }
    }

    /// Bytes consumed by the items of FRN 10 through 12 when decoded
    /// at `p` against presence map `f`, or negative when one of them
    /// cannot be decoded.
    pub open spec fn len_from_frn_10(b: Seq<u8>, p: int, end: int, f: Seq<u8>) -> int {
        let l = if bit_set(f, 1, 0x20) {
            DataFilter::spec_len(b, p, end)
        } else {
            0
        };
        if l < 0 {
            -1
        } else {
            let rest = Self::len_from_frn_11(b, p + l, end, f);
            if rest < 0 {
                -1
            } else {
                l + rest
            }
        }
    }

    /// Bytes consumed by the items of FRN 9 through 12 when decoded
    /// at `p` against presence map `f`, or negative when one of them
    /// cannot be decoded.
    pub open spec fn len_from_frn_9(b: Seq<u8>, p: int, end: int, f: Seq<u8>) -> int {
        let l = if bit_set(f, 1, 0x40) {
            GenericPolarWindow::spec_len(b, p, end)
        } else {
            0
        };
        if l < 0 {
            -1
        } else {
            let rest = Self::len_from_frn_10(b, p + l, end, f);
            if rest < 0 {
                -1
            } else {
                l + rest
            }
        }
    }

    /// Bytes consumed by the items of FRN 8 through 12 when decoded
    /// at `p` against presence map `f`, or negative when one of them
    /// cannot be decoded.
    pub open spec fn len_from_frn_8(b: Seq<u8>, p: int, end: int, f: Seq<u8>) -> int {
        let l = if bit_set(f, 1, 0x80) {
            MessageCountValues::spec_len(b, p, end)
        } else {
            0
        };
        if l < 0 {
            -1
        } else {
            let rest = Self::len_from_frn_9(b, p + l, end, f);
            if rest < 0 {
                -1
            } else {
                l + rest
            }
        }
    }

    /// Bytes one record occupies when decoded at `pos`, or a negative
    /// length when it cannot be decoded there: the presence-map chain
    /// must terminate, assert no FRN beyond the catalog, and every
    /// asserted item must decode in turn.
    pub open spec fn spec_len(b: Seq<u8>, pos: int, end: int) -> int {
        if !chain_ok(b, pos, end) {
            -1
        } else {
            let fend = chain_end(b, pos, end) + 1;
            let f = b.subrange(pos, fend);
            if !Self::frn_range_ok(f) {
                -1
            } else {
                let l0 = Self::len_from_frn_1(b, fend, end, f);
                if l0 < 0 {
                    -1
                } else {
                    let l1 = Self::len_from_frn_8(b, fend + l0, end, f);
                    if l1 < 0 {
                        -1
                    } else {
                        (fend - pos) + l0 + l1
                    }
                }
            }
        }
    }

    /// The records hold the same Data Items; only the stored presence
    /// map may differ.
    pub open spec fn same_items(self, other: Self) -> bool {
        &&& self.data_source_identifier == other.data_source_identifier
        &&& self.message_type == other.message_type
        &&& self.time_of_day == other.time_of_day
        &&& self.sector_number == other.sector_number
        &&& self.antenna_rotation_speed == other.antenna_rotation_speed
        &&& self.system_configuration_and_status == other.system_configuration_and_status
        &&& self.system_processing_mode == other.system_processing_mode
        &&& self.message_count_values == other.message_count_values
        &&& self.generic_polar_window == other.generic_polar_window
        &&& self.data_filter == other.data_filter
        &&& self.three_d_position_of_data_source == other.three_d_position_of_data_source
        &&& self.collimation_error == other.collimation_error
    }

    /// Rebuilds the presence map from item presence: one bit per
    /// present item, trailing zero octets trimmed, FX set on every
    /// octet but the last. The result asserts an FRN exactly when its
    /// Data Item is present, and is minimal.
    #[verifier::rlimit(100)]
    #[verifier::spinoff_prover]
    pub fn update_fspec(&mut self)
        ensures
            final(self).same_items(*old(self)),
            final(self).fspec@ == old(self).derived_fspec(),
            final(self).finalized(),
            fspec_minimal(final(self).fspec@),
            forall|k: int|
                1 <= k <= 12 ==> (fspec_bit(final(self).fspec@, k) <==> old(
                self).item_present(k)),
    {
        let f = self.derive_fspec_vec();
        self.fspec = f;
        proof {
            assert(self.raw_fspec() == old(self).raw_fspec());
        }
    }

    /// Octet 0 of the draft presence map derived from item presence.
    fn raw_octet_0(&self) -> (o: u8)
        ensures
            o == self.raw_fspec()[0],
    {
        (if self.data_source_identifier.is_some() {
            0x80u8
        } else {
            0u8
        }) | (if self.message_type.is_some() {
            0x40u8
        } else {
            0u8
        }) | (if self.time_of_day.is_some() {
            0x20u8
        } else {
            0u8
        }) | (if self.sector_number.is_some() {
            0x10u8
        } else {
            0u8
        }) | (if self.antenna_rotation_speed.is_some() {
            0x08u8
        } else {
            0u8
        }) | (if self.system_configuration_and_status.is_some() {
            0x04u8
        } else {
            0u8
        }) | (if self.system_processing_mode.is_some() {
            0x02u8
        } else {
            0u8
        })
    }

    /// Octet 1 of the draft presence map derived from item presence.
    fn raw_octet_1(&self) -> (o: u8)
        ensures
            o == self.raw_fspec()[1],
    {
        (if self.message_count_values.is_some() {
            0x80u8
        } else {
            0u8
        }) | (if self.generic_polar_window.is_some() {
            0x40u8
        } else {
            0u8
        }) | (if self.data_filter.is_some() {
            0x20u8
        } else {
            0u8
        }) | (if self.three_d_position_of_data_source.is_some() {
            0x10u8
        } else {
            0u8
        }) | (if self.collimation_error.is_some() {
            0x08u8
        } else {
            0u8
        }) | 0 | 0
    }

    /// Computes the minimal wire presence map for this record's items.
    #[verifier::rlimit(100)]
    #[verifier::spinoff_prover]
    fn derive_fspec_vec(&self) -> (f: Vec<u8>)
        ensures
            f@ == self.derived_fspec(),
            fspec_minimal(f@),
            forall|k: int|
                1 <= k <= 12 ==> (fspec_bit(f@, k) <==> self.item_present(k)),
    {
        let mut f: Vec<u8> = Vec::new();
        f.push(self.raw_octet_0());
        f.push(self.raw_octet_1());
        proof {
            assert(f@ =~= self.raw_fspec());
        }
        trim_fspec(&mut f);
        if f.len() > 0 {
            add_fx(&mut f);
        }
        proof {
            if f@.len() == 0 {
                assert(f@ =~= with_fx(f@));
            }
            assert(f@ == self.derived_fspec());
            lemma_derived_props(*self);
        }
        f
    }

    /// Decodes the Data Items of FRN 1 through 4 into `m`,
    /// linking the bytes consumed to the remaining tail of the octet.
    #[verifier::rlimit(100)]
    #[verifier::spinoff_prover]
    fn decode_frn_1_4(b: &[u8], pos: usize, end: usize, fspec: &Vec<u8>, m: &mut Cat34) -> (r:
        Result<usize, AsterixError>)
        requires
            pos <= end <= b@.len(),
        ensures
            r matches Ok(next) ==> {
                &&& pos <= next <= end
                &&& opt_enc(final(m).data_source_identifier) + opt_enc(final(m).message_type) + opt_enc(final(m).time_of_day) + opt_enc(final(m).sector_number) == b@.subrange(
                    pos as int,
                    next as int,
                )
                &&& opt_wf(final(m).data_source_identifier)
                &&& opt_wf(final(m).message_type)
                &&& opt_wf(final(m).time_of_day)
                &&& opt_wf(final(m).sector_number)
                &&& (final(m).data_source_identifier is Some <==> (0 < fspec@.len() && 0x80
                    & fspec@[0] == 0x80))
                &&& (final(m).message_type is Some <==> (0 < fspec@.len() && 0x40
                    & fspec@[0] == 0x40))
                &&& (final(m).time_of_day is Some <==> (0 < fspec@.len() && 0x20
                    & fspec@[0] == 0x20))
                &&& (final(m).sector_number is Some <==> (0 < fspec@.len() && 0x10
                    & fspec@[0] == 0x10))
                &&& ((Self::len_from_frn_1(b@, pos as int, end as int, fspec@) >= 0)
                    <==> (Self::len_from_frn_5(b@, next as int, end as int, fspec@)
                    >= 0))
                &&& (Self::len_from_frn_5(b@, next as int, end as int, fspec@) >= 0
                    ==> pos + Self::len_from_frn_1(b@, pos as int, end as int, fspec@)
                    == next + Self::len_from_frn_5(b@, next as int, end as int, fspec@))
            },
            final(m).fspec == old(m).fspec,
            final(m).antenna_rotation_speed == old(m).antenna_rotation_speed,
            final(m).system_configuration_and_status == old(m).system_configuration_and_status,
            final(m).system_processing_mode == old(m).system_processing_mode,
            final(m).message_count_values == old(m).message_count_values,
            final(m).generic_polar_window == old(m).generic_polar_window,
            final(m).data_filter == old(m).data_filter,
            final(m).three_d_position_of_data_source == old(m).three_d_position_of_data_source,
            final(m).collimation_error == old(m).collimation_error,
            r matches Err(e) ==> (e == AsterixError::Underflow || e
                == AsterixError::InvalidDiscriminant) && Self::len_from_frn_1(
                b@,
                pos as int,
                end as int,
                fspec@,
            ) < 0,
    {
        let mut cur = pos;
        let ghost mut acc: Seq<u8> = Seq::empty();
        let ghost q1 = cur as int;
        if !is_fspec(DataSourceIdentifier::FRN_34, fspec.as_slice(), 0) {
            match DataSourceIdentifier::decode(b, cur, end) {
                Ok((t, n)) => {
                    proof {
                        lemma_subrange_join(b@, pos as int, cur as int, n as int);
                    }
                    m.data_source_identifier = Some(t);
                    cur = n;
                },
                Err(e) => {
                    proof {
                        assert(Self::len_from_frn_1(
                            b@,
                            cur as int,
                            end as int,
                            fspec@,
                        ) < 0);
                    }
                    return Err(e);
                },
            }
        } else {
            m.data_source_identifier = None;
        }
        proof {
            if m.data_source_identifier is None {
                lemma_seq_add_empty(acc);
            }
            acc = acc + opt_enc(m.data_source_identifier);
            assert(acc =~= opt_enc(m.data_source_identifier));
            assert(acc == b@.subrange(pos as int, cur as int));
            assert((Self::len_from_frn_1(b@, pos as int, end as int, fspec@)
                >= 0) <==> (Self::len_from_frn_2(
                b@,
                cur as int,
                end as int,
                fspec@,
            ) >= 0));
            assert(Self::len_from_frn_2(b@, cur as int, end as int, fspec@) >= 0
                ==> pos + Self::len_from_frn_1(b@, pos as int, end as int, fspec@)
                == cur + Self::len_from_frn_2(b@, cur as int, end as int, fspec@));
        }
        let ghost q2 = cur as int;
        if !is_fspec(MessageType::FRN_34, fspec.as_slice(), 0) {
            match MessageType::decode(b, cur, end) {
                Ok((t, n)) => {
                    proof {
                        lemma_subrange_join(b@, pos as int, cur as int, n as int);
                    }
                    m.message_type = Some(t);
                    cur = n;
                },
                Err(e) => {
                    proof {
                        assert(Self::len_from_frn_2(
                            b@,
                            cur as int,
                            end as int,
                            fspec@,
                        ) < 0);
                    }
                    return Err(e);
                },
            }
        } else {
            m.message_type = None;
        }
        proof {
            if m.message_type is None {
                lemma_seq_add_empty(acc);
            }
            acc = acc + opt_enc(m.message_type);
            assert(acc == b@.subrange(pos as int, cur as int));
            assert((Self::len_from_frn_1(b@, pos as int, end as int, fspec@)
                >= 0) <==> (Self::len_from_frn_3(
                b@,
                cur as int,
                end as int,
                fspec@,
            ) >= 0));
            assert(Self::len_from_frn_3(b@, cur as int, end as int, fspec@) >= 0
                ==> pos + Self::len_from_frn_1(b@, pos as int, end as int, fspec@)
                == cur + Self::len_from_frn_3(b@, cur as int, end as int, fspec@));
        }
        let ghost q3 = cur as int;
        if !is_fspec(TimeOfDay::FRN_34, fspec.as_slice(), 0) {
            match TimeOfDay::decode(b, cur, end) {
                Ok((t, n)) => {
                    proof {
                        lemma_subrange_join(b@, pos as int, cur as int, n as int);
                    }
                    m.time_of_day = Some(t);
                    cur = n;
                },
                Err(e) => {
                    proof {
                        assert(Self::len_from_frn_3(
                            b@,
                            cur as int,
                            end as int,
                            fspec@,
                        ) < 0);
                    }
                    return Err(e);
                },
            }
        } else {
            m.time_of_day = None;
        }
        proof {
            if m.time_of_day is None {
                lemma_seq_add_empty(acc);
            }
            acc = acc + opt_enc(m.time_of_day);
            assert(acc == b@.subrange(pos as int, cur as int));
            assert((Self::len_from_frn_1(b@, pos as int, end as int, fspec@)
                >= 0) <==> (Self::len_from_frn_4(
                b@,
                cur as int,
                end as int,
                fspec@,
            ) >= 0));
            assert(Self::len_from_frn_4(b@, cur as int, end as int, fspec@) >= 0
                ==> pos + Self::len_from_frn_1(b@, pos as int, end as int, fspec@)
                == cur + Self::len_from_frn_4(b@, cur as int, end as int, fspec@));
        }
        let ghost q4 = cur as int;
        if !is_fspec(SectorNumber::FRN_34, fspec.as_slice(), 0) {
            match SectorNumber::decode(b, cur, end) {
                Ok((t, n)) => {
                    proof {
                        lemma_subrange_join(b@, pos as int, cur as int, n as int);
                    }
                    m.sector_number = Some(t);
                    cur = n;
                },
                Err(e) => {
                    proof {
                        assert(Self::len_from_frn_4(
                            b@,
                            cur as int,
                            end as int,
                            fspec@,
                        ) < 0);
                    }
                    return Err(e);
                },
            }
        } else {
            m.sector_number = None;
        }
        proof {
            if m.sector_number is None {
                lemma_seq_add_empty(acc);
            }
            acc = acc + opt_enc(m.sector_number);
            assert(acc == b@.subrange(pos as int, cur as int));
            assert((Self::len_from_frn_1(b@, pos as int, end as int, fspec@)
                >= 0) <==> (Self::len_from_frn_5(
                b@,
                cur as int,
                end as int,
                fspec@,
            ) >= 0));
            assert(Self::len_from_frn_5(b@, cur as int, end as int, fspec@) >= 0
                ==> pos + Self::len_from_frn_1(b@, pos as int, end as int, fspec@)
                == cur + Self::len_from_frn_5(b@, cur as int, end as int, fspec@));
        }
        proof {
            assert(opt_enc(m.data_source_identifier) + opt_enc(m.message_type) + opt_enc(m.time_of_day) + opt_enc(m.sector_number) == acc);
        }
        Ok(cur)
    }

    /// Decodes the Data Items of FRN 5 through 7 into `m`. The
    /// concatenated encodings of the decoded items are exactly the
    /// bytes consumed.
    #[verifier::rlimit(100)]
    #[verifier::spinoff_prover]
    fn decode_frn_5_7(b: &[u8], pos: usize, end: usize, fspec: &Vec<u8>, m: &mut Cat34) -> (r:
        Result<usize, AsterixError>)
        requires
            pos <= end <= b@.len(),
        ensures
            r matches Ok(next) ==> {
                &&& pos <= next <= end
                &&& opt_enc(final(m).antenna_rotation_speed) + opt_enc(final(m).system_configuration_and_status) + opt_enc(final(m).system_processing_mode) == b@.subrange(
                    pos as int,
                    next as int,
                )
                &&& opt_wf(final(m).antenna_rotation_speed)
                &&& opt_wf(final(m).system_configuration_and_status)
                &&& opt_wf(final(m).system_processing_mode)
                &&& (final(m).antenna_rotation_speed is Some <==> (0 < fspec@.len() && 0x08
                    & fspec@[0] == 0x08))
                &&& (final(m).system_configuration_and_status is Some <==> (0 < fspec@.len() && 0x04
                    & fspec@[0] == 0x04))
                &&& (final(m).system_processing_mode is Some <==> (0 < fspec@.len() && 0x02
                    & fspec@[0] == 0x02))
            },
            final(m).fspec == old(m).fspec,
            final(m).data_source_identifier == old(m).data_source_identifier,
            final(m).message_type == old(m).message_type,
            final(m).time_of_day == old(m).time_of_day,
            final(m).sector_number == old(m).sector_number,
            final(m).message_count_values == old(m).message_count_values,
            final(m).generic_polar_window == old(m).generic_polar_window,
            final(m).data_filter == old(m).data_filter,
            final(m).three_d_position_of_data_source == old(m).three_d_position_of_data_source,
            final(m).collimation_error == old(m).collimation_error,
            r is Ok <==> Self::len_from_frn_5(b@, pos as int, end as int, fspec@)
                >= 0,
            r matches Ok(next) ==> next == pos + Self::len_from_frn_5(
                b@,
                pos as int,
                end as int,
                fspec@,
            ),
            r matches Err(e) ==> e == AsterixError::Underflow || e
                == AsterixError::InvalidDiscriminant,
    {
        let mut cur = pos;
        let ghost mut acc: Seq<u8> = Seq::empty();
        let ghost q5 = cur as int;
        if !is_fspec(AntennaRotationSpeed::FRN_34, fspec.as_slice(), 0) {
            match AntennaRotationSpeed::decode(b, cur, end) {
                Ok((t, n)) => {
                    proof {
                        lemma_subrange_join(b@, pos as int, cur as int, n as int);
                    }
                    m.antenna_rotation_speed = Some(t);
                    cur = n;
                },
                Err(e) => {
                    proof {
                        assert(Self::len_from_frn_5(
                            b@,
                            cur as int,
                            end as int,
                            fspec@,
                        ) < 0);
                    }
                    return Err(e);
                },
            }
        } else {
            m.antenna_rotation_speed = None;
        }
        proof {
            if m.antenna_rotation_speed is None {
                lemma_seq_add_empty(acc);
            }
            acc = acc + opt_enc(m.antenna_rotation_speed);
            assert(acc =~= opt_enc(m.antenna_rotation_speed));
            assert(acc == b@.subrange(pos as int, cur as int));
            assert((Self::len_from_frn_5(b@, pos as int, end as int, fspec@)
                >= 0) <==> (Self::len_from_frn_6(
                b@,
                cur as int,
                end as int,
                fspec@,
            ) >= 0));
            assert(Self::len_from_frn_6(b@, cur as int, end as int, fspec@) >= 0
                ==> pos + Self::len_from_frn_5(b@, pos as int, end as int, fspec@)
                == cur + Self::len_from_frn_6(b@, cur as int, end as int, fspec@));
        }
        let ghost q6 = cur as int;
        if !is_fspec(SystemConfigurationAndStatus::FRN_34, fspec.as_slice(), 0) {
            match SystemConfigurationAndStatus::decode(b, cur, end) {
                Ok((t, n)) => {
                    proof {
                        lemma_subrange_join(b@, pos as int, cur as int, n as int);
                    }
                    m.system_configuration_and_status = Some(t);
                    cur = n;
                },
                Err(e) => {
                    proof {
                        assert(Self::len_from_frn_6(
                            b@,
                            cur as int,
                            end as int,
                            fspec@,
                        ) < 0);
                    }
                    return Err(e);
                },
            }
        } else {
            m.system_configuration_and_status = None;
        }
        proof {
            if m.system_configuration_and_status is None {
                lemma_seq_add_empty(acc);
            }
            acc = acc + opt_enc(m.system_configuration_and_status);
            assert(acc == b@.subrange(pos as int, cur as int));
            assert((Self::len_from_frn_5(b@, pos as int, end as int, fspec@)
                >= 0) <==> (Self::len_from_frn_7(
                b@,
                cur as int,
                end as int,
                fspec@,
            ) >= 0));
            assert(Self::len_from_frn_7(b@, cur as int, end as int, fspec@) >= 0
                ==> pos + Self::len_from_frn_5(b@, pos as int, end as int, fspec@)
                == cur + Self::len_from_frn_7(b@, cur as int, end as int, fspec@));
        }
        let ghost q7 = cur as int;
        if !is_fspec(SystemProcessingMode::FRN_34, fspec.as_slice(), 0) {
            match SystemProcessingMode::decode(b, cur, end) {
                Ok((t, n)) => {
                    proof {
                        lemma_subrange_join(b@, pos as int, cur as int, n as int);
                    }
                    m.system_processing_mode = Some(t);
                    cur = n;
                },
                Err(e) => {
                    proof {
                        assert(Self::len_from_frn_7(
                            b@,
                            cur as int,
                            end as int,
                            fspec@,
                        ) < 0);
                    }
                    return Err(e);
                },
            }
        } else {
            m.system_processing_mode = None;
        }
        proof {
            if m.system_processing_mode is None {
                lemma_seq_add_empty(acc);
            }
            acc = acc + opt_enc(m.system_processing_mode);
            assert(acc == b@.subrange(pos as int, cur as int));
            assert(Self::len_from_frn_7(b@, q7, end as int, fspec@) == cur - q7);
            assert(Self::len_from_frn_5(b@, pos as int, end as int, fspec@)
                == cur - pos);
        }
        proof {
            assert(opt_enc(m.antenna_rotation_speed) + opt_enc(m.system_configuration_and_status) + opt_enc(m.system_processing_mode) == acc);
        }
        Ok(cur)
    }

    /// Decodes the Data Items of presence-map octet 0 (FRN 1
    /// through 7) into `m`. The concatenated encodings of the
    /// decoded items are exactly the bytes consumed; the other
    /// fields of `m` are untouched.
    #[verifier::rlimit(100)]
    #[verifier::spinoff_prover]
    fn decode_frn_1_7(b: &[u8], pos: usize, end: usize, fspec: &Vec<u8>, m: &mut Cat34) -> (r:
        Result<usize, AsterixError>)
        requires
            pos <= end <= b@.len(),
        ensures
            r matches Ok(next) ==> {
                &&& pos <= next <= end
                &&& opt_enc(final(m).data_source_identifier) + opt_enc(final(m).message_type) + opt_enc(final(m).time_of_day) + opt_enc(final(m).sector_number) + opt_enc(final(m).antenna_rotation_speed) + opt_enc(final(m).system_configuration_and_status) + opt_enc(final(m).system_processing_mode) == b@.subrange(
                    pos as int,
                    next as int,
                )
                &&& opt_wf(final(m).data_source_identifier)
                &&& opt_wf(final(m).message_type)
                &&& opt_wf(final(m).time_of_day)
                &&& opt_wf(final(m).sector_number)
                &&& opt_wf(final(m).antenna_rotation_speed)
                &&& opt_wf(final(m).system_configuration_and_status)
                &&& opt_wf(final(m).system_processing_mode)
                &&& (final(m).data_source_identifier is Some <==> (0 < fspec@.len() && 0x80
                    & fspec@[0] == 0x80))
                &&& (final(m).message_type is Some <==> (0 < fspec@.len() && 0x40
                    & fspec@[0] == 0x40))
                &&& (final(m).time_of_day is Some <==> (0 < fspec@.len() && 0x20
                    & fspec@[0] == 0x20))
                &&& (final(m).sector_number is Some <==> (0 < fspec@.len() && 0x10
                    & fspec@[0] == 0x10))
                &&& (final(m).antenna_rotation_speed is Some <==> (0 < fspec@.len() && 0x08
                    & fspec@[0] == 0x08))
                &&& (final(m).system_configuration_and_status is Some <==> (0 < fspec@.len() && 0x04
                    & fspec@[0] == 0x04))
                &&& (final(m).system_processing_mode is Some <==> (0 < fspec@.len() && 0x02
                    & fspec@[0] == 0x02))
            },
            final(m).fspec == old(m).fspec,
            final(m).message_count_values == old(m).message_count_values,
            final(m).generic_polar_window == old(m).generic_polar_window,
            final(m).data_filter == old(m).data_filter,
            final(m).three_d_position_of_data_source == old(m).three_d_position_of_data_source,
            final(m).collimation_error == old(m).collimation_error,
            r is Ok <==> Self::len_from_frn_1(b@, pos as int, end as int, fspec@)
                >= 0,
            r matches Ok(next) ==> next == pos + Self::len_from_frn_1(
                b@,
                pos as int,
                end as int,
                fspec@,
            ),
            r matches Err(e) ==> e == AsterixError::Underflow || e
                == AsterixError::InvalidDiscriminant,
    {
        let mid = match Self::decode_frn_1_4(b, pos, end, fspec, m) {
            Ok(next) => next,
            Err(e) => {
                return Err(e);
            },
        };
        match Self::decode_frn_5_7(b, mid, end, fspec, m) {
            Ok(next) => {
                proof {
                    lemma_subrange_join(b@, pos as int, mid as int, next as int);
                    assert(opt_enc(m.data_source_identifier) + opt_enc(m.message_type) + opt_enc(m.time_of_day) + opt_enc(m.sector_number) + opt_enc(m.antenna_rotation_speed) + opt_enc(m.system_configuration_and_status) + opt_enc(m.system_processing_mode) =~= b@.subrange(
                        pos as int,
                        next as int,
                    ));
                }
                Ok(next)
            },
            Err(e) => Err(e),
        }
    }

    /// Decodes the Data Items of presence-map octet 1 (FRN 8
    /// through 12) into `m`. The concatenated encodings of the
    /// decoded items are exactly the bytes consumed; the other
    /// fields of `m` are untouched.
    #[verifier::rlimit(100)]
    #[verifier::spinoff_prover]
    fn decode_frn_8_12(b: &[u8], pos: usize, end: usize, fspec: &Vec<u8>, m: &mut Cat34) -> (r:
        Result<usize, AsterixError>)
        requires
            pos <= end <= b@.len(),
        ensures
            r matches Ok(next) ==> {
                &&& pos <= next <= end
                &&& opt_enc(final(m).message_count_values) + opt_enc(final(m).generic_polar_window) + opt_enc(final(m).data_filter) + opt_enc(final(m).three_d_position_of_data_source) + opt_enc(final(m).collimation_error) == b@.subrange(
                    pos as int,
                    next as int,
                )
                &&& opt_wf(final(m).message_count_values)
                &&& opt_wf(final(m).generic_polar_window)
                &&& opt_wf(final(m).data_filter)
                &&& opt_wf(final(m).three_d_position_of_data_source)
                &&& opt_wf(final(m).collimation_error)
                &&& (final(m).message_count_values is Some <==> (1 < fspec@.len() && 0x80
                    & fspec@[1] == 0x80))
                &&& (final(m).generic_polar_window is Some <==> (1 < fspec@.len() && 0x40
                    & fspec@[1] == 0x40))
                &&& (final(m).data_filter is Some <==> (1 < fspec@.len() && 0x20
                    & fspec@[1] == 0x20))
                &&& (final(m).three_d_position_of_data_source is Some <==> (1 < fspec@.len() && 0x10
                    & fspec@[1] == 0x10))
                &&& (final(m).collimation_error is Some <==> (1 < fspec@.len() && 0x08
                    & fspec@[1] == 0x08))
            },
            final(m).fspec == old(m).fspec,
            final(m).data_source_identifier == old(m).data_source_identifier,
            final(m).message_type == old(m).message_type,
            final(m).time_of_day == old(m).time_of_day,
            final(m).sector_number == old(m).sector_number,
            final(m).antenna_rotation_speed == old(m).antenna_rotation_speed,
            final(m).system_configuration_and_status == old(m).system_configuration_and_status,
            final(m).system_processing_mode == old(m).system_processing_mode,
            r is Ok <==> Self::len_from_frn_8(b@, pos as int, end as int, fspec@)
                >= 0,
            r matches Ok(next) ==> next == pos + Self::len_from_frn_8(
                b@,
                pos as int,
                end as int,
                fspec@,
            ),
            r matches Err(e) ==> e == AsterixError::Underflow || e
                == AsterixError::InvalidDiscriminant,
    {
        let mut cur = pos;
        let ghost mut acc: Seq<u8> = Seq::empty();
        let ghost q8 = cur as int;
        if !is_fspec(MessageCountValues::FRN_34, fspec.as_slice(), 1) {
            match MessageCountValues::decode(b, cur, end) {
                Ok((t, n)) => {
                    proof {
                        lemma_subrange_join(b@, pos as int, cur as int, n as int);
                    }
                    m.message_count_values = Some(t);
                    cur = n;
                },
                Err(e) => {
                    proof {
                        assert(Self::len_from_frn_8(
                            b@,
                            cur as int,
                            end as int,
                            fspec@,
                        ) < 0);
                    }
                    return Err(e);
                },
            }
        } else {
            m.message_count_values = None;
        }
        proof {
            if m.message_count_values is None {
                lemma_seq_add_empty(acc);
            }
            acc = acc + opt_enc(m.message_count_values);
            assert(acc =~= opt_enc(m.message_count_values));
            assert(acc == b@.subrange(pos as int, cur as int));
            assert((Self::len_from_frn_8(b@, pos as int, end as int, fspec@)
                >= 0) <==> (Self::len_from_frn_9(
                b@,
                cur as int,
                end as int,
                fspec@,
            ) >= 0));
            assert(Self::len_from_frn_9(b@, cur as int, end as int, fspec@) >= 0
                ==> pos + Self::len_from_frn_8(b@, pos as int, end as int, fspec@)
                == cur + Self::len_from_frn_9(b@, cur as int, end as int, fspec@));
        }
        let ghost q9 = cur as int;
        if !is_fspec(GenericPolarWindow::FRN_34, fspec.as_slice(), 1) {
            match GenericPolarWindow::decode(b, cur, end) {
                Ok((t, n)) => {
                    proof {
                        lemma_subrange_join(b@, pos as int, cur as int, n as int);
                    }
                    m.generic_polar_window = Some(t);
                    cur = n;
                },
                Err(e) => {
                    proof {
                        assert(Self::len_from_frn_9(
                            b@,
                            cur as int,
                            end as int,
                            fspec@,
                        ) < 0);
                    }
                    return Err(e);
                },
            }
        } else {
            m.generic_polar_window = None;
        }
        proof {
            if m.generic_polar_window is None {
                lemma_seq_add_empty(acc);
            }
            acc = acc + opt_enc(m.generic_polar_window);
            assert(acc == b@.subrange(pos as int, cur as int));
            assert((Self::len_from_frn_8(b@, pos as int, end as int, fspec@)
                >= 0) <==> (Self::len_from_frn_10(
                b@,
                cur as int,
                end as int,
                fspec@,
            ) >= 0));
            assert(Self::len_from_frn_10(b@, cur as int, end as int, fspec@) >= 0
                ==> pos + Self::len_from_frn_8(b@, pos as int, end as int, fspec@)
                == cur + Self::len_from_frn_10(b@, cur as int, end as int, fspec@));
        }
        let ghost q10 = cur as int;
        if !is_fspec(DataFilter::FRN_34, fspec.as_slice(), 1) {
            match DataFilter::decode(b, cur, end) {
                Ok((t, n)) => {
                    proof {
                        lemma_subrange_join(b@, pos as int, cur as int, n as int);
                    }
                    m.data_filter = Some(t);
                    cur = n;
                },
                Err(e) => {
                    proof {
                        assert(Self::len_from_frn_10(
                            b@,
                            cur as int,
                            end as int,
                            fspec@,
                        ) < 0);
                    }
                    return Err(e);
                },
            }
        } else {
            m.data_filter = None;
        }
        proof {
            if m.data_filter is None {
                lemma_seq_add_empty(acc);
            }
            acc = acc + opt_enc(m.data_filter);
            assert(acc == b@.subrange(pos as int, cur as int));
            assert((Self::len_from_frn_8(b@, pos as int, end as int, fspec@)
                >= 0) <==> (Self::len_from_frn_11(
                b@,
                cur as int,
                end as int,
                fspec@,
            ) >= 0));
            assert(Self::len_from_frn_11(b@, cur as int, end as int, fspec@) >= 0
                ==> pos + Self::len_from_frn_8(b@, pos as int, end as int, fspec@)
                == cur + Self::len_from_frn_11(b@, cur as int, end as int, fspec@));
        }
        let ghost q11 = cur as int;
        if !is_fspec(ThreeDPositionOfDataSource::FRN_34, fspec.as_slice(), 1) {
            match ThreeDPositionOfDataSource::decode(b, cur, end) {
                Ok((t, n)) => {
                    proof {
                        lemma_subrange_join(b@, pos as int, cur as int, n as int);
                    }
                    m.three_d_position_of_data_source = Some(t);
                    cur = n;
                },
                Err(e) => {
                    proof {
                        assert(Self::len_from_frn_11(
                            b@,
                            cur as int,
                            end as int,
                            fspec@,
                        ) < 0);
                    }
                    return Err(e);
                },
            }
        } else {
            m.three_d_position_of_data_source = None;
        }
        proof {
            if m.three_d_position_of_data_source is None {
                lemma_seq_add_empty(acc);
            }
            acc = acc + opt_enc(m.three_d_position_of_data_source);
            assert(acc == b@.subrange(pos as int, cur as int));
            assert((Self::len_from_frn_8(b@, pos as int, end as int, fspec@)
                >= 0) <==> (Self::len_from_frn_12(
                b@,
                cur as int,
                end as int,
                fspec@,
            ) >= 0));
            assert(Self::len_from_frn_12(b@, cur as int, end as int, fspec@) >= 0
                ==> pos + Self::len_from_frn_8(b@, pos as int, end as int, fspec@)
                == cur + Self::len_from_frn_12(b@, cur as int, end as int, fspec@));
        }
        let ghost q12 = cur as int;
        if !is_fspec(CollimationError::FRN_34, fspec.as_slice(), 1) {
            match CollimationError::decode(b, cur, end) {
                Ok((t, n)) => {
                    proof {
                        lemma_subrange_join(b@, pos as int, cur as int, n as int);
                    }
                    m.collimation_error = Some(t);
                    cur = n;
                },
                Err(e) => {
                    proof {
                        assert(Self::len_from_frn_12(
                            b@,
                            cur as int,
                            end as int,
                            fspec@,
                        ) < 0);
                    }
                    return Err(e);
                },
            }
        } else {
            m.collimation_error = None;
        }
        proof {
            if m.collimation_error is None {
                lemma_seq_add_empty(acc);
            }
            acc = acc + opt_enc(m.collimation_error);
            assert(acc == b@.subrange(pos as int, cur as int));
            assert(Self::len_from_frn_12(b@, q12, end as int, fspec@) == cur - q12);
            assert(Self::len_from_frn_8(b@, pos as int, end as int, fspec@)
                == cur - pos);
        }
        proof {
            assert(opt_enc(m.message_count_values) + opt_enc(m.generic_polar_window) + opt_enc(m.data_filter) + opt_enc(m.three_d_position_of_data_source) + opt_enc(m.collimation_error) == acc);
        }
        Ok(cur)
    }

    /// Decodes one record: the presence map, then each asserted Data
    /// Item in FRN order. The decoded record's encoding is exactly the
    /// bytes consumed, so re-encoding it reproduces the input.
    #[verifier::rlimit(100)]
    #[verifier::spinoff_prover]
    pub fn decode(b: &[u8], pos: usize, end: usize) -> (r: Result<
        (Self, usize),
        AsterixError,
    >)
        requires
            pos <= end <= b@.len(),
        ensures
            r matches Ok((m, next)) ==> m.wf() && m.presence_matches()
                && m.fspec_wire_shape() && pos < next <= end && m.enc() == b@.subrange(
                pos as int,
                next as int,
            ),
            r is Ok <==> Self::spec_len(b@, pos as int, end as int) >= 0,
            r matches Ok((m, next)) ==> next == pos + Self::spec_len(
                b@,
                pos as int,
                end as int,
            ),
            r matches Err(e) ==> e == AsterixError::Underflow || e
                == AsterixError::InvalidDiscriminant || e == AsterixError::FrnOutOfRange,
    {
        let (fspec, mut cur) = match read_fspec_chain(b, pos, end) {
            Ok(v) => v,
            Err(e) => {
                return Err(e);
            },
        };
        let ghost fend = chain_end(b@, pos as int, end as int) + 1;
        if fspec.len() >= 2 && fspec[1] & 0x06u8 != 0 {
            proof {
                assert(!Self::frn_range_ok(fspec@));
                assert(Self::spec_len(b@, pos as int, end as int) == -1);
            }
            return Err(AsterixError::FrnOutOfRange);
        }
        let mut oi: usize = 2;
        #[verifier::loop_isolation(false)]
        while oi < fspec.len()
            invariant
                2 <= oi,
                forall|j: int| 2 <= j < oi ==> #[trigger] fspec@[j] & 0xfe == 0,
            decreases fspec@.len() - oi,
        {
            if fspec[oi] & 0xfe != 0 {
                proof {
                    assert(!Self::frn_range_ok(fspec@));
                    assert(Self::spec_len(b@, pos as int, end as int) == -1);
                }
                return Err(AsterixError::FrnOutOfRange);
            }
            oi += 1;
        }
        proof {
            assert(Self::frn_range_ok(fspec@));
        }
        let mut msg = Cat34::default();
        let ghost mut acc: Seq<u8> = fspec@;
        match Self::decode_frn_1_7(b, cur, end, &fspec, &mut msg) {
            Ok(next) => {
                proof {
                    lemma_subrange_join(b@, pos as int, cur as int, next as int);
                    acc = acc + (opt_enc(msg.data_source_identifier) + opt_enc(msg.message_type) + opt_enc(msg.time_of_day) + opt_enc(msg.sector_number) + opt_enc(msg.antenna_rotation_speed) + opt_enc(msg.system_configuration_and_status) + opt_enc(msg.system_processing_mode));
                    assert(acc == b@.subrange(pos as int, next as int));
                }
                cur = next;
            },
            Err(e) => {
                proof {
                    assert(Self::spec_len(b@, pos as int, end as int) == -1);
                }
                return Err(e);
            },
        }
        match Self::decode_frn_8_12(b, cur, end, &fspec, &mut msg) {
            Ok(next) => {
                proof {
                    lemma_subrange_join(b@, pos as int, cur as int, next as int);
                    acc = acc + (opt_enc(msg.message_count_values) + opt_enc(msg.generic_polar_window) + opt_enc(msg.data_filter) + opt_enc(msg.three_d_position_of_data_source) + opt_enc(msg.collimation_error));
                    assert(acc == b@.subrange(pos as int, next as int));
                }
                cur = next;
            },
            Err(e) => {
                proof {
                    assert(Self::spec_len(b@, pos as int, end as int) == -1);
                }
                return Err(e);
            },
        }
        msg.fspec = fspec;
        proof {
            assert(msg.enc() == acc);
            assert(Self::spec_len(b@, pos as int, end as int) == cur - pos);
            assert(msg.fspec_wire_shape());
            assert forall|k: int|
                1 <= k <= 12 implies (fspec_bit(msg.fspec@, k) <==> msg.item_present(k)) by {
                let j = crate::fspec::frn_octet(k);
                if k <= 7 {
                    assert(j == 0);
                } else if k <= 14 {
                    assert(j == 1);
                }
            }
        }
        Ok((msg, cur))
    }

    /// Encodes the present Data Items of presence-map octet 0
    /// (FRN 1 through 7), appending exactly their concatenated
    /// encodings.
    #[verifier::rlimit(100)]
    #[verifier::spinoff_prover]
    fn encode_frn_1_7(&self, out: &mut Vec<u8>)
        requires
            self.wf(),
        ensures
            final(out)@ == old(out)@ + (opt_enc(self.data_source_identifier) + opt_enc(self.message_type) + opt_enc(self.time_of_day) + opt_enc(self.sector_number) + opt_enc(self.antenna_rotation_speed) + opt_enc(self.system_configuration_and_status) + opt_enc(self.system_processing_mode)),
    {
        let ghost mut acc: Seq<u8> = Seq::empty();
        match &self.data_source_identifier {
            Some(t) => t.encode(out),
            None => (),
        }
        proof {
            if self.data_source_identifier is Some {
                lemma_seq_add_assoc(old(out)@, acc, opt_enc(self.data_source_identifier));
            } else {
                lemma_seq_add_empty(acc);
            }
            acc = acc + opt_enc(self.data_source_identifier);
            assert(acc =~= opt_enc(self.data_source_identifier));
            if self.data_source_identifier is None {
                assert(out@ =~= old(out)@ + acc);
            }
            assert(out@ == old(out)@ + acc);
        }
        match &self.message_type {
            Some(t) => t.encode(out),
            None => (),
        }
        proof {
            if self.message_type is Some {
                lemma_seq_add_assoc(old(out)@, acc, opt_enc(self.message_type));
            } else {
                lemma_seq_add_empty(acc);
            }
            acc = acc + opt_enc(self.message_type);
            assert(out@ == old(out)@ + acc);
        }
        match &self.time_of_day {
            Some(t) => t.encode(out),
            None => (),
        }
        proof {
            if self.time_of_day is Some {
                lemma_seq_add_assoc(old(out)@, acc, opt_enc(self.time_of_day));
            } else {
                lemma_seq_add_empty(acc);
            }
            acc = acc + opt_enc(self.time_of_day);
            assert(out@ == old(out)@ + acc);
        }
        match &self.sector_number {
            Some(t) => t.encode(out),
            None => (),
        }
        proof {
            if self.sector_number is Some {
                lemma_seq_add_assoc(old(out)@, acc, opt_enc(self.sector_number));
            } else {
                lemma_seq_add_empty(acc);
            }
            acc = acc + opt_enc(self.sector_number);
            assert(out@ == old(out)@ + acc);
        }
        match &self.antenna_rotation_speed {
            Some(t) => t.encode(out),
            None => (),
        }
        proof {
            if self.antenna_rotation_speed is Some {
                lemma_seq_add_assoc(old(out)@, acc, opt_enc(self.antenna_rotation_speed));
            } else {
                lemma_seq_add_empty(acc);
            }
            acc = acc + opt_enc(self.antenna_rotation_speed);
            assert(out@ == old(out)@ + acc);
        }
        match &self.system_configuration_and_status {
            Some(t) => t.encode(out),
            None => (),
        }
        proof {
            if self.system_configuration_and_status is Some {
                lemma_seq_add_assoc(old(out)@, acc, opt_enc(self.system_configuration_and_status));
            } else {
                lemma_seq_add_empty(acc);
            }
            acc = acc + opt_enc(self.system_configuration_and_status);
            assert(out@ == old(out)@ + acc);
        }
        match &self.system_processing_mode {
            Some(t) => t.encode(out),
            None => (),
        }
        proof {
            if self.system_processing_mode is Some {
                lemma_seq_add_assoc(old(out)@, acc, opt_enc(self.system_processing_mode));
            } else {
                lemma_seq_add_empty(acc);
            }
            acc = acc + opt_enc(self.system_processing_mode);
            assert(out@ == old(out)@ + acc);
        }
        proof {
            assert(acc == (opt_enc(self.data_source_identifier) + opt_enc(self.message_type) + opt_enc(self.time_of_day) + opt_enc(self.sector_number) + opt_enc(self.antenna_rotation_speed) + opt_enc(self.system_configuration_and_status) + opt_enc(self.system_processing_mode)));
        }
    }

    /// Encodes the present Data Items of presence-map octet 1
    /// (FRN 8 through 12), appending exactly their concatenated
    /// encodings.
    #[verifier::rlimit(100)]
    #[verifier::spinoff_prover]
    fn encode_frn_8_12(&self, out: &mut Vec<u8>)
        requires
            self.wf(),
        ensures
            final(out)@ == old(out)@ + (opt_enc(self.message_count_values) + opt_enc(self.generic_polar_window) + opt_enc(self.data_filter) + opt_enc(self.three_d_position_of_data_source) + opt_enc(self.collimation_error)),
    {
        let ghost mut acc: Seq<u8> = Seq::empty();
        match &self.message_count_values {
            Some(t) => t.encode(out),
            None => (),
        }
        proof {
            if self.message_count_values is Some {
                lemma_seq_add_assoc(old(out)@, acc, opt_enc(self.message_count_values));
            } else {
                lemma_seq_add_empty(acc);
            }
            acc = acc + opt_enc(self.message_count_values);
            assert(acc =~= opt_enc(self.message_count_values));
            if self.message_count_values is None {
                assert(out@ =~= old(out)@ + acc);
            }
            assert(out@ == old(out)@ + acc);
        }
        match &self.generic_polar_window {
            Some(t) => t.encode(out),
            None => (),
        }
        proof {
            if self.generic_polar_window is Some {
                lemma_seq_add_assoc(old(out)@, acc, opt_enc(self.generic_polar_window));
            } else {
                lemma_seq_add_empty(acc);
            }
            acc = acc + opt_enc(self.generic_polar_window);
            assert(out@ == old(out)@ + acc);
        }
        match &self.data_filter {
            Some(t) => t.encode(out),
            None => (),
        }
        proof {
            if self.data_filter is Some {
                lemma_seq_add_assoc(old(out)@, acc, opt_enc(self.data_filter));
            } else {
                lemma_seq_add_empty(acc);
            }
            acc = acc + opt_enc(self.data_filter);
            assert(out@ == old(out)@ + acc);
        }
        match &self.three_d_position_of_data_source {
            Some(t) => t.encode(out),
            None => (),
        }
        proof {
            if self.three_d_position_of_data_source is Some {
                lemma_seq_add_assoc(old(out)@, acc, opt_enc(self.three_d_position_of_data_source));
            } else {
                lemma_seq_add_empty(acc);
            }
            acc = acc + opt_enc(self.three_d_position_of_data_source);
            assert(out@ == old(out)@ + acc);
        }
        match &self.collimation_error {
            Some(t) => t.encode(out),
            None => (),
        }
        proof {
            if self.collimation_error is Some {
                lemma_seq_add_assoc(old(out)@, acc, opt_enc(self.collimation_error));
            } else {
                lemma_seq_add_empty(acc);
            }
            acc = acc + opt_enc(self.collimation_error);
            assert(out@ == old(out)@ + acc);
        }
        proof {
            assert(acc == (opt_enc(self.message_count_values) + opt_enc(self.generic_polar_window) + opt_enc(self.data_filter) + opt_enc(self.three_d_position_of_data_source) + opt_enc(self.collimation_error)));
        }
    }

    /// Encodes the record: the stored presence map, then each present
    /// Data Item in FRN order. Call `update_fspec` first when the items
    /// have been changed since the record was decoded or built.
    #[verifier::rlimit(100)]
    #[verifier::spinoff_prover]
    pub fn encode(&self, out: &mut Vec<u8>)
        requires
            self.wf(),
        ensures
            final(out)@ == old(out)@ + self.enc(),
    {
        let ghost mut acc: Seq<u8> = self.fspec@;
        crate::wire::push_bytes(out, &self.fspec);
        self.encode_frn_1_7(out);
        proof {
            lemma_seq_add_assoc(old(out)@, acc, (opt_enc(self.data_source_identifier) + opt_enc(self.message_type) + opt_enc(self.time_of_day) + opt_enc(self.sector_number) + opt_enc(self.antenna_rotation_speed) + opt_enc(self.system_configuration_and_status) + opt_enc(self.system_processing_mode)));
            acc = acc + (opt_enc(self.data_source_identifier) + opt_enc(self.message_type) + opt_enc(self.time_of_day) + opt_enc(self.sector_number) + opt_enc(self.antenna_rotation_speed) + opt_enc(self.system_configuration_and_status) + opt_enc(self.system_processing_mode));
            assert(out@ == old(out)@ + acc);
        }
        self.encode_frn_8_12(out);
        proof {
            lemma_seq_add_assoc(old(out)@, acc, (opt_enc(self.message_count_values) + opt_enc(self.generic_polar_window) + opt_enc(self.data_filter) + opt_enc(self.three_d_position_of_data_source) + opt_enc(self.collimation_error)));
            acc = acc + (opt_enc(self.message_count_values) + opt_enc(self.generic_polar_window) + opt_enc(self.data_filter) + opt_enc(self.three_d_position_of_data_source) + opt_enc(self.collimation_error));
            assert(out@ == old(out)@ + acc);
        }
        proof {
            assert(acc == self.enc());
        }
    }
}

impl Default for Cat34 {
    /// An empty record: no Data Item present, empty presence map.
    fn default() -> (r: Self)
        ensures
            r.data_source_identifier is None,
            r.message_type is None,
            r.time_of_day is None,
            r.sector_number is None,
            r.antenna_rotation_speed is None,
            r.system_configuration_and_status is None,
            r.system_processing_mode is None,
            r.message_count_values is None,
            r.generic_polar_window is None,
            r.data_filter is None,
            r.three_d_position_of_data_source is None,
            r.collimation_error is None,
            r.fspec@.len() == 0,
            r.wf(),
    {
        Cat34 {
            fspec: Vec::new(),
            data_source_identifier: None,
            message_type: None,
            time_of_day: None,
            sector_number: None,
            antenna_rotation_speed: None,
            system_configuration_and_status: None,
            system_processing_mode: None,
            message_count_values: None,
            generic_polar_window: None,
            data_filter: None,
            three_d_position_of_data_source: None,
            collimation_error: None,
        }
    }
}

} // verus!
